use vstd::prelude::*;

use crate::coordinate::Coordinate;
use crate::snake::unit_heading;

verus! {

/// What a client may ask of the server.
#[derive(Clone, Copy, Debug, PartialEq, Eq, Structural)]
pub enum ClientCommand {
    /// Spawn a snake for the client, if it has none.
    Start,
    /// Boost the client's snake.
    Accelerate,
    /// Steer toward this heading, in thousandths.
    Steer(Coordinate),
    /// The client's window is now this wide and this high, in pixels.
    Resize(u16, u16),
}

/// A frame of text that the server sends to one client.
pub struct WebsocketMessage(pub String);

pub open spec fn is_digit(b: u8) -> bool {
    48 <= b <= 57
}

/// The space-separated fields of `s`, empty ones included.
pub open spec fn fields(s: Seq<u8>) -> Seq<Seq<u8>>
    decreases s.len(),
{
    if s.len() == 0 {
        seq![Seq::empty()]
    } else {
        let f = fields(s.drop_last());
        if s.last() == 32 {
            f.push(Seq::empty())
        } else {
            f.update(f.len() - 1, f.last().push(s.last()))
        }
    }
}

/// The value of a run of decimal digits.
pub open spec fn digits_value(d: Seq<u8>) -> int
    decreases d.len(),
{
    if d.len() == 0 {
        0
    } else {
        digits_value(d.drop_last()) * 10 + (d.last() - 48)
    }
}

pub open spec fn all_digits(d: Seq<u8>) -> bool {
    forall|i: int| 0 <= i < d.len() ==> is_digit(#[trigger] d[i])
}

/// A field read as a `u16`: one or more decimal digits whose value fits.
pub open spec fn u16_field(t: Seq<u8>) -> Option<u16> {
    if t.len() > 0 && all_digits(t) && digits_value(t) <= u16::MAX {
        Some(digits_value(t) as u16)
    } else {
        None
    }
}

/// Reading an unsigned decimal `digits[.digits]` left to right: whether it is still well
/// formed, whether the point was seen, the integer part, the first three fraction digits'
/// value and count, and how many digits were read.
pub open spec fn scan(u: Seq<u8>) -> (bool, bool, int, int, int, int)
    decreases u.len(),
{
    if u.len() == 0 {
        (true, false, 0, 0, 0, 0)
    } else {
        let st = scan(u.drop_last());
        let c = u.last();
        if !st.0 {
            st
        } else if c == 46 {
            if st.1 { (false, st.1, st.2, st.3, st.4, st.5) } else { (true, true, st.2, st.3, st.4, st.5) }
        } else if is_digit(c) {
            if !st.1 {
                (true, false, st.2 * 10 + (c - 48), st.3, st.4, st.5 + 1)
            } else if st.4 < 3 {
                (true, true, st.2, st.3 * 10 + (c - 48), st.4 + 1, st.5 + 1)
            } else {
                (true, true, st.2, st.3, st.4, st.5 + 1)
            }
        } else {
            (false, st.1, st.2, st.3, st.4, st.5)
        }
    }
}

pub open spec fn pow10(n: int) -> int
    decreases n,
{
    if n <= 0 { 1 } else { 10 * pow10(n - 1) }
}

pub open spec fn is_negative(t: Seq<u8>) -> bool {
    t.len() > 0 && t[0] == 45
}

/// The field without its leading minus sign, if any.
pub open spec fn unsigned_part(t: Seq<u8>) -> Seq<u8> {
    if is_negative(t) { t.subrange(1, t.len() as int) } else { t }
}

/// A field read as a decimal `[-]digits[.digits]`, in thousandths cut toward zero.
pub open spec fn milli_field(t: Seq<u8>) -> Option<int> {
    let st = scan(unsigned_part(t));
    if st.0 && st.5 > 0 {
        let v = st.2 * 1000 + st.3 * pow10(3 - st.4);
        Some(if is_negative(t) { -v } else { v })
    } else {
        None
    }
}

/// The heading a `v x y` command asks for, when both fields read as decimals within a unit.
pub open spec fn heading_fields(x: Seq<u8>, y: Seq<u8>) -> Option<Coordinate> {
    match (milli_field(x), milli_field(y)) {
        (Some(a), Some(b)) => if -1000 <= a <= 1000 && -1000 <= b <= 1000 {
            Some(Coordinate { x: a as i64, y: b as i64 })
        } else {
            None
        },
        _ => None,
    }
}

/// The command a client message stands for: its first field names it (`s`, `a`, `v`, `w`),
/// the next two carry its arguments, and any further fields are ignored.
pub open spec fn command_of(s: Seq<u8>) -> Option<ClientCommand> {
    let f = fields(s);
    if f[0] == seq![115u8] {
        Some(ClientCommand::Start)
    } else if f[0] == seq![97u8] {
        Some(ClientCommand::Accelerate)
    } else if f[0] == seq![118u8] && f.len() >= 3 {
        match heading_fields(f[1], f[2]) {
            Some(v) => Some(ClientCommand::Steer(v)),
            None => None,
        }
    } else if f[0] == seq![119u8] && f.len() >= 3 {
        match (u16_field(f[1]), u16_field(f[2])) {
            (Some(w), Some(h)) => Some(ClientCommand::Resize(w, h)),
            _ => None,
        }
    } else {
        None
    }
}

proof fn lemma_prefix_drop_last(s: Seq<u8>, i: int)
    requires
        0 <= i < s.len(),
    ensures
        s.subrange(0, i + 1).drop_last() == s.subrange(0, i),
        s.subrange(0, i + 1).last() == s[i],
{
    assert(s.subrange(0, i + 1).drop_last() =~= s.subrange(0, i));
}

proof fn lemma_fields_nonempty(s: Seq<u8>)
    ensures
        fields(s).len() >= 1,
    decreases s.len(),
{
    if s.len() > 0 {
        lemma_fields_nonempty(s.drop_last());
    }
}

/// Splits `s` at every space.
pub fn split_fields(s: &[u8]) -> (r: Vec<Vec<u8>>)
    ensures
        r@.len() == fields(s@).len(),
        forall|k: int| 0 <= k < r@.len() ==> (#[trigger] r@[k])@ == fields(s@)[k],
{
    let mut r: Vec<Vec<u8>> = Vec::new();
    r.push(Vec::new());
    let mut i: usize = 0;
    proof {
        assert(s@.subrange(0, 0) =~= Seq::<u8>::empty());
    }
    while i < s.len()
        invariant
            i <= s@.len(),
            r@.len() == fields(s@.subrange(0, i as int)).len(),
            r@.len() >= 1,
            forall|k: int| 0 <= k < r@.len() ==> (#[trigger] r@[k])@ == fields(s@.subrange(0, i as int))[k],
        decreases s@.len() - i,
    {
        let c = s[i];
        proof {
            lemma_prefix_drop_last(s@, i as int);
            lemma_fields_nonempty(s@.subrange(0, i as int));
        }
        let ghost prev = r@;
        if c == 32 {
            r.push(Vec::new());
            proof {
                assert forall|k: int| 0 <= k < r@.len() implies (#[trigger] r@[k])@ == fields(s@.subrange(0, i + 1))[k] by {
                    if k < prev.len() {
                        assert(r@[k] == prev[k]);
                    } else {
                        assert(r@[k]@ =~= Seq::<u8>::empty());
                    }
                }
            }
        } else {
            let last = r.len() - 1;
            let mut tail = r.pop().unwrap();
            tail.push(c);
            r.push(tail);
            proof {
                assert forall|k: int| 0 <= k < r@.len() implies (#[trigger] r@[k])@ == fields(s@.subrange(0, i + 1))[k] by {
                    if k < last {
                        assert(r@[k] == prev[k]);
                    }
                }
            }
        }
        i = i + 1;
    }
    proof {
        assert(s@.subrange(0, s@.len() as int) =~= s@);
    }
    r
}

/// Reads a field as a `u16` (see `u16_field`).
pub fn parse_u16(t: &Vec<u8>) -> (r: Option<u16>)
    ensures
        r == u16_field(t@),
{
    if t.len() == 0 {
        return None;
    }
    let mut v: u32 = 0;
    let mut i: usize = 0;
    while i < t.len()
        invariant
            i <= t@.len(),
            t@.len() > 0,
            all_digits(t@.subrange(0, i as int)),
            v == digits_value(t@.subrange(0, i as int)),
            v <= u16::MAX,
        decreases t@.len() - i,
    {
        let c = t[i];
        proof {
            lemma_prefix_drop_last(t@, i as int);
        }
        if c < 48 || c > 57 {
            proof {
                assert(!is_digit(t@[i as int]));
                assert(!all_digits(t@));
            }
            return None;
        }
        let nv = v * 10 + (c - 48) as u32;
        if nv > 65535 {
            proof {
                assert(all_digits(t@.subrange(0, i + 1)));
                lemma_digits_grow(t@, i + 1);
            }
            return None;
        }
        v = nv;
        proof {
            assert(all_digits(t@.subrange(0, i + 1)));
        }
        i = i + 1;
    }
    proof {
        assert(t@.subrange(0, t@.len() as int) =~= t@);
    }
    Some(v as u16)
}

/// Digits only ever make a run's value larger.
proof fn lemma_digits_grow(t: Seq<u8>, i: int)
    requires
        0 <= i <= t.len(),
        all_digits(t.subrange(0, i)),
    ensures
        all_digits(t) ==> digits_value(t) >= digits_value(t.subrange(0, i)),
    decreases t.len() - i,
{
    if i < t.len() && all_digits(t) {
        lemma_prefix_drop_last(t, i);
        assert(all_digits(t.subrange(0, i + 1)));
        lemma_digits_grow(t, i + 1);
        lemma_digits_nonneg(t.subrange(0, i));
    }
    if i == t.len() {
        assert(t.subrange(0, i) =~= t);
    }
}

proof fn lemma_digits_nonneg(d: Seq<u8>)
    requires
        all_digits(d),
    ensures
        digits_value(d) >= 0,
    decreases d.len(),
{
    if d.len() > 0 {
        assert(all_digits(d.drop_last()));
        lemma_digits_nonneg(d.drop_last());
        assert(is_digit(d[d.len() - 1]));
    }
}

/// A field read as a heading component: a decimal (see `milli_field`) of at most one unit.
pub open spec fn unit_milli_field(t: Seq<u8>) -> Option<i64> {
    match milli_field(t) {
        Some(v) => if -1000 <= v <= 1000 { Some(v as i64) } else { None },
        None => None,
    }
}

proof fn lemma_scan_fail_sticks(u: Seq<u8>, i: int)
    requires
        0 <= i <= u.len(),
        !scan(u.subrange(0, i)).0,
    ensures
        !scan(u).0,
    decreases u.len() - i,
{
    if i < u.len() {
        lemma_prefix_drop_last(u, i);
        lemma_scan_fail_sticks(u, i + 1);
    } else {
        assert(u.subrange(0, i) =~= u);
    }
}

proof fn lemma_scan_bounds(u: Seq<u8>)
    ensures
        scan(u).2 >= 0,
        0 <= scan(u).3 < pow10(scan(u).4),
        0 <= scan(u).4 <= 3,
        scan(u).5 >= 0,
    decreases u.len(),
{
    if u.len() > 0 {
        lemma_scan_bounds(u.drop_last());
        let st = scan(u.drop_last());
        assert(pow10(st.4 + 1) == 10 * pow10(st.4));
    }
}

/// Reads a heading component (see `unit_milli_field`).
pub fn parse_unit_milli(t: &Vec<u8>) -> (r: Option<i64>)
    ensures
        r == unit_milli_field(t@),
{
    let neg = t.len() > 0 && t[0] == 45;
    let start: usize = if neg { 1 } else { 0 };
    let ghost u = unsigned_part(t@);
    proof {
        assert(neg == is_negative(t@));
        if !neg {
            assert(t@.subrange(0, t@.len() as int) =~= t@);
        }
        assert(u.subrange(0, 0) =~= Seq::<u8>::empty());
    }
    let mut seen_dot = false;
    let mut int_val: i64 = 0;
    let mut frac_val: i64 = 0;
    let mut frac_len: i64 = 0;
    let mut any_digit = false;
    let mut i: usize = start;
    while i < t.len()
        invariant
            start <= i <= t@.len(),
            u == t@.subrange(start as int, t@.len() as int),
            u == unsigned_part(t@),
            neg == is_negative(t@),
            scan(u.subrange(0, i - start)).0,
            seen_dot == scan(u.subrange(0, i - start)).1,
            int_val == (if scan(u.subrange(0, i - start)).2 < 1001 { scan(u.subrange(0, i - start)).2 } else { 1001 }),
            frac_val == scan(u.subrange(0, i - start)).3,
            frac_len == scan(u.subrange(0, i - start)).4,
            any_digit == (scan(u.subrange(0, i - start)).5 > 0),
        decreases t@.len() - i,
    {
        let c = t[i];
        let ghost j = i - start;
        proof {
            assert(u[j] == c);
            lemma_prefix_drop_last(u, j);
            lemma_scan_bounds(u.subrange(0, j));
        }
        if c == 46 {
            if seen_dot {
                proof {
                    assert(!scan(u.subrange(0, j + 1)).0);
                    lemma_scan_fail_sticks(u, j + 1);
                    assert(milli_field(t@).is_none());
                }
                return None;
            }
            seen_dot = true;
        } else if 48 <= c && c <= 57 {
            let d = (c - 48) as i64;
            if !seen_dot {
                int_val = if int_val >= 1001 { 1001 } else if int_val * 10 + d > 1001 { 1001 } else { int_val * 10 + d };
            } else if frac_len < 3 {
                proof {
                    assert(pow10(frac_len as int) <= 100) by {
                        assert(pow10(0) == 1);
                        assert(pow10(1) == 10);
                        assert(pow10(2) == 100);
                    }
                }
                frac_val = frac_val * 10 + d;
                frac_len = frac_len + 1;
            }
            any_digit = true;
        } else {
            proof {
                assert(!scan(u.subrange(0, j + 1)).0);
                lemma_scan_fail_sticks(u, j + 1);
                assert(milli_field(t@).is_none());
            }
            return None;
        }
        i = i + 1;
    }
    proof {
        assert(u.subrange(0, t@.len() - start) =~= u);
        lemma_scan_bounds(u);
        assert(pow10(0) == 1);
        assert(pow10(1) == 10);
        assert(pow10(2) == 100);
        assert(pow10(3) == 1000);
    }
    if !any_digit || int_val > 1 {
        proof {
            if any_digit {
                assert(scan(u).3 * pow10(3 - scan(u).4) >= 0) by (nonlinear_arith)
                    requires scan(u).3 >= 0, pow10(3 - scan(u).4) >= 1;
            }
        }
        return None;
    }
    let scale: i64 = if frac_len == 0 { 1000 } else if frac_len == 1 { 100 } else if frac_len == 2 { 10 } else { 1 };
    let v = int_val * 1000 + frac_val * scale;
    if v > 1000 {
        return None;
    }
    if neg { Some(-v) } else { Some(v) }
}

/// Reads a client message (see `command_of`).
pub fn parse_command(msg: &[u8]) -> (r: Option<ClientCommand>)
    ensures
        r == command_of(msg@),
{
    let f = split_fields(msg);
    proof {
        lemma_fields_nonempty(msg@);
    }
    let name = &f[0];
    if name.len() != 1 {
        proof {
            assert(fields(msg@)[0] != seq![115u8]);
            assert(fields(msg@)[0] != seq![97u8]);
            assert(fields(msg@)[0] != seq![118u8]);
            assert(fields(msg@)[0] != seq![119u8]);
        }
        return None;
    }
    let b = name[0];
    proof {
        assert(name@ =~= seq![b]);
    }
    if b == 115 {
        Some(ClientCommand::Start)
    } else if b == 97 {
        Some(ClientCommand::Accelerate)
    } else if b == 118 && f.len() >= 3 {
        match (parse_unit_milli(&f[1]), parse_unit_milli(&f[2])) {
            (Some(x), Some(y)) => Some(ClientCommand::Steer(Coordinate { x, y })),
            _ => None,
        }
    } else if b == 119 && f.len() >= 3 {
        match (parse_u16(&f[1]), parse_u16(&f[2])) {
            (Some(w), Some(h)) => Some(ClientCommand::Resize(w, h)),
            _ => None,
        }
    } else {
        proof {
            assert(fields(msg@)[0] != seq![115u8]);
            assert(fields(msg@)[0] != seq![97u8]);
        }
        None
    }
}

/// A steering command always asks for a heading within one unit on each axis.
pub proof fn lemma_steer_is_unit(s: Seq<u8>)
    ensures
        command_of(s) matches Some(ClientCommand::Steer(v)) ==> unit_heading(v),
{
}

} // verus!
