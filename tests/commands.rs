use snake_arena::command::{parse_command, parse_u16, parse_unit_milli, split_fields, ClientCommand};
use snake_arena::coordinate::Coordinate;
use snake_arena::session::SessionState;

fn cmd(s: &str) -> Option<ClientCommand> {
    parse_command(s.as_bytes())
}

#[test]
fn split_keeps_empty_fields() {
    let f = split_fields(b"v  1");
    assert_eq!(f, vec![b"v".to_vec(), vec![], b"1".to_vec()]);
    assert_eq!(split_fields(b""), vec![Vec::<u8>::new()]);
}

#[test]
fn start_and_accelerate() {
    assert_eq!(cmd("s"), Some(ClientCommand::Start));
    assert_eq!(cmd("s trailing words"), Some(ClientCommand::Start));
    assert_eq!(cmd("a"), Some(ClientCommand::Accelerate));
}

#[test]
fn steering_reads_thousandths() {
    assert_eq!(
        cmd("v 0.7071067811865476 -0.7071067811865476"),
        Some(ClientCommand::Steer(Coordinate { x: 707, y: -707 }))
    );
    assert_eq!(cmd("v 1 0"), Some(ClientCommand::Steer(Coordinate { x: 1000, y: 0 })));
    assert_eq!(cmd("v -1 0"), Some(ClientCommand::Steer(Coordinate { x: -1000, y: 0 })));
    assert_eq!(cmd("v .5 1."), Some(ClientCommand::Steer(Coordinate { x: 500, y: 1000 })));
    assert_eq!(cmd("v 0.0005 -0.25"), Some(ClientCommand::Steer(Coordinate { x: 0, y: -250 })));
}

#[test]
fn steering_rejects_malformed_numbers() {
    assert_eq!(cmd("v 1.5 0"), None);
    assert_eq!(cmd("v 0.5"), None);
    assert_eq!(cmd("v NaN 0"), None);
    assert_eq!(cmd("v - 0"), None);
    assert_eq!(cmd("v 1e5 0"), None);
    assert_eq!(cmd("v 0.1.2 0"), None);
    assert_eq!(cmd("v  0.5 0.5"), None);
    assert_eq!(cmd("v 123456789012345678901234567890 0"), None);
}

#[test]
fn resize_reads_u16_pair() {
    assert_eq!(cmd("w 800 600"), Some(ClientCommand::Resize(800, 600)));
    assert_eq!(cmd("w 65535 0"), Some(ClientCommand::Resize(65535, 0)));
    assert_eq!(cmd("w 70000 1"), None);
    assert_eq!(cmd("w 800"), None);
    assert_eq!(cmd("w -1 2"), None);
}

#[test]
fn unknown_messages_are_ignored() {
    assert_eq!(cmd("x"), None);
    assert_eq!(cmd(""), None);
    assert_eq!(cmd("ss"), None);
    assert_eq!(cmd(" s"), None);
}

#[test]
fn number_readers() {
    assert_eq!(parse_u16(&b"00042".to_vec()), Some(42));
    assert_eq!(parse_u16(&vec![]), None);
    assert_eq!(parse_unit_milli(&b"-0.999".to_vec()), Some(-999));
    assert_eq!(parse_unit_milli(&b"1.0001".to_vec()), Some(1000));
    assert_eq!(parse_unit_milli(&b"1.001".to_vec()), None);
    assert_eq!(parse_unit_milli(&b"1.000".to_vec()), Some(1000));
}

#[test]
fn session_follows_a_living_snake() {
    let mut s = SessionState::new();
    s.is_playing = true;
    let head = Coordinate { x: 10, y: 20 };
    assert!(s.tick(Some(head)));
    assert_eq!(s.center_coordinate, head);
    assert_eq!(s.additional_send_frame_count, 239);
    assert!(s.is_playing);
}

#[test]
fn session_winds_down_after_death() {
    let mut s = SessionState::new();
    s.is_playing = true;
    s.tick(Some(Coordinate { x: 1, y: 1 }));
    assert!(s.tick(None));
    assert!(!s.is_playing);
    assert_eq!(s.additional_send_frame_count, 238);
    assert_eq!(s.center_coordinate, Coordinate { x: 1, y: 1 });
    let mut sent = 1;
    while s.tick(None) {
        sent += 1;
    }
    assert_eq!(sent, 239);
    assert_eq!(s.additional_send_frame_count, 0);
}

#[test]
fn idle_session_sends_nothing() {
    let mut s = SessionState::new();
    assert!(!s.tick(None));
    s.window_width = 800;
    s.window_height = 600;
    assert_eq!(s.viewport(), (900, 700));
}
