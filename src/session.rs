use vstd::prelude::*;

use crate::coordinate::Coordinate;

verus! {

/// Frames a client keeps receiving views after its snake is gone.
pub const AFTERLIFE_FRAMES: u32 = 240;

/// Extra room, in pixels, added to each side length of a client's window for its viewport.
pub const VIEW_MARGIN: i64 = 100;

/// What the server keeps for one connected client between frames.
#[derive(Clone, Copy, Debug, PartialEq, Eq, Structural)]
pub struct SessionState {
    pub is_playing: bool,
    /// Views still to send; reset while the client's snake lives.
    pub additional_send_frame_count: u32,
    pub window_width: u16,
    pub window_height: u16,
    /// Where the client's view is centred: its snake's head, or where it last was.
    pub center_coordinate: Coordinate,
}

impl SessionState {
    /// A client that has just connected: not playing, nothing to send, no window size yet.
    pub fn new() -> (r: SessionState)
        ensures
            !r.is_playing,
            r.additional_send_frame_count == 0,
            r.window_width == 0,
            r.window_height == 0,
            r.center_coordinate == (Coordinate { x: 0, y: 0 }),
    {
        SessionState {
            is_playing: false,
            additional_send_frame_count: 0,
            window_width: 0,
            window_height: 0,
            center_coordinate: Coordinate { x: 0, y: 0 },
        }
    }

    /// The session after a frame in which the client's snake has its head at `head` (or has
    /// no snake), and whether the client is sent a view of that frame.
    pub fn tick(&mut self, head: Option<Coordinate>) -> (send: bool)
        ensures
            final(self).center_coordinate == match head {
                Some(h) => h,
                None => old(self).center_coordinate,
            },
            final(self).is_playing == (old(self).is_playing && head.is_some()),
            send == (head.is_some() || old(self).additional_send_frame_count > 0),
            final(self).additional_send_frame_count == if head.is_some() {
                (AFTERLIFE_FRAMES - 1) as u32
            } else if old(self).additional_send_frame_count > 0 {
                (old(self).additional_send_frame_count - 1) as u32
            } else {
                0
            },
            final(self).window_width == old(self).window_width,
            final(self).window_height == old(self).window_height,
    {
        match head {
            Some(h) => {
                self.center_coordinate = h;
                self.additional_send_frame_count = AFTERLIFE_FRAMES;
            },
            None => {
                if self.is_playing {
                    self.is_playing = false;
                }
            },
        }
        if self.additional_send_frame_count > 0 {
            self.additional_send_frame_count = self.additional_send_frame_count - 1;
            true
        } else {
            false
        }
    }

    /// The viewport a view for this client spans: its window with a margin on each length.
    pub fn viewport(&self) -> (r: (i64, i64))
        ensures
            r.0 == self.window_width + VIEW_MARGIN,
            r.1 == self.window_height + VIEW_MARGIN,
    {
        (self.window_width as i64 + VIEW_MARGIN, self.window_height as i64 + VIEW_MARGIN)
    }
}

} // verus!
