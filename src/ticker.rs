//! The timing decisions of the display loop: when to regenerate, how long to wait
//! for input, and when to stop. Times are milliseconds on a monotonic clock.
use vstd::prelude::*;

verus! {

/// Milliseconds between two regenerations.
pub const TICK_MS: u64 = 500;

/// The key that ends the loop.
pub const QUIT_KEY: char = 'q';

/// What the input source handed back from a poll.
#[derive(Clone, Copy, Debug, PartialEq, Eq, Structural)]
pub enum InputEvent {
    /// A key press carrying a character.
    Key(char),
    /// Any other event: other keys, mouse, resize.
    Other,
}

/// What the loop does after a poll.
#[derive(Clone, Copy, Debug, PartialEq, Eq, Structural)]
pub enum LoopAction {
    /// Stop the loop and return.
    Quit,
    /// Generate a new frame, then draw again.
    Regenerate,
    /// Draw again with the current frame.
    Wait,
}

/// The event is a press of the quit key.
pub open spec fn is_quit(event: Option<InputEvent>) -> bool {
    match event {
        Some(InputEvent::Key(c)) => c == QUIT_KEY,
        _ => false,
    }
}

/// The tick interval and the time of the last regeneration.
#[derive(Clone, Copy, Debug, PartialEq, Eq, Structural)]
pub struct TickLoop {
    pub tick_ms: u64,
    pub last_tick_ms: u64,
}

impl TickLoop {
    /// A loop whose elapsed-time reference starts at `now_ms`.
    pub fn new(tick_ms: u64, now_ms: u64) -> (r: TickLoop)
        ensures
            r.tick_ms == tick_ms,
            r.last_tick_ms == now_ms,
    {
        TickLoop { tick_ms, last_tick_ms: now_ms }
    }

    /// Milliseconds since the last regeneration.
    pub open spec fn elapsed(&self, now_ms: u64) -> int {
        now_ms - self.last_tick_ms
    }

    /// How long a poll may block: what is left of the tick interval, or zero.
    pub fn poll_timeout(&self, now_ms: u64) -> (r: u64)
        requires
            now_ms >= self.last_tick_ms,
        ensures
            r == if self.elapsed(now_ms) >= self.tick_ms {
                0
            } else {
                self.tick_ms - self.elapsed(now_ms)
            },
    {
        let elapsed = now_ms - self.last_tick_ms;
        if elapsed >= self.tick_ms {
            0
        } else {
            self.tick_ms - elapsed
        }
    }

    /// Decides what follows a poll that returned `event` at `now_ms`. The quit key wins
    /// over a due tick; a due tick resets the elapsed-time reference to `now_ms`.
    pub fn on_poll(&mut self, event: Option<InputEvent>, now_ms: u64) -> (r: LoopAction)
        requires
            now_ms >= old(self).last_tick_ms,
        ensures
            is_quit(event) ==> r == LoopAction::Quit && *final(self) == *old(self),
            !is_quit(event) && old(self).elapsed(now_ms) >= old(self).tick_ms ==> r
                == LoopAction::Regenerate && final(self).tick_ms == old(self).tick_ms
                && final(self).last_tick_ms == now_ms,
            !is_quit(event) && old(self).elapsed(now_ms) < old(self).tick_ms ==> r
                == LoopAction::Wait && *final(self) == *old(self),
    {
        let quit = match event {
            Some(InputEvent::Key(c)) => c == QUIT_KEY,
            _ => false,
        };
        if quit {
            LoopAction::Quit
        } else if now_ms - self.last_tick_ms >= self.tick_ms {
            self.last_tick_ms = now_ms;
            LoopAction::Regenerate
        } else {
            LoopAction::Wait
        }
    }
}

} // verus!
