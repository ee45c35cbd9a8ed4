//! The client tick counter and its pause countdown.

use vstd::prelude::*;

verus! {

/// The client's simulation clock: `tick` is `None` until a game starts;
/// `pause` is the number of upcoming steps on which the tick must not move.
#[derive(Clone, Copy, PartialEq, Eq, Structural, Debug)]
pub struct ClientTick {
    pub tick: Option<u64>,
    pub pause: i64,
}

impl ClientTick {
    /// The pause countdown never goes negative.
    pub open spec fn wf(self) -> bool {
        self.pause >= 0
    }

    pub fn new() -> (c: ClientTick)
        ensures
            c == (ClientTick { tick: None::<u64>, pause: 0 }),
    {
        ClientTick { tick: None, pause: 0 }
    }

    /// One scheduler step: while paused, only the countdown moves; otherwise
    /// the tick advances by one. The tick never changes while `pause > 0`.
    pub fn advance(&mut self)
        requires
            old(self).wf(),
            old(self).tick matches Some(t) ==> t < u64::MAX,
        ensures
            final(self).wf(),
            final(self).pause == if old(self).pause > 0 { old(self).pause - 1 } else { old(self).pause as int },
            final(self).tick == if old(self).pause > 0 {
                old(self).tick
            } else {
                match old(self).tick {
                    Some(t) => Some((t + 1) as u64),
                    None => None::<u64>,
                }
            },
    {
        if self.pause > 0 {
            self.pause = self.pause - 1;
        } else if let Some(t) = self.tick {
            self.tick = Some(t + 1);
        }
    }

    /// Extends the pause to at least `n` steps; an already longer pause is
    /// kept, so the countdown never jumps downward here.
    pub fn schedule_pause(&mut self, n: i64)
        requires
            old(self).wf(),
        ensures
            final(self).wf(),
            final(self).pause == if n > old(self).pause { n } else { old(self).pause },
            final(self).tick == old(self).tick,
    {
        if n > self.pause {
            self.pause = n;
        }
    }
}

} // verus!
