//! The swarm status line's `3/7` counter, flashing when a task settles: the
//! digits that changed brighten on the change and ease back over the flash
//! window. The first sight of a count is not a change.
use vstd::prelude::*;
use crate::num::{nat_text, u64_text};

verus! {

/// How long the changed digit stays lit, at full motion.
pub const FLASH_MS: u64 = 300;

/// One counter's flash: the count last drawn, the one before it, and the
/// window the last change lit (`start`, lasting `dur` ms).
pub struct Flash {
    pub seen: Option<usize>,
    pub prev: usize,
    pub start: u64,
    pub dur: u64,
}

/// Which digits of `new` differ from `old`, in order — every one when the
/// number grew or lost a digit.
pub open spec fn changed_spec(new: Seq<char>, old: Seq<char>) -> Seq<bool> {
    if new.len() != old.len() {
        Seq::new(new.len(), |i: int| true)
    } else {
        Seq::new(new.len(), |i: int| new[i] != old[i])
    }
}

impl Flash {
    /// Nothing seen yet, nothing lit.
    pub fn new() -> (f: Self)
        ensures
            f.seen is None,
            f.prev == 0,
            f.dur == 0,
    {
        Flash { seen: None, prev: 0, start: 0, dur: 0 }
    }

    /// The settled count is `done` at `now`: a change from the count seen
    /// last starts a flash lasting `dur` ms (the flash window as the motion
    /// setting scales it; 0 when motion is off); the first sight only
    /// records it, and the same count again changes nothing.
    pub fn observe(&mut self, done: usize, now: u64, dur: u64)
        ensures
            match old(self).seen {
                None => final(self).seen == Some(done) && final(self).prev == old(self).prev
                    && final(self).start == old(self).start && final(self).dur == old(self).dur,
                Some(s) => if s != done {
                    final(self).seen == Some(done) && final(self).prev == s && final(self).start
                        == now && final(self).dur == dur
                } else {
                    *final(self) == *old(self)
                },
            },
    {
        match self.seen {
            None => {
                self.seen = Some(done);
            },
            Some(s) => {
                if s != done {
                    self.prev = s;
                    self.seen = Some(done);
                    self.start = now;
                    self.dur = dur;
                }
            },
        }
    }

    /// Whether the flash still has frames to draw at `now`.
    pub open spec fn live_spec(&self, now: int) -> bool {
        self.start <= now < self.start + self.dur
    }

    pub fn live(&self, now: u64) -> (b: bool)
        ensures
            b == self.live_spec(now as int),
    {
        now >= self.start && now - self.start < self.dur
    }

    /// Which digits of `done` differ from the count before it, in order —
    /// every one when the number grew a digit (`9` → `10`).
    pub fn changed(&self, done: usize) -> (r: Vec<bool>)
        ensures
            r@ == changed_spec(nat_text(done as nat), nat_text(self.prev as nat)),
    {
        let new = u64_text(done as u64);
        let old = u64_text(self.prev as u64);
        let mut out: Vec<bool> = Vec::new();
        let same_len = new.len() == old.len();
        let mut i: usize = 0;
        while i < new.len()
            invariant
                i <= new@.len(),
                same_len == (new@.len() == old@.len()),
                out@ =~= changed_spec(new@, old@).subrange(0, i as int),
            decreases new@.len() - i,
        {
            if same_len {
                out.push(new[i] != old[i]);
            } else {
                out.push(true);
            }
            i = i + 1;
        }
        out
    }
}

/// A flash window ends: whatever lit it, a flash is never live once its
/// window has run out, and a window of length 0 (motion off) never lights.
pub proof fn law_a_flash_dies_when_its_window_runs_out(f: Flash, now: int)
    requires
        now >= f.start + f.dur,
    ensures
        !f.live_spec(now),
        f.dur == 0 ==> forall|t: int| !f.live_spec(t),
{
}

} // verus!
