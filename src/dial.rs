//! The state of one volume dial.
//!
//! A dial either adjusts the volume of what it is bound to, or, while it is
//! held down, browses a cursor over the list `[master] ++ live streams`. The
//! list is read afresh at every turn, so the cursor is recomputed against its
//! current length each time and never leaves it.

use vstd::prelude::*;
use vstd::arithmetic::div_mod::{lemma_add_mod_noop, lemma_mod_self_0, lemma_small_mod};

verus! {

/// The cursor after one turn over a list of `total` entries: forward wraps
/// from the last entry to the first, backward from the first (or from beyond
/// the end, where the list shrank) to the last.
pub open spec fn rotated(cur: int, forward: bool, total: int) -> int {
    if forward {
        (cur + 1) % total
    } else if cur == 0 || cur >= total {
        total - 1
    } else {
        cur - 1
    }
}

/// Moves a cursor one entry over a list of `total` entries.
pub fn rotate_cursor(cur: usize, forward: bool, total: usize) -> (r: usize)
    requires
        total >= 1,
    ensures
        r == rotated(cur as int, forward, total as int),
        r < total,
{
    if forward {
        let c = cur % total;
        let r = if c + 1 == total {
            0
        } else {
            c + 1
        };
        proof {
            let t = total as int;
            lemma_add_mod_noop(cur as int, 1, t);
            if t == 1 {
                assert(1int % t == 0);
                assert(c == 0);
            } else {
                lemma_small_mod(1, t as nat);
                if c + 1 < t {
                    lemma_small_mod((c + 1) as nat, t as nat);
                } else {
                    lemma_mod_self_0(t);
                }
            }
        }
        r
    } else if cur == 0 || cur >= total {
        total - 1
    } else {
        cur - 1
    }
}

/// Turning forward from the last entry wraps to the first, and turning
/// backward from the first wraps to the last, for any list of at least one
/// entry.
pub proof fn lemma_cursor_wraps(total: int)
    requires
        total >= 1,
    ensures
        rotated(total - 1, true, total) == 0,
        rotated(0, false, total) == total - 1,
{
    lemma_mod_self_0(total);
}

/// What a dial adjusts.
#[derive(Clone, Copy, Debug, PartialEq, Eq, Structural)]
pub enum VolumeTarget {
    /// The default output.
    Master,
    /// One stream, by id.
    Stream(usize),
}

/// A relative volume change.
#[derive(Clone, Copy, Debug, PartialEq, Eq, Structural)]
pub struct VolumeStep {
    pub target: VolumeTarget,
    /// Size of the change, in percent.
    pub percent: u32,
    /// Whether the volume goes up (else down).
    pub raise: bool,
}

/// Percent of volume change per tick of the dial.
pub const PERCENT_PER_TICK: u32 = 5;

/// The target that a bound stream id stands for; 0 stands for the master.
pub open spec fn target_of(bound: usize) -> VolumeTarget {
    if bound == 0 {
        VolumeTarget::Master
    } else {
        VolumeTarget::Stream(bound)
    }
}

/// The stream that the cursor binds to in `[master] ++ live`: 0 (the master)
/// at the first entry, else the id of the live stream there, 0 where that
/// entry gives no id.
pub open spec fn bound_stream(ordinal: int, live: Seq<Option<usize>>) -> usize {
    if ordinal == 0 || ordinal > live.len() {
        0
    } else {
        match live[ordinal - 1] {
            Some(id) => id,
            None => 0,
        }
    }
}

/// The state of one dial.
pub struct DialState {
    /// Whether the dial is held down, so that turning it browses.
    pub browsing: bool,
    /// The cursor over `[master] ++ live streams`.
    pub ordinal: usize,
    /// The id of the stream the dial adjusts; 0 for the master.
    pub bound: usize,
}

impl DialState {
    /// A dial that adjusts the master volume.
    pub fn new() -> (r: DialState)
        ensures
            !r.browsing,
            r.ordinal == 0,
            r.bound == 0,
    {
        DialState { browsing: false, ordinal: 0, bound: 0 }
    }

    /// The dial is held down: turning it now browses.
    pub fn press(&mut self)
        ensures
            final(self).browsing,
            final(self).ordinal == old(self).ordinal,
            final(self).bound == old(self).bound,
    {
        self.browsing = true;
    }

    /// The dial is let go: turning it adjusts the volume again; the cursor
    /// and the bound stream stay.
    pub fn release(&mut self)
        ensures
            !final(self).browsing,
            final(self).ordinal == old(self).ordinal,
            final(self).bound == old(self).bound,
    {
        self.browsing = false;
    }

    /// Turns the cursor by one entry over `[master] ++ live`, where `live`
    /// holds, for each live stream in listing order, its id if it has one,
    /// and binds the dial to the stream there.
    pub fn browse(&mut self, ticks: i16, live: &Vec<Option<usize>>)
        requires
            live@.len() < usize::MAX,
        ensures
            final(self).ordinal == rotated(
                old(self).ordinal as int,
                ticks > 0,
                live@.len() + 1int,
            ),
            final(self).ordinal <= live@.len(),
            final(self).bound == bound_stream(final(self).ordinal as int, live@),
            final(self).browsing == old(self).browsing,
    {
        let ordinal = rotate_cursor(self.ordinal, ticks > 0, live.len() + 1);
        let bound = if ordinal == 0 {
            0
        } else {
            match live[ordinal - 1] {
                Some(id) => id,
                None => 0,
            }
        };
        self.ordinal = ordinal;
        self.bound = bound;
    }

    /// The volume change that turning the dial by `ticks` asks for: five
    /// percent per tick, up for a positive turn, on the bound stream.
    pub fn volume_step(&self, ticks: i16) -> (r: VolumeStep)
        ensures
            r.target == target_of(self.bound),
            r.percent == (if ticks < 0 {
                -ticks
            } else {
                ticks as int
            }) * 5,
            r.raise == (ticks > 0),
    {
        let magnitude: u32 = if ticks < 0 {
            (0i32 - ticks as i32) as u32
        } else {
            ticks as u32
        };
        let target = if self.bound == 0 {
            VolumeTarget::Master
        } else {
            VolumeTarget::Stream(self.bound)
        };
        VolumeStep { target, percent: magnitude * PERCENT_PER_TICK, raise: ticks > 0 }
    }
}

} // verus!
