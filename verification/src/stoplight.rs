use vstd::prelude::*;
use crate::dir_bounds::DirBounds;
use crate::direction::Axis;
use crate::point::GridPoint;
use crate::segment_bounds::SegmentBounds;

verus! {

/// Ticks in a second.
pub const TICK_RATE: u32 = 60;

/// Length of the grace period in ticks: two and a half seconds.
pub const GRACE_TIME: u32 = 150;

/// A stoplight at the middle of a block of two tiles by two. `pos` counts in
/// half tiles, `freq` in ticks.
#[derive(Debug, PartialEq, Eq, Structural, Clone, Copy)]
pub struct Stoplight {
    pub pos: GridPoint,
    pub freq: u32,
    pub axis: Axis,
    pub grace: Option<u32>,
}

/// What a stoplight is from tick to tick.
pub struct LightState {
    pub freq: nat,
    pub axis: Axis,
    pub grace: Option<nat>,
}

impl LightState {
    /// A grace period starts on a tick that is a multiple of the frequency.
    pub open spec fn triggers(self, time: nat) -> bool {
        self.freq != 0 && time % self.freq == 0
    }

    /// One tick: a running grace period counts on and, once it has reached
    /// `GRACE_TIME`, ends and hands the right of way to the other axis; with
    /// none running, one starts on the ticks that the frequency names.
    pub open spec fn step(self, time: nat) -> LightState {
        match self.grace {
            Some(period) => if period >= GRACE_TIME {
                LightState { freq: self.freq, axis: self.axis.spec_flip(), grace: None }
            } else {
                LightState { freq: self.freq, axis: self.axis, grace: Some(period + 1) }
            },
            None => if self.triggers(time) {
                LightState { freq: self.freq, axis: self.axis, grace: Some(0nat) }
            } else {
                self
            },
        }
    }

    /// The state after one tick at each of `times`, in turn.
    pub open spec fn run(self, times: Seq<nat>) -> LightState
        decreases times.len(),
    {
        if times.len() == 0 {
            self
        } else {
            self.run(times.drop_last()).step(times.last())
        }
    }
}

/// With no grace period running and off the schedule, a tick changes nothing.
pub proof fn lemma_idle(s: LightState, time: nat)
    requires
        s.grace is None,
        !s.triggers(time),
    ensures
        s.step(time) == s,
{
}

/// The axis changes only on the tick that ends a grace period, and then it
/// flips.
pub proof fn lemma_axis_change(s: LightState, time: nat)
    ensures
        s.step(time).axis != s.axis <==> (s.grace is Some && s.grace.unwrap() >= GRACE_TIME),
        s.step(time).axis != s.axis ==> s.step(time).axis == s.axis.spec_flip() && s.step(
            time,
        ).grace is None,
{
}

/// A grace period that has counted to `period` keeps the axis while it runs
/// and counts one up with every tick.
pub proof fn lemma_grace_runs(s: LightState, times: Seq<nat>)
    requires
        s.grace is Some,
        s.grace.unwrap() + times.len() <= GRACE_TIME,
    ensures
        s.run(times).axis == s.axis,
        s.run(times).freq == s.freq,
        s.run(times).grace == Some(s.grace.unwrap() + times.len()),
    decreases times.len(),
{
    if times.len() > 0 {
        lemma_grace_runs(s, times.drop_last());
    }
}

/// A grace cycle from its start flips the axis exactly once: the axis stays
/// through the first `GRACE_TIME` ticks and flips on the one after.
pub proof fn lemma_grace_cycle(s: LightState, times: Seq<nat>)
    requires
        s.grace == Some(0nat),
        times.len() == GRACE_TIME + 1,
    ensures
        forall|k: int| 0 <= k <= GRACE_TIME ==> (#[trigger] s.run(times.take(k))).axis == s.axis,
        s.run(times).axis == s.axis.spec_flip(),
        s.run(times).grace is None,
{
    assert forall|k: int| 0 <= k <= GRACE_TIME implies (#[trigger] s.run(times.take(k))).axis
        == s.axis by {
        lemma_grace_runs(s, times.take(k));
    }
    lemma_grace_runs(s, times.drop_last());
}

impl View for Stoplight {
    type V = LightState;

    open spec fn view(&self) -> LightState {
        LightState {
            freq: self.freq as nat,
            axis: self.axis,
            grace: match self.grace {
                Some(p) => Some(p as nat),
                None => None,
            },
        }
    }
}

impl Stoplight {
    /// A stoplight that gives the vertical axis the right of way, with no
    /// grace period running.
    pub fn new(pos: GridPoint, freq: u32) -> (s: Self)
        ensures
            s == (Stoplight { pos, freq, axis: Axis::Vertical, grace: None }),
    {
        Self { pos, freq, axis: Axis::Vertical, grace: None }
    }

    /// Whether a grace period is running.
    pub fn grace_period(&self) -> (r: bool)
        ensures
            r == self.grace is Some,
    {
        self.grace.is_some()
    }

    /// Whether the running grace period is in its last second.
    pub fn near_threshold(&self) -> (r: bool)
        ensures
            r == (self.grace is Some && self.grace.unwrap() >= GRACE_TIME - TICK_RATE),
    {
        match self.grace {
            Some(period) => period >= GRACE_TIME - TICK_RATE,
            None => false,
        }
    }

    /// The two edges that gate the axis without the right of way.
    pub fn bounds(&self) -> (r: (SegmentBounds, SegmentBounds))
        ensures
            r == DirBounds::spec_new(self.pos).spec_opp_axis(self.axis),
            r.0.wf(),
            r.1.wf(),
    {
        let all = DirBounds::new(&self.pos);
        let pair = all.opp_axis(self.axis);
        (*pair.0, *pair.1)
    }

    /// All four edges, which gate every approach while a grace period runs.
    pub fn all_bounds(&self) -> (r: DirBounds)
        ensures
            r == DirBounds::spec_new(self.pos),
            r.wf(),
    {
        DirBounds::new(&self.pos)
    }

    /// One tick at `time`.
    pub fn update(&mut self, time: u32)
        ensures
            final(self)@ == old(self)@.step(time as nat),
            final(self).pos == old(self).pos,
    {
        match self.grace {
            Some(period) => {
                if period >= GRACE_TIME {
                    self.grace = None;
                    self.axis = self.axis.flip();
                } else {
                    self.grace = Some(period + 1);
                }
            },
            None => {
                if self.freq != 0 && time % self.freq == 0 {
                    self.grace = Some(0);
                }
            },
        }
    }
}

} // verus!
