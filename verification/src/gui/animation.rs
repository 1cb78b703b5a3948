use vstd::prelude::*;

verus! {

#[derive(Clone, Copy, PartialEq, Eq, Structural)]
pub enum AnimationType {
    FadeIn,
    FadeOut,
    SlideIn,
    SlideOut,
}

/// An animation that started at a tick and lasts a number of ticks. (How
/// far along it is, and the alpha or offset that follows, is worked out in
/// floating point by the caller.)
pub struct Animation {
    pub start_time: u64,
    pub duration: u64,
    pub animation_type: AnimationType,
}

/// The compositor's tick counter; every reading advances it by one.
pub struct Clock {
    pub ticks: u64,
}

impl Clock {
    pub fn new() -> (c: Self)
        ensures
            c.ticks == 0,
    {
        Clock { ticks: 0 }
    }
}

/// Advances the clock and reads it.
pub fn get_ticks(clock: &mut Clock) -> (t: u64)
    requires
        old(clock).ticks < u64::MAX,
    ensures
        t == old(clock).ticks + 1,
        final(clock).ticks == t,
{
    clock.ticks = clock.ticks + 1;
    clock.ticks
}

impl Animation {
    /// Starts an animation of the given kind and length now.
    pub fn new(anim_type: AnimationType, duration: u64, clock: &mut Clock) -> (a: Self)
        requires
            old(clock).ticks < u64::MAX,
        ensures
            final(clock).ticks == old(clock).ticks + 1,
            a.start_time == final(clock).ticks,
            a.duration == duration,
            a.animation_type == anim_type,
    {
        Animation { start_time: get_ticks(clock), duration, animation_type: anim_type }
    }

    /// The ticks since the animation started, read from the clock (which
    /// the reading advances). How far along that is, as a fraction of the
    /// duration, is the caller's floating-point step.
    pub fn elapsed(&self, clock: &mut Clock) -> (e: u64)
        requires
            old(clock).ticks < u64::MAX,
            self.start_time <= old(clock).ticks + 1,
        ensures
            final(clock).ticks == old(clock).ticks + 1,
            e == final(clock).ticks - self.start_time,
    {
        get_ticks(clock) - self.start_time
    }
}

} // verus!
