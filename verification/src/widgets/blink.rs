//! A timer for a cursor that blinks at irregular intervals.
use vstd::prelude::*;

verus! {

/// The longest interval between two ticks, in milliseconds.
pub const MAX_INTERVAL: u64 = 300;

/// A timer whose ticks are a random number of milliseconds apart, from 0 to 300. Times are
/// milliseconds on a clock of the caller's.
#[derive(Clone, Copy, Debug)]
pub struct BlinkTimer {
    rng: u32,
    next: Option<u64>,
}

/// The state of the xorshift generator that follows `s`.
pub open spec fn xorshift(s: u32) -> u32 {
    let a = s ^ (s << 13);
    let b = a ^ (a >> 17);
    b ^ (b << 5)
}

impl BlinkTimer {
    /// The state of the random generator.
    pub closed spec fn state(self) -> u32 {
        self.rng
    }

    /// The scheduled tick, `None` while the timer is stopped.
    pub closed spec fn scheduled(self) -> Option<u64> {
        self.next
    }

    /// The interval that the timer draws next.
    pub open spec fn interval(self) -> int {
        (xorshift(self.state()) % 301) as int
    }

    /// A stopped timer with a fixed seed.
    pub fn new() -> (t: BlinkTimer)
        ensures
            t.state() == 0xDEAD_BEEF,
            t.scheduled() is None,
    {
        BlinkTimer { rng: 0xDEAD_BEEF, next: None }
    }

    /// Schedules the first tick a random interval after `now`.
    pub fn start(&mut self, now: u64)
        requires
            now <= u64::MAX - MAX_INTERVAL,
        ensures
            final(self).state() == xorshift(old(self).state()),
            final(self).scheduled() == Some((now + old(self).interval()) as u64),
            now <= now + old(self).interval() <= now + MAX_INTERVAL,
    {
        let interval: u64 = self.advance();
        self.next = Some(now + interval);
    }

    /// Stops the timer.
    pub fn stop(&mut self)
        ensures
            final(self).scheduled() is None,
            final(self).state() == old(self).state(),
    {
        self.next = None;
    }

    /// Whether the scheduled tick has come; if so, schedules the next one a random interval after
    /// `now`.
    pub fn poll(&mut self, now: u64) -> (fired: bool)
        requires
            now <= u64::MAX - MAX_INTERVAL,
        ensures
            fired == (old(self).scheduled() is Some && now >= old(self).scheduled()->0),
            fired ==> final(self).state() == xorshift(old(self).state()) && final(self).scheduled()
                == Some((now + old(self).interval()) as u64),
            !fired ==> *final(self) == *old(self),
    {
        match self.next {
            Some(when) => {
                if now >= when {
                    let interval: u64 = self.advance();
                    self.next = Some(now + interval);
                    true
                } else {
                    false
                }
            },
            None => false,
        }
    }

    /// The scheduled tick, `None` while the timer is stopped.
    pub fn next_tick(&self) -> (t: Option<u64>)
        ensures
            t == self.scheduled(),
    {
        self.next
    }

    /// Draws the next interval, in milliseconds.
    pub fn advance(&mut self) -> (interval: u64)
        ensures
            interval == old(self).interval(),
            interval <= MAX_INTERVAL,
            final(self).state() == xorshift(old(self).state()),
            final(self).scheduled() == old(self).scheduled(),
    {
        let a: u32 = self.rng ^ (self.rng << 13);
        let b: u32 = a ^ (a >> 17);
        let c: u32 = b ^ (b << 5);
        self.rng = c;
        (c % 301) as u64
    }
}

impl Default for BlinkTimer {
    fn default() -> (t: BlinkTimer)
        ensures
            t.state() == 0xDEAD_BEEF,
            t.scheduled() is None,
    {
        BlinkTimer::new()
    }
}

/// The generator never sticks: a state other than 0 is followed by another one.
pub proof fn law_generator_does_not_stick(s: u32)
    requires
        s != 0,
    ensures
        xorshift(s) != 0,
{
    assert(xorshift(s) != 0) by {
        let a = s ^ (s << 13);
        let b = a ^ (a >> 17);
        let c = b ^ (b << 5);
        assert(c != 0) by (bit_vector)
            requires
                s != 0,
                a == s ^ (s << 13),
                b == a ^ (a >> 17),
                c == b ^ (b << 5),
        ;
    }
}

/// The state that the generator went on from to `s`.
pub open spec fn before(s: u32) -> u32 {
    let b = s ^ (s << 5) ^ (s << 10) ^ (s << 15) ^ (s << 20) ^ (s << 25) ^ (s << 30);
    let a = b ^ (b >> 17);
    a ^ (a << 13) ^ (a << 26)
}

/// The generator never meets: each state is followed by one of its own, and each follows one.
pub proof fn law_generator_can_be_run_back(s: u32)
    ensures
        before(xorshift(s)) == s,
        xorshift(before(s)) == s,
{
    assert(before(xorshift(s)) == s) by (bit_vector);
    assert(xorshift(before(s)) == s) by (bit_vector);
}

/// Every interval from 0 to 300 milliseconds comes up, and no other one does.
pub proof fn law_every_interval_comes_up(ms: u32)
    ensures
        forall|t: BlinkTimer| 0 <= #[trigger] t.interval() <= 300,
        ms <= 300 ==> exists|t: BlinkTimer| #[trigger] t.interval() == ms,
{
    law_generator_can_be_run_back(ms);
    let t = BlinkTimer { rng: before(ms), next: None };
    assert(t.state() == before(ms));
    if ms <= 300 {
        assert(t.interval() == ms);
    }
}

} // verus!
