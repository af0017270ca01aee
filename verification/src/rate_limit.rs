//! A limit on how many commands a connection may send per second.
use vstd::prelude::*;

verus! {

/// One second in nanoseconds.
pub const SECOND: u128 = 1_000_000_000;

/// At most `limit` commands per window of one second. Times are in nanoseconds.
#[derive(Debug, Clone, Copy)]
pub struct RateLimit {
    pub limit: u32,
    pub window_started: u128,
    pub used: u32,
}

impl RateLimit {
    /// No more commands were let through in the window than the limit.
    pub open spec fn wf(self) -> bool {
        self.used <= self.limit
    }

    /// Whether a new window begins at `now`.
    pub open spec fn expired(self, now: u128) -> bool {
        now >= self.window_started + SECOND
    }

    /// The limit with the window that `now` belongs to.
    pub open spec fn at(self, now: u128) -> RateLimit {
        if self.expired(now) {
            RateLimit { window_started: now, used: 0, ..self }
        } else {
            self
        }
    }

    /// Whether a command at `now` is let through.
    pub open spec fn allows(self, now: u128) -> bool {
        self.at(now).used < self.limit
    }

    /// The limit after a command at `now`.
    pub open spec fn after(self, now: u128) -> RateLimit {
        let current = self.at(now);
        if self.allows(now) {
            RateLimit { used: (current.used + 1) as u32, ..current }
        } else {
            current
        }
    }

    /// Whether a command at `now` would be let through.
    pub fn would_allow(&self, now: u128) -> (allowed: bool)
        requires
            self.wf(),
        ensures
            allowed == self.allows(now),
    {
        if now >= self.window_started && now - self.window_started >= SECOND {
            self.limit > 0
        } else {
            self.used < self.limit
        }
    }

    /// A limit whose first window starts at `now`.
    pub fn per_second(limit: u32, now: u128) -> (rate: Self)
        ensures
            rate == (RateLimit { limit, window_started: now, used: 0 }),
            rate.wf(),
    {
        RateLimit { limit, window_started: now, used: 0 }
    }

    /// Whether a command at `now` is let through; if so, it counts.
    pub fn allow(&mut self, now: u128) -> (allowed: bool)
        requires
            old(self).wf(),
        ensures
            final(self).wf(),
            allowed == old(self).allows(now),
            *final(self) == old(self).after(now),
    {
        if now >= self.window_started && now - self.window_started >= SECOND {
            self.window_started = now;
            self.used = 0;
        }
        if self.used >= self.limit {
            return false;
        }
        self.used = self.used + 1;
        true
    }
}

/// How many of the commands at `times` are let through.
pub open spec fn let_through(rate: RateLimit, times: Seq<u128>) -> nat
    decreases times.len(),
{
    if times.len() == 0 {
        0
    } else {
        (if rate.allows(times[0]) {
            1nat
        } else {
            0nat
        }) + let_through(rate.after(times[0]), times.skip(1))
    }
}

/// Within one window, commands are let through until the limit is used up, and no more.
pub proof fn law_window_lets_the_limit_through(rate: RateLimit, times: Seq<u128>)
    requires
        rate.wf(),
        forall|i: int| 0 <= i < times.len() ==> !rate.expired(#[trigger] times[i]),
    ensures
        let_through(rate, times) == (if times.len() <= rate.limit - rate.used {
            times.len()
        } else {
            (rate.limit - rate.used) as nat
        }),
    decreases times.len(),
{
    if times.len() > 0 {
        let rest = times.skip(1);
        let next = rate.after(times[0]);
        assert(!rate.expired(times[0]));
        assert forall|i: int| 0 <= i < rest.len() implies !next.expired(#[trigger] rest[i]) by {
            assert(!rate.expired(times[i + 1]));
        }
        law_window_lets_the_limit_through(next, rest);
    }
}

/// Within a second from its start a window lets commands through as long as fewer than the limit
/// were; a command a second or more after the start opens a new window and is its first.
pub proof fn law_windows_last_one_second(rate: RateLimit, now: u128)
    requires
        rate.wf(),
    ensures
        now < rate.window_started + 1_000_000_000 ==> {
            &&& rate.allows(now) <==> rate.used < rate.limit
            &&& rate.after(now).window_started == rate.window_started
            &&& rate.after(now).used == (if rate.used < rate.limit {
                rate.used + 1
            } else {
                rate.used as int
            })
        },
        now >= rate.window_started + 1_000_000_000 ==> {
            &&& rate.allows(now) <==> rate.limit > 0
            &&& rate.after(now).window_started == now
            &&& rate.after(now).used == (if rate.limit > 0 {
                1int
            } else {
                0
            })
        },
        rate.after(now).limit == rate.limit,
{
}

} // verus!
