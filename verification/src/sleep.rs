//! Sleeping for a span that may be longer than one call can ask for, and
//! that a signal may cut short.
//!
//! The caller sleeps for what `request` says, and tells `after` what was left
//! of that when the sleep ended, until `request` says that nothing is left.

use vstd::prelude::*;

verus! {

/// The longest span, in seconds, that one call can ask for.
pub const LONGEST: u64 = 0x7fff_ffff_ffff_ffff;

/// The time that is still to be slept.
#[derive(Clone, Copy, Debug, PartialEq, Eq)]
pub struct Nap {
    /// Whole seconds.
    pub secs: u64,
    /// Nanoseconds on top; nothing where it is not positive.
    pub nsecs: i32,
}

/// What one call is to sleep for, and what it leaves when it is cut short.
#[derive(Clone, Copy, Debug, PartialEq, Eq)]
pub struct Span {
    /// Whole seconds, at most `LONGEST`.
    pub secs: u64,
    /// Nanoseconds on top.
    pub nsecs: i32,
}

impl Nap {
    /// Whether nothing is left to sleep.
    pub open spec fn over(self) -> bool {
        self.secs == 0 && self.nsecs <= 0
    }

    /// What the next call asks for: all the seconds that one call can take,
    /// and the nanoseconds.
    pub open spec fn due(self) -> Span {
        Span {
            secs: if self.secs < LONGEST {
                self.secs
            } else {
                LONGEST
            },
            nsecs: self.nsecs,
        }
    }

    /// The nap of the given length.
    pub fn new(secs: u64, nsecs: i32) -> (nap: Nap)
        ensures
            nap == (Nap { secs, nsecs }),
    {
        Nap { secs, nsecs }
    }

    /// What to sleep for next; nothing once the nap is over.
    pub fn request(&self) -> (r: Option<Span>)
        ensures
            r == if self.over() {
                None
            } else {
                Some(self.due())
            },
    {
        if self.secs > 0 || self.nsecs > 0 {
            Some(
                Span {
                    secs: if self.secs < LONGEST {
                        self.secs
                    } else {
                        LONGEST
                    },
                    nsecs: self.nsecs,
                },
            )
        } else {
            None
        }
    }

    /// The nap after a call that slept for what `request` said: with what a
    /// signal left of it where one cut it short, and else without the
    /// seconds that were asked for and without nanoseconds.
    pub fn after(self, left: Option<Span>) -> (nap: Nap)
        requires
            !self.over(),
            left matches Some(rest) ==> rest.secs <= self.due().secs,
        ensures
            nap == match left {
                Some(rest) => Nap {
                    secs: (self.secs - self.due().secs + rest.secs) as u64,
                    nsecs: rest.nsecs,
                },
                None => Nap { secs: (self.secs - self.due().secs) as u64, nsecs: 0 },
            },
    {
        let asked = if self.secs < LONGEST {
            self.secs
        } else {
            LONGEST
        };
        let secs = self.secs - asked;
        match left {
            Some(rest) => Nap { secs: secs + rest.secs, nsecs: rest.nsecs },
            None => Nap { secs, nsecs: 0 },
        }
    }
}

/// A call that is not cut short shortens the nap by the seconds that it
/// asked for, so a nap without signals is over after at most three calls.
pub proof fn law_nap_ends(nap: Nap)
    requires
        !nap.over(),
    ensures
        ({
            let second = Nap { secs: (nap.secs - nap.due().secs) as u64, nsecs: 0 };
            let third = Nap { secs: (second.secs - second.due().secs) as u64, nsecs: 0 };
            let fourth = Nap { secs: (third.secs - third.due().secs) as u64, nsecs: 0 };
            second.over() || third.over() || fourth.over()
        }),
{
}

} // verus!
