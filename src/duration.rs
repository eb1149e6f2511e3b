//! A portable duration with nanosecond resolution, and the conversions from
//! the native time representations of POSIX and Windows.

use vstd::prelude::*;

verus! {

/// Nanoseconds in one second.
pub const NANOS_PER_SEC: u64 = 1_000_000_000;

/// Count of whole seconds that a `Duration` can hold, plus one.
pub open spec fn secs_bound() -> nat {
    u64::MAX as nat + 1
}

/// Whether `n` nanoseconds fit in a `Duration`.
pub open spec fn representable(n: nat) -> bool {
    n < secs_bound() * (NANOS_PER_SEC as nat)
}

/// Elapsed time: whole seconds and the nanoseconds that remain.
///
/// Its view is the whole length in nanoseconds.
#[derive(Clone, Copy, Debug, PartialEq, Eq)]
pub struct Duration {
    secs: u64,
    nanos: u32,
}

impl View for Duration {
    type V = nat;

    closed spec fn view(&self) -> nat {
        self.secs as nat * NANOS_PER_SEC as nat + self.nanos as nat
    }
}

impl Duration {
    #[verifier::type_invariant]
    spec fn nanos_below_one_second(self) -> bool {
        self.nanos < NANOS_PER_SEC
    }

    /// The duration of length zero.
    pub fn zero() -> (d: Duration)
        ensures
            d@ == 0,
    {
        Duration { secs: 0, nanos: 0 }
    }

    /// `secs` whole seconds.
    pub fn from_secs(secs: u64) -> (d: Duration)
        ensures
            d@ == secs as nat * NANOS_PER_SEC as nat,
    {
        Duration { secs, nanos: 0 }
    }

    /// `micros` microseconds; the whole seconds in them are carried over.
    pub fn from_micros(micros: u64) -> (d: Duration)
        ensures
            d@ == micros as nat * 1000,
    {
        let secs: u64 = micros / 1_000_000;
        let rest: u64 = micros % 1_000_000;
        assert(secs * 1_000_000 + rest == micros) by (nonlinear_arith)
            requires
                secs == micros / 1_000_000,
                rest == micros % 1_000_000,
        ;
        Duration { secs, nanos: (rest * 1000) as u32 }
    }

    /// `nanos` nanoseconds, where they fit.
    pub fn from_nanos(nanos: u128) -> (r: Option<Duration>)
        ensures
            r is Some <==> representable(nanos as nat),
            r matches Some(d) ==> d@ == nanos,
    {
        let secs: u128 = nanos / (NANOS_PER_SEC as u128);
        let rest: u128 = nanos % (NANOS_PER_SEC as u128);
        assert(secs * NANOS_PER_SEC as nat + rest == nanos) by (nonlinear_arith)
            requires
                secs == nanos / (NANOS_PER_SEC as u128),
                rest == nanos % (NANOS_PER_SEC as u128),
        ;
        if secs > u64::MAX as u128 {
            assert(!representable(nanos as nat)) by (nonlinear_arith)
                requires
                    secs * NANOS_PER_SEC as nat + rest == nanos,
                    secs >= secs_bound(),
                    rest >= 0,
            ;
            None
        } else {
            assert(representable(nanos as nat)) by (nonlinear_arith)
                requires
                    secs * NANOS_PER_SEC as nat + rest == nanos,
                    secs < secs_bound(),
                    rest < NANOS_PER_SEC,
            ;
            Some(Duration { secs: secs as u64, nanos: rest as u32 })
        }
    }

    /// Whole seconds of this duration.
    pub fn as_secs(&self) -> (s: u64)
        ensures
            s == self@ / NANOS_PER_SEC as nat,
    {
        proof {
            use_type_invariant(self);
            vstd::arithmetic::div_mod::lemma_fundamental_div_mod_converse(
                self@ as int,
                NANOS_PER_SEC as int,
                self.secs as int,
                self.nanos as int,
            );
        }
        self.secs
    }

    /// Nanoseconds beyond the whole seconds.
    pub fn subsec_nanos(&self) -> (n: u32)
        ensures
            n == self@ % NANOS_PER_SEC as nat,
    {
        proof {
            use_type_invariant(self);
            vstd::arithmetic::div_mod::lemma_fundamental_div_mod_converse(
                self@ as int,
                NANOS_PER_SEC as int,
                self.secs as int,
                self.nanos as int,
            );
        }
        self.nanos
    }

    /// The whole length in nanoseconds.
    pub fn as_nanos(&self) -> (n: u128)
        ensures
            n == self@,
            representable(self@),
    {
        proof {
            use_type_invariant(self);
        }
        assert((self.secs as nat * NANOS_PER_SEC as nat + self.nanos as nat) < secs_bound()
            * NANOS_PER_SEC as nat) by (nonlinear_arith)
            requires
                self.secs < secs_bound(),
                self.nanos < NANOS_PER_SEC,
        ;
        assert((self.secs as nat * NANOS_PER_SEC as nat + self.nanos as nat) <= u128::MAX)
            by (nonlinear_arith)
            requires
                self.secs <= u64::MAX,
                self.nanos < NANOS_PER_SEC,
        ;
        self.secs as u128 * NANOS_PER_SEC as u128 + self.nanos as u128
    }

    /// The sum of two durations, where it fits.
    pub fn checked_add(&self, other: &Duration) -> (r: Option<Duration>)
        ensures
            r is Some <==> representable(self@ + other@),
            r matches Some(d) ==> d@ == self@ + other@,
    {
        let a: u128 = self.as_nanos();
        let b: u128 = other.as_nanos();
        assert(a + b <= u128::MAX) by (nonlinear_arith)
            requires
                a < secs_bound() * (NANOS_PER_SEC as nat),
                b < secs_bound() * (NANOS_PER_SEC as nat),
        ;
        Duration::from_nanos(a + b)
    }

    /// The difference of two durations, where `other` is not longer.
    pub fn checked_sub(&self, other: &Duration) -> (r: Option<Duration>)
        ensures
            r is Some <==> other@ <= self@,
            r matches Some(d) ==> d@ == self@ - other@,
    {
        let a: u128 = self.as_nanos();
        let b: u128 = other.as_nanos();
        if b <= a {
            Duration::from_nanos(a - b)
        } else {
            None
        }
    }
}

/// A POSIX `timeval`: seconds and microseconds.
#[derive(Clone, Copy, Debug, PartialEq, Eq)]
pub struct TimeVal {
    pub sec: i64,
    pub usec: i64,
}

/// The length in nanoseconds that a `timeval` states.
pub open spec fn timeval_nanos(tv: TimeVal) -> int {
    tv.sec * NANOS_PER_SEC as int + tv.usec * 1000
}

/// Whether a `timeval` converts: neither part is negative and the sum fits.
pub open spec fn timeval_converts(tv: TimeVal) -> bool {
    &&& tv.sec >= 0
    &&& tv.usec >= 0
    &&& representable(timeval_nanos(tv) as nat)
}

/// Converts a `timeval` into a duration: the seconds plus the microseconds.
///
/// A negative part, or a sum that no duration holds, gives `None`.
pub fn timeval_to_duration(tv: TimeVal) -> (r: Option<Duration>)
    ensures
        r is Some <==> timeval_converts(tv),
        r matches Some(d) ==> d@ == timeval_nanos(tv),
{
    if tv.sec < 0 || tv.usec < 0 {
        return None;
    }
    let secs = Duration::from_secs(tv.sec as u64);
    let micros = Duration::from_micros(tv.usec as u64);
    secs.checked_add(&micros)
}

/// A Windows `FILETIME`: a count of 100-nanosecond ticks in two 32-bit halves.
#[derive(Clone, Copy, Debug, PartialEq, Eq)]
pub struct FileTime {
    pub low: u32,
    pub high: u32,
}

/// The tick count that the two halves of a `FILETIME` make.
pub open spec fn filetime_ticks(ft: FileTime) -> nat {
    ft.high as nat * 0x1_0000_0000 + ft.low as nat
}

/// Converts a `FILETIME` tick count into a duration of that many times
/// 100 nanoseconds.
pub fn filetime_to_duration(ft: FileTime) -> (d: Duration)
    ensures
        d@ == filetime_ticks(ft) * 100,
{
    let ticks: u128 = ft.high as u128 * 0x1_0000_0000 + ft.low as u128;
    assert(ticks * 100 < secs_bound() * (NANOS_PER_SEC as nat)) by (nonlinear_arith)
        requires
            ticks < 0x1_0000_0000 * 0x1_0000_0000,
    ;
    let nanos: u128 = ticks * 100;
    match Duration::from_nanos(nanos) {
        Some(d) => d,
        None => Duration::zero(),
    }
}

/// The four times that Windows reports of a finished process.
#[derive(Clone, Copy, Debug, PartialEq, Eq)]
pub struct ProcessTimes {
    pub creation: FileTime,
    pub exit: FileTime,
    pub kernel: FileTime,
    pub user: FileTime,
}

/// The user, system and wall-clock times of a finished Windows process.
///
/// Each tick count is converted on its own; the wall-clock time is the
/// exit time less the creation time, and an exit time before the creation
/// time gives `None`.
pub fn execution_times(times: ProcessTimes) -> (r: Option<(Duration, Duration, Duration)>)
    ensures
        r is Some <==> filetime_ticks(times.creation) <= filetime_ticks(times.exit),
        r matches Some((user, system, wall)) ==> {
            &&& user@ == filetime_ticks(times.user) * 100
            &&& system@ == filetime_ticks(times.kernel) * 100
            &&& wall@ == (filetime_ticks(times.exit) - filetime_ticks(times.creation)) * 100
        },
{
    let user = filetime_to_duration(times.user);
    let system = filetime_to_duration(times.kernel);
    let created = filetime_to_duration(times.creation);
    let exited = filetime_to_duration(times.exit);
    assert(filetime_ticks(times.exit) * 100 - filetime_ticks(times.creation) * 100 == (
    filetime_ticks(times.exit) - filetime_ticks(times.creation)) * 100) by (nonlinear_arith);
    match exited.checked_sub(&created) {
        Some(wall) => Some((user, system, wall)),
        None => None,
    }
}

} // verus!
