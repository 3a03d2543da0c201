//! Commit completion deadlines and timing bounds.
//!
//! Spans are exact nanosecond counts with the range of a standard
//! `Duration`; every window is a checked product or sum, then clamped.
use vstd::prelude::*;

use std::time::Instant;

verus! {

#[verifier::external_type_specification]
#[verifier::external_body]
pub struct ExInstant(std::time::Instant);

/// The largest span: `u64::MAX` seconds and 999 999 999 nanoseconds.
pub open spec fn max_span_nanos() -> int {
    18_446_744_073_709_551_615int * 1_000_000_000 + 999_999_999
}

/// A span of time in nanoseconds, with the range of a standard `Duration`.
#[derive(Debug, Clone, Copy, PartialEq, Eq, Structural, PartialOrd, Ord)]
pub struct Span {
    nanos: u128,
}

impl View for Span {
    type V = int;

    closed spec fn view(&self) -> int {
        self.nanos as int
    }
}

impl Span {
    #[verifier::type_invariant]
    spec fn in_range(self) -> bool {
        self.nanos <= max_span_nanos()
    }

    pub fn from_nanos(nanos: u64) -> (r: Self)
        ensures
            r@ == nanos,
    {
        Span { nanos: nanos as u128 }
    }

    pub fn from_micros(micros: u64) -> (r: Self)
        ensures
            r@ == micros * 1_000,
    {
        Span { nanos: micros as u128 * 1_000 }
    }

    pub fn from_millis(millis: u64) -> (r: Self)
        ensures
            r@ == millis * 1_000_000,
    {
        Span { nanos: millis as u128 * 1_000_000 }
    }

    pub fn from_secs(secs: u64) -> (r: Self)
        ensures
            r@ == secs * 1_000_000_000,
    {
        Span { nanos: secs as u128 * 1_000_000_000 }
    }

    /// The longest representable span.
    pub fn max_value() -> (r: Self)
        ensures
            r@ == max_span_nanos(),
    {
        Span { nanos: 18_446_744_073_709_551_615 * 1_000_000_000 + 999_999_999 }
    }

    pub fn as_nanos(self) -> (r: u128)
        ensures
            r == self@,
            r <= max_span_nanos(),
    {
        proof {
            use_type_invariant(self);
        }
        self.nanos
    }

    /// Whole seconds of the span.
    pub fn secs(self) -> (r: u64)
        ensures
            r == self@ / 1_000_000_000,
    {
        proof {
            use_type_invariant(self);
        }
        (self.nanos / 1_000_000_000) as u64
    }

    /// Nanoseconds beyond the whole seconds.
    pub fn subsec_nanos(self) -> (r: u32)
        ensures
            r == self@ % 1_000_000_000,
            r < 1_000_000_000,
    {
        (self.nanos % 1_000_000_000) as u32
    }
}

/// The failures a deadline computation reports.
#[derive(Debug, Clone, Copy, PartialEq, Eq, Structural)]
pub enum DeadlineError {
    /// The deadline calculation overflowed.
    Overflow,
    /// The lifecycle duration is unvalidated.
    LifecycleUnvalidated,
}

/// The assumed frame period when a mode's period is unknown: 16 667 µs.
pub open spec fn unknown_mode_period_nanos() -> int {
    16_667_000
}

pub fn unknown_mode_period() -> (r: Span)
    ensures
        r@ == unknown_mode_period_nanos(),
{
    Span::from_micros(16_667)
}

pub open spec fn clamp(v: int, lo: int, hi: int) -> int {
    if v < lo {
        lo
    } else if v > hi {
        hi
    } else {
        v
    }
}

/// A mode's period in nanoseconds, the unknown period when absent.
pub open spec fn period_or_unknown(p: Option<Span>) -> int {
    match p {
        Some(s) => s@,
        None => unknown_mode_period_nanos(),
    }
}

/// The longest of the given periods; the unknown period when none is given.
pub open spec fn longest_period(s: Seq<Option<Span>>) -> int
    decreases s.len(),
{
    if s.len() == 0 {
        unknown_mode_period_nanos()
    } else if s.len() == 1 {
        period_or_unknown(s[0])
    } else {
        let rest = longest_period(s.drop_last());
        let last = period_or_unknown(s.last());
        if last > rest {
            last
        } else {
            rest
        }
    }
}

/// Three frames of the slowest CRTC, clamped to [100 ms, 2 s].
pub open spec fn spec_fast_hardware(periods: Seq<Option<Span>>) -> Result<int, DeadlineError> {
    let tripled = longest_period(periods) * 3;
    if tripled > max_span_nanos() {
        Err(DeadlineError::Overflow)
    } else {
        Ok(clamp(tripled, 100_000_000, 2_000_000_000))
    }
}

fn clamp_nanos(v: u128, lo: u128, hi: u128) -> (r: u128)
    requires
        lo <= hi,
    ensures
        r == clamp(v as int, lo as int, hi as int),
{
    if v < lo {
        lo
    } else if v > hi {
        hi
    } else {
        v
    }
}

fn period_value(p: Option<Span>) -> (r: u128)
    ensures
        r == period_or_unknown(p),
        r <= max_span_nanos(),
{
    match p {
        Some(s) => s.as_nanos(),
        None => 16_667_000,
    }
}

/// The hardware-completion window for a fast update.
pub fn fast_hardware(periods: &[Option<Span>]) -> (r: Result<Span, DeadlineError>)
    ensures
        match spec_fast_hardware(periods@) {
            Ok(n) => r matches Ok(s) && s@ == n,
            Err(e) => r == Err::<Span, DeadlineError>(e),
        },
        r matches Ok(s) ==> forall|i: int|
            0 <= i < periods@.len() ==> s@ >= clamp(3 * period_or_unknown(#[trigger] periods@[i]), 100_000_000, 2_000_000_000),
        r matches Ok(s) ==> (periods@.len() == 0 ==> s@ == 100_000_000) && (periods@.len()
            > 0 ==> exists|i: int|
            0 <= i < periods@.len() && s@ == clamp(3 * period_or_unknown(#[trigger] periods@[i]), 100_000_000, 2_000_000_000)),
{
    proof {
        lemma_longest_period_is_the_slowest(periods@);
        lemma_fast_hardware_follows_the_slowest(periods@);
    }
    let mut longest: u128 = 16_667_000;
    let mut i: usize = 0;
    while i < periods.len()
        invariant
            0 <= i <= periods@.len(),
            longest <= max_span_nanos(),
            i == 0 ==> longest == unknown_mode_period_nanos(),
            i > 0 ==> longest == longest_period(periods@.subrange(0, i as int)),
        decreases periods@.len() - i,
    {
        let p = period_value(periods[i]);
        proof {
            let s = periods@.subrange(0, i as int + 1);
            assert(s.drop_last() =~= periods@.subrange(0, i as int));
            assert(s.last() == periods@[i as int]);
        }
        if i == 0 || p > longest {
            longest = p;
        }
        i = i + 1;
    }
    proof {
        assert(periods@.subrange(0, periods@.len() as int) =~= periods@);
    }
    if longest > (18_446_744_073_709_551_615u128 * 1_000_000_000 + 999_999_999) / 3 {
        return Err(DeadlineError::Overflow);
    }
    let tripled = longest * 3;
    Ok(Span { nanos: clamp_nanos(tripled, 100_000_000, 2_000_000_000) })
}

/// Law: the period a window is sized by is the slowest one given: no given
/// period exceeds it, and it is one of them (the unknown period when none
/// is given).
pub proof fn lemma_longest_period_is_the_slowest(s: Seq<Option<Span>>)
    ensures
        forall|i: int| 0 <= i < s.len() ==> period_or_unknown(#[trigger] s[i]) <= longest_period(s),
        s.len() == 0 ==> longest_period(s) == 16_667_000,
        s.len() > 0 ==> exists|i: int| 0 <= i < s.len() && longest_period(s) == period_or_unknown(#[trigger] s[i]),
    decreases s.len(),
{
    if s.len() > 1 {
        let t = s.drop_last();
        lemma_longest_period_is_the_slowest(t);
        assert forall|i: int| 0 <= i < s.len() implies period_or_unknown(#[trigger] s[i]) <= longest_period(s) by {
            if i < s.len() - 1 {
                assert(s[i] == t[i]);
            }
        }
        if period_or_unknown(s.last()) <= longest_period(t) {
            let j = choose|j: int| 0 <= j < t.len() && longest_period(t) == period_or_unknown(#[trigger] t[j]);
            assert(s[j] == t[j]);
        } else {
            assert(s[s.len() - 1] == s.last());
        }
    } else if s.len() == 1 {
        assert(period_or_unknown(s[0]) == longest_period(s));
    }
}

/// Law: a fast-update window that succeeds is three frames of the slowest
/// given period, clamped to [100 ms, 2 s]: it is at least the clamped three
/// frames of every given period and equals that of one of them.
pub proof fn lemma_fast_hardware_follows_the_slowest(s: Seq<Option<Span>>)
    ensures
        spec_fast_hardware(s) matches Ok(n) ==> forall|i: int|
            0 <= i < s.len() ==> n >= clamp(3 * period_or_unknown(#[trigger] s[i]), 100_000_000, 2_000_000_000),
        spec_fast_hardware(s) matches Ok(n) ==> (s.len() == 0 ==> n == 100_000_000) && (s.len()
            > 0 ==> exists|i: int| 0 <= i < s.len() && n == clamp(3 * period_or_unknown(#[trigger] s[i]), 100_000_000, 2_000_000_000)),
{
    lemma_longest_period_is_the_slowest(s);
    if s.len() > 0 {
        let j = choose|j: int| 0 <= j < s.len() && longest_period(s) == period_or_unknown(#[trigger] s[j]);
        assert(longest_period(s) * 3 == 3 * period_or_unknown(s[j]));
    }
}

/// Two frames of the CRTC's period, clamped to [50 ms, 500 ms].
pub open spec fn spec_primary_event(period: Option<Span>) -> Result<int, DeadlineError> {
    let doubled = period_or_unknown(period) * 2;
    if doubled > max_span_nanos() {
        Err(DeadlineError::Overflow)
    } else {
        Ok(clamp(doubled, 50_000_000, 500_000_000))
    }
}

/// The primary page-event window.
pub fn primary_event(period: Option<Span>) -> (r: Result<Span, DeadlineError>)
    ensures
        match spec_primary_event(period) {
            Ok(n) => r matches Ok(s) && s@ == n,
            Err(e) => r == Err::<Span, DeadlineError>(e),
        },
{
    let p = period_value(period);
    if p > (18_446_744_073_709_551_615u128 * 1_000_000_000 + 999_999_999) / 2 {
        return Err(DeadlineError::Overflow);
    }
    Ok(Span { nanos: clamp_nanos(p * 2, 50_000_000, 500_000_000) })
}

/// The observed lifecycle duration plus 2 s, clamped to [10 s, 30 s]; an
/// absent or over-28-second observation is unvalidated.
pub open spec fn spec_lifecycle_hardware(observed: Option<Span>) -> Result<int, DeadlineError> {
    match observed {
        None => Err(DeadlineError::LifecycleUnvalidated),
        Some(o) => if o@ > 28_000_000_000 {
            Err(DeadlineError::LifecycleUnvalidated)
        } else {
            Ok(clamp(o@ + 2_000_000_000, 10_000_000_000, 30_000_000_000))
        },
    }
}

/// The lifecycle install/restore hardware window.
pub fn lifecycle_hardware(observed: Option<Span>) -> (r: Result<Span, DeadlineError>)
    ensures
        match spec_lifecycle_hardware(observed) {
            Ok(n) => r matches Ok(s) && s@ == n,
            Err(e) => r == Err::<Span, DeadlineError>(e),
        },
{
    let o = match observed {
        None => return Err(DeadlineError::LifecycleUnvalidated),
        Some(o) => o.as_nanos(),
    };
    if o > 28_000_000_000 {
        return Err(DeadlineError::LifecycleUnvalidated);
    }
    Ok(Span { nanos: clamp_nanos(o + 2_000_000_000, 10_000_000_000, 30_000_000_000) })
}

/// `Instant::checked_add` of a span given as whole seconds and nanoseconds.
/// Its result depends on the platform clock's representation; nothing is
/// stated about it.
#[verifier::external_body]
fn instant_checked_add(now: Instant, secs: u64, nanos: u32) -> (r: Option<Instant>)
    requires
        nanos < 1_000_000_000,
{
    now.checked_add(std::time::Duration::new(secs, nanos))
}

/// The instant `duration` after `now`; an unrepresentable instant is an
/// overflow.
pub fn checked_deadline(now: Instant, duration: Span) -> (r: Result<Instant, DeadlineError>)
    ensures
        r matches Err(e) ==> e == DeadlineError::Overflow,
{
    match instant_checked_add(now, duration.secs(), duration.subsec_nanos()) {
        Some(deadline) => Ok(deadline),
        None => Err(DeadlineError::Overflow),
    }
}

/// Law: each window is bounded by its clamp whatever the input.
pub proof fn lemma_windows_are_clamped(periods: Seq<Option<Span>>, period: Option<Span>, observed: Option<Span>)
    ensures
        spec_fast_hardware(periods) matches Ok(n) ==> 100_000_000 <= n <= 2_000_000_000,
        spec_primary_event(period) matches Ok(n) ==> 50_000_000 <= n <= 500_000_000,
        spec_lifecycle_hardware(observed) matches Ok(n) ==> 10_000_000_000 <= n <= 30_000_000_000,
{
}

} // verus!
