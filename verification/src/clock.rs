//! Per-CRTC clocks: widening a 32-bit kernel sequence against a trusted
//! 64-bit reference, and page-event timestamps in microseconds.
use vstd::prelude::*;

use crate::identity::ClockEpochId;
use crate::lifecycle::ids::{ClockProbeId, LifecycleEpochId};

verus! {

#[derive(Debug, Clone, Copy, PartialEq, Eq, Structural, PartialOrd, Ord)]
pub struct ClockKey {
    pub hardware_crtc: u32,
    pub epoch: ClockEpochId,
}

#[derive(Debug, Clone, Copy, PartialEq, Eq, Structural)]
pub enum ClockSource {
    Unresolved,
    KernelSequence,
}

#[derive(Debug, Clone, Copy, PartialEq, Eq, Structural)]
pub enum ProbeState {
    NotStarted,
    InFlight(ClockProbeId),
    Succeeded,
    Failed,
}

/// One trusted clock coordinate: media-stream counter and microseconds.
#[derive(Debug, Clone, Copy, PartialEq, Eq, Structural)]
pub struct ClockSample {
    pub msc: u64,
    pub ust: u64,
}

#[derive(Debug, Clone, Copy, PartialEq, Eq, Structural)]
pub enum ClockError {
    Unresolved,
    BadMicroseconds,
    Overflow,
    HalfRange,
    NoRepresentative,
    NegativeTimestamp,
    Regression,
}

/// 2^32, the period of a raw kernel sequence.
pub open spec fn seq_period() -> int {
    0x1_0000_0000
}

/// How far `raw` lies ahead of the reference's low 32 bits, modulo 2^32.
pub open spec fn sequence_delta(reference: u64, raw: u32) -> int {
    (raw as int - reference as int) % seq_period()
}

/// `v` keeps the raw low 32 bits and lies strictly within half a period of
/// the reference.
pub open spec fn represents(reference: u64, raw: u32, v: u64) -> bool {
    v as int % 0x1_0000_0000 == raw as int && reference - 0x8000_0000 < v < reference + 0x8000_0000
}

/// The 64-bit sequence nearest the reference whose low 32 bits are `raw`.
/// Exactly half a period away there are two candidates and none is chosen;
/// a candidate outside `u64` has no representative.
pub open spec fn spec_extend_sequence(reference: u64, raw: u32) -> Result<u64, ClockError> {
    let delta = sequence_delta(reference, raw);
    if delta == 0x8000_0000 {
        Err(ClockError::HalfRange)
    } else {
        let candidate = if delta < 0x8000_0000 {
            reference + delta
        } else {
            reference + delta - seq_period()
        };
        if 0 <= candidate <= u64::MAX {
            Ok(candidate as u64)
        } else {
            Err(ClockError::NoRepresentative)
        }
    }
}

/// Widen a raw 32-bit sequence against a trusted 64-bit reference.
pub fn extend_sequence(reference: u64, raw: u32) -> (r: Result<u64, ClockError>)
    ensures
        r == spec_extend_sequence(reference, raw),
        forall|v: u64|
            #[trigger] represents(reference, raw, v) ==> r == Ok::<
                u64,
                ClockError,
            >(v),
        r == Err::<u64, ClockError>(ClockError::HalfRange) <==> (raw as int - reference as int) % 0x1_0000_0000 == 0x8000_0000,
        r matches Ok(v) ==> v as int % 0x1_0000_0000 == raw as int && reference - 0x8000_0000 < v < reference + 0x8000_0000,
        r == Err::<u64, ClockError>(ClockError::NoRepresentative) ==> forall|v: u64|
            !#[trigger] represents(reference, raw, v),
{
    proof {
        lemma_extended_sequence_is_nearest(reference, raw);
        lemma_extended_sequence_is_found(reference, raw);
    }
    let low: u64 = reference % 0x1_0000_0000;
    let raw64: u64 = raw as u64;
    let delta: u64 = if raw64 >= low {
        raw64 - low
    } else {
        raw64 + 0x1_0000_0000 - low
    };
    assert(delta as int == sequence_delta(reference, raw)) by {
        let q = reference as int / seq_period();
        assert(reference as int == q * seq_period() + low as int);
        assert((raw as int - reference as int) == (delta as int) + (-q - (if raw64 >= low { 0int } else { 1int })) * seq_period());
        vstd::arithmetic::div_mod::lemma_mod_multiples_vanish(
            -q - (if raw64 >= low { 0int } else { 1int }),
            delta as int,
            seq_period(),
        );
        vstd::arithmetic::div_mod::lemma_small_mod(delta as nat, seq_period() as nat);
    }
    if delta == 0x8000_0000 {
        return Err(ClockError::HalfRange);
    }
    if delta < 0x8000_0000 {
        if reference <= u64::MAX - delta {
            Ok(reference + delta)
        } else {
            Err(ClockError::NoRepresentative)
        }
    } else {
        let back: u64 = 0x1_0000_0000 - delta;
        if reference >= back {
            Ok(reference - back)
        } else {
            Err(ClockError::NoRepresentative)
        }
    }
}

/// Law: a widened sequence keeps the raw low 32 bits and lies strictly
/// within half a period of the reference.
pub proof fn lemma_extended_sequence_is_nearest(reference: u64, raw: u32)
    ensures
        spec_extend_sequence(reference, raw) matches Ok(v) ==> {
            &&& v as int % seq_period() == raw as int
            &&& reference - 0x8000_0000 < v < reference + 0x8000_0000
        },
{
    let delta = sequence_delta(reference, raw);
    if let Ok(v) = spec_extend_sequence(reference, raw) {
        let q = (raw as int - reference as int) / seq_period();
        vstd::arithmetic::div_mod::lemma_fundamental_div_mod(raw as int - reference as int, seq_period());
        assert(raw as int - reference as int == q * seq_period() + delta);
        if delta < 0x8000_0000 {
            assert(v as int == raw as int + (-q) * seq_period());
            vstd::arithmetic::div_mod::lemma_mod_multiples_vanish(-q, raw as int, seq_period());
        } else {
            assert(v as int == raw as int + (-q - 1) * seq_period());
            vstd::arithmetic::div_mod::lemma_mod_multiples_vanish(-q - 1, raw as int, seq_period());
        }
        vstd::arithmetic::div_mod::lemma_small_mod(raw as nat, seq_period() as nat);
    }
}

/// Law: the widening misses no representative. Whenever some 64-bit value
/// keeps the raw low 32 bits and lies strictly within half a period of the
/// reference, that value is the result; half a period away is refused as
/// ambiguous, and nothing else is refused unless no such value exists.
pub proof fn lemma_extended_sequence_is_found(reference: u64, raw: u32)
    ensures
        forall|v: u64|
            represents(reference, raw, v)
                ==> #[trigger] spec_extend_sequence(reference, raw) == Ok::<u64, ClockError>(v),
        spec_extend_sequence(reference, raw) == Err::<u64, ClockError>(ClockError::HalfRange) <==> (raw as int - reference as int)
            % 0x1_0000_0000 == 0x8000_0000,
        spec_extend_sequence(reference, raw) == Err::<u64, ClockError>(ClockError::NoRepresentative) ==> forall|v: u64|
            !#[trigger] represents(reference, raw, v),
{
    let p = seq_period();
    let x = raw as int - reference as int;
    let d = sequence_delta(reference, raw);
    vstd::arithmetic::div_mod::lemma_fundamental_div_mod(x, p);
    assert forall|v: u64|
        represents(reference, raw, v) implies #[trigger] spec_extend_sequence(
        reference,
        raw,
    ) == Ok::<u64, ClockError>(v) by {
        vstd::arithmetic::div_mod::lemma_fundamental_div_mod(v as int, p);
        let k = x / p + v as int / p;
        assert(v as int - reference as int == p * k + d);
        assert(-1 <= k <= 0);
        if k == 0 {
            assert(d < 0x8000_0000);
        } else {
            assert(d > 0x8000_0000);
        }
    }
    lemma_extended_sequence_is_nearest(reference, raw);
}

/// The page-event timestamp in microseconds; microseconds must be below one
/// second.
pub open spec fn spec_page_ust(sec: u32, usec: u32) -> Result<u64, ClockError> {
    if usec >= 1_000_000 {
        Err(ClockError::BadMicroseconds)
    } else {
        Ok((sec * 1_000_000 + usec) as u64)
    }
}

pub fn page_ust(sec: u32, usec: u32) -> (r: Result<u64, ClockError>)
    ensures
        r == spec_page_ust(sec, usec),
        r matches Ok(v) ==> v == sec * 1_000_000 + usec,
{
    if usec >= 1_000_000 {
        return Err(ClockError::BadMicroseconds);
    }
    let s: u64 = sec as u64;
    assert(s * 1_000_000 <= 4_294_967_295_000_000) by (nonlinear_arith)
        requires
            s <= 4_294_967_295,
    ;
    Ok(s * 1_000_000 + usec as u64)
}

#[derive(Debug)]
pub struct CrtcClock {
    pub key: ClockKey,
    pub lifecycle_epoch: LifecycleEpochId,
    pub topology_generation: u64,
    pub source: ClockSource,
    pub probe: ProbeState,
    pub queue_failed: bool,
    pub reference: Option<u64>,
    pub latest: Option<ClockSample>,
}

/// Whether `sample` is a strict advance over the latest trusted sample: no
/// coordinate regresses and it is not a repeat.
pub open spec fn sample_advances(latest: Option<ClockSample>, sample: ClockSample) -> bool {
    match latest {
        None => true,
        Some(l) => sample.msc >= l.msc && sample.ust >= l.ust && sample != l,
    }
}

impl CrtcClock {
    pub fn new(key: ClockKey, lifecycle_epoch: LifecycleEpochId, topology_generation: u64) -> (r: Self)
        ensures
            r.key == key,
            r.lifecycle_epoch == lifecycle_epoch,
            r.topology_generation == topology_generation,
            r.source == ClockSource::Unresolved,
            r.probe == ProbeState::NotStarted,
            !r.queue_failed,
            r.reference is None,
            r.latest is None,
    {
        CrtcClock {
            key,
            lifecycle_epoch,
            topology_generation,
            source: ClockSource::Unresolved,
            probe: ProbeState::NotStarted,
            queue_failed: false,
            reference: None,
            latest: None,
        }
    }

    /// Install a kernel sequence reference. It does not manufacture a sample.
    pub fn install_reference(&mut self, sequence: u64)
        ensures
            *final(self) == (CrtcClock {
                source: ClockSource::KernelSequence,
                probe: ProbeState::Succeeded,
                reference: Some(sequence),
                ..*old(self)
            }),
    {
        self.source = ClockSource::KernelSequence;
        self.probe = ProbeState::Succeeded;
        self.reference = Some(sequence);
    }

    /// Decode a page event's raw sequence and timestamp against this clock.
    pub fn page_sample(&self, raw: u32, sec: u32, usec: u32) -> (r: Result<ClockSample, ClockError>)
        ensures
            self.reference is None ==> r == Err::<ClockSample, ClockError>(ClockError::Unresolved),
            self.reference matches Some(reference) ==> r == (match spec_extend_sequence(reference, raw) {
                Err(e) => Err(e),
                Ok(msc) => match spec_page_ust(sec, usec) {
                    Err(e) => Err(e),
                    Ok(ust) => Ok(ClockSample { msc, ust }),
                },
            }),
    {
        let reference = match self.reference {
            Some(r) => r,
            None => return Err(ClockError::Unresolved),
        };
        let msc = match extend_sequence(reference, raw) {
            Ok(v) => v,
            Err(e) => return Err(e),
        };
        let ust = match page_ust(sec, usec) {
            Ok(v) => v,
            Err(e) => return Err(e),
        };
        Ok(ClockSample { msc, ust })
    }

    /// Record `sample` only if it advances the latest trusted sample.
    pub fn observe(&mut self, sample: ClockSample) -> (r: bool)
        ensures
            r == sample_advances(old(self).latest, sample),
            r ==> *final(self) == (CrtcClock { latest: Some(sample), ..*old(self) }),
            !r ==> *final(self) == *old(self),
    {
        if let Some(latest) = self.latest {
            if sample.msc < latest.msc || sample.ust < latest.ust {
                return false;
            }
            if sample.msc == latest.msc && sample.ust == latest.ust {
                return false;
            }
        }
        self.latest = Some(sample);
        true
    }
}

/// Law: the latest trusted sample never regresses in either coordinate.
pub proof fn lemma_observe_never_regresses(latest: ClockSample, sample: ClockSample)
    requires
        sample_advances(Some(latest), sample),
    ensures
        sample.msc >= latest.msc,
        sample.ust >= latest.ust,
{
}

} // verus!
