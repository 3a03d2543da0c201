//! Bounded asynchronous sequence arms and consumer cancellation.
//!
//! Tracks up to 256 active sequence arms and 4096 logical consumers per
//! device. Manages sequence tokens, dedup index, early-event staging,
//! and publication latching upon cancellation.
use vstd::prelude::*;

use std::collections::VecDeque;

pub use crate::identity::SequenceArmToken;
use crate::clock::{sample_advances, ClockKey, ClockSample, ClockSource, CrtcClock, ProbeState};
use crate::completion::MechanismFailure;
use crate::identity::{ClockEpochId, IdentityAllocator, IncarnationId};
use crate::lifecycle::LifecycleEpochId;

verus! {

pub const MAX_ACTIVE_ARMS: usize = 256;

pub const MAX_LOGICAL_CONSUMERS: usize = 4096;

pub const SEQUENCE_TOMBSTONE_CAPACITY: usize = 64;

#[derive(Debug, Clone, Copy, PartialEq, Eq, Structural, PartialOrd, Ord)]
pub enum SequencePurpose {
    IdleClockWake,
    PresentTargetWake,
}

#[derive(Debug, Clone, Copy, PartialEq, Eq, Structural, PartialOrd, Ord, Hash)]
pub struct SequenceConsumer(pub u64);

#[derive(Debug, Clone, Copy, PartialEq, Eq, Structural)]
pub enum ClockSampleOrigin {
    PageFlip,
    Sequence(SequencePurpose),
}

#[derive(Debug, Clone, Copy, PartialEq, Eq, Structural)]
pub enum SequenceError {
    ClockNotReady,
    Capacity,
    IdentityExhausted,
    UnknownArm,
    InvalidIdentity,
    InvalidSample,
    Busy,
    TransportUnavailable,
}

impl SequenceError {
    /// The human-readable description of the error.
    pub fn message(self) -> (r: &'static str)
        ensures
            self == Self::ClockNotReady ==> r@ == "clock not ready"@,
            self == Self::Capacity ==> r@ == "capacity exceeded"@,
            self == Self::IdentityExhausted ==> r@ == "identity space exhausted"@,
            self == Self::UnknownArm ==> r@ == "unknown arm"@,
            self == Self::InvalidIdentity ==> r@ == "invalid identity"@,
            self == Self::InvalidSample ==> r@ == "invalid sample"@,
            self == Self::Busy ==> r@ == "busy"@,
            self == Self::TransportUnavailable ==> r@ == "transport unavailable"@,
    {
        match self {
            Self::ClockNotReady => "clock not ready",
            Self::Capacity => "capacity exceeded",
            Self::IdentityExhausted => "identity space exhausted",
            Self::UnknownArm => "unknown arm",
            Self::InvalidIdentity => "invalid identity",
            Self::InvalidSample => "invalid sample",
            Self::Busy => "busy",
            Self::TransportUnavailable => "transport unavailable",
        }
    }
}

#[derive(Debug, Clone, Copy, PartialEq, Eq, Structural)]
pub enum SequenceArmPhase {
    PendingDispatch,
    InFlight,
    Armed,
}

/// One armed kernel sequence event and the consumers waiting on it.
#[derive(Debug)]
pub struct SequenceArm {
    pub token: SequenceArmToken,
    pub key: ClockKey,
    pub lifecycle_epoch: LifecycleEpochId,
    pub topology_generation: u64,
    pub purpose: SequencePurpose,
    pub requested_target: u64,
    pub scheduled_target: Option<u64>,
    pub consumers: Vec<SequenceConsumer>,
    pub phase: SequenceArmPhase,
    pub publishable: bool,
    pub staged_sample: Option<ClockSample>,
}

/// The dedup index entry of an arm: the clock, purpose and target it serves.
#[derive(Debug, Clone, Copy, PartialEq, Eq, Structural)]
pub struct IndexEntry {
    pub key: ClockKey,
    pub purpose: SequencePurpose,
    pub target: u64,
    pub token: SequenceArmToken,
}

/// The device's sequence arms, ordered by token.
#[derive(Debug)]
pub struct SequenceArms {
    arms: Vec<SequenceArm>,
    index: Vec<IndexEntry>,
    fifo: VecDeque<SequenceArmToken>,
    tombstones: VecDeque<SequenceArmToken>,
    total_consumers: usize,
}

/// The correlation a sequence-queue reply carries.
#[derive(Debug, Clone, Copy, PartialEq, Eq, Structural)]
pub struct QueueCorrelation {
    pub seq: u64,
    pub incarnation: IncarnationId,
    pub lifecycle_epoch: LifecycleEpochId,
    pub topology_generation: u64,
    pub hardware_crtc: u32,
    pub clock_epoch: ClockEpochId,
    pub token: SequenceArmToken,
}

/// The executor's answer to a sequence-queue request.
#[derive(Debug, Clone, Copy, PartialEq, Eq, Structural)]
pub enum QueueReply {
    Accepted { sequence: u64 },
    Rejected { errno: i32 },
    Unknown,
    /// An outcome of another kind of host call.
    Other,
}

/// What a sequence arm reports.
#[derive(Debug, Clone, PartialEq, Eq)]
pub enum SequenceEvent {
    StaleReply { correlation: QueueCorrelation },
    ClockSample { key: ClockKey, sample: ClockSample, origin: ClockSampleOrigin },
    LegacyClockSample { key: ClockKey, sample: ClockSample, purpose: SequencePurpose },
    SequenceArmFailed { key: ClockKey, consumers: Vec<SequenceConsumer>, errno: Option<i32> },
    MechanismFailed { reason: MechanismFailure },
}

/// The decision on a sequence-queue reply: what to report, whether the
/// device's queue lease is released, and any mechanism failure that now
/// closes readiness.
#[derive(Debug, Clone, PartialEq, Eq)]
pub struct QueueResolution {
    pub event: Option<SequenceEvent>,
    pub release_queue: bool,
    pub failure: Option<MechanismFailure>,
}

/// A kernel DRM event as far as sequence arms read it.
#[derive(Debug, Clone, Copy, PartialEq, Eq, Structural)]
pub enum DrmEvent {
    PageFlip { user_data: u64 },
    Vblank { user_data: u64 },
    CrtcSequence { sequence: u64, time_ns: i64, user_data: u64 },
}

/// The `user_data` a DRM event carries.
pub open spec fn event_user_data(e: DrmEvent) -> u64 {
    match e {
        DrmEvent::PageFlip { user_data } => user_data,
        DrmEvent::Vblank { user_data } => user_data,
        DrmEvent::CrtcSequence { user_data, .. } => user_data,
    }
}

/// The tokens of a run of arms, in order.
pub open spec fn arm_tokens(arms: Seq<SequenceArm>) -> Seq<SequenceArmToken> {
    arms.map_values(|a: SequenceArm| a.token)
}

/// The retired-token record after one more retirement: the oldest is
/// forgotten once the capacity is exceeded.
pub open spec fn with_tombstone(t: Seq<SequenceArmToken>, token: SequenceArmToken) -> Seq<SequenceArmToken> {
    if t.len() + 1 > 64 {
        t.push(token).drop_first()
    } else {
        t.push(token)
    }
}

/// The retired-token record after retiring each token in turn.
pub open spec fn with_tombstones(t: Seq<SequenceArmToken>, tokens: Seq<SequenceArmToken>) -> Seq<SequenceArmToken>
    decreases tokens.len(),
{
    if tokens.len() == 0 {
        t
    } else {
        with_tombstone(with_tombstones(t, tokens.drop_last()), tokens.last())
    }
}

/// Two arms agree on everything but their consumers and publishability.
pub open spec fn same_but_consumers(x: SequenceArm, y: SequenceArm) -> bool {
    &&& x.token == y.token
    &&& x.key == y.key
    &&& x.lifecycle_epoch == y.lifecycle_epoch
    &&& x.topology_generation == y.topology_generation
    &&& x.purpose == y.purpose
    &&& x.requested_target == y.requested_target
    &&& x.scheduled_target == y.scheduled_target
    &&& x.phase == y.phase
    &&& x.staged_sample == y.staged_sample
}

/// An arm's consumers without `consumer`, in their order.
pub open spec fn other_consumers(consumers: Seq<SequenceConsumer>, consumer: SequenceConsumer) -> Seq<SequenceConsumer>
    decreases consumers.len(),
{
    if consumers.len() == 0 {
        consumers
    } else if consumers.last() == consumer {
        other_consumers(consumers.drop_last(), consumer)
    } else {
        other_consumers(consumers.drop_last(), consumer).push(consumers.last())
    }
}

/// The remaining consumers never include the cancelled one.
proof fn lemma_other_consumers_exclude(s: Seq<SequenceConsumer>, consumer: SequenceConsumer)
    ensures
        !other_consumers(s, consumer).contains(consumer),
    decreases s.len(),
{
    if s.len() > 0 {
        lemma_other_consumers_exclude(s.drop_last(), consumer);
        if s.last() != consumer {
            let rest = other_consumers(s.drop_last(), consumer);
            assert forall|k: int| 0 <= k < rest.push(s.last()).len() implies rest.push(s.last())[k] != consumer by {
                if k < rest.len() {
                    assert(rest.push(s.last())[k] == rest[k]);
                }
            }
        }
    }
}

/// An arm stays when its clock is cancelled: another clock's, or one whose
/// dispatch is in flight.
pub open spec fn clock_keeps(a: SequenceArm, key: ClockKey) -> bool {
    a.key != key || a.phase == SequenceArmPhase::InFlight
}

/// An arm stays when a consumer is cancelled: it did not wait for the
/// consumer, still has others, or its dispatch is in flight.
pub open spec fn consumer_keeps(a: SequenceArm, consumer: SequenceConsumer) -> bool {
    !a.consumers@.contains(consumer) || other_consumers(a.consumers@, consumer).len() > 0 || a.phase
        == SequenceArmPhase::InFlight
}

/// An index entry serves a clock, purpose and target.
pub open spec fn serves(e: IndexEntry, key: ClockKey, purpose: SequencePurpose, target: u64) -> bool {
    e.key == key && e.purpose == purpose && e.target == target
}

/// The index without the entries serving a clock, purpose and target.
pub open spec fn index_without(idx: Seq<IndexEntry>, key: ClockKey, purpose: SequencePurpose, target: u64) -> Seq<IndexEntry> {
    idx.filter(|e: IndexEntry| !serves(e, key, purpose, target))
}

/// The token the index records for a clock, purpose and target: the most
/// recent entry serving them.
pub open spec fn index_lookup(idx: Seq<IndexEntry>, key: ClockKey, purpose: SequencePurpose, target: u64) -> Option<SequenceArmToken>
    decreases idx.len(),
{
    if idx.len() == 0 {
        None
    } else if serves(idx.last(), key, purpose, target) {
        Some(idx.last().token)
    } else {
        index_lookup(idx.drop_last(), key, purpose, target)
    }
}

/// Keeping every token but one.
pub open spec fn other_than(token: SequenceArmToken) -> spec_fn(SequenceArmToken) -> bool {
    |t: SequenceArmToken| t != token
}

/// The dispatch order without a token.
pub open spec fn fifo_without(f: Seq<SequenceArmToken>, token: SequenceArmToken) -> Seq<SequenceArmToken> {
    f.filter(other_than(token))
}

/// The position of the first arm, from `from` on, whose token carries the
/// raw value `raw`; the length when there is none.
pub open spec fn arm_at(arms: Seq<SequenceArm>, raw: u64, from: int) -> int
    decreases arms.len() - from,
{
    if from < 0 || from >= arms.len() {
        arms.len() as int
    } else if arms[from].token@ == raw {
        from
    } else {
        arm_at(arms, raw, from + 1)
    }
}

/// Searching from the start finds what searching from `from` finds, when
/// nothing before `from` matches.
pub open spec fn from_le(arms: Seq<SequenceArm>, raw: u64, from: int) -> bool {
    arm_at(arms, raw, 0) == arm_at(arms, raw, from)
}

proof fn lemma_arm_at(arms: Seq<SequenceArm>, raw: u64, from: int)
    requires
        0 <= from <= arms.len(),
    ensures
        from <= arm_at(arms, raw, from) <= arms.len(),
        arm_at(arms, raw, from) < arms.len() ==> arms[arm_at(arms, raw, from)].token@ == raw,
        forall|j: int| from <= j < arm_at(arms, raw, from) ==> arms[j].token@ != raw,
    decreases arms.len() - from,
{
    if from < arms.len() && arms[from].token@ != raw {
        lemma_arm_at(arms, raw, from + 1);
    }
}

/// The number of consumers in `cs`, counted with repetition, that an arm
/// does not already have.
pub open spec fn new_consumer_count(existing: Seq<SequenceConsumer>, cs: Seq<SequenceConsumer>) -> nat
    decreases cs.len(),
{
    if cs.len() == 0 {
        0
    } else {
        new_consumer_count(existing, cs.drop_last()) + if existing.contains(cs.last()) {
            0nat
        } else {
            1nat
        }
    }
}

/// An arm's consumers after adding `cs` in turn, each once.
pub open spec fn merged_consumers(existing: Seq<SequenceConsumer>, cs: Seq<SequenceConsumer>) -> Seq<SequenceConsumer>
    decreases cs.len(),
{
    if cs.len() == 0 {
        existing
    } else if merged_consumers(existing, cs.drop_last()).contains(cs.last()) {
        merged_consumers(existing, cs.drop_last())
    } else {
        merged_consumers(existing, cs.drop_last()).push(cs.last())
    }
}

/// The clock of an arm's key is present, probed on kernel sequences (or a
/// legacy drain is active) and has not failed a queue, on a device that is
/// not poisoned.
pub open spec fn clock_ready(clock: Option<&CrtcClock>, key: ClockKey, poisoned: bool, legacy_drain: bool) -> bool {
    &&& !poisoned
    &&& clock matches Some(c)
    &&& c.key == key
    &&& legacy_drain || (c.probe == ProbeState::Succeeded && c.source == ClockSource::KernelSequence)
    &&& !c.queue_failed
}

/// Law: a clock new arms may be reserved against belongs to a device that
/// is not poisoned, carries the arm's key, has not failed a queue, and,
/// outside a legacy drain, was probed successfully on kernel sequences.
pub proof fn lemma_ready_clock_is_probed(clock: Option<&CrtcClock>, key: ClockKey, poisoned: bool, legacy_drain: bool)
    requires
        clock_ready(clock, key, poisoned, legacy_drain),
    ensures
        !poisoned,
        clock is Some,
        clock->0.key == key,
        !clock->0.queue_failed,
        !legacy_drain ==> clock->0.probe == ProbeState::Succeeded && clock->0.source == ClockSource::KernelSequence,
{
}

/// The arm a reservation shares: the indexed arm for the same clock,
/// purpose and target, while it still publishes.
pub open spec fn shared_arm(a: &SequenceArms, key: ClockKey, purpose: SequencePurpose, target: u64) -> Option<int> {
    match index_lookup(a.spec_index(), key, purpose, target) {
        Some(t) => {
            let i = arm_at(a.spec_arms(), t@, 0);
            if i < a.spec_arms().len() && a.spec_arms()[i].publishable {
                Some(i)
            } else {
                None
            }
        },
        None => None,
    }
}

/// Retiring the arm at `i`: it leaves the arms and the index, its consumers
/// leave the total, its token is remembered, and, when asked, it leaves the
/// dispatch order.
pub open spec fn retired_at(a: &SequenceArms, b: &SequenceArms, i: int, drop_fifo: bool) -> bool {
    let arm = a.spec_arms()[i];
    &&& b.spec_arms() == a.spec_arms().remove(i)
    &&& b.spec_index() == index_without(a.spec_index(), arm.key, arm.purpose, arm.requested_target)
    &&& b.spec_fifo() == (if drop_fifo {
        fifo_without(a.spec_fifo(), arm.token)
    } else {
        a.spec_fifo()
    })
    &&& b.spec_tombstones() == with_tombstone(a.spec_tombstones(), arm.token)
    &&& b.spec_total() == (if a.spec_total() >= arm.consumers@.len() {
        (a.spec_total() - arm.consumers@.len()) as nat
    } else {
        0nat
    })
}

/// A clock after a sequence sample is published to it: the reference moves
/// up to the sample, and the sample is observed if it advances.
pub open spec fn published(c: CrtcClock, sample: ClockSample) -> CrtcClock {
    let bumped = CrtcClock {
        reference: match c.reference {
            Some(r) => if sample.msc > r {
                Some(sample.msc)
            } else {
                Some(r)
            },
            None => None,
        },
        ..c
    };
    if sample_advances(bumped.latest, sample) {
        CrtcClock { latest: Some(sample), ..bumped }
    } else {
        bumped
    }
}

/// The clock present for `key`.
pub open spec fn clock_for(clock: Option<CrtcClock>, key: ClockKey) -> bool {
    clock matches Some(c) && c.key == key
}

/// A clock is the one an arm was armed against.
pub open spec fn arm_clock_matches(clock: Option<CrtcClock>, arm: SequenceArm) -> bool {
    clock matches Some(c) && c.key == arm.key && c.lifecycle_epoch == arm.lifecycle_epoch && c.topology_generation
        == arm.topology_generation
}

/// The sample a kernel sequence event carries.
pub open spec fn event_sample(time_ns: i64, sequence: u64) -> ClockSample {
    ClockSample { msc: sequence, ust: time_ns as u64 }
}

/// A kernel sequence event for an arm: stale ones change nothing; one that
/// arrives while the arm's request is in flight is staged (the first one
/// only); otherwise the arm retires and, while it still publishes, its
/// sample goes to the legacy path or to its clock.
pub open spec fn sequence_event_applied(
    a: &SequenceArms,
    b: &SequenceArms,
    old_clock: Option<CrtcClock>,
    new_clock: Option<CrtcClock>,
    legacy_drain: bool,
    owner: IncarnationId,
    incarnation: IncarnationId,
    token: u64,
    time_ns: i64,
    sequence: u64,
    r: Option<SequenceEvent>,
) -> bool {
    let arms = a.spec_arms();
    let i = arm_at(arms, token, 0);
    let sample = event_sample(time_ns, sequence);
    let stale = incarnation != owner || token == 0 || time_ns < 0 || i >= arms.len() || !arm_clock_matches(old_clock, arms[i]);
    &&& stale ==> r is None && *b == *a && new_clock == old_clock
    &&& !stale && arms[i].phase == SequenceArmPhase::InFlight ==> {
        &&& r is None
        &&& new_clock == old_clock
        &&& b.spec_arms() == (if arms[i].staged_sample is None {
            arms.update(i, SequenceArm { staged_sample: Some(sample), ..arms[i] })
        } else {
            arms
        })
        &&& b.spec_index() == a.spec_index()
        &&& b.spec_fifo() == a.spec_fifo()
        &&& b.spec_tombstones() == a.spec_tombstones()
        &&& b.spec_total() == a.spec_total()
    }
    &&& !stale && arms[i].phase != SequenceArmPhase::InFlight ==> {
        let arm = arms[i];
        &&& retired_at(a, b, i, true)
        &&& !arm.publishable ==> r is None && new_clock == old_clock
        &&& arm.publishable && legacy_drain ==> r == Some(
            SequenceEvent::LegacyClockSample { key: arm.key, sample, purpose: arm.purpose },
        ) && new_clock == old_clock
        &&& arm.publishable && !legacy_drain ==> r == Some(
            SequenceEvent::ClockSample { key: arm.key, sample, origin: ClockSampleOrigin::Sequence(arm.purpose) },
        ) && new_clock == Some(published(old_clock->0, sample))
    }
}

/// A reply names the arm it was sent for: the same CRTC, clock epoch,
/// lifecycle epoch and topology generation.
pub open spec fn reply_matches(arm: SequenceArm, c: QueueCorrelation) -> bool {
    arm.key.hardware_crtc == c.hardware_crtc && arm.key.epoch == c.clock_epoch && arm.lifecycle_epoch == c.lifecycle_epoch
        && arm.topology_generation == c.topology_generation
}

/// A resolution with nothing but one event.
pub open spec fn resolution(event: Option<SequenceEvent>, release_queue: bool, failure: Option<MechanismFailure>) -> QueueResolution {
    QueueResolution { event, release_queue, failure }
}

/// The clock key of the arm a queue reply names, when an arm carries its token.
pub open spec fn reply_clock_key(a: &SequenceArms, c: QueueCorrelation) -> Option<ClockKey> {
    let i = arm_at(a.spec_arms(), c.token@, 0);
    if i < a.spec_arms().len() {
        Some(a.spec_arms()[i].key)
    } else {
        None
    }
}

/// The position of the first clock with `key` among `clocks`, or their
/// length when none has it or no key is named.
pub open spec fn clock_position(clocks: Seq<CrtcClock>, key: Option<ClockKey>, from: int) -> int
    decreases clocks.len() - from,
{
    if from < 0 || from >= clocks.len() || key is None {
        clocks.len() as int
    } else if clocks[from].key == key->0 {
        from
    } else {
        clock_position(clocks, key, from + 1)
    }
}

/// The clock at position `k`, when there is one.
pub open spec fn clock_at(clocks: Seq<CrtcClock>, k: int) -> Option<CrtcClock> {
    if 0 <= k < clocks.len() {
        Some(clocks[k])
    } else {
        None
    }
}

/// The events a resolution hands on.
pub open spec fn resolution_events(r: QueueResolution) -> Seq<SequenceEvent> {
    match r.event {
        Some(e) => seq![e],
        None => Seq::<SequenceEvent>::empty(),
    }
}

/// The case table of a sequence-queue reply.
pub open spec fn queue_reply_resolved(
    a: &SequenceArms,
    b: &SequenceArms,
    old_clock: Option<CrtcClock>,
    new_clock: Option<CrtcClock>,
    queue_outstanding: Option<SequenceArmToken>,
    legacy_drain: bool,
    owner: IncarnationId,
    c: QueueCorrelation,
    reply: QueueReply,
    r: QueueResolution,
) -> bool {
    let arms = a.spec_arms();
    let i = arm_at(arms, c.token@, 0);
    let stale = Some(SequenceEvent::StaleReply { correlation: c });
    let unknown = Some(SequenceEvent::MechanismFailed { reason: MechanismFailure::HostCallUnknown });
    if c.incarnation != owner || queue_outstanding != Some(c.token) {
        r == resolution(stale, false, None) && *b == *a && new_clock == old_clock
    } else if i >= arms.len() || !reply_matches(arms[i], c) {
        r == resolution(stale, true, None) && *b == *a && new_clock == old_clock
    } else {
        let arm = arms[i];
        match reply {
            QueueReply::Accepted { sequence } => match arm.staged_sample {
                Some(sample) => {
                    &&& retired_at(a, b, i, false)
                    &&& r.release_queue && r.failure is None
                    &&& if !arm.publishable || !clock_for(old_clock, arm.key) {
                        r.event is None && new_clock == old_clock
                    } else if legacy_drain {
                        r.event == Some(SequenceEvent::LegacyClockSample { key: arm.key, sample, purpose: arm.purpose })
                            && new_clock == old_clock
                    } else {
                        r.event == Some(
                            SequenceEvent::ClockSample { key: arm.key, sample, origin: ClockSampleOrigin::Sequence(arm.purpose) },
                        ) && new_clock == Some(published(old_clock->0, sample))
                    }
                },
                None => {
                    &&& r == resolution(None, true, None)
                    &&& new_clock == old_clock
                    &&& !arm.publishable ==> retired_at(a, b, i, false)
                    &&& arm.publishable ==> {
                        &&& b.spec_arms() == arms.update(
                            i,
                            SequenceArm { phase: SequenceArmPhase::Armed, scheduled_target: Some(sequence), ..arm },
                        )
                        &&& b.spec_index() == a.spec_index()
                        &&& b.spec_fifo() == a.spec_fifo()
                        &&& b.spec_tombstones() == a.spec_tombstones()
                        &&& b.spec_total() == a.spec_total()
                    }
                },
            },
            QueueReply::Rejected { errno } => {
                &&& retired_at(a, b, i, false)
                &&& arm.staged_sample is Some ==> r == resolution(
                    Some(SequenceEvent::MechanismFailed { reason: MechanismFailure::ActiveEventContradiction }),
                    true,
                    Some(MechanismFailure::ActiveEventContradiction),
                ) && new_clock == old_clock
                &&& arm.staged_sample is None ==> {
                    &&& r == resolution(
                        if arm.publishable && arm.consumers@.len() > 0 {
                            Some(SequenceEvent::SequenceArmFailed { key: arm.key, consumers: arm.consumers, errno: Some(errno) })
                        } else {
                            None
                        },
                        true,
                        None,
                    )
                    &&& new_clock == if clock_for(old_clock, arm.key) {
                        Some(CrtcClock { queue_failed: true, ..old_clock->0 })
                    } else {
                        old_clock
                    }
                }
            },
            QueueReply::Unknown => r == resolution(unknown, false, Some(MechanismFailure::HostCallUnknown)) && *b == *a
                && new_clock == old_clock,
            QueueReply::Other => r == resolution(unknown, true, Some(MechanismFailure::HostCallUnknown)) && *b == *a
                && new_clock == old_clock,
        }
    }
}

/// The position in the dispatch order, from `from` on, of the first token
/// whose arm still waits for dispatch; the length when there is none.
pub open spec fn first_pending(arms: Seq<SequenceArm>, fifo: Seq<SequenceArmToken>, from: int) -> int
    decreases fifo.len() - from,
{
    if from < 0 || from >= fifo.len() {
        fifo.len() as int
    } else if arm_at(arms, fifo[from]@, 0) < arms.len() && arms[arm_at(arms, fifo[from]@, 0)].phase
        == SequenceArmPhase::PendingDispatch {
        from
    } else {
        first_pending(arms, fifo, from + 1)
    }
}

/// The index after forgetting the entries of each arm in turn.
pub open spec fn index_without_arms(idx: Seq<IndexEntry>, arms: Seq<SequenceArm>) -> Seq<IndexEntry>
    decreases arms.len(),
{
    if arms.len() == 0 {
        idx
    } else {
        index_without(index_without_arms(idx, arms.drop_last()), arms.last().key, arms.last().purpose, arms.last().requested_target)
    }
}

/// The dispatch order without each arm's token in turn.
pub open spec fn fifo_without_arms(f: Seq<SequenceArmToken>, arms: Seq<SequenceArm>) -> Seq<SequenceArmToken>
    decreases arms.len(),
{
    if arms.len() == 0 {
        f
    } else {
        fifo_without(fifo_without_arms(f, arms.drop_last()), arms.last().token)
    }
}

/// The number of consumers a run of arms holds.
pub open spec fn consumer_sum(arms: Seq<SequenceArm>) -> nat
    decreases arms.len(),
{
    if arms.len() == 0 {
        0
    } else {
        consumer_sum(arms.drop_last()) + arms.last().consumers@.len()
    }
}

/// A count taken from a total, never below zero.
pub open spec fn less(total: nat, n: nat) -> nat {
    if total >= n {
        (total - n) as nat
    } else {
        0
    }
}

/// The arms of one clock.
pub open spec fn of_clock(key: ClockKey) -> spec_fn(SequenceArm) -> bool {
    |a: SequenceArm| a.key == key
}

/// The arms that wait for one consumer.
pub open spec fn waiting_for(consumer: SequenceConsumer) -> spec_fn(SequenceArm) -> bool {
    |a: SequenceArm| a.consumers@.contains(consumer)
}

/// The arms that one consumer's cancellation leaves without consumers.
pub open spec fn emptied_by(consumer: SequenceConsumer) -> spec_fn(SequenceArm) -> bool {
    |a: SequenceArm| a.consumers@.contains(consumer) && other_consumers(a.consumers@, consumer).len() == 0
}

/// The arms one consumer's cancellation retires.
pub open spec fn retired_by(consumer: SequenceConsumer) -> spec_fn(SequenceArm) -> bool {
    |a: SequenceArm| !consumer_keeps(a, consumer)
}

/// The position of the first clock with `key`, or the number of clocks.
fn clock_index(clocks: &Vec<CrtcClock>, key: ClockKey) -> (r: usize)
    ensures
        r as int == clock_position(clocks@, Some(key), 0),
{
    let mut j: usize = 0;
    while j < clocks.len()
        invariant
            0 <= j <= clocks@.len(),
            clock_position(clocks@, Some(key), 0) == clock_position(clocks@, Some(key), j as int),
        decreases clocks@.len() - j,
    {
        if clocks[j].key == key {
            return j;
        }
        j = j + 1;
    }
    j
}

impl SequenceArms {
    pub closed spec fn spec_arms(&self) -> Seq<SequenceArm> {
        self.arms@
    }

    pub closed spec fn spec_tombstones(&self) -> Seq<SequenceArmToken> {
        self.tombstones@
    }

    pub closed spec fn spec_index(&self) -> Seq<IndexEntry> {
        self.index@
    }

    pub closed spec fn spec_fifo(&self) -> Seq<SequenceArmToken> {
        self.fifo@
    }

    pub closed spec fn spec_total(&self) -> nat {
        self.total_consumers as nat
    }

    /// The retired-token record stays within its capacity, and the arms and
    /// their logical consumers within theirs.
    pub closed spec fn wf(&self) -> bool {
        &&& self.tombstones@.len() <= 64
        &&& self.total_consumers <= 4096
        &&& self.arms@.len() <= 256
    }

    /// Law: a device never holds more than 256 active arms, 4096 logical
    /// consumers or 64 retired tokens.
    pub proof fn lemma_bounded(&self)
        requires
            self.wf(),
        ensures
            self.spec_arms().len() <= 256,
            self.spec_total() <= 4096,
            self.spec_tombstones().len() <= 64,
    {
    }

    pub fn new() -> (r: Self)
        ensures
            r.wf(),
            r.spec_arms().len() == 0,
            r.spec_tombstones().len() == 0,
            r.spec_index().len() == 0,
            r.spec_fifo().len() == 0,
            r.spec_total() == 0,
    {
        SequenceArms { arms: Vec::new(), index: Vec::new(), fifo: VecDeque::new(), tombstones: VecDeque::new(), total_consumers: 0 }
    }

    /// Record a retired token, forgetting the oldest past the capacity.
    pub fn push_tombstone(&mut self, token: SequenceArmToken)
        requires
            old(self).wf(),
        ensures
            final(self).wf(),
            final(self).spec_tombstones() == with_tombstone(old(self).spec_tombstones(), token),
            final(self).spec_arms() == old(self).spec_arms(),
    {
        push_capped(&mut self.tombstones, token);
    }

    pub fn is_tombstone(&self, token: SequenceArmToken) -> (r: bool)
        ensures
            r == self.spec_tombstones().contains(token),
    {
        let mut i: usize = 0;
        while i < self.tombstones.len()
            invariant
                0 <= i <= self.tombstones@.len(),
                forall|k: int| 0 <= k < i ==> self.tombstones@[k] != token,
            decreases self.tombstones@.len() - i,
        {
            if self.tombstones[i] == token {
                return true;
            }
            i = i + 1;
        }
        false
    }

    fn position(&self, token: &SequenceArmToken) -> (r: Option<usize>)
        ensures
            r matches Some(i) ==> i < self.arms@.len() && self.arms@[i as int].token == *token,
            r is None ==> !arm_tokens(self.arms@).contains(*token),
    {
        let mut i: usize = 0;
        while i < self.arms.len()
            invariant
                0 <= i <= self.arms@.len(),
                forall|k: int| 0 <= k < i ==> self.arms@[k].token != *token,
            decreases self.arms@.len() - i,
        {
            if self.arms[i].token == *token {
                return Some(i);
            }
            i = i + 1;
        }
        assert forall|k: int| 0 <= k < arm_tokens(self.arms@).len() implies arm_tokens(self.arms@)[k] != *token by {
            assert(arm_tokens(self.arms@)[k] == self.arms@[k].token);
        }
        None
    }

    pub fn get(&self, token: &SequenceArmToken) -> (r: Option<&SequenceArm>)
        ensures
            r is None <==> !arm_tokens(self.spec_arms()).contains(*token),
            r matches Some(a) ==> a.token == *token && self.spec_arms().contains(*a),
    {
        match self.position(token) {
            Some(i) => {
                assert(arm_tokens(self.arms@)[i as int] == *token);
                Some(&self.arms[i])
            },
            None => None,
        }
    }

    pub fn contains_key(&self, token: &SequenceArmToken) -> (r: bool)
        ensures
            r == arm_tokens(self.spec_arms()).contains(*token),
    {
        match self.position(token) {
            Some(i) => {
                assert(arm_tokens(self.arms@)[i as int] == *token);
                true
            },
            None => false,
        }
    }

    /// Forget the index entry of a clock, purpose and target.
    fn remove_index(&mut self, key: ClockKey, purpose: SequencePurpose, target: u64)
        ensures
            final(self).arms == old(self).arms,
            final(self).tombstones == old(self).tombstones,
            final(self).total_consumers == old(self).total_consumers,
            final(self).fifo == old(self).fifo,
            final(self).index@ == index_without(old(self).index@, key, purpose, target),
    {
        let ghost pred = |e: IndexEntry| !serves(e, key, purpose, target);
        let mut kept: Vec<IndexEntry> = Vec::new();
        let mut i: usize = 0;
        proof {
            reveal(Seq::filter);
        }
        while i < self.index.len()
            invariant
                0 <= i <= self.index@.len(),
                pred == (|e: IndexEntry| !serves(e, key, purpose, target)),
                kept@ == self.index@.subrange(0, i as int).filter(pred),
            decreases self.index@.len() - i,
        {
            let entry = self.index[i];
            proof {
                assert(self.index@.subrange(0, i + 1) =~= self.index@.subrange(0, i as int).push(entry));
                self.index@.subrange(0, i as int).lemma_filter_push(entry, pred);
            }
            if !(entry.key == key && entry.purpose == purpose && entry.target == target) {
                kept.push(entry);
            }
            i = i + 1;
        }
        assert(self.index@.subrange(0, i as int) =~= self.index@);
        self.index = kept;
    }

    /// Drop a token from the dispatch order.
    fn remove_from_fifo(&mut self, token: SequenceArmToken)
        ensures
            final(self).arms == old(self).arms,
            final(self).tombstones == old(self).tombstones,
            final(self).total_consumers == old(self).total_consumers,
            final(self).index == old(self).index,
            final(self).fifo@ == fifo_without(old(self).fifo@, token),
            !final(self).fifo@.contains(token),
    {
        let ghost pred = other_than(token);
        let mut kept: VecDeque<SequenceArmToken> = VecDeque::new();
        let mut i: usize = 0;
        proof {
            reveal(Seq::filter);
        }
        while i < self.fifo.len()
            invariant
                0 <= i <= self.fifo@.len(),
                pred == other_than(token),
                kept@ == self.fifo@.subrange(0, i as int).filter(pred),
                !kept@.contains(token),
            decreases self.fifo@.len() - i,
        {
            let t = self.fifo[i];
            proof {
                assert(self.fifo@.subrange(0, i + 1) =~= self.fifo@.subrange(0, i as int).push(t));
                self.fifo@.subrange(0, i as int).lemma_filter_push(t, pred);
            }
            if t != token {
                kept.push_back(t);
            }
            i = i + 1;
        }
        assert(self.fifo@.subrange(0, i as int) =~= self.fifo@);
        self.fifo = kept;
    }


    /// The token the index records for a clock, purpose and target.
    fn lookup_index(&self, key: ClockKey, purpose: SequencePurpose, target: u64) -> (r: Option<SequenceArmToken>)
        ensures
            r == index_lookup(self.index@, key, purpose, target),
    {
        let mut i: usize = self.index.len();
        assert(self.index@.take(i as int) =~= self.index@);
        while i > 0
            invariant
                0 <= i <= self.index@.len(),
                index_lookup(self.index@, key, purpose, target) == index_lookup(self.index@.take(i as int), key, purpose, target),
            decreases i,
        {
            let entry = self.index[i - 1];
            proof {
                assert(self.index@.take(i as int).last() == entry);
                assert(self.index@.take(i as int).drop_last() =~= self.index@.take(i - 1));
            }
            if entry.key == key && entry.purpose == purpose && entry.target == target {
                return Some(entry.token);
            }
            i = i - 1;
        }
        None
    }

    /// The position of the first arm whose token carries `raw`.
    fn position_raw(&self, raw: u64) -> (r: usize)
        ensures
            r as int == arm_at(self.arms@, raw, 0),
    {
        proof {
            lemma_arm_at(self.arms@, raw, 0);
        }
        let mut i: usize = 0;
        while i < self.arms.len()
            invariant
                0 <= i <= self.arms@.len(),
                forall|k: int| 0 <= k < i ==> self.arms@[k].token@ != raw,
                from_le(self.arms@, raw, i as int),
            decreases self.arms@.len() - i,
        {
            if self.arms[i].token.as_user_data() == raw {
                return i;
            }
            i = i + 1;
        }
        i
    }

    /// Retire the arm at `i` and hand it back.
    fn retire_at(&mut self, i: usize, drop_fifo: bool) -> (arm: SequenceArm)
        requires
            old(self).wf(),
            i < old(self).spec_arms().len(),
        ensures
            final(self).wf(),
            retired_at(old(self), final(self), i as int, drop_fifo),
            arm == old(self).spec_arms()[i as int],
    {
        let arm = self.arms.remove(i);
        self.remove_index(arm.key, arm.purpose, arm.requested_target);
        self.total_consumers = self.total_consumers.saturating_sub(arm.consumers.len());
        if drop_fifo {
            self.remove_from_fifo(arm.token);
        }
        push_capped(&mut self.tombstones, arm.token);
        arm
    }

    /// Reserve a sequence arm for one clock, purpose and target. A
    /// publishing arm already serving them is shared, its consumers merged;
    /// otherwise a new arm waits for dispatch under a fresh token. The
    /// device's bounds are never exceeded and nothing is evicted.
    pub fn reserve(
        &mut self,
        clock: Option<&CrtcClock>,
        poisoned: bool,
        legacy_drain: bool,
        ids: &mut IdentityAllocator,
        key: ClockKey,
        purpose: SequencePurpose,
        target: u64,
        consumers: &[SequenceConsumer],
    ) -> (r: Result<SequenceArmToken, SequenceError>)
        requires
            old(self).wf(),
        ensures
            final(self).wf(),
            final(ids).spec_incarnation() == old(ids).spec_incarnation(),
            final(ids).spec_next_commit() == old(ids).spec_next_commit(),
            r is Err ==> *final(self) == *old(self) && final(ids).spec_last_token() == old(ids).spec_last_token(),
            !clock_ready(clock, key, poisoned, legacy_drain) ==> r == Err::<SequenceArmToken, SequenceError>(SequenceError::ClockNotReady),
            r is Ok ==> !poisoned && clock is Some && clock->0.key == key && !clock->0.queue_failed && (legacy_drain || (
            clock->0.probe == ProbeState::Succeeded && clock->0.source == ClockSource::KernelSequence)),
            (!poisoned && clock is Some && clock->0.key == key && !clock->0.queue_failed && (legacy_drain || (clock->0.probe
                == ProbeState::Succeeded && clock->0.source == ClockSource::KernelSequence))) ==> r != Err::<SequenceArmToken, SequenceError>(
                SequenceError::ClockNotReady,
            ),
            clock_ready(clock, key, poisoned, legacy_drain) && shared_arm(old(self), key, purpose, target) is Some ==> ({
                let i = shared_arm(old(self), key, purpose, target)->0;
                let arm = old(self).spec_arms()[i];
                let merged = merged_consumers(arm.consumers@, consumers@);
                &&& old(self).spec_total() + new_consumer_count(arm.consumers@, consumers@) > 4096 ==> r == Err::<
                    SequenceArmToken,
                    SequenceError,
                >(SequenceError::Capacity)
                &&& old(self).spec_total() + new_consumer_count(arm.consumers@, consumers@) <= 4096 ==> {
                    &&& r == Ok::<SequenceArmToken, SequenceError>(arm.token)
                    &&& final(self).spec_arms().len() == old(self).spec_arms().len()
                    &&& forall|k: int| 0 <= k < old(self).spec_arms().len() && k != i ==> #[trigger] final(self).spec_arms()[k]
                        == old(self).spec_arms()[k]
                    &&& same_but_consumers(final(self).spec_arms()[i], arm)
                    &&& final(self).spec_arms()[i].publishable == arm.publishable
                    &&& final(self).spec_arms()[i].consumers@ == merged
                    &&& final(self).spec_total() == old(self).spec_total() + merged.len() - arm.consumers@.len()
                    &&& final(self).spec_index() == old(self).spec_index()
                    &&& final(self).spec_fifo() == old(self).spec_fifo()
                    &&& final(self).spec_tombstones() == old(self).spec_tombstones()
                    &&& final(ids).spec_last_token() == old(ids).spec_last_token()
                }
            }),
            clock_ready(clock, key, poisoned, legacy_drain) && shared_arm(old(self), key, purpose, target) is None ==> ({
                let n = old(self).spec_arms().len();
                let room = n < 256 && old(self).spec_total() + consumers@.len() <= 4096;
                &&& n >= 256 ==> r == Err::<SequenceArmToken, SequenceError>(SequenceError::Capacity)
                &&& n < 256 && old(self).spec_total() + consumers@.len() > 4096 ==> r == Err::<SequenceArmToken, SequenceError>(
                    SequenceError::Capacity,
                )
                &&& room && old(ids).spec_last_token() == u64::MAX ==> r == Err::<SequenceArmToken, SequenceError>(
                    SequenceError::IdentityExhausted,
                )
                &&& room && old(ids).spec_last_token() < u64::MAX ==> {
                    let arm = final(self).spec_arms()[n as int];
                    &&& r matches Ok(t) && t@ == old(ids).spec_last_token() + 1
                    &&& final(ids).spec_last_token() == old(ids).spec_last_token() + 1
                    &&& final(self).spec_arms().len() == n + 1
                    &&& final(self).spec_arms().take(n as int) == old(self).spec_arms()
                    &&& arm.token == r->Ok_0
                    &&& arm.key == key
                    &&& arm.lifecycle_epoch == clock->0.lifecycle_epoch
                    &&& arm.topology_generation == clock->0.topology_generation
                    &&& arm.purpose == purpose
                    &&& arm.requested_target == target
                    &&& arm.scheduled_target is None
                    &&& arm.consumers@ == merged_consumers(Seq::empty(), consumers@)
                    &&& arm.phase == SequenceArmPhase::PendingDispatch
                    &&& arm.publishable
                    &&& arm.staged_sample is None
                    &&& final(self).spec_index() == index_without(old(self).spec_index(), key, purpose, target).push(
                        IndexEntry { key, purpose, target, token: r->Ok_0 },
                    )
                    &&& final(self).spec_fifo() == old(self).spec_fifo().push(r->Ok_0)
                    &&& final(self).spec_tombstones() == old(self).spec_tombstones()
                    &&& final(self).spec_total() == old(self).spec_total() + merged_consumers(Seq::empty(), consumers@).len()
                }
            }),
    {
        if poisoned {
            return Err(SequenceError::ClockNotReady);
        }
        let c = match clock {
            Some(c) => c,
            None => {
                return Err(SequenceError::ClockNotReady);
            },
        };
        if c.key != key {
            return Err(SequenceError::ClockNotReady);
        }
        if !legacy_drain && (c.probe != ProbeState::Succeeded || c.source != ClockSource::KernelSequence) {
            return Err(SequenceError::ClockNotReady);
        }
        if c.queue_failed {
            return Err(SequenceError::ClockNotReady);
        }
        match self.lookup_index(key, purpose, target) {
            Some(t) => {
                let i = self.position_raw(t.as_user_data());
                if i < self.arms.len() && self.arms[i].publishable {
                    let fresh = count_new(&self.arms[i].consumers, consumers);
                    if fresh > MAX_LOGICAL_CONSUMERS - self.total_consumers {
                        return Err(SequenceError::Capacity);
                    }
                    proof {
                        lemma_merged_consumers(self.arms@[i as int].consumers@, consumers@);
                        lemma_arm_at(self.arms@, t@, 0);
                        SequenceArmToken::lemma_view_injective(t, self.arms@[i as int].token);
                    }
                    let ghost before = self.arms@;
                    let mut arm = self.arms.remove(i);
                    let added = merge_into(&mut arm.consumers, consumers);
                    self.total_consumers = self.total_consumers + added;
                    self.arms.insert(i, arm);
                    proof {
                        assert forall|k: int| 0 <= k < before.len() && k != i implies #[trigger] self.arms@[k] == before[k] by {
                            if k < i {
                                assert(self.arms@[k] == before.remove(i as int)[k]);
                            } else {
                                assert(self.arms@[k] == before.remove(i as int)[k - 1]);
                            }
                        }
                    }
                    return Ok(t);
                }
            },
            None => {},
        }
        if self.arms.len() >= MAX_ACTIVE_ARMS {
            return Err(SequenceError::Capacity);
        }
        if consumers.len() > MAX_LOGICAL_CONSUMERS - self.total_consumers {
            return Err(SequenceError::Capacity);
        }
        let token = match ids.checked_next_sequence_arm() {
            Some(token) => token,
            None => {
                return Err(SequenceError::IdentityExhausted);
            },
        };
        let mut merged: Vec<SequenceConsumer> = Vec::new();
        proof {
            lemma_merged_consumers(Seq::empty(), consumers@);
        }
        let added = merge_into(&mut merged, consumers);
        let arm = SequenceArm {
            token,
            key,
            lifecycle_epoch: c.lifecycle_epoch,
            topology_generation: c.topology_generation,
            purpose,
            requested_target: target,
            scheduled_target: None,
            consumers: merged,
            phase: SequenceArmPhase::PendingDispatch,
            publishable: true,
            staged_sample: None,
        };
        self.total_consumers = self.total_consumers + added;
        self.remove_index(key, purpose, target);
        self.index.push(IndexEntry { key, purpose, target, token });
        self.fifo.push_back(token);
        let ghost before = self.arms@;
        self.arms.push(arm);
        assert(self.arms@.take(before.len() as int) =~= before);
        Ok(token)
    }

    /// Apply a kernel sequence event to the arm its token names.
    pub fn apply_sequence_event(
        &mut self,
        clock: &mut Option<CrtcClock>,
        legacy_drain: bool,
        owner: IncarnationId,
        incarnation: IncarnationId,
        token: u64,
        time_ns: i64,
        sequence: u64,
    ) -> (r: Option<SequenceEvent>)
        requires
            old(self).wf(),
        ensures
            final(self).wf(),
            sequence_event_applied(
                old(self),
                final(self),
                *old(clock),
                *final(clock),
                legacy_drain,
                owner,
                incarnation,
                token,
                time_ns,
                sequence,
                r,
            ),
    {
        if incarnation != owner || token == 0 || time_ns < 0 {
            return None;
        }
        let i = self.position_raw(token);
        if i >= self.arms.len() {
            return None;
        }
        let matches = match clock {
            Some(c) => c.key == self.arms[i].key && c.lifecycle_epoch == self.arms[i].lifecycle_epoch && c.topology_generation
                == self.arms[i].topology_generation,
            None => false,
        };
        if !matches {
            return None;
        }
        let sample = ClockSample { msc: sequence, ust: time_ns as u64 };
        if self.arms[i].phase == SequenceArmPhase::InFlight {
            if self.arms[i].staged_sample.is_none() {
                let ghost before = self.arms@;
                let mut arm = self.arms.remove(i);
                arm.staged_sample = Some(sample);
                self.arms.insert(i, arm);
                assert(self.arms@ =~= before.update(i as int, SequenceArm { staged_sample: Some(sample), ..before[i as int] }));
            }
            return None;
        }
        let arm = self.retire_at(i, true);
        if !arm.publishable {
            return None;
        }
        if legacy_drain {
            return Some(SequenceEvent::LegacyClockSample { key: arm.key, sample, purpose: arm.purpose });
        }
        match clock {
            Some(c) => {
                publish_into(c, sample);
            },
            None => {},
        }
        Some(SequenceEvent::ClockSample { key: arm.key, sample, origin: ClockSampleOrigin::Sequence(arm.purpose) })
    }

    /// Resolve the executor's reply to a sequence-queue request.
    pub fn resolve_queue_reply(
        &mut self,
        queue_outstanding: Option<SequenceArmToken>,
        clock: &mut Option<CrtcClock>,
        legacy_drain: bool,
        owner: IncarnationId,
        correlation: QueueCorrelation,
        reply: QueueReply,
    ) -> (r: QueueResolution)
        requires
            old(self).wf(),
        ensures
            final(self).wf(),
            queue_reply_resolved(
                old(self),
                final(self),
                *old(clock),
                *final(clock),
                queue_outstanding,
                legacy_drain,
                owner,
                correlation,
                reply,
                r,
            ),
    {
        let stale = SequenceEvent::StaleReply { correlation };
        let current = match queue_outstanding {
            Some(t) => t == correlation.token,
            None => false,
        };
        if correlation.incarnation != owner || !current {
            return QueueResolution { event: Some(stale), release_queue: false, failure: None };
        }
        let i = self.position_raw(correlation.token.as_user_data());
        if i >= self.arms.len() {
            return QueueResolution { event: Some(stale), release_queue: true, failure: None };
        }
        if self.arms[i].key.hardware_crtc != correlation.hardware_crtc || self.arms[i].key.epoch != correlation.clock_epoch
            || self.arms[i].lifecycle_epoch != correlation.lifecycle_epoch || self.arms[i].topology_generation
            != correlation.topology_generation {
            return QueueResolution { event: Some(stale), release_queue: true, failure: None };
        }
        let unknown = SequenceEvent::MechanismFailed { reason: MechanismFailure::HostCallUnknown };
        match reply {
            QueueReply::Accepted { sequence } => {
                let staged = self.arms[i].staged_sample;
                let publishable = self.arms[i].publishable;
                match staged {
                    Some(sample) => {
                        let arm = self.retire_at(i, false);
                        if !publishable {
                            return QueueResolution { event: None, release_queue: true, failure: None };
                        }
                        let present = match clock {
                            Some(c) => c.key == arm.key,
                            None => false,
                        };
                        if !present {
                            return QueueResolution { event: None, release_queue: true, failure: None };
                        }
                        if legacy_drain {
                            return QueueResolution {
                                event: Some(SequenceEvent::LegacyClockSample { key: arm.key, sample, purpose: arm.purpose }),
                                release_queue: true,
                                failure: None,
                            };
                        }
                        match clock {
                            Some(c) => {
                                publish_into(c, sample);
                            },
                            None => {},
                        }
                        QueueResolution {
                            event: Some(
                                SequenceEvent::ClockSample { key: arm.key, sample, origin: ClockSampleOrigin::Sequence(arm.purpose) },
                            ),
                            release_queue: true,
                            failure: None,
                        }
                    },
                    None => {
                        if !publishable {
                            let _ = self.retire_at(i, false);
                        } else {
                            let ghost before = self.arms@;
                            let mut arm = self.arms.remove(i);
                            arm.phase = SequenceArmPhase::Armed;
                            arm.scheduled_target = Some(sequence);
                            self.arms.insert(i, arm);
                            assert(self.arms@ =~= before.update(
                                i as int,
                                SequenceArm { phase: SequenceArmPhase::Armed, scheduled_target: Some(sequence), ..before[i as int] },
                            ));
                        }
                        QueueResolution { event: None, release_queue: true, failure: None }
                    },
                }
            },
            QueueReply::Rejected { errno } => {
                let arm = self.retire_at(i, false);
                if arm.staged_sample.is_some() {
                    return QueueResolution {
                        event: Some(SequenceEvent::MechanismFailed { reason: MechanismFailure::ActiveEventContradiction }),
                        release_queue: true,
                        failure: Some(MechanismFailure::ActiveEventContradiction),
                    };
                }
                match clock {
                    Some(c) => {
                        if c.key == arm.key {
                            c.queue_failed = true;
                        }
                    },
                    None => {},
                }
                let publishable = arm.publishable;
                let key = arm.key;
                let any = arm.consumers.len() > 0;
                let event = if publishable && any {
                    Some(SequenceEvent::SequenceArmFailed { key, consumers: arm.consumers, errno: Some(errno) })
                } else {
                    None
                };
                QueueResolution { event, release_queue: true, failure: None }
            },
            QueueReply::Unknown => QueueResolution {
                event: Some(unknown),
                release_queue: false,
                failure: Some(MechanismFailure::HostCallUnknown),
            },
            QueueReply::Other => QueueResolution {
                event: Some(unknown),
                release_queue: true,
                failure: Some(MechanismFailure::HostCallUnknown),
            },
        }
    }

    /// Resolve the executor's reply to a device's sequence-queue request
    /// against the device's clocks: the reply may update the clock of the
    /// named arm's key, a released queue lease is cleared, a mechanism
    /// failure is recorded, and the resolution's events are returned.
    pub fn resolve_sequence_queue(
        &mut self,
        queue_outstanding: &mut Option<SequenceArmToken>,
        mechanism_failure: &mut Option<MechanismFailure>,
        clocks: &mut Vec<CrtcClock>,
        legacy_drain: bool,
        owner: IncarnationId,
        correlation: QueueCorrelation,
        reply: QueueReply,
    ) -> (r: Vec<SequenceEvent>)
        requires
            old(self).wf(),
        ensures
            final(self).wf(),
            ({
                let cs = old(clocks)@;
                let k = clock_position(cs, reply_clock_key(old(self), correlation), 0);
                let oc = clock_at(cs, k);
                exists|res: QueueResolution, nc: Option<CrtcClock>|
                    #![trigger queue_reply_resolved(old(self), final(self), oc, nc, *old(queue_outstanding), legacy_drain, owner, correlation, reply, res)]
                    {
                        &&& queue_reply_resolved(
                            old(self),
                            final(self),
                            oc,
                            nc,
                            *old(queue_outstanding),
                            legacy_drain,
                            owner,
                            correlation,
                            reply,
                            res,
                        )
                        &&& r@ == resolution_events(res)
                        &&& (nc is Some <==> oc is Some)
                        &&& final(clocks)@ == if k < cs.len() {
                            cs.update(k, nc->0)
                        } else {
                            cs
                        }
                        &&& *final(queue_outstanding) == if res.release_queue {
                            None
                        } else {
                            *old(queue_outstanding)
                        }
                        &&& *final(mechanism_failure) == if res.failure is Some {
                            res.failure
                        } else {
                            *old(mechanism_failure)
                        }
                    }
            }),
    {
        let i = self.position_raw(correlation.token.as_user_data());
        let ghost key = reply_clock_key(self, correlation);
        let k: usize = if i < self.arms.len() {
            clock_index(clocks, self.arms[i].key)
        } else {
            clocks.len()
        };
        let ghost cs = clocks@;
        assert(k as int == clock_position(cs, key, 0));
        let present = k < clocks.len();
        let mut clock: Option<CrtcClock> = if present {
            Some(clocks.remove(k))
        } else {
            None
        };
        let res = self.resolve_queue_reply(*queue_outstanding, &mut clock, legacy_drain, owner, correlation, reply);
        let ghost nc = clock;
        if present {
            assert(clock is Some);
            match clock {
                Some(c) => {
                    clocks.insert(k, c);
                },
                None => {},
            }
            assert(clocks@ =~= cs.update(k as int, nc->0));
        }
        if res.release_queue {
            *queue_outstanding = None;
        }
        match res.failure {
            Some(f) => {
                *mechanism_failure = Some(f);
            },
            None => {},
        }
        let mut events: Vec<SequenceEvent> = Vec::new();
        match res.event {
            Some(e) => {
                events.push(e);
            },
            None => {},
        }
        assert(events@ =~= resolution_events(res));
        proof {
            let oc = clock_at(cs, k as int);
            assert(queue_reply_resolved(old(self), self, oc, nc, *old(queue_outstanding), legacy_drain, owner, correlation, reply, res));
        }
        events
    }

    /// Take the next arm waiting for dispatch from the front of the
    /// dispatch order, dropping tokens ahead of it whose arms no longer wait.
    pub fn next_pending(&mut self) -> (r: Option<SequenceArmToken>)
        requires
            old(self).wf(),
        ensures
            final(self).wf(),
            ({
                let f = old(self).spec_fifo();
                let k = first_pending(old(self).spec_arms(), f, 0);
                &&& r == (if k < f.len() { Some(f[k]) } else { None::<SequenceArmToken> })
                &&& final(self).spec_fifo() == f.subrange(if k < f.len() { k + 1 } else { f.len() as int }, f.len() as int)
            }),
            final(self).spec_arms() == old(self).spec_arms(),
            final(self).spec_index() == old(self).spec_index(),
            final(self).spec_tombstones() == old(self).spec_tombstones(),
            final(self).spec_total() == old(self).spec_total(),
    {
        let ghost f = self.fifo@;
        let ghost arms = self.arms@;
        let ghost mut n: int = 0;
        assert(f.subrange(0, f.len() as int) =~= f);
        while self.fifo.len() > 0
            invariant
                self.arms@ == arms,
                self.index == old(self).index,
                self.tombstones == old(self).tombstones,
                self.total_consumers == old(self).total_consumers,
                f == old(self).fifo@,
                arms == old(self).arms@,
                0 <= n <= f.len(),
                self.wf(),
                self.fifo@ == f.subrange(n, f.len() as int),
                first_pending(arms, f, 0) == first_pending(arms, f, n),
            decreases self.fifo@.len(),
        {
            let t = match self.fifo.pop_front() {
                Some(t) => t,
                None => {
                    return None;
                },
            };
            assert(t == f[n]);
            let i = self.position_raw(t.as_user_data());
            if i < self.arms.len() && self.arms[i].phase == SequenceArmPhase::PendingDispatch {
                assert(self.fifo@ =~= f.subrange(n + 1, f.len() as int));
                return Some(t);
            }
            proof {
                n = n + 1;
            }
            assert(self.fifo@ =~= f.subrange(n, f.len() as int));
        }
        None
    }

    /// Mark the arm a token names as dispatched, when it waits for dispatch.
    pub fn mark_in_flight(&mut self, token: SequenceArmToken) -> (r: bool)
        requires
            old(self).wf(),
        ensures
            final(self).wf(),
            ({
                let arms = old(self).spec_arms();
                let i = arm_at(arms, token@, 0);
                &&& r == (i < arms.len() && arms[i].phase == SequenceArmPhase::PendingDispatch)
                &&& r ==> final(self).spec_arms() == arms.update(i, SequenceArm { phase: SequenceArmPhase::InFlight, ..arms[i] })
                &&& !r ==> final(self).spec_arms() == arms
            }),
            final(self).spec_fifo() == old(self).spec_fifo(),
            final(self).spec_index() == old(self).spec_index(),
            final(self).spec_tombstones() == old(self).spec_tombstones(),
            final(self).spec_total() == old(self).spec_total(),
    {
        let i = self.position_raw(token.as_user_data());
        if i < self.arms.len() && self.arms[i].phase == SequenceArmPhase::PendingDispatch {
            let ghost before = self.arms@;
            let mut arm = self.arms.remove(i);
            arm.phase = SequenceArmPhase::InFlight;
            self.arms.insert(i, arm);
            assert(self.arms@ =~= before.update(i as int, SequenceArm { phase: SequenceArmPhase::InFlight, ..before[i as int] }));
            true
        } else {
            false
        }
    }

    /// The queue request for an arm: an idle wake asks for the next
    /// vblank, relative; a present wake asks for its target, absolute.
    /// `None` when no arm has the token.
    pub fn queue_request(&self, token: SequenceArmToken) -> (r: Option<(bool, u64)>)
        ensures
            ({
                let arms = self.spec_arms();
                let i = arm_at(arms, token@, 0);
                &&& i >= arms.len() ==> r is None
                &&& i < arms.len() && arms[i].purpose == SequencePurpose::IdleClockWake ==> r == Some((true, 1u64))
                &&& i < arms.len() && arms[i].purpose == SequencePurpose::PresentTargetWake ==> r == Some(
                    (false, arms[i].requested_target),
                )
            }),
    {
        let i = self.position_raw(token.as_user_data());
        if i >= self.arms.len() {
            return None;
        }
        match self.arms[i].purpose {
            SequencePurpose::IdleClockWake => Some((true, 1)),
            SequencePurpose::PresentTargetWake => Some((false, self.arms[i].requested_target)),
        }
    }

    /// Put a token back at the front of the dispatch order.
    pub fn requeue_front(&mut self, token: SequenceArmToken)
        requires
            old(self).wf(),
        ensures
            final(self).wf(),
            final(self).spec_fifo() == seq![token] + old(self).spec_fifo(),
            final(self).spec_arms() == old(self).spec_arms(),
            final(self).spec_index() == old(self).spec_index(),
            final(self).spec_tombstones() == old(self).spec_tombstones(),
            final(self).spec_total() == old(self).spec_total(),
    {
        self.fifo.push_front(token);
        assert(self.fifo@ =~= seq![token] + old(self).fifo@);
    }

    /// Route a kernel DRM event: a live arm's token on an event that is not
    /// a sequence event contradicts the arm; a sequence event goes to its
    /// arm; anything else is not the arms' concern.
    pub fn apply_drm_event(
        &mut self,
        clock: &mut Option<CrtcClock>,
        legacy_drain: bool,
        owner: IncarnationId,
        incarnation: IncarnationId,
        event: DrmEvent,
    ) -> (r: Option<SequenceEvent>)
        requires
            old(self).wf(),
        ensures
            final(self).wf(),
            ({
                let raw = event_user_data(event);
                let live = arm_at(old(self).spec_arms(), raw, 0) < old(self).spec_arms().len();
                &&& incarnation != owner || raw == 0 ==> r is None && *final(self) == *old(self) && *final(clock) == *old(clock)
                &&& incarnation == owner && raw != 0 && live && !(event is CrtcSequence) ==> r == Some(
                    SequenceEvent::MechanismFailed { reason: MechanismFailure::ActiveEventContradiction },
                ) && *final(self) == *old(self) && *final(clock) == *old(clock)
                &&& incarnation == owner && raw != 0 && !live && !(event is CrtcSequence) ==> r is None && *final(self) == *old(self)
                    && *final(clock) == *old(clock)
                &&& incarnation == owner && raw != 0 && event is CrtcSequence ==> sequence_event_applied(
                    old(self),
                    final(self),
                    *old(clock),
                    *final(clock),
                    legacy_drain,
                    owner,
                    incarnation,
                    raw,
                    event->CrtcSequence_time_ns,
                    event->CrtcSequence_sequence,
                    r,
                )
            }),
    {
        let user_data = match event {
            DrmEvent::PageFlip { user_data } => user_data,
            DrmEvent::Vblank { user_data } => user_data,
            DrmEvent::CrtcSequence { user_data, .. } => user_data,
        };
        if incarnation != owner || user_data == 0 {
            return None;
        }
        let i = self.position_raw(user_data);
        match event {
            DrmEvent::CrtcSequence { sequence, time_ns, user_data } => {
                self.apply_sequence_event(clock, legacy_drain, owner, incarnation, user_data, time_ns, sequence)
            },
            _ => {
                if i < self.arms.len() {
                    Some(SequenceEvent::MechanismFailed { reason: MechanismFailure::ActiveEventContradiction })
                } else {
                    None
                }
            },
        }
    }

    /// Cancel one logical consumer everywhere. An arm left without consumers
    /// stops being publishable; it is retired unless its dispatch is in
    /// flight, in which case it stays so the reply can still be correlated.
    pub fn cancel_consumer(&mut self, consumer: SequenceConsumer)
        requires
            old(self).wf(),
        ensures
            final(self).wf(),
            ({
                let kept = old(self).spec_arms().filter(|a: SequenceArm| consumer_keeps(a, consumer));
                &&& final(self).spec_arms().len() == kept.len()
                &&& forall|k: int| 0 <= k < kept.len() ==> same_but_consumers(#[trigger] final(self).spec_arms()[k], kept[k])
                &&& forall|k: int| 0 <= k < kept.len() ==> (#[trigger] final(self).spec_arms()[k]).consumers@ == other_consumers(kept[k].consumers@, consumer)
                &&& forall|k: int| 0 <= k < kept.len() ==> (#[trigger] final(self).spec_arms()[k]).publishable == (kept[k].publishable
                    && !(kept[k].consumers@.contains(consumer) && other_consumers(kept[k].consumers@, consumer).len() == 0))
            }),
            final(self).spec_tombstones() == with_tombstones(
                old(self).spec_tombstones(),
                arm_tokens(old(self).spec_arms().filter(|a: SequenceArm| !consumer_keeps(a, consumer))),
            ),
            final(self).spec_index() == index_without_arms(old(self).spec_index(), old(self).spec_arms().filter(emptied_by(consumer))),
            final(self).spec_fifo() == fifo_without_arms(old(self).spec_fifo(), old(self).spec_arms().filter(retired_by(consumer))),
            final(self).spec_total() == less(old(self).spec_total(), old(self).spec_arms().filter(waiting_for(consumer)).len()),
    {
        let mut pending: Vec<SequenceArm> = Vec::new();
        std::mem::swap(&mut pending, &mut self.arms);
        let ghost before = pending@;
        let ghost t0 = self.tombstones@;
        let ghost i0 = self.index@;
        let ghost f0 = self.fifo@;
        let ghost n0 = self.total_consumers as nat;
        let ghost has = waiting_for(consumer);
        let ghost emptied = emptied_by(consumer);
        let ghost out = retired_by(consumer);
        let ghost keep = |a: SequenceArm| consumer_keeps(a, consumer);
        let ghost gone = |a: SequenceArm| !consumer_keeps(a, consumer);
        assert(before.len() == pending.len());
        assert(before.subrange(0, 0) =~= Seq::<SequenceArm>::empty());
        proof {
            reveal(Seq::filter);
        }
        let mut kept: Vec<SequenceArm> = Vec::new();
        let mut n: usize = 0;
        while pending.len() > 0
            invariant
                self.tombstones@.len() <= 64,
                self.total_consumers <= 4096,
                n + pending@.len() == before.len(),
                before.len() <= usize::MAX,
                pending@ == before.subrange(n as int, before.len() as int),
                keep == (|a: SequenceArm| consumer_keeps(a, consumer)),
                gone == (|a: SequenceArm| !consumer_keeps(a, consumer)),
                kept@.len() == before.subrange(0, n as int).filter(keep).len(),
                forall|k: int| 0 <= k < kept@.len() ==> same_but_consumers(#[trigger] kept@[k], before.subrange(0, n as int).filter(keep)[k]),
                forall|k: int| 0 <= k < kept@.len() ==> (#[trigger] kept@[k]).consumers@ == other_consumers(before.subrange(0, n as int).filter(keep)[k].consumers@, consumer),
                forall|k: int| 0 <= k < kept@.len() ==> (#[trigger] kept@[k]).publishable == (before.subrange(0, n as int).filter(keep)[k].publishable
                    && !(before.subrange(0, n as int).filter(keep)[k].consumers@.contains(consumer) && other_consumers(before.subrange(0, n as int).filter(keep)[k].consumers@, consumer).len() == 0)),
                self.tombstones@ == with_tombstones(t0, arm_tokens(before.subrange(0, n as int).filter(gone))),
                has == waiting_for(consumer),
                emptied == emptied_by(consumer),
                out == retired_by(consumer),
                self.index@ == index_without_arms(i0, before.subrange(0, n as int).filter(emptied)),
                self.fifo@ == fifo_without_arms(f0, before.subrange(0, n as int).filter(out)),
                self.total_consumers as nat == less(n0, before.subrange(0, n as int).filter(has).len()),
            decreases pending@.len(),
        {
            let mut arm = pending.remove(0);
            let ghost original = before[n as int];
            assert(arm == original);
            let ghost prefix = before.subrange(0, n as int);
            let ghost kept_before = kept@;
            let ghost tomb_before = self.tombstones@;
            let ghost filtered = other_consumers(original.consumers@, consumer);
            let had = consumers_contain(&arm.consumers, consumer);
            let mut retired = false;
            if had {
                arm.consumers = without_consumer(&arm.consumers, consumer);
                assert(arm.consumers@ == filtered);
                self.total_consumers = self.total_consumers.saturating_sub(1);
                if arm.consumers.len() == 0 {
                    arm.publishable = false;
                    self.remove_index(arm.key, arm.purpose, arm.requested_target);
                    if arm.phase == SequenceArmPhase::PendingDispatch || arm.phase == SequenceArmPhase::Armed {
                        self.remove_from_fifo(arm.token);
                        push_capped(&mut self.tombstones, arm.token);
                        retired = true;
                    } else {
                        kept.push(arm);
                    }
                } else {
                    kept.push(arm);
                }
            } else {
                proof {
                    assert(filtered =~= original.consumers@) by {
                        lemma_filter_all(original.consumers@, consumer);
                    }
                }
                kept.push(arm);
            }
            proof {
                assert(before.subrange(0, n + 1) =~= prefix.push(original));
                prefix.lemma_filter_push(original, keep);
                prefix.lemma_filter_push(original, gone);
                prefix.lemma_filter_push(original, has);
                prefix.lemma_filter_push(original, emptied);
                prefix.lemma_filter_push(original, out);
                if emptied(original) {
                    assert(prefix.filter(emptied).push(original).drop_last() =~= prefix.filter(emptied));
                }
                if out(original) {
                    assert(prefix.filter(out).push(original).drop_last() =~= prefix.filter(out));
                }
                assert(consumer_keeps(original, consumer) == (!original.consumers@.contains(consumer) || filtered.len() > 0 || original.phase
                    == SequenceArmPhase::InFlight));
                assert(had == original.consumers@.contains(consumer));
                assert(retired == !consumer_keeps(original, consumer));
                if retired {
                    assert(arm_tokens(prefix.filter(gone).push(original)) =~= arm_tokens(prefix.filter(gone)).push(original.token));
                    assert(arm_tokens(prefix.filter(gone).push(original)).drop_last() =~= arm_tokens(prefix.filter(gone)));
                } else {
                    assert(kept@ == kept_before.push(kept@.last()));
                    assert(prefix.filter(keep).push(original)[kept_before.len() as int] == original);
                }
            }
            n = n + 1;
        }
        self.arms = kept;
        assert(before.subrange(0, before.len() as int) =~= before);
        assert(before =~= old(self).arms@);
    }

    /// Retire every arm of one clock. Arms whose dispatch is in flight stay,
    /// emptied and unpublishable, so their replies can still be correlated.
    pub fn cancel_matching_clock(&mut self, key: ClockKey)
        requires
            old(self).wf(),
        ensures
            final(self).wf(),
            ({
                let kept = old(self).spec_arms().filter(|a: SequenceArm| clock_keeps(a, key));
                &&& final(self).spec_arms().len() == kept.len()
                &&& forall|k: int| 0 <= k < kept.len() && kept[k].key != key ==> #[trigger] final(self).spec_arms()[k] == kept[k]
                &&& forall|k: int| 0 <= k < kept.len() ==> same_but_consumers(#[trigger] final(self).spec_arms()[k], kept[k])
                &&& forall|k: int| 0 <= k < kept.len() && kept[k].key == key ==> (#[trigger] final(self).spec_arms()[k]).consumers@.len() == 0
                    && !final(self).spec_arms()[k].publishable
            }),
            final(self).spec_tombstones() == with_tombstones(
                old(self).spec_tombstones(),
                arm_tokens(old(self).spec_arms().filter(|a: SequenceArm| !clock_keeps(a, key))),
            ),
            final(self).spec_index() == index_without_arms(old(self).spec_index(), old(self).spec_arms().filter(of_clock(key))),
            final(self).spec_fifo() == fifo_without_arms(old(self).spec_fifo(), old(self).spec_arms().filter(of_clock(key))),
            final(self).spec_total() == less(old(self).spec_total(), consumer_sum(old(self).spec_arms().filter(of_clock(key)))),
    {
        let mut pending: Vec<SequenceArm> = Vec::new();
        std::mem::swap(&mut pending, &mut self.arms);
        let ghost before = pending@;
        let ghost t0 = self.tombstones@;
        let ghost i0 = self.index@;
        let ghost f0 = self.fifo@;
        let ghost n0 = self.total_consumers as nat;
        let ghost hit = of_clock(key);
        let ghost keep = |a: SequenceArm| clock_keeps(a, key);
        let ghost gone = |a: SequenceArm| !clock_keeps(a, key);
        assert(before.len() == pending.len());
        assert(before.subrange(0, 0) =~= Seq::<SequenceArm>::empty());
        proof {
            reveal(Seq::filter);
        }
        let mut kept: Vec<SequenceArm> = Vec::new();
        let mut n: usize = 0;
        while pending.len() > 0
            invariant
                self.tombstones@.len() <= 64,
                self.total_consumers <= 4096,
                n + pending@.len() == before.len(),
                before.len() <= usize::MAX,
                pending@ == before.subrange(n as int, before.len() as int),
                keep == (|a: SequenceArm| clock_keeps(a, key)),
                gone == (|a: SequenceArm| !clock_keeps(a, key)),
                kept@.len() == before.subrange(0, n as int).filter(keep).len(),
                forall|k: int| 0 <= k < kept@.len() && before.subrange(0, n as int).filter(keep)[k].key != key ==> #[trigger] kept@[k]
                    == before.subrange(0, n as int).filter(keep)[k],
                forall|k: int| 0 <= k < kept@.len() ==> same_but_consumers(#[trigger] kept@[k], before.subrange(0, n as int).filter(keep)[k]),
                forall|k: int| 0 <= k < kept@.len() && before.subrange(0, n as int).filter(keep)[k].key == key ==> (#[trigger] kept@[k]).consumers@.len()
                    == 0 && !kept@[k].publishable,
                self.tombstones@ == with_tombstones(t0, arm_tokens(before.subrange(0, n as int).filter(gone))),
                hit == of_clock(key),
                self.index@ == index_without_arms(i0, before.subrange(0, n as int).filter(hit)),
                self.fifo@ == fifo_without_arms(f0, before.subrange(0, n as int).filter(hit)),
                self.total_consumers as nat == less(n0, consumer_sum(before.subrange(0, n as int).filter(hit))),
            decreases pending@.len(),
        {
            let mut arm = pending.remove(0);
            let ghost original = before[n as int];
            assert(arm == original);
            let ghost prefix = before.subrange(0, n as int);
            let ghost kept_before = kept@;
            let mut retired = false;
            if arm.key == key {
                self.remove_index(arm.key, arm.purpose, arm.requested_target);
                self.total_consumers = self.total_consumers.saturating_sub(arm.consumers.len());
                self.remove_from_fifo(arm.token);
                if arm.phase == SequenceArmPhase::InFlight {
                    arm.consumers = Vec::new();
                    arm.publishable = false;
                    kept.push(arm);
                } else {
                    push_capped(&mut self.tombstones, arm.token);
                    retired = true;
                }
            } else {
                kept.push(arm);
            }
            proof {
                assert(before.subrange(0, n + 1) =~= prefix.push(original));
                prefix.lemma_filter_push(original, keep);
                prefix.lemma_filter_push(original, gone);
                prefix.lemma_filter_push(original, hit);
                if original.key == key {
                    assert(prefix.filter(hit).push(original).drop_last() =~= prefix.filter(hit));
                }
                assert(retired == !clock_keeps(original, key));
                if retired {
                    assert(arm_tokens(prefix.filter(gone).push(original)) =~= arm_tokens(prefix.filter(gone)).push(original.token));
                    assert(arm_tokens(prefix.filter(gone).push(original)).drop_last() =~= arm_tokens(prefix.filter(gone)));
                } else {
                    assert(prefix.filter(keep).push(original)[kept_before.len() as int] == original);
                }
            }
            n = n + 1;
        }
        self.arms = kept;
        assert(before.subrange(0, before.len() as int) =~= before);
        assert(before =~= old(self).arms@);
        assert(hit == of_clock(key));
    }
}

/// Merging consumers keeps the existing ones in front and adds no more
/// than the new ones counted, and no more than were offered.
proof fn lemma_merged_consumers(existing: Seq<SequenceConsumer>, cs: Seq<SequenceConsumer>)
    ensures
        merged_consumers(existing, cs).len() >= existing.len(),
        merged_consumers(existing, cs).subrange(0, existing.len() as int) == existing,
        merged_consumers(existing, cs).len() <= existing.len() + new_consumer_count(existing, cs),
        new_consumer_count(existing, cs) <= cs.len(),
    decreases cs.len(),
{
    if cs.len() > 0 {
        lemma_merged_consumers(existing, cs.drop_last());
        let m = merged_consumers(existing, cs.drop_last());
        if !m.contains(cs.last()) {
            assert(m.push(cs.last()).subrange(0, existing.len() as int) =~= m.subrange(0, existing.len() as int));
            if existing.contains(cs.last()) {
                let k = choose|k: int| 0 <= k < existing.len() && existing[k] == cs.last();
                assert(m.subrange(0, existing.len() as int)[k] == m[k]);
            }
        }
    }
}

/// How many of `cs` an arm with `existing` consumers does not have.
fn count_new(existing: &Vec<SequenceConsumer>, cs: &[SequenceConsumer]) -> (n: usize)
    ensures
        n == new_consumer_count(existing@, cs@),
{
    let mut n: usize = 0;
    let mut i: usize = 0;
    while i < cs.len()
        invariant
            0 <= i <= cs@.len(),
            n == new_consumer_count(existing@, cs@.take(i as int)),
            n <= i,
        decreases cs@.len() - i,
    {
        proof {
            assert(cs@.take(i + 1).drop_last() =~= cs@.take(i as int));
            assert(cs@.take(i + 1).last() == cs@[i as int]);
        }
        if !consumers_contain(existing, cs[i]) {
            n = n + 1;
        }
        i = i + 1;
    }
    assert(cs@.take(i as int) =~= cs@);
    n
}

/// Add each of `cs` an arm does not yet have; the number added.
fn merge_into(consumers: &mut Vec<SequenceConsumer>, cs: &[SequenceConsumer]) -> (added: usize)
    ensures
        final(consumers)@ == merged_consumers(old(consumers)@, cs@),
        added == final(consumers)@.len() - old(consumers)@.len(),
{
    let ghost orig = consumers@;
    let mut added: usize = 0;
    let mut i: usize = 0;
    proof {
        lemma_merged_consumers(orig, cs@);
    }
    while i < cs.len()
        invariant
            0 <= i <= cs@.len(),
            orig == old(consumers)@,
            consumers@ == merged_consumers(orig, cs@.take(i as int)),
            added == consumers@.len() - orig.len(),
            consumers@.len() <= orig.len() + cs@.len(),
        decreases cs@.len() - i,
    {
        let c = cs[i];
        proof {
            assert(cs@.take(i + 1).drop_last() =~= cs@.take(i as int));
            assert(cs@.take(i + 1).last() == c);
            lemma_merged_consumers(orig, cs@.take(i as int));
        }
        if !consumers_contain(consumers, c) {
            consumers.push(c);
            added = added + 1;
        }
        i = i + 1;
    }
    assert(cs@.take(i as int) =~= cs@);
    added
}

/// Publish a sequence sample to its clock.
fn publish_into(clock: &mut CrtcClock, sample: ClockSample)
    ensures
        *final(clock) == published(*old(clock), sample),
{
    match clock.reference {
        Some(r) => {
            if sample.msc > r {
                clock.reference = Some(sample.msc);
            }
        },
        None => {},
    }
    clock.observe(sample);
}

/// Whether `consumer` waits on an arm.
fn consumers_contain(consumers: &Vec<SequenceConsumer>, consumer: SequenceConsumer) -> (r: bool)
    ensures
        r == consumers@.contains(consumer),
{
    let mut i: usize = 0;
    while i < consumers.len()
        invariant
            0 <= i <= consumers@.len(),
            forall|k: int| 0 <= k < i ==> consumers@[k] != consumer,
        decreases consumers@.len() - i,
    {
        if consumers[i] == consumer {
            return true;
        }
        i = i + 1;
    }
    false
}

/// The consumers without `consumer`, in their order.
fn without_consumer(consumers: &Vec<SequenceConsumer>, consumer: SequenceConsumer) -> (r: Vec<SequenceConsumer>)
    ensures
        r@ == other_consumers(consumers@, consumer),
        !r@.contains(consumer),
{
    let mut kept: Vec<SequenceConsumer> = Vec::new();
    let mut i: usize = 0;
    while i < consumers.len()
        invariant
            0 <= i <= consumers@.len(),
            kept@ == other_consumers(consumers@.subrange(0, i as int), consumer),
        decreases consumers@.len() - i,
    {
        let c = consumers[i];
        proof {
            assert(consumers@.subrange(0, i + 1).drop_last() =~= consumers@.subrange(0, i as int));
        }
        if c != consumer {
            kept.push(c);
        }
        i = i + 1;
    }
    proof {
        assert(consumers@.subrange(0, consumers@.len() as int) =~= consumers@);
        lemma_other_consumers_exclude(consumers@, consumer);
    }
    kept
}

/// Record a retired token, forgetting the oldest past the capacity.
fn push_capped(tombstones: &mut VecDeque<SequenceArmToken>, token: SequenceArmToken)
    requires
        old(tombstones)@.len() <= 64,
    ensures
        final(tombstones)@ == with_tombstone(old(tombstones)@, token),
        final(tombstones)@.len() <= 64,
{
    tombstones.push_back(token);
    if tombstones.len() > SEQUENCE_TOMBSTONE_CAPACITY {
        tombstones.pop_front();
        assert(tombstones@ =~= old(tombstones)@.push(token).drop_first());
    }
}


/// Cancelling a consumer an arm does not have leaves its consumers alone.
proof fn lemma_filter_all(s: Seq<SequenceConsumer>, consumer: SequenceConsumer)
    requires
        !s.contains(consumer),
    ensures
        other_consumers(s, consumer) == s,
    decreases s.len(),
{
    if s.len() > 0 {
        assert(!s.drop_last().contains(consumer)) by {
            if s.drop_last().contains(consumer) {
                let k = choose|k: int| 0 <= k < s.drop_last().len() && s.drop_last()[k] == consumer;
                assert(s[k] == consumer);
            }
        }
        lemma_filter_all(s.drop_last(), consumer);
        assert(s.last() != consumer) by {
            assert(s[s.len() - 1] == s.last());
        }
        assert(s.drop_last().push(s.last()) =~= s);
    }
}

} // verus!
