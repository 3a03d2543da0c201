//! Pure lifecycle decision types and identities.
pub mod arbiter;
pub mod coordinator;
pub mod desired;
pub mod ids;
pub mod recovery;
pub mod values;

pub use arbiter::{
    ArbiterInput, CommitProgress, LifecycleAction, LifecycleArbiter, LifecycleCommitOutcome,
    LifecycleReceipt, LifecycleReceiptResult, LifecycleTransition, LifecycleTransitionPhase,
    RecoveryAttemptOutcome,
};
pub use coordinator::{
    CoordinatorDispatch, CoordinatorError, CoordinatorOutputAddition, LifecycleCoordinator,
};
pub use desired::{
    DesiredField, DesiredIntent, DispositionChange, LifecycleDesired, OutputProjection,
    OutputProjectionRemoval, ProjectionResult, Representative, SeatTarget, TopologyChangeClass,
};
pub use ids::{ClockProbeId, LifecycleEpochId, LifecycleTransitionId};
pub use recovery::{
    dpms_target_for_level, table_f, table_u, CompletionUnknownRow, CompletionUnknownRowKind,
    DpmsTarget, EventFate, IncidentInvalidation, IncidentOrigin, IncidentResolution, IncidentSeed,
    LogicalUnknownActions, PhysicalBarriers, PhysicalUnknownOutcome, RecoveryAttemptBudget,
    RecoveryAttemptTrigger, RecoveryFate, RecoveryIdAllocator, RecoveryIncident,
    RecoveryIncidentState, RecoveryResolution, RecoveryWinner, TableFOutcome, TableUOutcome,
};
pub use values::{
    DeviceLifecycleState, Disposition, InvalidationReason, LifecycleEventId, LifecycleKind,
    Prerequisite, RecoveryId, TransitionTag, WorkTag,
};
