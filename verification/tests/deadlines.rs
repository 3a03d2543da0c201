use kms_owner::deadlines::{
    checked_deadline, fast_hardware, lifecycle_hardware, primary_event, DeadlineError, Span,
};
use std::time::Instant;

#[test]
fn hardware_and_event_windows_are_independent() {
    assert_eq!(fast_hardware(&[None]), Ok(Span::from_millis(100)));
    assert_eq!(
        fast_hardware(&[Some(Span::from_millis(400))]),
        Ok(Span::from_millis(1200))
    );
    assert_eq!(
        fast_hardware(&[Some(Span::from_secs(1))]),
        Ok(Span::from_secs(2))
    );
    assert_eq!(primary_event(None), Ok(Span::from_millis(50)));
    assert_eq!(
        primary_event(Some(Span::from_secs(1))),
        Ok(Span::from_millis(500))
    );
    assert_eq!(
        lifecycle_hardware(None),
        Err(DeadlineError::LifecycleUnvalidated)
    );
    assert_eq!(
        lifecycle_hardware(Some(Span::from_secs(28))),
        Ok(Span::from_secs(30))
    );
    assert_eq!(
        lifecycle_hardware(Some(Span::from_secs(29))),
        Err(DeadlineError::LifecycleUnvalidated)
    );
}

#[test]
fn checked_deadline_overflow() {
    let now = Instant::now();
    assert_eq!(
        checked_deadline(now, Span::max_value()),
        Err(DeadlineError::Overflow)
    );
}
