use rand_isaac::error::{Error, ErrorKind};

#[test]
fn description() {
    let kind = ErrorKind::NotReady;
    let err = Error::new_str(kind, "abc");
    assert_eq!(kind.description(), err.description());
}

#[test]
fn cause() {
    let kind = ErrorKind::NotReady;
    let err = Error::new_str(kind, "abc");
    assert_eq!(err.details(), Some("abc"));

    assert_eq!(Error::new(kind).details(), None);

    let err = Error::new_err(kind, "def".to_string());
    assert_eq!(err.details(), Some("def"));
}

#[test]
fn retry_and_wait_per_kind() {
    assert!(!ErrorKind::Unavailable.should_retry());
    assert!(ErrorKind::Transient.should_retry());
    assert!(ErrorKind::NotReady.should_retry());
    assert!(!ErrorKind::Other.should_retry());

    assert!(!ErrorKind::Unavailable.should_wait());
    assert!(!ErrorKind::Transient.should_wait());
    assert!(ErrorKind::NotReady.should_wait());
    assert!(!ErrorKind::Other.should_wait());
}

#[test]
fn descriptions_fixed_and_non_empty() {
    assert_eq!(
        ErrorKind::Unavailable.description(),
        "permanent failure or unavailable"
    );
    assert_eq!(ErrorKind::Transient.description(), "transient failure");
    assert_eq!(ErrorKind::NotReady.description(), "not ready yet");
    assert_eq!(ErrorKind::Other.description(), "uncategorised");
    for kind in [
        ErrorKind::Unavailable,
        ErrorKind::Transient,
        ErrorKind::NotReady,
        ErrorKind::Other,
    ] {
        assert!(!kind.description().is_empty());
    }
}

#[test]
fn message_renders_kind() {
    let err = Error::new(ErrorKind::Transient);
    assert_eq!(err.message(), "RNG error: transient failure");
}

#[test]
fn details_never_change_kind() {
    let plain = Error::new(ErrorKind::Transient);
    let tagged = Error::new_str(ErrorKind::Transient, "abc");
    let chained = Error::new_err(ErrorKind::Transient, "def".to_string());
    assert_eq!(plain.kind, tagged.kind);
    assert_eq!(plain.kind, chained.kind);
    assert!(tagged.kind.should_retry());
    assert!(chained.kind.should_retry());
}
