use gsync::error::{ErrorKind, GsyncError};

#[test]
fn each_kind_has_its_message() {
    assert_eq!(ErrorKind::SourceNotExist.as_str(), "Source folder does not exist");
    assert_eq!(
        ErrorKind::DestinationInvalid.as_str(),
        "The format of destination is invalid, cannot parse it"
    );
    assert_eq!(ErrorKind::ConfigNotExist.as_str(), "Config file does not exist");
    assert_eq!(ErrorKind::SourceNotGitRepo.as_str(), "Source is not a git repository");
    let all = [
        ErrorKind::SourceNotExist,
        ErrorKind::DestinationInvalid,
        ErrorKind::ConfigNotExist,
        ErrorKind::SourceNotGitRepo,
        ErrorKind::InvalidSpecifierFormat,
        ErrorKind::BackendUnavailable,
        ErrorKind::BackendQueryFailed,
        ErrorKind::MalformedDiffOutput,
        ErrorKind::ConfigInvalid,
        ErrorKind::PathStripMismatch,
    ];
    for (i, kind) in all.iter().enumerate() {
        assert!(!kind.as_str().is_empty());
        for other in &all[i + 1..] {
            assert_ne!(kind.as_str(), other.as_str());
        }
    }
}

#[test]
fn errors_wrap_their_cause() {
    assert!(matches!(
        GsyncError::custom(ErrorKind::ConfigNotExist),
        GsyncError::Custom(ErrorKind::ConfigNotExist)
    ));
    assert!(matches!(
        GsyncError::from(ErrorKind::SourceNotExist),
        GsyncError::Custom(ErrorKind::SourceNotExist)
    ));
    let cause = std::io::Error::new(std::io::ErrorKind::NotFound, "gone");
    assert!(matches!(GsyncError::io(cause), GsyncError::Io(e) if e.kind() == std::io::ErrorKind::NotFound));
    let cause = std::io::Error::new(std::io::ErrorKind::Other, "odd");
    assert!(matches!(GsyncError::from(cause), GsyncError::Io(e) if e.kind() == std::io::ErrorKind::Other));
    let cause = serde_json::from_str::<serde_json::Value>("{").unwrap_err();
    assert!(matches!(GsyncError::from(cause), GsyncError::Serde(e) if e.is_eof()));
}
