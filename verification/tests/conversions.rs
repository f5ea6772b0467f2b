use kotlinc::error::{Error, ErrorKind, IoCause};
use kotlinc::forwarder::{Progress, ReadOutcome, StderrForwarder};
use kotlinc::runner::{spawn, SpawnOutcome};
use std::io;

#[test]
fn io_error_converts_to_io_error_kind() {
    let error = Error::from(io::Error::new(io::ErrorKind::Other, "disk full"));
    assert_eq!(error.kind(), ErrorKind::IOError);
    assert_eq!(error.message(), "disk full");
    assert_eq!(error.to_text(), "IOError: disk full");
}

#[test]
fn successful_read_is_data() {
    assert!(matches!(ReadOutcome::of_read(Ok(b"ab".to_vec())), ReadOutcome::Data(b) if b == b"ab"));
    assert!(matches!(ReadOutcome::of_read(Ok(Vec::new())), ReadOutcome::Data(b) if b.is_empty()));
}

#[test]
fn read_errors_are_told_apart() {
    let would_block = io::Error::new(io::ErrorKind::WouldBlock, "later");
    assert!(matches!(ReadOutcome::of_read(Err(would_block)), ReadOutcome::WouldBlock));
    let interrupted = io::Error::new(io::ErrorKind::Interrupted, "signal");
    assert!(matches!(ReadOutcome::of_read(Err(interrupted)), ReadOutcome::Interrupted));
    let missing = io::Error::new(io::ErrorKind::NotFound, "missing");
    assert!(matches!(ReadOutcome::of_read(Err(missing)), ReadOutcome::Failed(t) if t == "missing"));
    let broken = io::Error::new(io::ErrorKind::BrokenPipe, "pipe closed");
    assert!(matches!(ReadOutcome::of_read(Err(broken)), ReadOutcome::Failed(t) if t == "pipe closed"));
}

#[test]
fn read_failure_by_cause() {
    assert!(matches!(
        ReadOutcome::of_failure(IoCause::WouldBlock, "x".to_string()),
        ReadOutcome::WouldBlock
    ));
    assert!(matches!(
        ReadOutcome::of_failure(IoCause::Interrupted, "x".to_string()),
        ReadOutcome::Interrupted
    ));
    assert!(matches!(
        ReadOutcome::of_failure(IoCause::NotFound, "x".to_string()),
        ReadOutcome::Failed(t) if t == "x"
    ));
    assert!(matches!(
        ReadOutcome::of_failure(IoCause::Other, "y".to_string()),
        ReadOutcome::Failed(t) if t == "y"
    ));
}

#[test]
fn failed_read_from_an_io_error_ends_the_stream() {
    let mut forwarder = StderrForwarder::new(true);
    forwarder.on_read(&ReadOutcome::of_read(Ok(b"tail".to_vec())));
    let broken = io::Error::new(io::ErrorKind::BrokenPipe, "pipe closed");
    let step = forwarder.on_read(&ReadOutcome::of_read(Err(broken)));
    assert_eq!(step.progress, Progress::Done);
    assert_eq!(
        step.lines,
        vec![b"tail".to_vec(), b"Failed to read from child stderr: pipe closed".to_vec()]
    );
}

#[test]
fn spawn_errors_are_told_apart() {
    assert!(matches!(SpawnOutcome::of_spawn(Ok(())), SpawnOutcome::Started));
    let missing = io::Error::new(io::ErrorKind::NotFound, "no such file");
    assert!(matches!(SpawnOutcome::of_spawn(Err(missing)), SpawnOutcome::NotFound));
    let denied = io::Error::new(io::ErrorKind::PermissionDenied, "denied");
    let expected = format!("{:?}", io::Error::new(io::ErrorKind::PermissionDenied, "denied"));
    assert!(matches!(SpawnOutcome::of_spawn(Err(denied)), SpawnOutcome::Failed(t) if t == expected));
    assert!(matches!(
        SpawnOutcome::of_failure(IoCause::WouldBlock, "w".to_string()),
        SpawnOutcome::Failed(t) if t == "w"
    ));
    assert!(matches!(
        SpawnOutcome::of_failure(IoCause::NotFound, "w".to_string()),
        SpawnOutcome::NotFound
    ));
}

#[test]
fn nonexistent_executable_is_reported_as_not_found() {
    let missing = io::Error::new(io::ErrorKind::NotFound, "No such file or directory");
    let outcome = SpawnOutcome::of_spawn(Err(missing));
    let error = spawn("\"/no/such/tool\"", "/no/such/tool", &outcome, false).unwrap_err();
    assert_eq!(error.kind(), ErrorKind::ToolNotFound);
    assert_eq!(error.message(), "Failed to find tool. Is `/no/such/tool` installed?");
}
