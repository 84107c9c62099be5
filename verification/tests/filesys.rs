use ddnet_kit::filesys::{
    error_kind, param_layout, poll_step, FileSystem, FsError, FsErrorKind, FsOp, ParamSlot,
    PollStep,
};

#[test]
fn first_request_gets_id_zero() {
    let mut fs = FileSystem::new();
    assert_eq!(fs.next_request_id(), 0);
}

#[test]
fn request_ids_count_up() {
    let mut fs = FileSystem::default();
    assert_eq!(fs.next_request_id(), 0);
    assert_eq!(fs.next_request_id(), 1);
    assert_eq!(fs.next_request_id(), 2);
}

#[test]
fn begin_request_takes_next_id() {
    let mut fs = FileSystem::new();
    let a = fs.begin_request(FsOp::ReadFile);
    let b = fs.begin_request(FsOp::WriteFile);
    assert_eq!(a.op, FsOp::ReadFile);
    assert_eq!(a.id, 0);
    assert_eq!(b.op, FsOp::WriteFile);
    assert_eq!(b.id, 1);
}

#[test]
fn no_reply_yet_yields() {
    let step: PollStep<Vec<u8>> = poll_step(FsOp::ReadFile, None);
    assert!(matches!(step, PollStep::Yield));
}

#[test]
fn reply_value_ends_the_operation() {
    let step = poll_step(FsOp::ReadFile, Some(Ok::<Vec<u8>, String>(vec![1, 2, 3])));
    match step {
        PollStep::Done(Ok(v)) => assert_eq!(v, vec![1, 2, 3]),
        other => panic!("unexpected step {:?}", other),
    }
}

#[test]
fn read_failure_is_not_found() {
    let step = poll_step(FsOp::ReadFile, Some(Err::<Vec<u8>, String>("missing".to_string())));
    match step {
        PollStep::Done(Err(e)) => assert_eq!(
            e,
            FsError { kind: FsErrorKind::NotFound, message: "missing".to_string() }
        ),
        other => panic!("unexpected step {:?}", other),
    }
}

#[test]
fn write_failure_is_unsupported() {
    let step = poll_step(FsOp::WriteFile, Some(Err::<(), String>("denied".to_string())));
    match step {
        PollStep::Done(Err(e)) => {
            assert_eq!(e.kind, FsErrorKind::Unsupported);
            assert_eq!(e.message, "denied");
        }
        other => panic!("unexpected step {:?}", other),
    }
}

#[test]
fn create_dir_failure_is_unsupported() {
    let step = poll_step(FsOp::CreateDir, Some(Err::<(), String>("no".to_string())));
    assert!(matches!(step, PollStep::Done(Err(FsError { kind: FsErrorKind::Unsupported, .. }))));
}

#[test]
fn listing_failures_are_other() {
    assert_eq!(error_kind(FsOp::EntriesInDir), FsErrorKind::Other);
    assert_eq!(error_kind(FsOp::FilesInDirRecursive), FsErrorKind::Other);
    let step = poll_step(FsOp::EntriesInDir, Some(Err::<(), String>("x".to_string())));
    assert!(matches!(step, PollStep::Done(Err(FsError { kind: FsErrorKind::Other, .. }))));
}

#[test]
fn error_kinds_per_operation() {
    assert_eq!(error_kind(FsOp::ReadFile), FsErrorKind::NotFound);
    assert_eq!(error_kind(FsOp::WriteFile), FsErrorKind::Unsupported);
    assert_eq!(error_kind(FsOp::CreateDir), FsErrorKind::Unsupported);
}

#[test]
fn write_uploads_path_data_and_id() {
    assert_eq!(
        param_layout(FsOp::WriteFile),
        vec![ParamSlot::Path, ParamSlot::Data, ParamSlot::RequestId]
    );
}

#[test]
fn other_operations_upload_path_and_id() {
    for op in [FsOp::ReadFile, FsOp::CreateDir, FsOp::EntriesInDir, FsOp::FilesInDirRecursive] {
        assert_eq!(param_layout(op), vec![ParamSlot::Path, ParamSlot::RequestId]);
    }
}
