use whaledrive::assembler::{
    compute_image_size, AsmAction, AsmEvent, AsmOutcome, AsmStep, Assembler, BLOCK_SIZE,
    PARTITION_OFFSET, RESERVE_BYTES,
};
use whaledrive::errors::Error;

fn continue_action(outcome: AsmOutcome) -> AsmAction {
    match outcome {
        AsmOutcome::Continue(a) => a,
        _ => panic!("expected the pipeline to continue"),
    }
}

#[test]
fn size_is_block_aligned_and_exceeds_double_the_content() {
    for staged in [1u64, 4095, 4096, 10_000, 123_456_789] {
        let size = compute_image_size(staged).unwrap();
        assert_eq!(size % 4096, 0);
        assert!(size > 2 * staged);
        assert_eq!(size, (2 * staged + RESERVE_BYTES) / 4096 * 4096);
    }
}

#[test]
fn the_largest_staged_size_still_fits() {
    let max_staged = (u64::MAX - RESERVE_BYTES) / 2;
    let size = compute_image_size(max_staged).unwrap();
    assert_eq!(size % 4096, 0);
    assert!(size > 2 * (max_staged - 1));
}

#[test]
fn empty_staged_content_is_rejected() {
    assert!(matches!(compute_image_size(0), Err(Error::EmptyImage)));
}

#[test]
fn happy_path_walks_the_whole_pipeline() {
    let (mut m, first) = Assembler::start();
    assert!(matches!(first, AsmAction::StageLayers));
    let staged: u64 = 10_000_000;
    let expected_size = (2 * staged + RESERVE_BYTES) / BLOCK_SIZE * BLOCK_SIZE;
    match m.step(AsmEvent::StagedSize(staged)) {
        AsmOutcome::Continue(AsmAction::AllocateFile(blocks)) => {
            assert_eq!(blocks, expected_size / BLOCK_SIZE);
        },
        _ => panic!("expected an allocation request"),
    }
    assert!(matches!(continue_action(m.step(AsmEvent::Success)), AsmAction::WritePartitionTable));
    assert!(matches!(continue_action(m.step(AsmEvent::Success)), AsmAction::AttachLoopDevice));
    match continue_action(m.step(AsmEvent::Success)) {
        AsmAction::RebindAtOffset(off) => assert_eq!(off, PARTITION_OFFSET),
        _ => panic!("expected the rebind request"),
    }
    assert!(matches!(continue_action(m.step(AsmEvent::Success)), AsmAction::FormatFilesystem));
    assert!(matches!(continue_action(m.step(AsmEvent::Success)), AsmAction::MountFilesystem));
    assert!(matches!(continue_action(m.step(AsmEvent::Success)), AsmAction::CopyStagedContent));
    assert!(matches!(continue_action(m.step(AsmEvent::Success)), AsmAction::ExtractBootloader));
    assert!(matches!(continue_action(m.step(AsmEvent::Success)), AsmAction::UnmountFilesystem));
    assert!(matches!(continue_action(m.step(AsmEvent::Success)), AsmAction::DetachLoopDevice));
    assert!(matches!(continue_action(m.step(AsmEvent::Success)), AsmAction::BurnBootloader));
    match m.step(AsmEvent::Success) {
        AsmOutcome::Done(size) => {
            assert_eq!(size, expected_size);
            assert_eq!(size % 4096, 0);
            assert!(size > 2 * staged);
        },
        _ => panic!("expected the finished size"),
    }
    assert_eq!(m.step, AsmStep::Done);
}

#[test]
fn zero_staged_bytes_fail_before_any_resource() {
    let (mut m, _) = Assembler::start();
    match m.step(AsmEvent::StagedSize(0)) {
        AsmOutcome::Failed(f) => {
            assert!(matches!(f.error, Error::EmptyImage));
            assert_eq!(f.teardown_failures.len(), 0);
        },
        _ => panic!("expected the failure"),
    }
    assert_eq!(m.step, AsmStep::Failed);
}

#[test]
fn copy_failure_unmounts_then_detaches_and_keeps_the_error() {
    let (mut m, _) = Assembler::start();
    m.step(AsmEvent::StagedSize(5_000));
    for _ in 0..6 {
        m.step(AsmEvent::Success);
    }
    assert_eq!(m.step, AsmStep::Copying);
    // Now copying; the copy fails.
    match m.step(AsmEvent::Failure(String::from("disk full"))) {
        AsmOutcome::Continue(AsmAction::UnmountFilesystem) => {},
        _ => panic!("teardown must unmount first"),
    }
    assert_eq!(m.step, AsmStep::CleanupUnmounting);
    // The unmount during teardown fails too; detach is still requested.
    match m.step(AsmEvent::Failure(String::from("busy"))) {
        AsmOutcome::Continue(AsmAction::DetachLoopDevice) => {},
        _ => panic!("teardown must still detach"),
    }
    // Detach succeeds; the original error is reported, the teardown failure
    // rides along and does not replace it.
    match m.step(AsmEvent::Success) {
        AsmOutcome::Failed(f) => {
            match f.error {
                Error::IOError(m) => assert_eq!(m, "disk full"),
                _ => panic!("the copy error must survive teardown"),
            }
            assert_eq!(f.teardown_failures, vec![String::from("busy")]);
        },
        _ => panic!("expected the failure report"),
    }
    assert_eq!(m.step, AsmStep::Failed);
}

#[test]
fn format_failure_skips_unmount_and_detaches() {
    let (mut m, _) = Assembler::start();
    m.step(AsmEvent::StagedSize(5_000));
    m.step(AsmEvent::Success); // allocated
    m.step(AsmEvent::Success); // partitioned
    m.step(AsmEvent::Success); // attached
    m.step(AsmEvent::Success); // rebound
    // Now formatting; nothing is mounted yet.
    match m.step(AsmEvent::Failure(String::from("mkfs exploded"))) {
        AsmOutcome::Continue(AsmAction::DetachLoopDevice) => {},
        _ => panic!("an attached device must be detached"),
    }
    match m.step(AsmEvent::Success) {
        AsmOutcome::Failed(f) => {
            assert!(matches!(f.error, Error::ResourceError(msg) if msg == "mkfs exploded"));
            assert_eq!(f.teardown_failures.len(), 0);
        },
        _ => panic!("expected the failure report"),
    }
}

#[test]
fn staging_failure_is_an_io_error() {
    let (mut m, _) = Assembler::start();
    match m.step(AsmEvent::Failure(String::from("bad archive"))) {
        AsmOutcome::Failed(f) => {
            assert!(matches!(f.error, Error::IOError(msg) if msg == "bad archive"));
            assert_eq!(f.teardown_failures.len(), 0);
        },
        _ => panic!("expected the failure report"),
    }
}

#[test]
fn unmount_failure_on_the_normal_path_still_detaches() {
    let (mut m, _) = Assembler::start();
    m.step(AsmEvent::StagedSize(5_000));
    for _ in 0..8 {
        m.step(AsmEvent::Success);
    }
    assert_eq!(m.step, AsmStep::Unmounting);
    match m.step(AsmEvent::Failure(String::from("target busy"))) {
        AsmOutcome::Continue(AsmAction::DetachLoopDevice) => {},
        _ => panic!("the device must still be detached"),
    }
    // The detach during teardown fails as well: both reports ride along,
    // the unmount error stays the reported one.
    match m.step(AsmEvent::Failure(String::from("detach failed"))) {
        AsmOutcome::Failed(f) => {
            assert!(matches!(f.error, Error::ResourceError(msg) if msg == "target busy"));
            assert_eq!(f.teardown_failures, vec![String::from("detach failed")]);
        },
        _ => panic!("expected the failure report"),
    }
}

#[test]
fn allocation_failure_has_nothing_to_tear_down() {
    let (mut m, _) = Assembler::start();
    m.step(AsmEvent::StagedSize(5_000));
    match m.step(AsmEvent::Failure(String::from("dd failed"))) {
        AsmOutcome::Failed(f) => {
            assert!(matches!(f.error, Error::ResourceError(msg) if msg == "dd failed"));
            assert_eq!(f.teardown_failures.len(), 0);
        },
        _ => panic!("expected the failure report"),
    }
}
