use mydocker::lifecycle::{
    backoff_ms, check_exec, check_rm, check_rmi, check_run_name, child_exit_code, container_status,
    error_exit_code, layer_refcount, lifecycle_error_kind, ls_line, release_plan, rm_plan, should_retry,
    Acquired, ContainerStatus, ErrorKind, LifecycleError, Release,
};
use mydocker::store::{after_digest_mismatch, ensure_layer_plan, verify_layer_digest, LayerPresence, StoreAction, StoreError};

fn presence(unpacked: bool, packed: bool, partial: bool) -> LayerPresence {
    LayerPresence { unpacked, packed, partial }
}

fn apply(p: LayerPresence, plan: &[StoreAction]) -> LayerPresence {
    let mut p = p;
    for a in plan {
        match a {
            StoreAction::RemovePartial => p.partial = false,
            StoreAction::Download => p.packed = true,
            StoreAction::VerifyDigest => {}
            StoreAction::Unpack => p.unpacked = true,
        }
    }
    p
}

#[test]
fn ensure_layer_plans() {
    assert_eq!(ensure_layer_plan(presence(true, false, false)), vec![]);
    assert_eq!(ensure_layer_plan(presence(true, true, true)), vec![]);
    assert_eq!(
        ensure_layer_plan(presence(false, true, false)),
        vec![StoreAction::RemovePartial, StoreAction::VerifyDigest, StoreAction::Unpack]
    );
    assert_eq!(
        ensure_layer_plan(presence(false, false, true)),
        vec![StoreAction::RemovePartial, StoreAction::Download, StoreAction::VerifyDigest, StoreAction::Unpack]
    );
}

#[test]
fn ensure_layer_twice_is_once() {
    for u in [false, true] {
        for k in [false, true] {
            for t in [false, true] {
                let p = presence(u, k, t);
                let once = apply(p, &ensure_layer_plan(p));
                let twice = apply(once, &ensure_layer_plan(once));
                assert_eq!(once, twice);
                assert!(once.unpacked);
            }
        }
    }
}

#[test]
fn digest_check() {
    assert_eq!(verify_layer_digest("sha256:abc123", "abc123"), Ok(()));
    assert_eq!(verify_layer_digest("sha256:abc123", "abc124"), Err(StoreError::DigestMismatch));
    assert_eq!(verify_layer_digest("abc123", "abc123"), Err(StoreError::DigestMismatch));
}

#[test]
fn status_from_pid_and_probe() {
    assert_eq!(container_status(Some(42), true), ContainerStatus::Running);
    assert_eq!(container_status(Some(42), false), ContainerStatus::Exited);
    assert_eq!(container_status(None, true), ContainerStatus::Exited);
    assert_eq!(container_status(None, false), ContainerStatus::Exited);
}

#[test]
fn reused_pid_reads_as_running() {
    // The probe only says that some process holds the PID: a PID that the
    // kernel handed to another process after the container exited still
    // answers, and the container is reported running.
    let recorded_pid = 4242;
    let probe_of_unrelated_process = true;
    assert_eq!(container_status(Some(recorded_pid), probe_of_unrelated_process), ContainerStatus::Running);
}

#[test]
fn launcher_killed_child_gone_reads_exited() {
    assert_eq!(container_status(Some(777), false), ContainerStatus::Exited);
    assert_eq!(ls_line("c1", container_status(Some(777), false)), "c1 exited");
}

#[test]
fn ls_lines() {
    assert_eq!(ls_line("c1", ContainerStatus::Running), "c1 running");
    assert_eq!(ls_line("web", ContainerStatus::Exited), "web exited");
}

#[test]
fn run_refuses_taken_name() {
    assert_eq!(check_run_name(true), Err(LifecycleError::NameInUse));
    assert_eq!(check_run_name(false), Ok(()));
}

#[test]
fn rm_checks() {
    assert_eq!(check_rm(false, None, false), Err(LifecycleError::NotFound));
    assert_eq!(check_rm(true, Some(10), true), Err(LifecycleError::StillRunning));
    assert_eq!(check_rm(true, Some(10), false), Ok(()));
    assert_eq!(check_rm(true, None, false), Ok(()));
}

#[test]
fn exec_checks() {
    assert_eq!(check_exec(false, Some(10), true), Err(LifecycleError::NotFound));
    assert_eq!(check_exec(true, Some(10), false), Err(LifecycleError::NotRunning));
    assert_eq!(check_exec(true, None, true), Err(LifecycleError::NotRunning));
    assert_eq!(check_exec(true, Some(10), true), Ok(10));
}

#[test]
fn refcount_and_rmi() {
    let layer = "/tmp/mydocker/layers/sha256:aa".to_string();
    let targets = vec![
        "/tmp/mydocker/layers/sha256:aa".to_string(),
        "/tmp/mydocker/layers/sha256:bb".to_string(),
        "/tmp/mydocker/layers/sha256:aa".to_string(),
    ];
    assert_eq!(layer_refcount(&layer, &targets), 2);
    assert_eq!(check_rmi(&layer, &targets), Err(LifecycleError::LayerInUse));
    let after_rm = vec!["/tmp/mydocker/layers/sha256:bb".to_string()];
    assert_eq!(layer_refcount(&layer, &after_rm), 0);
    assert_eq!(check_rmi(&layer, &after_rm), Ok(()));
    assert_eq!(check_rmi(&layer, &Vec::new()), Ok(()));
}

#[test]
fn failed_run_releases_in_order() {
    let all = Acquired { container_dir: true, mounted: true, child: true };
    assert_eq!(release_plan(all), vec![Release::KillChild, Release::Unmount, Release::RemoveContainerDir]);
    let dir_only = Acquired { container_dir: true, mounted: false, child: false };
    assert_eq!(release_plan(dir_only), vec![Release::RemoveContainerDir]);
    let mounted = Acquired { container_dir: true, mounted: true, child: false };
    assert_eq!(release_plan(mounted), vec![Release::Unmount, Release::RemoveContainerDir]);
    let none = Acquired { container_dir: false, mounted: false, child: false };
    assert_eq!(release_plan(none), vec![]);
}

#[test]
fn rm_unmounts_then_deletes() {
    assert_eq!(rm_plan(), vec![Release::Unmount, Release::RemoveContainerDir]);
}

#[test]
fn exit_codes() {
    assert_eq!(child_exit_code(Some(0)), 0);
    assert_eq!(child_exit_code(Some(42)), 42);
    assert_eq!(child_exit_code(None), 0);
    assert_eq!(error_exit_code(ErrorKind::UserInput), 1);
    assert_eq!(error_exit_code(ErrorKind::Network), 2);
    assert_eq!(error_exit_code(ErrorKind::Auth), 2);
    assert_eq!(error_exit_code(ErrorKind::Integrity), 2);
    assert_eq!(error_exit_code(ErrorKind::Kernel), 3);
    assert_eq!(lifecycle_error_kind(LifecycleError::NameInUse), ErrorKind::UserInput);
}

#[test]
fn retry_policy() {
    assert!(should_retry(1, None));
    assert!(should_retry(2, Some(503)));
    assert!(!should_retry(3, Some(503)));
    assert!(!should_retry(1, Some(404)));
    assert!(!should_retry(1, Some(401)));
    assert!(!should_retry(1, Some(200)));
    assert_eq!(backoff_ms(1), 200);
    assert_eq!(backoff_ms(2), 400);
    assert_eq!(backoff_ms(3), 800);
}

#[test]
fn corrupt_packed_layer_is_removed_and_downloaded_again() {
    let corrupt = presence(false, true, false);
    assert_eq!(verify_layer_digest("sha256:aaaa", "aaab"), Err(StoreError::DigestMismatch));
    let cleaned = after_digest_mismatch(corrupt);
    assert_eq!(cleaned, presence(false, false, false));
    assert_eq!(
        ensure_layer_plan(cleaned),
        vec![StoreAction::RemovePartial, StoreAction::Download, StoreAction::VerifyDigest, StoreAction::Unpack]
    );
}
