use mydocker::layout::{
    container_dir, lower_link_path, lower_links, overlay_fs_lower_dir, overlay_fs_upper_dir, overlay_fs_work_dir,
    overlay_fs_writable_layers_dir, overlay_layer_dir, packed_layer_path, pid_file_path,
    root_fs_path, unpacked_layer_dir,
};
use mydocker::pid::{format_pid, parse_pid, PidError};

#[test]
fn container_paths() {
    assert_eq!(container_dir("c1"), "/tmp/mydocker/containers/c1");
    assert_eq!(pid_file_path("c1"), "/tmp/mydocker/containers/c1/pid");
    assert_eq!(root_fs_path("c1"), "/tmp/mydocker/containers/c1/rootfs");
    assert_eq!(overlay_layer_dir("c1"), "/tmp/mydocker/containers/c1/layers");
    assert_eq!(
        overlay_fs_writable_layers_dir("c1"),
        "/tmp/mydocker/containers/c1/layers/writable"
    );
    assert_eq!(overlay_fs_work_dir("c1"), "/tmp/mydocker/containers/c1/layers/writable/work");
    assert_eq!(overlay_fs_upper_dir("c1"), "/tmp/mydocker/containers/c1/layers/writable/upper");
    assert_eq!(overlay_fs_lower_dir("c1"), "/tmp/mydocker/containers/c1/layers/lower");
}

#[test]
fn layer_paths() {
    assert_eq!(unpacked_layer_dir("sha256:ab12"), "/tmp/mydocker/layers/sha256:ab12");
    assert_eq!(packed_layer_path("sha256:ab12"), "/tmp/mydocker/layers/sha256:ab12.tar.gz");
}

#[test]
fn pid_parses_decimal() {
    assert_eq!(parse_pid(b"1"), Ok(1));
    assert_eq!(parse_pid(b"12345"), Ok(12345));
    assert_eq!(parse_pid(b"4294967295"), Ok(4294967295));
}

#[test]
fn pid_rejects_corrupt_records() {
    assert_eq!(parse_pid(b""), Err(PidError::Corrupted));
    assert_eq!(parse_pid(b"0"), Err(PidError::Corrupted));
    assert_eq!(parse_pid(b"000"), Err(PidError::Corrupted));
    assert_eq!(parse_pid(b"12a"), Err(PidError::Corrupted));
    assert_eq!(parse_pid(b"-5"), Err(PidError::Corrupted));
    assert_eq!(parse_pid(b" 5"), Err(PidError::Corrupted));
    assert_eq!(parse_pid(b"4294967296"), Err(PidError::Corrupted));
    assert_eq!(parse_pid(b"99999999999999999999"), Err(PidError::Corrupted));
}

#[test]
fn pid_formats_decimal() {
    assert_eq!(format_pid(0), b"0".to_vec());
    assert_eq!(format_pid(7), b"7".to_vec());
    assert_eq!(format_pid(4321), b"4321".to_vec());
    assert_eq!(format_pid(4294967295), b"4294967295".to_vec());
}

#[test]
fn pid_record_round_trip() {
    for pid in [1u32, 9, 10, 99, 100, 31337, 65536, 4294967295] {
        assert_eq!(parse_pid(&format_pid(pid)), Ok(pid));
    }
}

#[test]
fn lower_link_paths() {
    assert_eq!(lower_link_path("c1", 0), "/tmp/mydocker/containers/c1/layers/lower/0");
    assert_eq!(lower_link_path("c1", 7), "/tmp/mydocker/containers/c1/layers/lower/7");
    assert_eq!(lower_link_path("c1", 10), "/tmp/mydocker/containers/c1/layers/lower/10");
    assert_eq!(lower_link_path("c1", 4096), "/tmp/mydocker/containers/c1/layers/lower/4096");
}

#[test]
fn lower_links_point_at_layers() {
    let digests = vec!["sha256:aa".to_string(), "sha256:bb".to_string()];
    let links = lower_links("c2", &digests);
    assert_eq!(
        links,
        vec![
            (
                "/tmp/mydocker/containers/c2/layers/lower/0".to_string(),
                "/tmp/mydocker/layers/sha256:aa".to_string()
            ),
            (
                "/tmp/mydocker/containers/c2/layers/lower/1".to_string(),
                "/tmp/mydocker/layers/sha256:bb".to_string()
            ),
        ]
    );
    assert!(lower_links("c2", &Vec::new()).is_empty());
}
