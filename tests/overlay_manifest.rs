use mydocker::manifest::{select_manifest, ManifestEntry, ResolveError};
use mydocker::overlay::{lowerdir, mount_options, OverlayError};

fn strings(v: &[&str]) -> Vec<String> {
    v.iter().map(|s| s.to_string()).collect()
}

#[test]
fn lowerdir_is_top_first() {
    assert_eq!(lowerdir(&strings(&["/l/a", "/l/b", "/l/c"])), Ok("/l/c:/l/b:/l/a".to_string()));
    assert_eq!(lowerdir(&strings(&["/l/a", "/l/b"])), Ok("/l/b:/l/a".to_string()));
}

#[test]
fn single_layer_overlay() {
    assert_eq!(lowerdir(&strings(&["/l/a"])), Ok("/l/a".to_string()));
    assert_eq!(
        mount_options(&strings(&["/l/a"]), "/u", "/w"),
        Ok("lowerdir=/l/a,upperdir=/u,workdir=/w".to_string())
    );
}

#[test]
fn overlay_needs_a_layer() {
    assert_eq!(lowerdir(&Vec::new()), Err(OverlayError::NoLayers));
    assert_eq!(mount_options(&Vec::new(), "/u", "/w"), Err(OverlayError::NoLayers));
}

#[test]
fn mount_options_three_layers() {
    assert_eq!(
        mount_options(&strings(&["1", "2", "3"]), "up", "wk"),
        Ok("lowerdir=3:2:1,upperdir=up,workdir=wk".to_string())
    );
}

fn entry(os: &str, arch: &str, digest: &str) -> ManifestEntry {
    ManifestEntry { os: os.to_string(), architecture: arch.to_string(), digest: digest.to_string() }
}

#[test]
fn selects_first_matching_platform() {
    let list = vec![
        entry("linux", "arm64", "d0"),
        entry("linux", "amd64", "d1"),
        entry("windows", "amd64", "d2"),
        entry("linux", "amd64", "d3"),
    ];
    let r = select_manifest(&list, &"linux".to_string(), &"amd64".to_string());
    assert_eq!(r, Ok(1));
    assert_eq!(list[r.unwrap()].digest, "d1");
}

#[test]
fn no_matching_platform_is_an_error() {
    let list = vec![entry("linux", "arm64", "d0"), entry("windows", "amd64", "d1")];
    assert_eq!(
        select_manifest(&list, &"linux".to_string(), &"amd64".to_string()),
        Err(ResolveError::NoCompatibleManifest)
    );
    assert_eq!(
        select_manifest(&Vec::new(), &"linux".to_string(), &"amd64".to_string()),
        Err(ResolveError::NoCompatibleManifest)
    );
}
