use mydocker::reference::{parse_reference, ImageReference, ReferenceError};

fn r(host: &str, repo: &str, reference: &str, by_digest: bool) -> ImageReference {
    ImageReference {
        registry_host: host.as_bytes().to_vec(),
        repository: repo.as_bytes().to_vec(),
        reference: reference.as_bytes().to_vec(),
        by_digest,
    }
}

#[test]
fn defaults_host_and_tag() {
    assert_eq!(parse_reference(b"alpine"), Ok(r("registry-1.docker.io", "alpine", "latest", false)));
    assert_eq!(parse_reference(b"alpine:3.18"), Ok(r("registry-1.docker.io", "alpine", "3.18", false)));
    assert_eq!(parse_reference(b"library/alpine"), Ok(r("registry-1.docker.io", "library/alpine", "latest", false)));
}

#[test]
fn explicit_hosts() {
    assert_eq!(parse_reference(b"ghcr.io/o/app:v1"), Ok(r("ghcr.io", "o/app", "v1", false)));
    assert_eq!(parse_reference(b"localhost/app"), Ok(r("localhost", "app", "latest", false)));
    assert_eq!(parse_reference(b"reg:5000/app"), Ok(r("reg:5000", "app", "latest", false)));
    assert_eq!(parse_reference(b"reg:5000/app:2"), Ok(r("reg:5000", "app", "2", false)));
}

#[test]
fn digests() {
    assert_eq!(
        parse_reference(b"alpine@sha256:abcd"),
        Ok(r("registry-1.docker.io", "alpine", "sha256:abcd", true))
    );
}

#[test]
fn invalid_references() {
    for s in [&b""[..], b":tag", b"alpine:", b"@sha256:x", b"alpine@", b"ghcr.io/"] {
        assert_eq!(parse_reference(s), Err(ReferenceError::InvalidReference));
    }
}
