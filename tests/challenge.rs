use mydocker::challenge::{parse_challenge, serialize_challenge, token_url, BearerChallenge, ChallengeError};

fn ch(realm: &str, service: &str, scope: &str) -> BearerChallenge {
    BearerChallenge {
        realm: realm.as_bytes().to_vec(),
        service: service.as_bytes().to_vec(),
        scope: scope.as_bytes().to_vec(),
    }
}

#[test]
fn parses_registry_challenge() {
    let h = br#"Bearer realm="https://auth.docker.io/token",service="registry.docker.io",scope="repository:library/alpine:pull""#;
    assert_eq!(
        parse_challenge(h),
        Ok(ch("https://auth.docker.io/token", "registry.docker.io", "repository:library/alpine:pull"))
    );
}

#[test]
fn scheme_and_names_ignore_case() {
    assert_eq!(parse_challenge(br#"bearer REALM="r",Service="s""#), Ok(ch("r", "s", "")));
    assert_eq!(parse_challenge(br#"BEARER realm="r""#), Ok(ch("r", "", "")));
}

#[test]
fn token_values_and_spaces_after_commas() {
    assert_eq!(parse_challenge(b"Bearer realm=abc,  scope=x.y ,service=z"), Ok(ch("abc", "z", "x.y")));
}

#[test]
fn quoted_escapes_are_removed() {
    assert_eq!(parse_challenge(br#"Bearer realm="a\"b\\c""#), Ok(ch("a\"b\\c", "", "")));
}

#[test]
fn unknown_params_ignored_first_wins() {
    assert_eq!(
        parse_challenge(br#"Bearer error="insufficient_scope",realm="r1",realm="r2""#),
        Ok(ch("r1", "", ""))
    );
}

#[test]
fn malformed_challenges() {
    let bad: [&[u8]; 8] = [
        b"",
        b"Basic realm=\"r\"",
        b"Bearer",
        b"Bearer service=\"s\"",
        b"Bearer realm=\"unterminated",
        b"Bearer realm=",
        b"Bearer realm=\"r\";scope=\"s\"",
        b"Bearerrealm=\"r\"",
    ];
    for h in bad {
        assert_eq!(parse_challenge(h), Err(ChallengeError::ChallengeMalformed));
    }
}

#[test]
fn serializes_challenge() {
    assert_eq!(
        serialize_challenge(&ch("https://a/t", "reg", "repo:x:pull")),
        br#"Bearer realm="https://a/t",service="reg",scope="repo:x:pull""#.to_vec()
    );
    assert_eq!(serialize_challenge(&ch("a\"b", "", "")), br#"Bearer realm="a\"b",service="",scope="""#.to_vec());
}

#[test]
fn challenge_round_trip() {
    for c in [
        ch("https://auth.docker.io/token", "registry.docker.io", "repository:library/alpine:pull"),
        ch("r", "", ""),
        ch("a-b_c.d~e", "UPPER", "with space"),
        ch("q\"uote", "back\\slash", ",=;"),
    ] {
        assert_eq!(parse_challenge(&serialize_challenge(&c)), Ok(c));
    }
}

#[test]
fn token_url_joins_parameters() {
    assert_eq!(
        token_url(&ch("https://auth.docker.io/token", "registry.docker.io", "repository:library/alpine:pull")),
        b"https://auth.docker.io/token?service=registry.docker.io&scope=repository:library/alpine:pull".to_vec()
    );
}
