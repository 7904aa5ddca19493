//! Image references: `[host/]repository[:tag|@digest]`.
//!
//! The first path component is a registry host when it holds a `.` or a `:`
//! or is `localhost`; otherwise the host is `registry-1.docker.io`. A tag
//! follows the last `:` after the last `/`; a digest follows the first `@`.
//! Without either, the tag is `latest`.

use vstd::prelude::*;

verus! {

pub open spec fn default_host() -> Seq<u8> {
    seq![
        114u8, 101u8, 103u8, 105u8, 115u8, 116u8, 114u8, 121u8, 45u8, 49u8, 46u8, 100u8, 111u8, 99u8,
        107u8, 101u8, 114u8, 46u8, 105u8, 111u8,
    ]
}

pub open spec fn default_tag() -> Seq<u8> {
    seq![108u8, 97u8, 116u8, 101u8, 115u8, 116u8]
}

pub open spec fn localhost() -> Seq<u8> {
    seq![108u8, 111u8, 99u8, 97u8, 108u8, 104u8, 111u8, 115u8, 116u8]
}

/// The first position at or after `i` that holds `b`, or the length.
pub open spec fn find_first(s: Seq<u8>, b: u8, i: int) -> int
    decreases s.len() - i,
{
    if 0 <= i < s.len() {
        if s[i] == b {
            i
        } else {
            find_first(s, b, i + 1)
        }
    } else {
        s.len() as int
    }
}

/// The last position that holds `b`, or -1.
pub open spec fn find_last(s: Seq<u8>, b: u8) -> int
    decreases s.len(),
{
    if s.len() == 0 {
        -1
    } else if s.last() == b {
        s.len() - 1
    } else {
        find_last(s.drop_last(), b)
    }
}

pub open spec fn has_byte(s: Seq<u8>, b: u8) -> bool {
    find_first(s, b, 0) < s.len()
}

pub open spec fn looks_like_host(h: Seq<u8>) -> bool {
    has_byte(h, 46) || has_byte(h, 58) || h == localhost()
}

/// The host and the rest of a reference.
pub open spec fn split_host(s: Seq<u8>) -> (Seq<u8>, Seq<u8>) {
    let k = find_first(s, 47, 0);
    if k < s.len() && looks_like_host(s.subrange(0, k)) {
        (s.subrange(0, k), s.subrange(k + 1, s.len() as int))
    } else {
        (default_host(), s)
    }
}

/// `(host, repository, tag or digest, whether it is a digest)`, when the
/// repository and the tag or digest are not empty.
pub open spec fn parse_reference_spec(s: Seq<u8>) -> Option<(Seq<u8>, Seq<u8>, Seq<u8>, bool)> {
    let host = split_host(s).0;
    let rest = split_host(s).1;
    let a = find_first(rest, 64, 0);
    if a < rest.len() {
        let repo = rest.subrange(0, a);
        let digest = rest.subrange(a + 1, rest.len() as int);
        if repo.len() > 0 && digest.len() > 0 {
            Some((host, repo, digest, true))
        } else {
            None
        }
    } else {
        let c = find_last(rest, 58);
        if c >= 0 && c > find_last(rest, 47) {
            let repo = rest.subrange(0, c);
            let tag = rest.subrange(c + 1, rest.len() as int);
            if repo.len() > 0 && tag.len() > 0 {
                Some((host, repo, tag, false))
            } else {
                None
            }
        } else if rest.len() > 0 {
            Some((host, rest, default_tag(), false))
        } else {
            None
        }
    }
}

/// A parsed image reference.
#[derive(Debug, PartialEq, Eq)]
pub struct ImageReference {
    pub registry_host: Vec<u8>,
    pub repository: Vec<u8>,
    /// The tag, or the digest when `by_digest` holds.
    pub reference: Vec<u8>,
    pub by_digest: bool,
}

#[derive(Debug, Clone, Copy, PartialEq, Eq, Structural)]
pub enum ReferenceError {
    /// Empty repository, tag or digest.
    InvalidReference,
}

fn first_index(s: &[u8], b: u8, from: usize) -> (r: usize)
    requires
        from <= s@.len(),
    ensures
        r as int == find_first(s@, b, from as int),
        from <= r <= s@.len(),
        r < s@.len() ==> s@[r as int] == b,
{
    let mut i = from;
    while i < s.len() && s[i] != b
        invariant
            from <= i <= s@.len(),
            find_first(s@, b, from as int) == find_first(s@, b, i as int),
        decreases s@.len() - i,
    {
        i = i + 1;
    }
    i
}

fn last_index(s: &[u8], b: u8) -> (r: Option<usize>)
    ensures
        match r {
            Some(k) => k as int == find_last(s@, b) && k < s@.len(),
            None => find_last(s@, b) == -1,
        },
{
    let mut i = s.len();
    proof {
        assert(s@.subrange(0, i as int) =~= s@);
    }
    while i > 0
        invariant
            0 <= i <= s@.len(),
            find_last(s@, b) == find_last(s@.subrange(0, i as int), b),
        decreases i,
    {
        proof {
            assert(s@.subrange(0, i as int).drop_last() =~= s@.subrange(0, i - 1));
        }
        if s[i - 1] == b {
            return Some(i - 1);
        }
        i = i - 1;
    }
    None
}

fn copy_range(s: &[u8], from: usize, to: usize) -> (r: Vec<u8>)
    requires
        from <= to <= s@.len(),
    ensures
        r@ == s@.subrange(from as int, to as int),
{
    let mut v: Vec<u8> = Vec::new();
    let mut k = from;
    while k < to
        invariant
            from <= k <= to <= s@.len(),
            v@ == s@.subrange(from as int, k as int),
        decreases to - k,
    {
        v.push(s[k]);
        proof {
            assert(v@ =~= s@.subrange(from as int, k + 1));
        }
        k = k + 1;
    }
    v
}

fn is_localhost(h: &[u8]) -> (r: bool)
    ensures
        r == (h@ == localhost()),
{
    let l = vec![108u8, 111u8, 99u8, 97u8, 108u8, 104u8, 111u8, 115u8, 116u8];
    if h.len() != l.len() {
        return false;
    }
    let mut i: usize = 0;
    while i < l.len()
        invariant
            l@ == localhost(),
            h@.len() == l@.len(),
            0 <= i <= l@.len(),
            forall|k: int| 0 <= k < i ==> h@[k] == l@[k],
        decreases l@.len() - i,
    {
        if h[i] != l[i] {
            return false;
        }
        i = i + 1;
    }
    proof {
        assert(h@ =~= localhost());
    }
    true
}

/// Parses an image reference, filling in the default host and tag.
pub fn parse_reference(s: &[u8]) -> (r: Result<ImageReference, ReferenceError>)
    ensures
        match parse_reference_spec(s@) {
            Some((h, p, t, d)) => r is Ok && r->Ok_0.registry_host@ == h && r->Ok_0.repository@ == p
                && r->Ok_0.reference@ == t && r->Ok_0.by_digest == d,
            None => r == Err::<ImageReference, ReferenceError>(ReferenceError::InvalidReference),
        },
{
    let k = first_index(s, 47, 0);
    let mut hosted = false;
    if k < s.len() {
        let head = copy_range(s, 0, k);
        proof {
            assert(head@ =~= s@.subrange(0, k as int));
        }
        let hs = head.as_slice();
        let dot = first_index(hs, 46, 0);
        let colon = first_index(hs, 58, 0);
        hosted = dot < hs.len() || colon < hs.len() || is_localhost(hs);
    }
    let host: Vec<u8>;
    let rest: Vec<u8>;
    if hosted {
        host = copy_range(s, 0, k);
        rest = copy_range(s, k + 1, s.len());
    } else {
        host = vec![
            114u8, 101u8, 103u8, 105u8, 115u8, 116u8, 114u8, 121u8, 45u8, 49u8, 46u8, 100u8, 111u8,
            99u8, 107u8, 101u8, 114u8, 46u8, 105u8, 111u8,
        ];
        rest = copy_range(s, 0, s.len());
        proof {
            assert(host@ =~= default_host());
            assert(rest@ =~= s@);
        }
    }
    proof {
        assert(host@ == split_host(s@).0);
        assert(rest@ == split_host(s@).1);
    }
    let rs = rest.as_slice();
    let a = first_index(rs, 64, 0);
    if a < rs.len() {
        if a == 0 || a + 1 == rs.len() {
            return Err(ReferenceError::InvalidReference);
        }
        let repository = copy_range(rs, 0, a);
        let reference = copy_range(rs, a + 1, rs.len());
        return Ok(ImageReference { registry_host: host, repository, reference, by_digest: true });
    }
    let c = last_index(rs, 58);
    let sl = last_index(rs, 47);
    let tagged = match (c, sl) {
        (Some(ci), Some(si)) => ci > si,
        (Some(_), None) => true,
        _ => false,
    };
    if tagged {
        let ci = match c {
            Some(ci) => ci,
            None => 0,
        };
        if ci == 0 || ci + 1 == rs.len() {
            return Err(ReferenceError::InvalidReference);
        }
        let repository = copy_range(rs, 0, ci);
        let reference = copy_range(rs, ci + 1, rs.len());
        return Ok(ImageReference { registry_host: host, repository, reference, by_digest: false });
    }
    if rs.len() == 0 {
        return Err(ReferenceError::InvalidReference);
    }
    let reference = vec![108u8, 97u8, 116u8, 101u8, 115u8, 116u8];
    proof {
        assert(reference@ =~= default_tag());
        assert(rest@ =~= rest@.subrange(0, rest@.len() as int));
    }
    Ok(ImageReference { registry_host: host, repository: rest, reference, by_digest: false })
}

} // verus!
