//! The bearer challenge of a registry's `WWW-Authenticate` header.
//!
//! The header reads `<scheme> <param>, <param>, ...` where the scheme is
//! `Bearer` in any case, and each parameter is `name=value`, the value a token
//! or a quoted string with backslash escapes. Parameter names are compared
//! without case; the first occurrence of a name counts; unknown names are
//! ignored. `realm` is required, `service` and `scope` default to empty.

use vstd::prelude::*;

verus! {

/// A byte allowed in an HTTP token.
pub open spec fn is_tchar(b: u8) -> bool {
    (97 <= b <= 122) || (65 <= b <= 90) || (48 <= b <= 57) || b == 33 || (35 <= b <= 39) || b == 42
        || b == 43 || b == 45 || b == 46 || b == 94 || b == 95 || b == 96 || b == 124 || b == 126
}

pub open spec fn is_space(b: u8) -> bool {
    b == 32 || b == 9
}

pub open spec fn to_lower(b: u8) -> u8 {
    if 65 <= b <= 90 {
        (b + 32) as u8
    } else {
        b
    }
}

pub open spec fn lower_seq(s: Seq<u8>) -> Seq<u8> {
    s.map_values(|b: u8| to_lower(b))
}

pub open spec fn bearer_lower() -> Seq<u8> {
    seq![98u8, 101u8, 97u8, 114u8, 101u8, 114u8]
}

pub open spec fn bearer_scheme() -> Seq<u8> {
    seq![66u8, 101u8, 97u8, 114u8, 101u8, 114u8]
}

pub open spec fn realm_name() -> Seq<u8> {
    seq![114u8, 101u8, 97u8, 108u8, 109u8]
}

pub open spec fn service_name() -> Seq<u8> {
    seq![115u8, 101u8, 114u8, 118u8, 105u8, 99u8, 101u8]
}

pub open spec fn scope_name() -> Seq<u8> {
    seq![115u8, 99u8, 111u8, 112u8, 101u8]
}

/// The end of the token that starts at `i`.
pub open spec fn token_end(s: Seq<u8>, i: int) -> int
    decreases s.len() - i,
{
    if 0 <= i < s.len() && is_tchar(s[i]) {
        token_end(s, i + 1)
    } else {
        i
    }
}

/// The first position at or after `i` that is not a space or tab.
pub open spec fn skip_spaces(s: Seq<u8>, i: int) -> int
    decreases s.len() - i,
{
    if 0 <= i < s.len() && is_space(s[i]) {
        skip_spaces(s, i + 1)
    } else {
        i
    }
}

/// The rest of a quoted string whose opening quote stands before `i`: its
/// content, unescaped, and the position after the closing quote.
pub open spec fn quoted(s: Seq<u8>, i: int) -> Option<(Seq<u8>, int)>
    decreases s.len() - i,
{
    if i < 0 || i >= s.len() {
        None
    } else if s[i] == 34 {
        Some((Seq::empty(), i + 1))
    } else if s[i] == 92 {
        if i + 1 >= s.len() {
            None
        } else {
            match quoted(s, i + 2) {
                Some((c, e)) => Some((seq![s[i + 1]] + c, e)),
                None => None,
            }
        }
    } else {
        match quoted(s, i + 1) {
            Some((c, e)) => Some((seq![s[i]] + c, e)),
            None => None,
        }
    }
}

/// A parameter value at `i`: a quoted string or a non-empty token.
pub open spec fn value_at(s: Seq<u8>, i: int) -> Option<(Seq<u8>, int)> {
    if 0 <= i < s.len() && s[i] == 34 {
        quoted(s, i + 1)
    } else {
        let e = token_end(s, i);
        if e > i {
            Some((s.subrange(i, e), e))
        } else {
            None
        }
    }
}

/// A `name=value` parameter at `i`: its name, its value and where it ends.
pub open spec fn param_at(s: Seq<u8>, i: int) -> Option<(Seq<u8>, Seq<u8>, int)> {
    let e = token_end(s, i);
    if 0 <= i < e < s.len() && s[e] == 61 {
        match value_at(s, e + 1) {
            Some((v, end)) => Some((s.subrange(i, e), v, end)),
            None => None,
        }
    } else {
        None
    }
}

/// The comma-separated parameters from `i` to the end of the header.
pub open spec fn params_at(s: Seq<u8>, i: int) -> Option<Seq<(Seq<u8>, Seq<u8>)>>
    decreases s.len() - i,
{
    match param_at(s, i) {
        None => None,
        Some((n, v, e)) => {
            let j = skip_spaces(s, e);
            if j == s.len() {
                Some(seq![(n, v)])
            } else if 0 <= j < s.len() && s[j] == 44 {
                let k = skip_spaces(s, j + 1);
                if i < k <= s.len() {
                    match params_at(s, k) {
                        Some(rest) => Some(seq![(n, v)] + rest),
                        None => None,
                    }
                } else {
                    None
                }
            } else {
                None
            }
        }
    }
}

/// The value of the first parameter named `key` (lower case), names compared
/// without case.
pub open spec fn lookup(ps: Seq<(Seq<u8>, Seq<u8>)>, key: Seq<u8>) -> Option<Seq<u8>>
    decreases ps.len(),
{
    if ps.len() == 0 {
        None
    } else if lower_seq(ps[0].0) == key {
        Some(ps[0].1)
    } else {
        lookup(ps.drop_first(), key)
    }
}

pub open spec fn or_empty(o: Option<Seq<u8>>) -> Seq<u8> {
    match o {
        Some(v) => v,
        None => Seq::empty(),
    }
}

/// The challenge that a parameter list states, if it has a realm.
pub open spec fn challenge_of(o: Option<Seq<(Seq<u8>, Seq<u8>)>>) -> Option<(Seq<u8>, Seq<u8>, Seq<u8>)> {
    match o {
        Some(ps) => match lookup(ps, realm_name()) {
            Some(r) => Some((r, or_empty(lookup(ps, service_name())), or_empty(lookup(ps, scope_name())))),
            None => None,
        },
        None => None,
    }
}

/// The challenge a header states, as `(realm, service, scope)`, if it is a
/// well-formed bearer challenge with a realm.
pub open spec fn parse_spec(s: Seq<u8>) -> Option<(Seq<u8>, Seq<u8>, Seq<u8>)> {
    let e = token_end(s, 0);
    if lower_seq(s.subrange(0, e)) == bearer_lower() && e < s.len() && is_space(s[e]) {
        challenge_of(params_at(s, skip_spaces(s, e)))
    } else {
        None
    }
}

/// A bearer challenge from a registry's 401 answer.
#[derive(Debug, PartialEq, Eq)]
pub struct BearerChallenge {
    pub realm: Vec<u8>,
    pub service: Vec<u8>,
    pub scope: Vec<u8>,
}

impl BearerChallenge {
    pub open spec fn spec_fields(&self) -> (Seq<u8>, Seq<u8>, Seq<u8>) {
        (self.realm@, self.service@, self.scope@)
    }
}

#[derive(Debug, Clone, Copy, PartialEq, Eq, Structural)]
pub enum ChallengeError {
    /// Not a bearer challenge, not well-formed, or without a realm.
    ChallengeMalformed,
}

fn is_tchar_exec(b: u8) -> (r: bool)
    ensures
        r == is_tchar(b),
{
    (97 <= b && b <= 122) || (65 <= b && b <= 90) || (48 <= b && b <= 57) || b == 33 || (35 <= b
        && b <= 39) || b == 42 || b == 43 || b == 45 || b == 46 || b == 94 || b == 95 || b == 96
        || b == 124 || b == 126
}

fn scan_token(s: &[u8], i: usize) -> (r: usize)
    requires
        i <= s@.len(),
    ensures
        r as int == token_end(s@, i as int),
        i <= r <= s@.len(),
{
    let mut j = i;
    while j < s.len() && is_tchar_exec(s[j])
        invariant
            i <= j <= s@.len(),
            token_end(s@, i as int) == token_end(s@, j as int),
        decreases s@.len() - j,
    {
        j = j + 1;
    }
    j
}

fn scan_spaces(s: &[u8], i: usize) -> (r: usize)
    requires
        i <= s@.len(),
    ensures
        r as int == skip_spaces(s@, i as int),
        i <= r <= s@.len(),
{
    let mut j = i;
    while j < s.len() && (s[j] == 32 || s[j] == 9)
        invariant
            i <= j <= s@.len(),
            skip_spaces(s@, i as int) == skip_spaces(s@, j as int),
        decreases s@.len() - j,
    {
        j = j + 1;
    }
    j
}

pub open spec fn prepend(acc: Seq<u8>, o: Option<(Seq<u8>, int)>) -> Option<(Seq<u8>, int)> {
    match o {
        Some((c, e)) => Some((acc + c, e)),
        None => None,
    }
}

/// Reads a quoted string whose opening quote stands before `i`.
fn scan_quoted(s: &[u8], i: usize) -> (r: Option<(Vec<u8>, usize)>)
    requires
        i <= s@.len(),
    ensures
        match quoted(s@, i as int) {
            Some((c, e)) => r is Some && r->Some_0.0@ == c && r->Some_0.1 as int == e,
            None => r is None,
        },
        r is Some ==> i < r->Some_0.1 <= s@.len(),
{
    let mut acc: Vec<u8> = Vec::new();
    let mut j = i;
    loop
        invariant
            i <= j <= s@.len(),
            quoted(s@, i as int) == prepend(acc@, quoted(s@, j as int)),
        decreases s@.len() - j,
    {
        if j >= s.len() {
            return None;
        }
        let b = s[j];
        if b == 34 {
            proof {
                assert(acc@ + Seq::<u8>::empty() =~= acc@);
            }
            return Some((acc, j + 1));
        }
        if b == 92 {
            if j + 1 >= s.len() {
                return None;
            }
            let ghost prev = acc@;
            acc.push(s[j + 1]);
            proof {
                match quoted(s@, j + 2) {
                    Some((c, e)) => assert(prev + (seq![s@[j + 1]] + c) =~= acc@ + c),
                    None => {},
                }
            }
            j = j + 2;
        } else {
            let ghost prev = acc@;
            acc.push(b);
            proof {
                match quoted(s@, j + 1) {
                    Some((c, e)) => assert(prev + (seq![s@[j as int]] + c) =~= acc@ + c),
                    None => {},
                }
            }
            j = j + 1;
        }
    }
}

fn scan_value(s: &[u8], i: usize) -> (r: Option<(Vec<u8>, usize)>)
    requires
        i <= s@.len(),
    ensures
        match value_at(s@, i as int) {
            Some((v, e)) => r is Some && r->Some_0.0@ == v && r->Some_0.1 as int == e,
            None => r is None,
        },
        r is Some ==> i < r->Some_0.1 <= s@.len(),
{
    if i < s.len() && s[i] == 34 {
        scan_quoted(s, i + 1)
    } else {
        let e = scan_token(s, i);
        if e > i {
            let v = copy_range(s, i, e);
            Some((v, e))
        } else {
            None
        }
    }
}

fn copy_range(s: &[u8], from: usize, to: usize) -> (r: Vec<u8>)
    requires
        from <= to <= s@.len(),
    ensures
        r@ == s@.subrange(from as int, to as int),
{
    let mut v: Vec<u8> = Vec::new();
    let mut k = from;
    while k < to
        invariant
            from <= k <= to <= s@.len(),
            v@ == s@.subrange(from as int, k as int),
        decreases to - k,
    {
        v.push(s[k]);
        proof {
            assert(v@ =~= s@.subrange(from as int, k + 1));
        }
        k = k + 1;
    }
    v
}


fn scan_param(s: &[u8], i: usize) -> (r: Option<(Vec<u8>, Vec<u8>, usize)>)
    requires
        i <= s@.len(),
    ensures
        match param_at(s@, i as int) {
            Some((n, v, e)) => r is Some && r->Some_0.0@ == n && r->Some_0.1@ == v && r->Some_0.2 as int
                == e,
            None => r is None,
        },
        r is Some ==> i < r->Some_0.2 <= s@.len(),
{
    let e = scan_token(s, i);
    if i < e && e < s.len() && s[e] == 61 {
        match scan_value(s, e + 1) {
            Some((v, end)) => {
                let n = copy_range(s, i, e);
                Some((n, v, end))
            },
            None => None,
        }
    } else {
        None
    }
}

/// Whether `s[from..to]`, lowered, is `lit`.
fn lower_matches(s: &[u8], from: usize, to: usize, lit: &Vec<u8>) -> (r: bool)
    requires
        from <= to <= s@.len(),
    ensures
        r == (lower_seq(s@.subrange(from as int, to as int)) == lit@),
{
    let ghost w = lower_seq(s@.subrange(from as int, to as int));
    if to - from != lit.len() {
        proof {
            assert(w.len() != lit@.len());
        }
        return false;
    }
    let mut k: usize = 0;
    while k < lit.len()
        invariant
            from <= to <= s@.len(),
            to - from == lit@.len(),
            w == lower_seq(s@.subrange(from as int, to as int)),
            0 <= k <= lit@.len(),
            forall|m: int| 0 <= m < k ==> w[m] == lit@[m],
        decreases lit@.len() - k,
    {
        let b = s[from + k];
        let lb: u8 = if 65 <= b && b <= 90 {
            b + 32
        } else {
            b
        };
        proof {
            assert(w[k as int] == to_lower(s@[from + k]));
        }
        if lb != lit[k] {
            return false;
        }
        k = k + 1;
    }
    proof {
        assert(w =~= lit@);
    }
    true
}

pub open spec fn append_params(
    ps: Seq<(Seq<u8>, Seq<u8>)>,
    o: Option<Seq<(Seq<u8>, Seq<u8>)>>,
) -> Option<Seq<(Seq<u8>, Seq<u8>)>> {
    match o {
        Some(rest) => Some(ps + rest),
        None => None,
    }
}

pub open spec fn opt_view(o: Option<Vec<u8>>) -> Option<Seq<u8>> {
    match o {
        Some(v) => Some(v@),
        None => None,
    }
}

proof fn lemma_lookup_push(ps: Seq<(Seq<u8>, Seq<u8>)>, p: (Seq<u8>, Seq<u8>), key: Seq<u8>)
    ensures
        lookup(ps.push(p), key) == match lookup(ps, key) {
            Some(v) => Some(v),
            None => if lower_seq(p.0) == key {
                Some(p.1)
            } else {
                None
            },
        },
    decreases ps.len(),
{
    let q = ps.push(p);
    if ps.len() == 0 {
        assert(q.drop_first() =~= Seq::<(Seq<u8>, Seq<u8>)>::empty());
        assert(q[0] == p);
        assert(lookup(q, key) == if lower_seq(p.0) == key {
            Some(p.1)
        } else {
            lookup(q.drop_first(), key)
        });
    } else {
        assert(q.drop_first() =~= ps.drop_first().push(p));
        assert(q[0] == ps[0]);
        lemma_lookup_push(ps.drop_first(), p, key);
        if lower_seq(ps[0].0) != key {
            assert(lookup(q, key) == lookup(ps.drop_first().push(p), key));
            assert(lookup(ps, key) == lookup(ps.drop_first(), key));
        }
    }
}

/// Keeps the first value seen for `key`.
fn keep_first(slot: &mut Option<Vec<u8>>, ghost_ps: Ghost<Seq<(Seq<u8>, Seq<u8>)>>, name: &Vec<u8>, value: &Vec<u8>, key: &Vec<u8>)
    requires
        opt_view(*old(slot)) == lookup(ghost_ps@, key@),
    ensures
        opt_view(*final(slot)) == lookup(ghost_ps@.push((name@, value@)), key@),
{
    proof {
        lemma_lookup_push(ghost_ps@, (name@, value@), key@);
    }
    if slot.is_none() && lower_matches(name.as_slice(), 0, name.len(), key) {
        proof {
            assert(name@.subrange(0, name@.len() as int) =~= name@);
        }
        *slot = Some(value.clone());
    } else {
        proof {
            assert(name@.subrange(0, name@.len() as int) =~= name@);
        }
    }
}

fn realm_key() -> (r: Vec<u8>)
    ensures
        r@ == realm_name(),
{
    let r = vec![114u8, 101u8, 97u8, 108u8, 109u8];
    proof {
        assert(r@ =~= realm_name());
    }
    r
}

fn service_key() -> (r: Vec<u8>)
    ensures
        r@ == service_name(),
{
    let r = vec![115u8, 101u8, 114u8, 118u8, 105u8, 99u8, 101u8];
    proof {
        assert(r@ =~= service_name());
    }
    r
}

fn scope_key() -> (r: Vec<u8>)
    ensures
        r@ == scope_name(),
{
    let r = vec![115u8, 99u8, 111u8, 112u8, 101u8];
    proof {
        assert(r@ =~= scope_name());
    }
    r
}

fn bearer_key() -> (r: Vec<u8>)
    ensures
        r@ == bearer_lower(),
{
    let r = vec![98u8, 101u8, 97u8, 114u8, 101u8, 114u8];
    proof {
        assert(r@ =~= bearer_lower());
    }
    r
}

/// Parses a `WWW-Authenticate` header into a bearer challenge.
pub fn parse_challenge(header: &[u8]) -> (r: Result<BearerChallenge, ChallengeError>)
    ensures
        match parse_spec(header@) {
            Some(t) => r is Ok && r->Ok_0.spec_fields() == t,
            None => r == Err::<BearerChallenge, ChallengeError>(ChallengeError::ChallengeMalformed),
        },
{
    let s = header;
    let e = scan_token(s, 0);
    if !(lower_matches(s, 0, e, &bearer_key()) && e < s.len() && (s[e] == 32 || s[e] == 9)) {
        return Err(ChallengeError::ChallengeMalformed);
    }
    let params_start = scan_spaces(s, e);
    let rk = realm_key();
    let sk = service_key();
    let ck = scope_key();
    let mut realm: Option<Vec<u8>> = None;
    let mut service: Option<Vec<u8>> = None;
    let mut scope: Option<Vec<u8>> = None;
    let ghost mut ps: Seq<(Seq<u8>, Seq<u8>)> = Seq::empty();
    let mut i = params_start;
    proof {
        assert(ps + Seq::<(Seq<u8>, Seq<u8>)>::empty() =~= ps);
        match params_at(s@, params_start as int) {
            Some(rest) => assert(ps + rest =~= rest),
            None => {},
        }
    }
    loop
        invariant_except_break
            params_at(s@, params_start as int) == append_params(ps, params_at(s@, i as int)),
        invariant
            params_start <= i <= s@.len(),
            s@ == header@,
            parse_spec(header@) == challenge_of(params_at(s@, params_start as int)),
            opt_view(realm) == lookup(ps, rk@),
            opt_view(service) == lookup(ps, sk@),
            opt_view(scope) == lookup(ps, ck@),
            rk@ == realm_name(),
            sk@ == service_name(),
            ck@ == scope_name(),
        ensures
            params_at(s@, params_start as int) == Some(ps),
            s@ == header@,
            parse_spec(header@) == challenge_of(params_at(s@, params_start as int)),
            opt_view(realm) == lookup(ps, rk@),
            opt_view(service) == lookup(ps, sk@),
            opt_view(scope) == lookup(ps, ck@),
            rk@ == realm_name(),
            sk@ == service_name(),
            ck@ == scope_name(),
        decreases s@.len() - i,
    {
        let (n, v, pe) = match scan_param(s, i) {
            Some(t) => t,
            None => {
                proof {
                    assert(params_at(s@, i as int) is None);
                }
                return Err(ChallengeError::ChallengeMalformed);
            },
        };
        keep_first(&mut realm, Ghost(ps), &n, &v, &rk);
        keep_first(&mut service, Ghost(ps), &n, &v, &sk);
        keep_first(&mut scope, Ghost(ps), &n, &v, &ck);
        let ghost prev = ps;
        proof {
            ps = ps.push((n@, v@));
        }
        let j = scan_spaces(s, pe);
        if j == s.len() {
            proof {
                assert(prev + seq![(n@, v@)] =~= ps);
            }
            break;
        }
        if s[j] != 44 {
            return Err(ChallengeError::ChallengeMalformed);
        }
        let k = scan_spaces(s, j + 1);
        if !(i < k) {
            proof {
                assert(params_at(s@, i as int) is None);
            }
            return Err(ChallengeError::ChallengeMalformed);
        }
        proof {
            match params_at(s@, k as int) {
                Some(rest) => assert(prev + (seq![(n@, v@)] + rest) =~= ps + rest),
                None => {},
            }
        }
        i = k;
    }
    match realm {
        Some(r) => {
            let sv = match service {
                Some(x) => x,
                None => Vec::new(),
            };
            let sc = match scope {
                Some(x) => x,
                None => Vec::new(),
            };
            Ok(BearerChallenge { realm: r, service: sv, scope: sc })
        },
        None => Err(ChallengeError::ChallengeMalformed),
    }
}

/// A byte inside a quoted string: `"` and `\\` get a backslash before them.
pub open spec fn escape_byte(b: u8) -> Seq<u8> {
    if b == 34 || b == 92 {
        seq![92u8, b]
    } else {
        seq![b]
    }
}

pub open spec fn escape(v: Seq<u8>) -> Seq<u8>
    decreases v.len(),
{
    if v.len() == 0 {
        Seq::empty()
    } else {
        escape_byte(v[0]) + escape(v.drop_first())
    }
}

/// `name="value"`, the value escaped.
pub open spec fn param_text(name: Seq<u8>, v: Seq<u8>) -> Seq<u8> {
    name + seq![61u8, 34u8] + escape(v) + seq![34u8]
}

/// `Bearer realm="...",service="...",scope="..."`.
pub open spec fn serialize_spec(realm: Seq<u8>, service: Seq<u8>, scope: Seq<u8>) -> Seq<u8> {
    bearer_scheme() + seq![32u8] + param_text(realm_name(), realm) + seq![44u8] + param_text(
        service_name(),
        service,
    ) + seq![44u8] + param_text(scope_name(), scope)
}

proof fn lemma_escape_push(v: Seq<u8>, b: u8)
    ensures
        escape(v.push(b)) == escape(v) + escape_byte(b),
    decreases v.len(),
{
    if v.len() == 0 {
        assert(v.push(b).drop_first() =~= Seq::<u8>::empty());
        assert(v.push(b)[0] == b);
        assert(escape(Seq::<u8>::empty()) == Seq::<u8>::empty());
        assert(escape(v.push(b)) =~= escape(v) + escape_byte(b));
    } else {
        assert(v.push(b).drop_first() =~= v.drop_first().push(b));
        lemma_escape_push(v.drop_first(), b);
        assert(v.push(b)[0] == v[0]);
        assert(escape(v.push(b)) == escape_byte(v[0]) + escape(v.drop_first().push(b)));
        assert(escape(v.push(b)) =~= escape(v) + escape_byte(b));
    }
}

fn push_bytes(out: &mut Vec<u8>, bytes: &Vec<u8>)
    ensures
        final(out)@ == old(out)@ + bytes@,
{
    let mut i: usize = 0;
    while i < bytes.len()
        invariant
            0 <= i <= bytes@.len(),
            out@ == old(out)@ + bytes@.subrange(0, i as int),
        decreases bytes@.len() - i,
    {
        out.push(bytes[i]);
        i = i + 1;
        proof {
            assert(out@ =~= old(out)@ + bytes@.subrange(0, i as int));
        }
    }
    proof {
        assert(bytes@.subrange(0, i as int) =~= bytes@);
    }
}

fn push_param(out: &mut Vec<u8>, name: &Vec<u8>, v: &Vec<u8>)
    ensures
        final(out)@ == old(out)@ + param_text(name@, v@),
{
    push_bytes(out, name);
    out.push(61);
    out.push(34);
    let ghost start = out@;
    let mut i: usize = 0;
    while i < v.len()
        invariant
            0 <= i <= v@.len(),
            out@ == start + escape(v@.subrange(0, i as int)),
        decreases v@.len() - i,
    {
        let b = v[i];
        if b == 34 || b == 92 {
            out.push(92);
        }
        out.push(b);
        proof {
            assert(v@.subrange(0, i + 1) =~= v@.subrange(0, i as int).push(b));
            lemma_escape_push(v@.subrange(0, i as int), b);
            assert(out@ =~= start + escape(v@.subrange(0, i + 1)));
        }
        i = i + 1;
    }
    out.push(34);
    proof {
        assert(v@.subrange(0, i as int) =~= v@);
        assert(out@ =~= old(out)@ + param_text(name@, v@));
    }
}

/// The `WWW-Authenticate` header that states `c`.
pub fn serialize_challenge(c: &BearerChallenge) -> (r: Vec<u8>)
    ensures
        r@ == serialize_spec(c.realm@, c.service@, c.scope@),
{
    let mut r = vec![66u8, 101u8, 97u8, 114u8, 101u8, 114u8, 32u8];
    proof {
        assert(r@ =~= bearer_scheme() + seq![32u8]);
    }
    push_param(&mut r, &realm_key(), &c.realm);
    r.push(44);
    push_param(&mut r, &service_key(), &c.service);
    r.push(44);
    push_param(&mut r, &scope_key(), &c.scope);
    r
}

proof fn lemma_token_run(s: Seq<u8>, i: int, j: int)
    requires
        0 <= i <= j < s.len(),
        forall|k: int| i <= k < j ==> is_tchar(#[trigger] s[k]),
        !is_tchar(s[j]),
    ensures
        token_end(s, i) == j,
    decreases j - i,
{
    if i < j {
        lemma_token_run(s, i + 1, j);
    }
}

proof fn lemma_quoted_escape(s: Seq<u8>, i: int, v: Seq<u8>)
    requires
        0 <= i,
        i + escape(v).len() < s.len(),
        s.subrange(i, i + escape(v).len()) == escape(v),
        s[i + escape(v).len()] == 34,
    ensures
        quoted(s, i) == Some((v, i + escape(v).len() + 1)),
    decreases v.len(),
{
    let n = escape(v).len() as int;
    if v.len() == 0 {
        assert(escape(v) == Seq::<u8>::empty());
    } else {
        let b = v[0];
        let rest = v.drop_first();
        let eb = escape_byte(b);
        assert(escape(v) == eb + escape(rest));
        assert(s[i] == escape(v)[0]);
        let i2 = i + eb.len();
        assert(s.subrange(i2, i2 + escape(rest).len()) =~= escape(rest)) by {
            assert forall|k: int| 0 <= k < escape(rest).len() implies s.subrange(
                i2,
                i2 + escape(rest).len(),
            )[k] == escape(rest)[k] by {
                assert(s[i2 + k] == s.subrange(i, i + n)[eb.len() + k]);
                assert(escape(v)[eb.len() + k] == escape(rest)[k]);
            }
        }
        lemma_quoted_escape(s, i2, rest);
        assert(seq![b] + rest =~= v);
        if b == 34 || b == 92 {
            assert(s[i + 1] == escape(v)[1]);
        }
    }
}

proof fn lemma_lower_names()
    ensures
        lower_seq(realm_name()) == realm_name(),
        lower_seq(service_name()) == service_name(),
        lower_seq(scope_name()) == scope_name(),
        lower_seq(bearer_scheme()) == bearer_lower(),
        realm_name() != service_name(),
        realm_name() != scope_name(),
        service_name() != scope_name(),
        service_name() != realm_name(),
        scope_name() != realm_name(),
        scope_name() != service_name(),
        forall|k: int| 0 <= k < realm_name().len() ==> is_tchar(#[trigger] realm_name()[k]),
        forall|k: int| 0 <= k < service_name().len() ==> is_tchar(#[trigger] service_name()[k]),
        forall|k: int| 0 <= k < scope_name().len() ==> is_tchar(#[trigger] scope_name()[k]),
        forall|k: int| 0 <= k < bearer_scheme().len() ==> is_tchar(#[trigger] bearer_scheme()[k]),
{
    assert(lower_seq(realm_name()) =~= realm_name());
    assert(lower_seq(service_name()) =~= service_name());
    assert(lower_seq(scope_name()) =~= scope_name());
    assert(lower_seq(bearer_scheme()) =~= bearer_lower());
    assert(realm_name()[0] != scope_name()[0]);
    assert(realm_name().len() != service_name().len());
    assert(scope_name().len() != service_name().len());
}

/// A `name="value"` parameter inside a header is read back as that name and value.
proof fn lemma_param_in(pre: Seq<u8>, name: Seq<u8>, v: Seq<u8>, tail: Seq<u8>)
    requires
        name.len() > 0,
        forall|k: int| 0 <= k < name.len() ==> is_tchar(#[trigger] name[k]),
    ensures
        param_at(pre + param_text(name, v) + tail, pre.len() as int) == Some(
            (name, v, (pre.len() + param_text(name, v).len()) as int),
        ),
{
    let s = pre + param_text(name, v) + tail;
    let p = pre.len() as int;
    let e = p + name.len();
    let q = escape(v);
    assert forall|k: int| p <= k < e implies is_tchar(#[trigger] s[k]) by {
        assert(s[k] == name[k - p]);
    }
    assert(s[e] == 61);
    lemma_token_run(s, p, e);
    assert(s[e + 1] == 34);
    let qs = e + 2;
    assert(s.subrange(qs, qs + q.len()) =~= q);
    assert(s[qs + q.len()] == 34);
    lemma_quoted_escape(s, qs, v);
    assert(s.subrange(p, e) =~= name);
}

proof fn lemma_params_last(s: Seq<u8>, i: int, n: Seq<u8>, v: Seq<u8>)
    requires
        param_at(s, i) == Some((n, v, s.len() as int)),
    ensures
        params_at(s, i) == Some(seq![(n, v)]),
{
}

proof fn lemma_params_step(s: Seq<u8>, i: int, n: Seq<u8>, v: Seq<u8>, e: int, rest: Seq<(Seq<u8>, Seq<u8>)>)
    requires
        0 <= i < e,
        e + 1 < s.len(),
        param_at(s, i) == Some((n, v, e)),
        s[e] == 44,
        !is_space(s[e + 1]),
        params_at(s, e + 1) == Some(rest),
    ensures
        params_at(s, i) == Some(seq![(n, v)] + rest),
{
    assert(skip_spaces(s, e) == e);
    assert(skip_spaces(s, e + 1) == e + 1);
}

proof fn lemma_scheme(s: Seq<u8>, rest: Seq<u8>)
    requires
        s == bearer_scheme() + seq![32u8] + rest,
        rest.len() > 0,
        !is_space(rest[0]),
    ensures
        token_end(s, 0) == 6,
        lower_seq(s.subrange(0, 6)) == bearer_lower(),
        is_space(s[6]),
        skip_spaces(s, 6) == 7,
{
    lemma_lower_names();
    assert forall|k: int| 0 <= k < 6 implies is_tchar(#[trigger] s[k]) by {
        assert(s[k] == bearer_scheme()[k]);
    }
    assert(s[6] == 32);
    lemma_token_run(s, 0, 6);
    assert(s.subrange(0, 6) =~= bearer_scheme());
    assert(s[7] == rest[0]);
    assert(skip_spaces(s, 7) == 7);
}

proof fn lemma_lookup_three(realm: Seq<u8>, service: Seq<u8>, scope: Seq<u8>)
    ensures
        challenge_of(
            Some(seq![(realm_name(), realm)] + (seq![(service_name(), service)] + seq![(scope_name(), scope)])),
        ) == Some((realm, service, scope)),
{
    lemma_lower_names();
    let last = seq![(scope_name(), scope)];
    let two = seq![(service_name(), service)] + last;
    let ps = seq![(realm_name(), realm)] + two;
    assert(ps[0] == (realm_name(), realm));
    assert(ps.drop_first() =~= two);
    assert(two[0] == (service_name(), service));
    assert(two.drop_first() =~= last);
    assert(last.drop_first() =~= Seq::<(Seq<u8>, Seq<u8>)>::empty());
    assert(lookup(ps, realm_name()) == Some(realm));
    assert(lookup(two, service_name()) == Some(service));
    assert(lookup(ps, service_name()) == Some(service));
    assert(lookup(two, scope_name()) == lookup(last, scope_name()));
    assert(lookup(ps, scope_name()) == Some(scope));
}

/// Serializing a bearer challenge and parsing the header gives back the
/// challenge, whatever bytes its realm, service and scope hold.
pub proof fn lemma_challenge_round_trip(realm: Seq<u8>, service: Seq<u8>, scope: Seq<u8>)
    ensures
        parse_spec(serialize_spec(realm, service, scope)) == Some((realm, service, scope)),
{
    lemma_lower_names();
    let a = bearer_scheme() + seq![32u8];
    let realm_part = param_text(realm_name(), realm);
    let service_part = param_text(service_name(), service);
    let scope_part = param_text(scope_name(), scope);
    let c = seq![44u8];
    let s = serialize_spec(realm, service, scope);
    let t1 = c + service_part + c + scope_part;
    assert(s =~= a + realm_part + t1);
    assert(realm_part[0] == 114);
    assert(s =~= bearer_scheme() + seq![32u8] + (realm_part + t1));
    lemma_scheme(s, realm_part + t1);
    lemma_param_in(a, realm_name(), realm, t1);
    let e1 = (a.len() + realm_part.len()) as int;
    let pre2 = a + realm_part + c;
    let t2 = c + scope_part;
    assert(s =~= pre2 + service_part + t2);
    lemma_param_in(pre2, service_name(), service, t2);
    let e2 = (pre2.len() + service_part.len()) as int;
    let pre3 = a + realm_part + c + service_part + c;
    assert(s =~= pre3 + scope_part + Seq::<u8>::empty());
    lemma_param_in(pre3, scope_name(), scope, Seq::<u8>::empty());
    assert(s[e1] == 44);
    assert(s[e1 + 1] == 115);
    assert(s[e2] == 44);
    assert(s[e2 + 1] == 115);
    let last = seq![(scope_name(), scope)];
    lemma_params_last(s, e2 + 1, scope_name(), scope);
    let two = seq![(service_name(), service)] + last;
    lemma_params_step(s, e1 + 1, service_name(), service, e2, last);
    lemma_params_step(s, 7, realm_name(), realm, e1, two);
    lemma_lookup_three(realm, service, scope);
}

/// `<realm>?service=<service>&scope=<scope>`: where to ask for a token.
pub open spec fn token_url_spec(realm: Seq<u8>, service: Seq<u8>, scope: Seq<u8>) -> Seq<u8> {
    realm + seq![63u8, 115u8, 101u8, 114u8, 118u8, 105u8, 99u8, 101u8, 61u8] + service + seq![
        38u8,
        115u8,
        99u8,
        111u8,
        112u8,
        101u8,
        61u8,
    ] + scope
}

/// The token endpoint request for a challenge.
pub fn token_url(c: &BearerChallenge) -> (r: Vec<u8>)
    ensures
        r@ == token_url_spec(c.realm@, c.service@, c.scope@),
{
    let mut r: Vec<u8> = Vec::new();
    push_bytes(&mut r, &c.realm);
    push_bytes(&mut r, &vec![63u8, 115u8, 101u8, 114u8, 118u8, 105u8, 99u8, 101u8, 61u8]);
    push_bytes(&mut r, &c.service);
    push_bytes(&mut r, &vec![38u8, 115u8, 99u8, 111u8, 112u8, 101u8, 61u8]);
    push_bytes(&mut r, &c.scope);
    proof {
        assert(r@ =~= token_url_spec(c.realm@, c.service@, c.scope@));
    }
    r
}

} // verus!
