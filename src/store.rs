//! The content-addressed layer store: what `ensure_layer` must do for a digest,
//! given what is already on disk, and the digest check of a packed layer.

use vstd::prelude::*;

verus! {

/// What the store holds for one digest.
#[derive(Debug, Clone, Copy, PartialEq, Eq, Structural)]
pub struct LayerPresence {
    /// `layers/<digest>/` exists.
    pub unpacked: bool,
    /// `layers/<digest>.tar.gz` exists.
    pub packed: bool,
    /// A `.partial` file or directory was left behind by an interrupted attempt.
    pub partial: bool,
}

/// One step towards an unpacked layer.
#[derive(Debug, Clone, Copy, PartialEq, Eq, Structural)]
pub enum StoreAction {
    /// Delete leftover `.partial` files and directories.
    RemovePartial,
    /// Stream the blob into `<digest>.tar.gz.partial` and rename it into place.
    Download,
    /// Check that the packed layer hashes to its digest.
    VerifyDigest,
    /// Extract into `<digest>.partial/` and rename it into place.
    Unpack,
}

/// The store after one successful step.
pub open spec fn apply_action(p: LayerPresence, a: StoreAction) -> LayerPresence {
    match a {
        StoreAction::RemovePartial => LayerPresence { partial: false, ..p },
        StoreAction::Download => LayerPresence { packed: true, ..p },
        StoreAction::VerifyDigest => p,
        StoreAction::Unpack => LayerPresence { unpacked: true, ..p },
    }
}

/// The store after a sequence of successful steps.
pub open spec fn apply_actions(p: LayerPresence, actions: Seq<StoreAction>) -> LayerPresence
    decreases actions.len(),
{
    if actions.len() == 0 {
        p
    } else {
        apply_actions(apply_action(p, actions[0]), actions.drop_first())
    }
}

/// The steps of `ensure_layer`: nothing when the layer is unpacked; else clear
/// leftovers, download when no packed layer exists, verify, then unpack.
pub open spec fn ensure_plan_spec(p: LayerPresence) -> Seq<StoreAction> {
    if p.unpacked {
        Seq::empty()
    } else if p.packed {
        seq![StoreAction::RemovePartial, StoreAction::VerifyDigest, StoreAction::Unpack]
    } else {
        seq![
            StoreAction::RemovePartial,
            StoreAction::Download,
            StoreAction::VerifyDigest,
            StoreAction::Unpack,
        ]
    }
}

/// The steps that bring the layer described by `p` to its unpacked state.
pub fn ensure_layer_plan(p: LayerPresence) -> (r: Vec<StoreAction>)
    ensures
        r@ == ensure_plan_spec(p),
        apply_actions(p, r@).unpacked,
        forall|i: int|
            0 <= i < r@.len() && #[trigger] r@[i] == StoreAction::Unpack ==> exists|j: int|
                0 <= j < i && r@[j] == StoreAction::VerifyDigest,
{
    let mut r: Vec<StoreAction> = Vec::new();
    if p.unpacked {
        return r;
    }
    r.push(StoreAction::RemovePartial);
    if !p.packed {
        r.push(StoreAction::Download);
    }
    r.push(StoreAction::VerifyDigest);
    r.push(StoreAction::Unpack);
    proof {
        assert(r@ =~= ensure_plan_spec(p));
        lemma_plan_unpacks(p);
        assert forall|i: int|
            0 <= i < r@.len() && #[trigger] r@[i] == StoreAction::Unpack implies exists|j: int|
                0 <= j < i && r@[j] == StoreAction::VerifyDigest by {
            assert(r@[r@.len() - 2] == StoreAction::VerifyDigest);
        }
    }
    r
}

/// The store after a packed layer failed its digest check: the packed file and
/// any leftovers are deleted, nothing is unpacked.
pub open spec fn after_mismatch_spec(p: LayerPresence) -> LayerPresence {
    LayerPresence { unpacked: p.unpacked, packed: false, partial: false }
}

/// What the store holds once a failed digest check has been cleaned up.
pub fn after_digest_mismatch(p: LayerPresence) -> (r: LayerPresence)
    ensures
        r == after_mismatch_spec(p),
{
    LayerPresence { unpacked: p.unpacked, packed: false, partial: false }
}

/// After a corrupt packed layer is removed, the next `ensure_layer` downloads
/// the layer afresh and verifies it before unpacking.
pub proof fn lemma_retry_after_mismatch_downloads(p: LayerPresence)
    requires
        !p.unpacked,
    ensures
        ensure_plan_spec(after_mismatch_spec(p)) == seq![
            StoreAction::RemovePartial,
            StoreAction::Download,
            StoreAction::VerifyDigest,
            StoreAction::Unpack,
        ],
{
}

proof fn lemma_plan_unpacks(p: LayerPresence)
    ensures
        apply_actions(p, ensure_plan_spec(p)).unpacked,
        !p.unpacked ==> apply_actions(p, ensure_plan_spec(p)).packed,
        p.unpacked ==> apply_actions(p, ensure_plan_spec(p)) == p,
        !p.unpacked ==> !apply_actions(p, ensure_plan_spec(p)).partial,
{
    if !p.unpacked {
        let s = ensure_plan_spec(p);
        reveal_with_fuel(apply_actions, 5);
        assert(s.drop_first().drop_first().drop_first().len() <= 1);
        if p.packed {
            assert(s.drop_first() =~= seq![StoreAction::VerifyDigest, StoreAction::Unpack]);
            assert(s.drop_first().drop_first() =~= seq![StoreAction::Unpack]);
            assert(s.drop_first().drop_first().drop_first() =~= Seq::<StoreAction>::empty());
        } else {
            assert(s.drop_first() =~= seq![StoreAction::Download, StoreAction::VerifyDigest, StoreAction::Unpack]);
            assert(s.drop_first().drop_first() =~= seq![StoreAction::VerifyDigest, StoreAction::Unpack]);
            assert(s.drop_first().drop_first().drop_first() =~= seq![StoreAction::Unpack]);
            assert(s.drop_first().drop_first().drop_first().drop_first() =~= Seq::<StoreAction>::empty());
        }
    } else {
        assert(ensure_plan_spec(p) =~= Seq::<StoreAction>::empty());
    }
}

/// Ensuring a layer a second time changes nothing: the store after two runs of
/// `ensure_layer` is the store after one.
pub proof fn lemma_ensure_layer_idempotent(p: LayerPresence)
    ensures
        ({
            let once = apply_actions(p, ensure_plan_spec(p));
            apply_actions(once, ensure_plan_spec(once)) == once
        }),
{
    lemma_plan_unpacks(p);
    let once = apply_actions(p, ensure_plan_spec(p));
    lemma_plan_unpacks(once);
}

#[derive(Debug, Clone, Copy, PartialEq, Eq, Structural)]
pub enum StoreError {
    /// The packed layer does not hash to its digest.
    DigestMismatch,
}

/// A digest as the registry writes it, for a SHA-256 given in hex.
pub open spec fn sha256_digest(hex: Seq<char>) -> Seq<char> {
    "sha256:"@ + hex
}

/// Checks a packed layer whose SHA-256, in lower-case hex, is `computed_hex`
/// against the digest it is stored under.
pub fn verify_layer_digest(digest: &str, computed_hex: &str) -> (r: Result<(), StoreError>)
    ensures
        r is Ok <==> digest@ == sha256_digest(computed_hex@),
        r is Err ==> r == Err::<(), StoreError>(StoreError::DigestMismatch),
{
    let mut want = String::from_str("sha256:");
    want.append(computed_hex);
    let have = String::from_str(digest);
    if have == want {
        Ok(())
    } else {
        Err(StoreError::DigestMismatch)
    }
}

} // verus!
