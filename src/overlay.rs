//! Mount options of a container's overlay root.

use vstd::prelude::*;

verus! {

/// The `lowerdir` value for layer directories given bottom to top: the same
/// directories top to bottom, joined by colons.
pub open spec fn lowerdir_spec(layers: Seq<Seq<char>>) -> Seq<char>
    decreases layers.len(),
{
    if layers.len() <= 1 {
        if layers.len() == 0 {
            Seq::empty()
        } else {
            layers[0]
        }
    } else {
        lowerdir_spec(layers.drop_first()) + ":"@ + layers[0]
    }
}

/// The whole option string handed to the overlay mount.
pub open spec fn mount_options_spec(layers: Seq<Seq<char>>, upper: Seq<char>, work: Seq<char>) -> Seq<char> {
    "lowerdir="@ + lowerdir_spec(layers) + ",upperdir="@ + upper + ",workdir="@ + work
}

/// The views of a vector of strings.
pub open spec fn views(v: Seq<String>) -> Seq<Seq<char>> {
    v.map_values(|s: String| s@)
}

#[derive(Debug, Clone, Copy, PartialEq, Eq, Structural)]
pub enum OverlayError {
    /// An overlay needs at least one lower layer.
    NoLayers,
}

/// The `lowerdir` value for `layers`, given bottom to top.
pub fn lowerdir(layers: &Vec<String>) -> (r: Result<String, OverlayError>)
    ensures
        layers@.len() == 0 <==> r is Err,
        r is Err ==> r == Err::<String, OverlayError>(OverlayError::NoLayers),
        r is Ok ==> r->Ok_0@ == lowerdir_spec(views(layers@)),
        layers@.len() == 1 ==> r is Ok && r->Ok_0@ == layers@[0]@,
{
    let n = layers.len();
    if n == 0 {
        return Err(OverlayError::NoLayers);
    }
    let ghost vs = views(layers@);
    let mut r = layers[n - 1].clone();
    let mut i: usize = n - 1;
    proof {
        let sub = vs.subrange(i as int, n as int);
        assert(sub.len() == 1);
        assert(sub[0] == layers@[n - 1]@);
    }
    while i > 0
        invariant
            0 <= i < n,
            n == layers@.len(),
            vs == views(layers@),
            r@ == lowerdir_spec(vs.subrange(i as int, n as int)),
        decreases i,
    {
        r.append(":");
        r.append(layers[i - 1].as_str());
        proof {
            let sub = vs.subrange(i - 1, n as int);
            assert(sub.drop_first() =~= vs.subrange(i as int, n as int));
            assert(sub[0] == layers@[i - 1]@);
        }
        i = i - 1;
    }
    proof {
        assert(vs.subrange(0, n as int) =~= vs);
    }
    Ok(r)
}

/// The overlay mount options: `lowerdir=<layers top first>,upperdir=<upper>,workdir=<work>`.
pub fn mount_options(layers: &Vec<String>, upper: &str, work: &str) -> (r: Result<String, OverlayError>)
    ensures
        layers@.len() == 0 <==> r is Err,
        r is Err ==> r == Err::<String, OverlayError>(OverlayError::NoLayers),
        r is Ok ==> r->Ok_0@ == mount_options_spec(views(layers@), upper@, work@),
{
    let lower = lowerdir(layers)?;
    let mut r = String::from_str("lowerdir=");
    r.append(lower.as_str());
    r.append(",upperdir=");
    r.append(upper);
    r.append(",workdir=");
    r.append(work);
    Ok(r)
}

/// With a single layer, the lower directory list is that layer alone.
pub proof fn lemma_single_layer_overlay(layer: Seq<char>, upper: Seq<char>, work: Seq<char>)
    ensures
        lowerdir_spec(seq![layer]) == layer,
        mount_options_spec(seq![layer], upper, work)
            == "lowerdir="@ + layer + ",upperdir="@ + upper + ",workdir="@ + work,
{
}

/// Stacking one more layer on top puts it first in the lower directory list.
pub proof fn lemma_top_layer_first(layers: Seq<Seq<char>>, top: Seq<char>)
    requires
        layers.len() > 0,
    ensures
        lowerdir_spec(layers.push(top)) == top + ":"@ + lowerdir_spec(layers),
    decreases layers.len(),
{
    let p = layers.push(top);
    assert(p.drop_first() =~= layers.drop_first().push(top));
    assert(p[0] == layers[0]);
    if layers.len() == 1 {
        assert(p.drop_first() =~= seq![top]);
        assert(lowerdir_spec(seq![top]) == top);
    } else {
        lemma_top_layer_first(layers.drop_first(), top);
        let rest = lowerdir_spec(layers.drop_first());
        assert(lowerdir_spec(p) == (top + ":"@ + rest) + ":"@ + layers[0]);
        assert(lowerdir_spec(layers) == rest + ":"@ + layers[0]);
        assert((top + ":"@ + rest) + ":"@ + layers[0] =~= top + ":"@ + (rest + ":"@ + layers[0]));
    }
}

} // verus!
