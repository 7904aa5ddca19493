//! The on-disk layout under the fixed base directory.

use vstd::prelude::*;

verus! {

/// Directory holding one subdirectory per container.
pub open spec fn containers_root() -> Seq<char> {
    "/tmp/mydocker/containers"@
}

/// Directory holding packed and unpacked layers.
pub open spec fn layers_root() -> Seq<char> {
    "/tmp/mydocker/layers"@
}

/// `dir` followed by one more path component.
pub open spec fn join(dir: Seq<char>, part: Seq<char>) -> Seq<char> {
    dir + "/"@ + part
}

pub open spec fn container_dir_spec(name: Seq<char>) -> Seq<char> {
    join(containers_root(), name)
}

pub open spec fn overlay_layer_dir_spec(name: Seq<char>) -> Seq<char> {
    join(container_dir_spec(name), "layers"@)
}

pub open spec fn writable_dir_spec(name: Seq<char>) -> Seq<char> {
    join(overlay_layer_dir_spec(name), "writable"@)
}

/// `dir` and `part` joined by a slash, as a new string.
fn join_path(dir: &str, part: &str) -> (r: String)
    ensures
        r@ == join(dir@, part@),
{
    let mut r = String::from_str(dir);
    r.append("/");
    r.append(part);
    r
}

/// `containers/<name>`.
pub fn container_dir(name: &str) -> (r: String)
    ensures
        r@ == container_dir_spec(name@),
{
    join_path("/tmp/mydocker/containers", name)
}

/// `containers/<name>/pid`: the file holding the init PID.
pub fn pid_file_path(name: &str) -> (r: String)
    ensures
        r@ == join(container_dir_spec(name@), "pid"@),
{
    join_path(container_dir(name).as_str(), "pid")
}

/// `containers/<name>/rootfs`: the overlay mount point.
pub fn root_fs_path(name: &str) -> (r: String)
    ensures
        r@ == join(container_dir_spec(name@), "rootfs"@),
{
    join_path(container_dir(name).as_str(), "rootfs")
}

/// `containers/<name>/layers`.
pub fn overlay_layer_dir(name: &str) -> (r: String)
    ensures
        r@ == overlay_layer_dir_spec(name@),
{
    join_path(container_dir(name).as_str(), "layers")
}

/// `containers/<name>/layers/writable`.
pub fn overlay_fs_writable_layers_dir(name: &str) -> (r: String)
    ensures
        r@ == writable_dir_spec(name@),
{
    join_path(overlay_layer_dir(name).as_str(), "writable")
}

/// `containers/<name>/layers/writable/work`: overlayfs scratch space.
pub fn overlay_fs_work_dir(name: &str) -> (r: String)
    ensures
        r@ == join(writable_dir_spec(name@), "work"@),
{
    join_path(overlay_fs_writable_layers_dir(name).as_str(), "work")
}

/// `containers/<name>/layers/writable/upper`: the private writable layer.
pub fn overlay_fs_upper_dir(name: &str) -> (r: String)
    ensures
        r@ == join(writable_dir_spec(name@), "upper"@),
{
    join_path(overlay_fs_writable_layers_dir(name).as_str(), "upper")
}

/// `containers/<name>/layers/lower`: holds one link per image layer.
pub fn overlay_fs_lower_dir(name: &str) -> (r: String)
    ensures
        r@ == join(overlay_layer_dir_spec(name@), "lower"@),
{
    join_path(overlay_layer_dir(name).as_str(), "lower")
}

/// `layers/<digest>`: an unpacked layer.
pub fn unpacked_layer_dir(digest: &str) -> (r: String)
    ensures
        r@ == join(layers_root(), digest@),
{
    join_path("/tmp/mydocker/layers", digest)
}

/// `layers/<digest>.tar.gz`: a packed layer.
pub fn packed_layer_path(digest: &str) -> (r: String)
    ensures
        r@ == join(layers_root(), digest@ + ".tar.gz"@),
{
    let mut r = join_path("/tmp/mydocker/layers", digest);
    r.append(".tar.gz");
    proof {
        assert(r@ =~= join(layers_root(), digest@ + ".tar.gz"@));
    }
    r
}

/// The text of one decimal digit.
pub open spec fn digit_text(d: nat) -> Seq<char> {
    if d == 0 {
        "0"@
    } else if d == 1 {
        "1"@
    } else if d == 2 {
        "2"@
    } else if d == 3 {
        "3"@
    } else if d == 4 {
        "4"@
    } else if d == 5 {
        "5"@
    } else if d == 6 {
        "6"@
    } else if d == 7 {
        "7"@
    } else if d == 8 {
        "8"@
    } else {
        "9"@
    }
}

/// The decimal text of `n`, without leading zeros.
pub open spec fn index_text(n: nat) -> Seq<char>
    decreases n,
{
    if n < 10 {
        digit_text(n)
    } else {
        index_text(n / 10) + digit_text(n % 10)
    }
}

fn digit_str(d: u32) -> (r: &'static str)
    requires
        d < 10,
    ensures
        r@ == digit_text(d as nat),
{
    if d == 0 {
        "0"
    } else if d == 1 {
        "1"
    } else if d == 2 {
        "2"
    } else if d == 3 {
        "3"
    } else if d == 4 {
        "4"
    } else if d == 5 {
        "5"
    } else if d == 6 {
        "6"
    } else if d == 7 {
        "7"
    } else if d == 8 {
        "8"
    } else {
        "9"
    }
}

fn append_index(out: &mut String, n: u32)
    ensures
        final(out)@ == old(out)@ + index_text(n as nat),
    decreases n,
{
    if n >= 10 {
        append_index(out, n / 10);
    }
    out.append(digit_str(n % 10));
    proof {
        assert(final(out)@ =~= old(out)@ + index_text(n as nat));
    }
}

pub open spec fn lower_link_spec(name: Seq<char>, index: nat) -> Seq<char> {
    join(join(overlay_layer_dir_spec(name), "lower"@), index_text(index))
}

/// `containers/<name>/layers/lower/<index>`: the link to the layer at
/// `index`, counted from the bottom.
pub fn lower_link_path(name: &str, index: u32) -> (r: String)
    ensures
        r@ == lower_link_spec(name@, index as nat),
{
    let mut r = overlay_fs_lower_dir(name);
    r.append("/");
    append_index(&mut r, index);
    r
}

/// The lower-layer links of a container for the given layer digests, bottom
/// to top, each with the layer directory it points at.
pub fn lower_links(name: &str, digests: &Vec<String>) -> (r: Vec<(String, String)>)
    requires
        digests@.len() <= u32::MAX,
    ensures
        r@.len() == digests@.len(),
        forall|i: int|
            0 <= i < r@.len() ==> (#[trigger] r@[i]).0@ == lower_link_spec(name@, i as nat) && r@[i].1@
                == join(layers_root(), digests@[i]@),
{
    let mut r: Vec<(String, String)> = Vec::new();
    let mut i: usize = 0;
    while i < digests.len()
        invariant
            0 <= i <= digests@.len() <= u32::MAX,
            r@.len() == i,
            forall|k: int|
                0 <= k < i ==> (#[trigger] r@[k]).0@ == lower_link_spec(name@, k as nat) && r@[k].1@
                    == join(layers_root(), digests@[k]@),
        decreases digests@.len() - i,
    {
        let link = lower_link_path(name, i as u32);
        let target = unpacked_layer_dir(digests[i].as_str());
        r.push((link, target));
        i = i + 1;
    }
    r
}

/// Distinct layer indexes give distinct lower-layer link paths.
pub proof fn lemma_lower_links_distinct(name: Seq<char>, i: nat, j: nat)
    requires
        i != j,
    ensures
        lower_link_spec(name, i) != lower_link_spec(name, j),
{
    lemma_index_text_injective(i, j);
    let pre = join(overlay_layer_dir_spec(name), "lower"@) + "/"@;
    assert(lower_link_spec(name, i) == pre + index_text(i));
    assert(lower_link_spec(name, j) == pre + index_text(j));
    if lower_link_spec(name, i) == lower_link_spec(name, j) {
        assert(index_text(i) =~= (pre + index_text(i)).subrange(pre.len() as int, (pre + index_text(i)).len() as int));
        assert(index_text(j) =~= (pre + index_text(j)).subrange(pre.len() as int, (pre + index_text(j)).len() as int));
    }
}

proof fn lemma_digit_text(d: nat)
    requires
        d < 10,
    ensures
        digit_text(d).len() == 1,
        forall|e: nat| e < 10 && e != d ==> digit_text(e) != digit_text(d),
{
    reveal_strlit("0");
    reveal_strlit("1");
    reveal_strlit("2");
    reveal_strlit("3");
    reveal_strlit("4");
    reveal_strlit("5");
    reveal_strlit("6");
    reveal_strlit("7");
    reveal_strlit("8");
    reveal_strlit("9");
    assert forall|e: nat| e < 10 && e != d implies digit_text(e) != digit_text(d) by {
        assert(digit_text(e)[0] != digit_text(d)[0]);
    }
}

proof fn lemma_index_text_len(n: nat)
    ensures
        index_text(n).len() >= 1,
        n < 10 <==> index_text(n).len() == 1,
    decreases n,
{
    if n < 10 {
        lemma_digit_text(n);
    } else {
        lemma_index_text_len(n / 10);
        lemma_digit_text(n % 10);
    }
}

proof fn lemma_index_text_injective(i: nat, j: nat)
    requires
        i != j,
    ensures
        index_text(i) != index_text(j),
    decreases i + j,
{
    lemma_index_text_len(i);
    lemma_index_text_len(j);
    if i < 10 && j < 10 {
        lemma_digit_text(i);
    } else if i >= 10 && j >= 10 {
        lemma_digit_text(i % 10);
        lemma_digit_text(j % 10);
        let a = index_text(i / 10);
        let b = index_text(j / 10);
        if index_text(i) == index_text(j) {
            let ti = index_text(i);
            assert(ti.last() == digit_text(i % 10)[0]);
            assert(index_text(j).last() == digit_text(j % 10)[0]);
            if i % 10 != j % 10 {
                assert(digit_text(i % 10) =~= seq![digit_text(i % 10)[0]]);
                assert(digit_text(j % 10) =~= seq![digit_text(j % 10)[0]]);
            } else {
                assert(i / 10 != j / 10);
                lemma_index_text_injective(i / 10, j / 10);
                assert(a =~= ti.drop_last());
                assert(b =~= index_text(j).drop_last());
            }
        }
    } else if i < 10 {
        lemma_digit_text(i);
    } else {
        lemma_digit_text(j);
    }
}

} // verus!
