//! Decisions of the lifecycle operations `run`, `exec`, `ls`, `rm` and `rmi`,
//! taken on facts that the caller gathered from disk and from the kernel.

use vstd::prelude::*;

verus! {

#[derive(Debug, Clone, Copy, PartialEq, Eq, Structural)]
pub enum ContainerStatus {
    Running,
    Exited,
}

#[derive(Debug, Clone, Copy, PartialEq, Eq, Structural)]
pub enum LifecycleError {
    /// `run` was asked for a name whose container directory exists.
    NameInUse,
    /// No container directory of that name.
    NotFound,
    /// `rm` on a container whose init process is alive.
    StillRunning,
    /// `exec` on a container with no live init process.
    NotRunning,
    /// `rmi` on a layer that a container links to.
    LayerInUse,
}

/// A container runs when its PID record holds a PID that answers the signal probe.
pub open spec fn status_spec(pid: Option<u32>, alive: bool) -> ContainerStatus {
    if pid is Some && alive {
        ContainerStatus::Running
    } else {
        ContainerStatus::Exited
    }
}

/// The status that `ls` reports, from the PID record (if any) and the probe.
pub fn container_status(pid: Option<u32>, alive: bool) -> (r: ContainerStatus)
    ensures
        r == status_spec(pid, alive),
{
    match pid {
        Some(_) => if alive {
            ContainerStatus::Running
        } else {
            ContainerStatus::Exited
        },
        None => ContainerStatus::Exited,
    }
}

pub open spec fn status_word(s: ContainerStatus) -> Seq<char> {
    match s {
        ContainerStatus::Running => "running"@,
        ContainerStatus::Exited => "exited"@,
    }
}

/// One line of `ls`: the name and the status, separated by a space.
pub fn ls_line(name: &str, status: ContainerStatus) -> (r: String)
    ensures
        r@ == name@ + " "@ + status_word(status),
{
    let mut r = String::from_str(name);
    r.append(" ");
    match status {
        ContainerStatus::Running => r.append("running"),
        ContainerStatus::Exited => r.append("exited"),
    }
    r
}

/// `run` refuses a name that is taken.
pub fn check_run_name(exists: bool) -> (r: Result<(), LifecycleError>)
    ensures
        r is Ok <==> !exists,
        r is Err ==> r == Err::<(), LifecycleError>(LifecycleError::NameInUse),
{
    if exists {
        Err(LifecycleError::NameInUse)
    } else {
        Ok(())
    }
}

/// `rm` needs an existing container that is not running.
pub fn check_rm(exists: bool, pid: Option<u32>, alive: bool) -> (r: Result<(), LifecycleError>)
    ensures
        !exists ==> r == Err::<(), LifecycleError>(LifecycleError::NotFound),
        exists && status_spec(pid, alive) == ContainerStatus::Running ==> r == Err::<
            (),
            LifecycleError,
        >(LifecycleError::StillRunning),
        r is Ok <==> exists && status_spec(pid, alive) == ContainerStatus::Exited,
{
    if !exists {
        return Err(LifecycleError::NotFound);
    }
    match container_status(pid, alive) {
        ContainerStatus::Running => Err(LifecycleError::StillRunning),
        ContainerStatus::Exited => Ok(()),
    }
}

/// `exec` needs an existing, running container; it joins the namespaces of
/// the returned PID.
pub fn check_exec(exists: bool, pid: Option<u32>, alive: bool) -> (r: Result<u32, LifecycleError>)
    ensures
        !exists ==> r == Err::<u32, LifecycleError>(LifecycleError::NotFound),
        exists && status_spec(pid, alive) == ContainerStatus::Exited ==> r == Err::<
            u32,
            LifecycleError,
        >(LifecycleError::NotRunning),
        r is Ok <==> exists && status_spec(pid, alive) == ContainerStatus::Running,
        r is Ok ==> pid == Some(r->Ok_0),
{
    if !exists {
        return Err(LifecycleError::NotFound);
    }
    match pid {
        Some(p) => if alive {
            Ok(p)
        } else {
            Err(LifecycleError::NotRunning)
        },
        None => Err(LifecycleError::NotRunning),
    }
}

/// How many of `targets` are `layer`.
pub open spec fn count_refs(targets: Seq<Seq<char>>, layer: Seq<char>) -> nat
    decreases targets.len(),
{
    if targets.len() == 0 {
        0
    } else {
        count_refs(targets.drop_last(), layer) + if targets.last() == layer {
            1nat
        } else {
            0nat
        }
    }
}

pub open spec fn views(v: Seq<String>) -> Seq<Seq<char>> {
    v.map_values(|s: String| s@)
}

/// The number of lower-layer links, over all containers, whose target is `layer`.
pub fn layer_refcount(layer: &String, link_targets: &Vec<String>) -> (r: usize)
    ensures
        r as nat == count_refs(views(link_targets@), layer@),
{
    let ghost vs = views(link_targets@);
    let mut n: usize = 0;
    let mut i: usize = 0;
    while i < link_targets.len()
        invariant
            0 <= i <= link_targets@.len(),
            vs == views(link_targets@),
            n as nat == count_refs(vs.subrange(0, i as int), layer@),
            n <= i,
        decreases link_targets@.len() - i,
    {
        proof {
            assert(vs.subrange(0, i as int + 1).drop_last() =~= vs.subrange(0, i as int));
        }
        if link_targets[i] == *layer {
            n = n + 1;
        }
        i = i + 1;
    }
    proof {
        assert(vs.subrange(0, i as int) =~= vs);
    }
    n
}

/// `rmi` removes a layer only when no container links to it.
pub fn check_rmi(layer: &String, link_targets: &Vec<String>) -> (r: Result<(), LifecycleError>)
    ensures
        r is Ok <==> count_refs(views(link_targets@), layer@) == 0,
        r is Err ==> r == Err::<(), LifecycleError>(LifecycleError::LayerInUse),
{
    if layer_refcount(layer, link_targets) == 0 {
        Ok(())
    } else {
        Err(LifecycleError::LayerInUse)
    }
}

/// The resources that a `run` holds at some moment.
#[derive(Debug, Clone, Copy, PartialEq, Eq, Structural)]
pub struct Acquired {
    /// `containers/<name>/` was created.
    pub container_dir: bool,
    /// The overlay is mounted on `rootfs/`.
    pub mounted: bool,
    /// The child process was spawned and not yet reaped.
    pub child: bool,
}

#[derive(Debug, Clone, Copy, PartialEq, Eq, Structural)]
pub enum Release {
    /// Send SIGKILL to the child and reap it.
    KillChild,
    /// Unmount `rootfs/`, detaching if busy.
    Unmount,
    /// Delete `containers/<name>/`.
    RemoveContainerDir,
}

pub open spec fn nothing_held() -> Acquired {
    Acquired { container_dir: false, mounted: false, child: false }
}

pub open spec fn apply_release(a: Acquired, r: Release) -> Acquired {
    match r {
        Release::KillChild => Acquired { child: false, ..a },
        Release::Unmount => Acquired { mounted: false, ..a },
        Release::RemoveContainerDir => Acquired { container_dir: false, ..a },
    }
}

pub open spec fn apply_releases(a: Acquired, rs: Seq<Release>) -> Acquired
    decreases rs.len(),
{
    if rs.len() == 0 {
        a
    } else {
        apply_releases(apply_release(a, rs[0]), rs.drop_first())
    }
}

/// The position of a release step in the teardown order: the child dies
/// first, so that the mount is no longer busy, and the directory goes last.
pub open spec fn release_rank(r: Release) -> int {
    match r {
        Release::KillChild => 0,
        Release::Unmount => 1,
        Release::RemoveContainerDir => 2,
    }
}

pub open spec fn release_needed(a: Acquired, r: Release) -> bool {
    match r {
        Release::KillChild => a.child,
        Release::Unmount => a.mounted,
        Release::RemoveContainerDir => a.container_dir,
    }
}

/// What a failed `run` releases, in order: one step per held resource.
pub open spec fn release_plan_spec(a: Acquired) -> Seq<Release> {
    let s1: Seq<Release> = if a.child { seq![Release::KillChild] } else { Seq::empty() };
    let s2: Seq<Release> = if a.mounted { s1.push(Release::Unmount) } else { s1 };
    if a.container_dir { s2.push(Release::RemoveContainerDir) } else { s2 }
}

/// The steps that release everything a failed `run` holds.
pub fn release_plan(a: Acquired) -> (r: Vec<Release>)
    ensures
        r@ == release_plan_spec(a),
        forall|i: int, j: int|
            0 <= i < j < r@.len() ==> release_rank(r@[i]) < release_rank(r@[j]),
        forall|x: Release| #[trigger] r@.contains(x) <==> release_needed(a, x),
{
    let mut r: Vec<Release> = Vec::new();
    if a.child {
        r.push(Release::KillChild);
    }
    if a.mounted {
        r.push(Release::Unmount);
    }
    if a.container_dir {
        r.push(Release::RemoveContainerDir);
    }
    proof {
        assert(r@ =~= release_plan_spec(a));
        assert forall|x: Release| #[trigger] r@.contains(x) <==> release_needed(a, x) by {
            if release_needed(a, x) {
                match x {
                    Release::KillChild => assert(r@[0] == x),
                    Release::Unmount => assert(r@[if a.child { 1int } else { 0int }] == x),
                    Release::RemoveContainerDir => assert(r@[r@.len() - 1] == x),
                }
            }
        }
    }
    r
}

proof fn lemma_release_one(a: Acquired, rs: Seq<Release>, x: Release)
    ensures
        apply_releases(a, rs.push(x)) == apply_release(apply_releases(a, rs), x),
    decreases rs.len(),
{
    if rs.len() > 0 {
        assert(rs.push(x).drop_first() =~= rs.drop_first().push(x));
        assert(rs.push(x)[0] == rs[0]);
        lemma_release_one(apply_release(a, rs[0]), rs.drop_first(), x);
    } else {
        assert(rs.push(x).drop_first() =~= Seq::<Release>::empty());
        assert(rs.push(x)[0] == x);
        assert(apply_releases(apply_release(a, x), Seq::<Release>::empty()) == apply_release(a, x));
    }
}

/// After a failed `run` carries out its release plan, whatever it had
/// acquired (container directory, overlay mount, child) is gone.
pub proof fn lemma_failed_run_leaves_nothing(a: Acquired)
    ensures
        apply_releases(a, release_plan_spec(a)) == nothing_held(),
{
    let e = Seq::<Release>::empty();
    let s1: Seq<Release> = if a.child { seq![Release::KillChild] } else { e };
    let s2: Seq<Release> = if a.mounted { s1.push(Release::Unmount) } else { s1 };
    if a.child {
        assert(s1 =~= e.push(Release::KillChild));
        lemma_release_one(a, e, Release::KillChild);
    }
    if a.mounted {
        lemma_release_one(a, s1, Release::Unmount);
    }
    if a.container_dir {
        lemma_release_one(a, s2, Release::RemoveContainerDir);
    }
}

/// `rm` of an exited container: unmount, then delete its directory.
pub open spec fn rm_plan_spec() -> Seq<Release> {
    seq![Release::Unmount, Release::RemoveContainerDir]
}

/// The steps of `rm` once `check_rm` has passed.
pub fn rm_plan() -> (r: Vec<Release>)
    ensures
        r@ == rm_plan_spec(),
{
    let mut r: Vec<Release> = Vec::new();
    r.push(Release::Unmount);
    r.push(Release::RemoveContainerDir);
    proof {
        assert(r@ =~= rm_plan_spec());
    }
    r
}

/// After a successful `rm` of a container that holds no live child, neither
/// its mount nor its directory remains.
pub proof fn lemma_rm_leaves_nothing(a: Acquired)
    requires
        !a.child,
    ensures
        apply_releases(a, rm_plan_spec()) == nothing_held(),
{
    reveal_with_fuel(apply_releases, 3);
    assert(rm_plan_spec().drop_first() =~= seq![Release::RemoveContainerDir]);
    assert(rm_plan_spec().drop_first().drop_first() =~= Seq::<Release>::empty());
}

/// Kinds of failure, each with its process exit code.
#[derive(Debug, Clone, Copy, PartialEq, Eq, Structural)]
pub enum ErrorKind {
    /// Bad image reference, duplicate name, unknown container.
    UserInput,
    /// DNS, connect, or an unexpected HTTP status.
    Network,
    /// No token could be had.
    Auth,
    /// A layer did not match its digest.
    Integrity,
    /// chroot, unshare, mount or prctl failed.
    Kernel,
}

pub open spec fn exit_code_spec(k: ErrorKind) -> i32 {
    match k {
        ErrorKind::UserInput => 1,
        ErrorKind::Network | ErrorKind::Auth | ErrorKind::Integrity => 2,
        ErrorKind::Kernel => 3,
    }
}

/// The exit code of the runtime when an operation fails with `k`.
pub fn error_exit_code(k: ErrorKind) -> (r: i32)
    ensures
        r == exit_code_spec(k),
{
    match k {
        ErrorKind::UserInput => 1,
        ErrorKind::Network => 2,
        ErrorKind::Auth => 2,
        ErrorKind::Integrity => 2,
        ErrorKind::Kernel => 3,
    }
}

/// The kind of each lifecycle refusal: all are the user's.
pub fn lifecycle_error_kind(e: LifecycleError) -> (r: ErrorKind)
    ensures
        r == ErrorKind::UserInput,
{
    ErrorKind::UserInput
}

/// The exit code of `run` and `exec`: the child's own code, or zero when the
/// child was ended by a signal and has none.
pub fn child_exit_code(code: Option<i32>) -> (r: i32)
    ensures
        code is Some ==> r == code->Some_0,
        code is None ==> r == 0,
{
    match code {
        Some(c) => c,
        None => 0,
    }
}

/// Attempts made at most for one registry request.
pub const MAX_ATTEMPTS: u32 = 3;

/// A registry request is tried again after a connect failure (`status` is
/// `None`) or a 5xx answer, as long as fewer than three attempts were made.
pub open spec fn should_retry_spec(attempts_made: u32, status: Option<u16>) -> bool {
    attempts_made < MAX_ATTEMPTS && match status {
        None => true,
        Some(s) => 500 <= s <= 599,
    }
}

/// Whether to try a registry request once more.
pub fn should_retry(attempts_made: u32, status: Option<u16>) -> (r: bool)
    ensures
        r == should_retry_spec(attempts_made, status),
{
    if attempts_made >= MAX_ATTEMPTS {
        return false;
    }
    match status {
        None => true,
        Some(s) => 500 <= s && s <= 599,
    }
}

/// Milliseconds before the first retry; each further retry waits twice as long.
pub const BASE_BACKOFF_MS: u64 = 200;

/// The wait before the retry that follows attempt number `attempts_made`.
pub fn backoff_ms(attempts_made: u32) -> (r: u64)
    requires
        1 <= attempts_made <= MAX_ATTEMPTS,
    ensures
        attempts_made == 1 ==> r == BASE_BACKOFF_MS,
        attempts_made > 1 ==> r == 2 * backoff_spec((attempts_made - 1) as nat),
        r == backoff_spec(attempts_made as nat),
{
    let mut r: u64 = BASE_BACKOFF_MS;
    let mut k: u32 = 1;
    while k < attempts_made
        invariant
            1 <= k <= attempts_made <= MAX_ATTEMPTS,
            r == backoff_spec(k as nat),
            k == 1 ==> r == BASE_BACKOFF_MS,
            k == 2 ==> r == 2 * BASE_BACKOFF_MS,
            k == 3 ==> r == 4 * BASE_BACKOFF_MS,
        decreases attempts_made - k,
    {
        r = r * 2;
        k = k + 1;
    }
    r
}

pub open spec fn backoff_spec(attempts_made: nat) -> u64
    decreases attempts_made,
{
    if attempts_made <= 1 {
        BASE_BACKOFF_MS
    } else {
        (2 * backoff_spec((attempts_made - 1) as nat)) as u64
    }
}

} // verus!
