use vstd::prelude::*;
use vstd::string::StrSliceExecFns;
use vstd::string::StringExecFns;

use crate::interner::pool_preserves;
use crate::interner::StringPool;
use crate::interner::StrReference;
use crate::interner::lemma_clone_grows;
use crate::interner::lemma_grows_trans;
use crate::interner::lemma_near_limit_lift;
use crate::interner::lemma_near_limit_mono;
use crate::interner::pool_grows_at_most;
use crate::interner::pool_near_limit;
use crate::interner::lemma_occurrences_concat;
use crate::interner::lemma_release_post_occ;
use crate::interner::lemma_release_post_refl;
use crate::interner::lemma_release_post_single;
use crate::interner::lemma_release_post_trans;
use crate::interner::occurrences;
use crate::interner::release_post;
use crate::manifest::dep_claims;
use crate::manifest::dep_list_claims;
use crate::manifest::dep_list_ids;
use crate::manifest::release_dep_list;
use crate::manifest::lemma_dep_preserved;
use crate::manifest::Dependency;
use crate::manifest::Manifest;
use crate::manifest::ManifestError;
use crate::manifest::ManifestKind;
use crate::manifest::PackageKind;
use crate::manifest::WorkspaceManifest;

verus! {

/// A resolved package: its interned name, its canonical directory, its
/// dependency mapping, and how it builds.
pub struct Package {
    pub name: StrReference,
    pub path: String,
    pub dependencies: Vec<(StrReference, Dependency)>,
    pub output: PackageKind,
    pub lto: bool,
}

/// A resolved workspace: its member packages in declaration order, the
/// member the current invocation works on, its canonical root directory,
/// and its own dependency mapping. A lone package is carried as a
/// workspace of one member.
pub struct Workspace {
    pub members: Vec<Package>,
    pub current_member: Option<usize>,
    pub path: String,
    pub dependencies: Vec<(StrReference, Dependency)>,
}

/// The ways project resolution can fail.
#[derive(Debug)]
pub enum WorkspaceError {
    /// A manifest file is malformed or violates the schema.
    Toml(String),
    /// A filesystem read failed.
    Io(String),
    /// The string pool could not take another claim.
    Intern,
    /// A listed workspace member has no manifest at its directory.
    PackageNotFound(String),
    /// A package manifest was expected but a workspace manifest found.
    ExpectedPackage(String),
    /// The current directory's package lies inside the workspace root but
    /// is not listed as a member: the package path, then the root.
    PackageNotInWorkspace(String, String),
    /// No member carries the requested name: the name, then the root.
    CannotFindMember(String, String),
    /// A dependency asks to be satisfied by a workspace that cannot
    /// satisfy it: the dependency name, then the offending path.
    InvalidDependency(String, String),
}

impl From<ManifestError> for WorkspaceError {
    fn from(value: ManifestError) -> (r: Self) {
        match value {
            ManifestError::Toml(s) => WorkspaceError::Toml(s),
            ManifestError::Io(s) => WorkspaceError::Io(s),
            ManifestError::Intern => WorkspaceError::Intern,
        }
    }
}

impl vstd::std_specs::convert::FromSpecImpl<ManifestError> for WorkspaceError {
    open spec fn obeys_from_spec() -> bool {
        true
    }

    open spec fn from_spec(t: ManifestError) -> Self {
        match t {
            ManifestError::Toml(s) => WorkspaceError::Toml(s),
            ManifestError::Io(s) => WorkspaceError::Io(s),
            ManifestError::Intern => WorkspaceError::Intern,
        }
    }
}

/// Component-wise path prefix on canonical '/'-separated paths: `base`
/// is `child` itself, or a leading directory of it.
pub open spec fn spec_path_starts_with(child: Seq<char>, base: Seq<char>) -> bool {
    base.len() <= child.len() && child.subrange(0, base.len() as int) == base && (child.len()
        == base.len() || child[base.len() as int] == '/')
}

/// True when `base` is `child` itself or a leading directory of it, on
/// canonical '/'-separated paths.
pub fn path_starts_with(child: &str, base: &str) -> (r: bool)
    ensures
        r == spec_path_starts_with(child@, base@),
{
    let n = base.unicode_len();
    let m = child.unicode_len();
    if n > m {
        return false;
    }
    let mut i: usize = 0;
    while i < n
        invariant
            i <= n,
            n <= m,
            n == base@.len(),
            m == child@.len(),
            forall|j: int| 0 <= j < i ==> child@[j] == base@[j],
        decreases n - i,
    {
        if child.get_char(i) != base.get_char(i) {
            proof {
                let sub = child@.subrange(0, n as int);
                assert(sub[i as int] == child@[i as int]);
                assert(sub != base@);
            }
            return false;
        }
        i += 1;
    }
    proof {
        assert(child@.subrange(0, n as int) =~= base@);
    }
    if m == n {
        true
    } else {
        child.get_char(n) == '/'
    }
}

/// A member's directory: the workspace root, a separator, and the
/// member's relative path.
pub fn member_path(root: &str, member: &str) -> (r: String)
    ensures
        r@ == root@ + "/"@ + member@,
{
    let mut s = String::from_str(root);
    s.append("/");
    s.append(member);
    s
}

impl Package {
    /// All handles of this package are live in `pool`.
    pub open spec fn wf_in(self, pool: StringPool) -> bool {
        &&& pool.live(self.name.id())
        &&& forall|i: int|
            0 <= i < self.dependencies@.len() ==> pool.live(
                (#[trigger] self.dependencies@[i]).0.id(),
            ) && self.dependencies@[i].1.wf_in(pool)
    }
}

impl Workspace {
    /// All handles of this workspace are live in `pool`, and the current
    /// member, when set, indexes a member.
    pub open spec fn wf_in(self, pool: StringPool) -> bool {
        &&& forall|i: int| 0 <= i < self.members@.len() ==> (#[trigger] self.members@[i]).wf_in(pool)
        &&& forall|i: int|
            0 <= i < self.dependencies@.len() ==> pool.live(
                (#[trigger] self.dependencies@[i]).0.id(),
            ) && self.dependencies@[i].1.wf_in(pool)
        &&& match self.current_member {
            Some(k) => k < self.members@.len(),
            None => true,
        }
    }
}

impl Package {
    /// The slots this package's handles name.
    pub open spec fn ids(self) -> Seq<int> {
        seq![self.name.id()] + dep_list_ids(self.dependencies@)
    }
}

/// The slots the handles of a member list name.
pub open spec fn members_ids(ms: Seq<Package>) -> Seq<int>
    decreases ms.len(),
{
    if ms.len() == 0 {
        Seq::empty()
    } else {
        ms[0].ids() + members_ids(ms.drop_first())
    }
}

/// A package keeps its liveness when the pool only grows.
pub proof fn lemma_package_preserved(p: Package, pre: StringPool, post: StringPool)
    requires
        p.wf_in(pre),
        pool_preserves(pre, post),
    ensures
        p.wf_in(post),
{
    assert forall|i: int| 0 <= i < p.dependencies@.len() implies post.live(
        (#[trigger] p.dependencies@[i]).0.id(),
    ) && p.dependencies@[i].1.wf_in(post) by {
        lemma_dep_preserved(p.dependencies@[i].1, pre, post);
    }
}

/// Releases every handle of a package: each loses exactly one claim.
fn release_package(pool: &mut StringPool, p: Package)
    requires
        old(pool).wf(),
    ensures
        final(pool).wf(),
        release_post(*old(pool), *final(pool), p.ids()),
{
    let ghost entry = *pool;
    let ghost nid = p.name.id();
    let ghost did = dep_list_ids(p.dependencies@);
    let Package { name, path: _, dependencies, output: _, lto: _ } = p;
    pool.release(name);
    let ghost p1 = *pool;
    release_dep_list(pool, dependencies);
    proof {
        lemma_release_post_single(entry, p1, nid);
        lemma_release_post_trans(entry, p1, *pool, seq![nid], did);
    }
}

/// The slots a suffix of a member list names.
proof fn lemma_members_ids_skip(ms: Seq<Package>, m: int)
    requires
        0 < m <= ms.len(),
    ensures
        forall|i: int|
            #[trigger] occurrences(members_ids(ms.skip(m - 1)), i) == occurrences(
                ms[m - 1].ids() + members_ids(ms.skip(m)),
                i,
            ),
{
    assert(ms.skip(m - 1)[0] == ms[m - 1]);
    assert(ms.skip(m - 1).drop_first() =~= ms.skip(m));
}

/// Releases every handle of a member list: each loses exactly one claim.
fn release_members(pool: &mut StringPool, members: Vec<Package>)
    requires
        old(pool).wf(),
    ensures
        final(pool).wf(),
        release_post(*old(pool), *final(pool), members_ids(members@)),
{
    let ghost entry = *pool;
    let ghost ms0 = members@;
    let mut members = members;
    proof {
        lemma_release_post_refl(*pool);
        assert(ms0.skip(ms0.len() as int) =~= Seq::<Package>::empty());
    }
    while members.len() > 0
        invariant
            pool.wf(),
            members@.len() <= ms0.len(),
            members@ =~= ms0.take(members@.len() as int),
            release_post(entry, *pool, members_ids(ms0.skip(members@.len() as int))),
        decreases members@.len(),
    {
        let ghost m = members@.len() as int;
        let ghost cur = *pool;
        match members.pop() {
            Some(p) => {
                proof {
                    assert(ms0.take(m).len() == m);
                    assert(ms0.take(m)[m - 1] == ms0[m - 1]);
                    assert(p == ms0[m - 1]);
                    assert(members@ =~= ms0.take(m - 1));
                }
                let ghost pid = p.ids();
                release_package(pool, p);
                proof {
                    lemma_release_post_trans(
                        entry,
                        cur,
                        *pool,
                        members_ids(ms0.skip(m)),
                        pid,
                    );
                    lemma_members_ids_skip(ms0, m);
                    assert forall|i: int|
                        occurrences(members_ids(ms0.skip(m)) + pid, i) == occurrences(
                            members_ids(ms0.skip(m - 1)),
                            i,
                        ) by {
                        lemma_occurrences_concat(members_ids(ms0.skip(m)), pid, i);
                        lemma_occurrences_concat(pid, members_ids(ms0.skip(m)), i);
                    }
                    lemma_release_post_occ(
                        entry,
                        *pool,
                        members_ids(ms0.skip(m)) + pid,
                        members_ids(ms0.skip(m - 1)),
                    );
                }
            },
            None => {
            },
        }
    }
    proof {
        assert(ms0.skip(0) =~= ms0);
    }
}

/// Releases every handle of a workspace: each loses exactly one claim.
fn release_workspace(pool: &mut StringPool, ws: Workspace)
    requires
        old(pool).wf(),
    ensures
        final(pool).wf(),
        release_post(
            *old(pool),
            *final(pool),
            members_ids(ws.members@) + dep_list_ids(ws.dependencies@),
        ),
{
    let ghost entry = *pool;
    let ghost mid = members_ids(ws.members@);
    let ghost did = dep_list_ids(ws.dependencies@);
    let Workspace { members, current_member: _, path: _, dependencies } = ws;
    release_members(pool, members);
    let ghost p1 = *pool;
    release_dep_list(pool, dependencies);
    proof {
        lemma_release_post_trans(entry, p1, *pool, mid, did);
    }
}

/// Clones one handle, adding a claim for the copy.
fn clone_handle(pool: &mut StringPool, r: &StrReference) -> (res: Result<
    StrReference,
    WorkspaceError,
>)
    requires
        old(pool).wf(),
        old(pool).live(r.id()),
    ensures
        final(pool).wf(),
        match res {
            Ok(h) => pool_preserves(*old(pool), *final(pool)) && pool_grows_at_most(
                *old(pool),
                *final(pool),
                1,
            ) && final(pool).live(h.id()) && final(pool).content(h.id()) == old(pool).content(
                r.id(),
            ),
            Err(e) => e is Intern && *final(pool) == *old(pool) && pool_near_limit(*old(pool), 1),
        },
{
    let ghost rid = r.id();
    match pool.clone_ref(r) {
        Ok(h) => {
            proof {
                lemma_clone_grows(*old(pool), *pool, rid);
            }
            Ok(h)
        },
        Err(_) => Err(WorkspaceError::Intern),
    }
}

/// Clones an optional handle.
fn clone_opt_handle(pool: &mut StringPool, r: &Option<StrReference>) -> (res: Result<
    Option<StrReference>,
    WorkspaceError,
>)
    requires
        old(pool).wf(),
        match r {
            Some(h) => old(pool).live(h.id()),
            None => true,
        },
    ensures
        final(pool).wf(),
        match res {
            Ok(h) => pool_preserves(*old(pool), *final(pool)) && match h {
                Some(h) => r is Some && pool_grows_at_most(*old(pool), *final(pool), 1)
                    && final(pool).live(h.id()) && final(pool).content(h.id()) == old(
                    pool,
                ).content(r->Some_0.id()),
                None => r is None && *final(pool) == *old(pool),
            },
            Err(e) => e is Intern && r is Some && *final(pool) == *old(pool) && pool_near_limit(
                *old(pool),
                1,
            ),
        },
{
    match r {
        Some(h) => match clone_handle(pool, h) {
            Ok(c) => Ok(Some(c)),
            Err(e) => Err(e),
        },
        None => Ok(None),
    }
}

/// Clones a vector of handles, claim by claim.
fn clone_handles(pool: &mut StringPool, rs: &Vec<StrReference>) -> (res: Result<
    Vec<StrReference>,
    WorkspaceError,
>)
    requires
        old(pool).wf(),
        forall|i: int| 0 <= i < rs@.len() ==> old(pool).live((#[trigger] rs@[i]).id()),
    ensures
        final(pool).wf(),
        match res {
            Ok(cs) => {
                &&& pool_preserves(*old(pool), *final(pool))
                &&& pool_grows_at_most(*old(pool), *final(pool), rs@.len())
                &&& cs@.len() == rs@.len()
                &&& forall|i: int|
                    0 <= i < cs@.len() ==> final(pool).live((#[trigger] cs@[i]).id())
                        && final(pool).content(cs@[i].id()) == old(pool).content(rs@[i].id())
            },
            Err(e) => e is Intern && pool_near_limit(*old(pool), rs@.len()),
        },
{
    let ghost entry = *pool;
    let mut cs: Vec<StrReference> = Vec::new();
    let mut i: usize = 0;
    while i < rs.len()
        invariant
            entry == *old(pool),
            pool.wf(),
            pool_preserves(entry, *pool),
            pool_grows_at_most(entry, *pool, i as nat),
            forall|j: int| 0 <= j < rs@.len() ==> entry.live((#[trigger] rs@[j]).id()),
            i <= rs@.len(),
            cs@.len() == i,
            forall|j: int|
                0 <= j < i ==> pool.live((#[trigger] cs@[j]).id()) && pool.content(cs@[j].id())
                    == entry.content(rs@[j].id()),
        decreases rs@.len() - i,
    {
        let ghost before = *pool;
        match clone_handle(pool, &rs[i]) {
            Ok(c) => {
                proof {
                    lemma_grows_trans(entry, before, *pool, i as nat, 1);
                    assert forall|j: int| 0 <= j < i implies pool.live((#[trigger] cs@[j]).id())
                        && pool.content(cs@[j].id()) == entry.content(rs@[j].id()) by {
                        assert(before.live(cs@[j].id()));
                    }
                    assert(pool.content(c.id()) == entry.content(rs@[i as int].id()));
                }
                cs.push(c);
            },
            Err(e) => {
                proof {
                    lemma_near_limit_lift(entry, before, i as nat, 1);
                    lemma_near_limit_mono(entry, (i + 1) as nat, rs@.len());
                }
                let mut cs = cs;
                loop
                    invariant
                        pool.wf(),
                    decreases cs@.len(),
                {
                    match cs.pop() {
                        Some(h) => pool.release(h),
                        None => {
                            break ;
                        },
                    }
                }
                return Err(e);
            },
        }
        i += 1;
    }
    Ok(cs)
}

/// Clones one dependency, its content unchanged.
fn clone_dependency(pool: &mut StringPool, d: &Dependency) -> (res: Result<
    Dependency,
    WorkspaceError,
>)
    requires
        old(pool).wf(),
        d.wf_in(*old(pool)),
    ensures
        final(pool).wf(),
        match res {
            Ok(c) => pool_preserves(*old(pool), *final(pool)) && pool_grows_at_most(
                *old(pool),
                *final(pool),
                dep_claims(*d),
            ) && c.wf_in(*final(pool)) && c.view_in(*final(pool)) == d.view_in(*old(pool)),
            Err(e) => e is Intern && pool_near_limit(*old(pool), dep_claims(*d)),
        },
{
    match d {
        Dependency::Simple(h) => match clone_handle(pool, h) {
            Ok(c) => Ok(Dependency::Simple(c)),
            Err(e) => Err(e),
        },
        Dependency::Complex { path, version, workspace, features } => {
            let ghost entry = *pool;
            let ghost w = dep_claims(*d);
            let ghost pw: nat = if path is Some {
                1
            } else {
                0
            };
            let ghost vw: nat = if version is Some {
                1
            } else {
                0
            };
            let c_path = match clone_opt_handle(pool, path) {
                Ok(c) => c,
                Err(e) => {
                    proof {
                        lemma_near_limit_mono(entry, 1, w);
                    }
                    return Err(e);
                },
            };
            let ghost p1 = *pool;
            let c_version = match clone_opt_handle(pool, version) {
                Ok(c) => c,
                Err(e) => {
                    proof {
                        lemma_near_limit_lift(entry, p1, pw, 1);
                        lemma_near_limit_mono(entry, (pw + 1) as nat, w);
                    }
                    release_opt_handle(pool, c_path);
                    return Err(e);
                },
            };
            let ghost p2 = *pool;
            let c_features = match clone_handles(pool, features) {
                Ok(c) => c,
                Err(e) => {
                    proof {
                        lemma_grows_trans(entry, p1, p2, pw, vw);
                        lemma_near_limit_lift(entry, p2, (pw + vw) as nat, features@.len());
                        lemma_near_limit_mono(entry, (pw + vw + features@.len()) as nat, w);
                    }
                    release_opt_handle(pool, c_path);
                    release_opt_handle(pool, c_version);
                    return Err(e);
                },
            };
            proof {
                lemma_grows_trans(entry, p1, p2, pw, vw);
                lemma_grows_trans(entry, p2, *pool, (pw + vw) as nat, features@.len());
                assert(pool_grows_at_most(entry, *pool, w));
                match &c_path {
                    Some(h) => {
                        assert(p1.live(h.id()) && p2.live(h.id()) && pool.live(h.id()));
                        assert(pool.content(h.id()) == entry.content(path->Some_0.id()));
                    },
                    None => {},
                }
                match &c_version {
                    Some(h) => {
                        assert(p2.live(h.id()) && pool.live(h.id()));
                        assert(pool.content(h.id()) == entry.content(version->Some_0.id()));
                    },
                    None => {},
                }
                assert(c_features@.map_values(|h: StrReference| pool.content(h.id())) =~= features@
                    .map_values(|h: StrReference| entry.content(h.id())));
            }
            Ok(
                Dependency::Complex {
                    path: c_path,
                    version: c_version,
                    workspace: *workspace,
                    features: c_features,
                },
            )
        },
    }
}

/// Releases an optional handle.
fn release_opt_handle(pool: &mut StringPool, r: Option<StrReference>)
    requires
        old(pool).wf(),
    ensures
        final(pool).wf(),
{
    match r {
        Some(h) => pool.release(h),
        None => (),
    }
}

/// Clones a dependency list, its names and content unchanged.
fn clone_dep_vec(pool: &mut StringPool, deps: &Vec<(StrReference, Dependency)>) -> (res: Result<
    Vec<(StrReference, Dependency)>,
    WorkspaceError,
>)
    requires
        old(pool).wf(),
        forall|i: int|
            0 <= i < deps@.len() ==> old(pool).live((#[trigger] deps@[i]).0.id())
                && deps@[i].1.wf_in(*old(pool)),
    ensures
        final(pool).wf(),
        match res {
            Ok(cs) => {
                &&& pool_preserves(*old(pool), *final(pool))
                &&& cs@.len() == deps@.len()
                &&& forall|i: int|
                    0 <= i < cs@.len() ==> final(pool).live((#[trigger] cs@[i]).0.id())
                        && final(pool).content(cs@[i].0.id()) == old(pool).content(
                        deps@[i].0.id(),
                    ) && cs@[i].1.wf_in(*final(pool)) && cs@[i].1.view_in(*final(pool))
                        == deps@[i].1.view_in(*old(pool))
            },
            Err(e) => e is Intern && pool_near_limit(*old(pool), dep_list_claims(deps@)),
        },
{
    let ghost entry = *pool;
    let mut cs: Vec<(StrReference, Dependency)> = Vec::new();
    let mut i: usize = 0;
    let ghost mut used: nat = 0;
    proof {
        assert(deps@.skip(0) =~= deps@);
    }
    while i < deps.len()
        invariant
            entry == *old(pool),
            pool.wf(),
            pool_preserves(entry, *pool),
            pool_grows_at_most(entry, *pool, used),
            used + dep_list_claims(deps@.skip(i as int)) == dep_list_claims(deps@),
            forall|j: int|
                0 <= j < deps@.len() ==> entry.live((#[trigger] deps@[j]).0.id())
                    && deps@[j].1.wf_in(entry),
            i <= deps@.len(),
            cs@.len() == i,
            forall|j: int|
                0 <= j < i ==> pool.live((#[trigger] cs@[j]).0.id()) && pool.content(cs@[j].0.id())
                    == entry.content(deps@[j].0.id()) && cs@[j].1.wf_in(*pool)
                    && cs@[j].1.view_in(*pool) == deps@[j].1.view_in(entry),
        decreases deps@.len() - i,
    {
        let ghost before = *pool;
        let ghost dw = dep_claims(deps@[i as int].1);
        proof {
            assert(deps@.skip(i as int)[0] == deps@[i as int]);
            assert(deps@.skip(i as int).drop_first() =~= deps@.skip(i as int + 1));
            assert(dep_list_claims(deps@.skip(i as int)) == 1 + dw + dep_list_claims(
                deps@.skip(i as int + 1),
            ));
        }
        let name = match clone_handle(pool, &deps[i].0) {
            Ok(h) => h,
            Err(_) => {
                proof {
                    lemma_near_limit_lift(entry, before, used, 1);
                    lemma_near_limit_mono(entry, (used + 1) as nat, dep_list_claims(deps@));
                }
                release_cloned(pool, cs);
                return Err(WorkspaceError::Intern);
            },
        };
        let ghost p1 = *pool;
        proof {
            lemma_dep_preserved(deps@[i as int].1, entry, before);
            lemma_dep_preserved(deps@[i as int].1, before, p1);
        }
        let dep = match clone_dependency(pool, &deps[i].1) {
            Ok(d) => d,
            Err(_) => {
                proof {
                    lemma_grows_trans(entry, before, p1, used, 1);
                    lemma_near_limit_lift(entry, p1, (used + 1) as nat, dw);
                    lemma_near_limit_mono(entry, (used + 1 + dw) as nat, dep_list_claims(deps@));
                }
                pool.release(name);
                release_cloned(pool, cs);
                return Err(WorkspaceError::Intern);
            },
        };
        proof {
            lemma_grows_trans(entry, before, p1, used, 1);
            lemma_grows_trans(entry, p1, *pool, (used + 1) as nat, dw);
            used = (used + 1 + dw) as nat;
            crate::interner::lemma_pool_preserves_trans(before, p1, *pool);
            assert forall|j: int| 0 <= j < i implies pool.live((#[trigger] cs@[j]).0.id())
                && pool.content(cs@[j].0.id()) == entry.content(deps@[j].0.id()) && cs@[j].1.wf_in(
                *pool,
            ) && cs@[j].1.view_in(*pool) == deps@[j].1.view_in(entry) by {
                assert(before.live(cs@[j].0.id()));
                lemma_dep_preserved(cs@[j].1, before, *pool);
            }
            assert(pool.live(name.id()) && pool.content(name.id()) == entry.content(
                deps@[i as int].0.id(),
            ));
            lemma_dep_preserved(deps@[i as int].1, p1, *pool);
            assert(dep.view_in(*pool) == deps@[i as int].1.view_in(entry));
            crate::interner::lemma_pool_preserves_trans(entry, before, *pool);
        }
        cs.push((name, dep));
        i += 1;
    }
    Ok(cs)
}

/// Releases a partially cloned dependency list.
fn release_cloned(pool: &mut StringPool, cs: Vec<(StrReference, Dependency)>)
    requires
        old(pool).wf(),
    ensures
        final(pool).wf(),
{
    release_dep_list(pool, cs)
}

impl Package {
    /// Shapes a loaded manifest into a package at `path`: the manifest
    /// must carry the package form; a workspace manifest is refused, and
    /// its handles released.
    pub fn from_manifest(pool: &mut StringPool, path: String, manifest: Manifest) -> (r: Result<
        Package,
        WorkspaceError,
    >)
        requires
            old(pool).wf(),
        ensures
            final(pool).wf(),
            match r {
                Ok(p) => {
                    &&& *final(pool) == *old(pool)
                    &&& manifest.kind is Package
                    &&& p.name == manifest.kind->Package_0.name
                    &&& p.output == manifest.kind->Package_0.output
                    &&& p.lto == manifest.kind->Package_0.lto
                    &&& p.path == path
                    &&& p.dependencies == manifest.dependencies
                },
                Err(e) => manifest.kind is Workspace && e == WorkspaceError::ExpectedPackage(path)
                    && release_post(*old(pool), *final(pool), manifest.ids()),
            },
    {
        let ghost entry = *pool;
        let ghost kid = manifest.kind.ids();
        let ghost did = dep_list_ids(manifest.dependencies@);
        let Manifest { kind, dependencies } = manifest;
        match kind {
            ManifestKind::Package(p) => Ok(
                Package {
                    name: p.name,
                    path,
                    dependencies,
                    output: p.output,
                    lto: p.lto,
                },
            ),
            ManifestKind::Workspace(w) => {
                w.release(pool);
                let ghost p1 = *pool;
                release_dep_list(pool, dependencies);
                proof {
                    lemma_release_post_trans(entry, p1, *pool, kid, did);
                }
                Err(WorkspaceError::ExpectedPackage(path))
            },
        }
    }

    /// Shapes the load outcome of a listed workspace member: a missing
    /// manifest is a fatal member-not-found error, and a workspace
    /// manifest is refused as a member.
    pub fn require_loaded(pool: &mut StringPool, path: String, loaded: Option<Manifest>) -> (r:
        Result<Package, WorkspaceError>)
        requires
            old(pool).wf(),
        ensures
            final(pool).wf(),
            match r {
                Ok(p) => {
                    &&& *final(pool) == *old(pool)
                    &&& loaded is Some
                    &&& loaded->Some_0.kind is Package
                    &&& p.name == loaded->Some_0.kind->Package_0.name
                    &&& p.output == loaded->Some_0.kind->Package_0.output
                    &&& p.lto == loaded->Some_0.kind->Package_0.lto
                    &&& p.path == path
                    &&& p.dependencies == loaded->Some_0.dependencies
                },
                Err(e) => match e {
                    WorkspaceError::PackageNotFound(q) => loaded is None && q == path
                        && *final(pool) == *old(pool),
                    WorkspaceError::ExpectedPackage(q) => loaded is Some
                        && loaded->Some_0.kind is Workspace && q == path && release_post(
                        *old(pool),
                        *final(pool),
                        loaded->Some_0.ids(),
                    ),
                    _ => false,
                },
            },
    {
        match loaded {
            Some(m) => Package::from_manifest(pool, path, m),
            None => Err(WorkspaceError::PackageNotFound(path)),
        }
    }
}

/// One step of the upward workspace search: a workspace manifest ends the
/// walk and hands over its parts; a package manifest or no manifest at
/// all continues it, the package's handles being released — a workspace
/// is found only by its own marker, never inferred from a package.
pub fn workspace_walk_step(pool: &mut StringPool, loaded: Option<Manifest>) -> (r: Option<
    (WorkspaceManifest, Vec<(StrReference, Dependency)>),
>)
    requires
        old(pool).wf(),
    ensures
        final(pool).wf(),
        match r {
            Some(parts) => {
                &&& *final(pool) == *old(pool)
                &&& loaded is Some
                &&& loaded->Some_0.kind is Workspace
                &&& parts.0 == loaded->Some_0.kind->Workspace_0
                &&& parts.1 == loaded->Some_0.dependencies
            },
            None => match loaded {
                Some(m) => m.kind is Package && release_post(
                    *old(pool),
                    *final(pool),
                    m.ids(),
                ),
                None => *final(pool) == *old(pool),
            },
        },
{
    match loaded {
        Some(m) => {
            let ghost entry = *pool;
            let ghost kid = m.kind.ids();
            let ghost did = dep_list_ids(m.dependencies@);
            let Manifest { kind, dependencies } = m;
            match kind {
                ManifestKind::Workspace(wm) => Some((wm, dependencies)),
                ManifestKind::Package(p) => {
                    let ghost nid = p.name.id();
                    pool.release(p.name);
                    let ghost p1 = *pool;
                    release_dep_list(pool, dependencies);
                    proof {
                        lemma_release_post_single(entry, p1, nid);
                        lemma_release_post_trans(entry, p1, *pool, seq![nid], did);
                    }
                    None
                },
            }
        },
        None => None,
    }
}

/// One dependency is satisfiable: a dependency that asks for a workspace
/// member must name one of the members.
pub open spec fn dep_ok(
    pool: StringPool,
    name: StrReference,
    d: Dependency,
    members: Seq<Package>,
) -> bool {
    d.spec_is_workspace() ==> exists|m: int|
        0 <= m < members.len() && pool.content((#[trigger] members[m]).name.id()) == pool.content(
            name.id(),
        )
}

/// Every dependency of one mapping is satisfiable against the members.
pub open spec fn deps_ok(
    pool: StringPool,
    deps: Seq<(StrReference, Dependency)>,
    members: Seq<Package>,
) -> bool {
    forall|j: int|
        0 <= j < deps.len() ==> dep_ok(pool, (#[trigger] deps[j]).0, deps[j].1, members)
}

/// The workspace's own dependencies and every member's dependencies are
/// satisfiable against the members.
pub open spec fn all_deps_ok(
    pool: StringPool,
    deps: Seq<(StrReference, Dependency)>,
    members: Seq<Package>,
) -> bool {
    deps_ok(pool, deps, members) && forall|i: int|
        0 <= i < members.len() ==> deps_ok(pool, (#[trigger] members[i]).dependencies@, members)
}

/// Member `k` is the first whose name reads as `s`.
pub open spec fn first_name_match(
    pool: StringPool,
    members: Seq<Package>,
    s: Seq<char>,
    k: int,
) -> bool {
    &&& 0 <= k < members.len()
    &&& pool.content(members[k].name.id()) == s
    &&& forall|j: int| 0 <= j < k ==> pool.content((#[trigger] members[j]).name.id()) != s
}

/// Member `k` is the first, in declaration order, whose directory holds
/// the current directory.
pub open spec fn first_dir_match(members: Seq<Package>, d: Seq<char>, k: int) -> bool {
    &&& 0 <= k < members.len()
    &&& spec_path_starts_with(d, members[k].path@)
    &&& forall|j: int| 0 <= j < k ==> !spec_path_starts_with(d, (#[trigger] members[j]).path@)
}

/// True when some member's name reads as the handle's content.
fn name_in_members(pool: &StringPool, members: &Vec<Package>, name: &StrReference) -> (r: bool)
    requires
        pool.wf(),
        pool.live(name.id()),
        forall|i: int| 0 <= i < members@.len() ==> pool.live((#[trigger] members@[i]).name.id()),
    ensures
        r == exists|m: int|
            0 <= m < members@.len() && pool.content((#[trigger] members@[m]).name.id())
                == pool.content(name.id()),
{
    let mut i: usize = 0;
    while i < members.len()
        invariant
            pool.wf(),
            pool.live(name.id()),
            forall|j: int| 0 <= j < members@.len() ==> pool.live((#[trigger] members@[j]).name.id()),
            i <= members@.len(),
            forall|j: int|
                0 <= j < i ==> pool.content((#[trigger] members@[j]).name.id()) != pool.content(
                    name.id(),
                ),
        decreases members@.len() - i,
    {
        let same = members[i].name == *name;
        proof {
            crate::interner::lemma_ref_eq(members@[i as int].name, *name);
            pool.lemma_content_eq(members@[i as int].name.id(), name.id());
        }
        if same {
            return true;
        }
        i += 1;
    }
    false
}

/// The first unsatisfiable dependency of a mapping, if any.
fn find_invalid_dep(
    pool: &StringPool,
    deps: &Vec<(StrReference, Dependency)>,
    members: &Vec<Package>,
) -> (r: Option<usize>)
    requires
        pool.wf(),
        forall|i: int| 0 <= i < deps@.len() ==> pool.live((#[trigger] deps@[i]).0.id()),
        forall|i: int| 0 <= i < members@.len() ==> pool.live((#[trigger] members@[i]).name.id()),
    ensures
        match r {
            None => deps_ok(*pool, deps@, members@),
            Some(j) => {
                &&& j < deps@.len()
                &&& deps@[j as int].1.spec_is_workspace()
                &&& !dep_ok(*pool, deps@[j as int].0, deps@[j as int].1, members@)
            },
        },
{
    let mut i: usize = 0;
    while i < deps.len()
        invariant
            pool.wf(),
            forall|j: int| 0 <= j < deps@.len() ==> pool.live((#[trigger] deps@[j]).0.id()),
            forall|j: int| 0 <= j < members@.len() ==> pool.live((#[trigger] members@[j]).name.id()),
            i <= deps@.len(),
            forall|j: int|
                0 <= j < i ==> dep_ok(*pool, (#[trigger] deps@[j]).0, deps@[j].1, members@),
        decreases deps@.len() - i,
    {
        if deps[i].1.is_workspace() {
            if !name_in_members(pool, members, &deps[i].0) {
                return Some(i);
            }
        }
        i += 1;
    }
    None
}

/// What resolution found, and whether it is complete.
pub enum LoadStep {
    /// The workspace, with its current member settled.
    Done(Workspace),
    /// The current directory lies in no member: the caller must check
    /// whether a standalone package sits there before the workspace can
    /// be used without a current member.
    CheckStandalone(Workspace),
}

impl LoadStep {
    /// The workspace carried either way.
    pub open spec fn workspace(self) -> Workspace {
        match self {
            LoadStep::Done(w) => w,
            LoadStep::CheckStandalone(w) => w,
        }
    }
}

impl Workspace {
    /// Settles a found workspace: every workspace-only dependency of the
    /// workspace and of each member must name a sibling member; then the
    /// current member is the one named by the selector, or, without a
    /// selector, the first member in declaration order whose directory
    /// holds the current directory. When no member holds it, the caller
    /// is asked to check for a standalone package there.
    pub fn from_found(
        pool: &mut StringPool,
        path: String,
        dependencies: Vec<(StrReference, Dependency)>,
        members: Vec<Package>,
        current_dir: &str,
        selected_project: Option<String>,
    ) -> (r: Result<LoadStep, WorkspaceError>)
        requires
            old(pool).wf(),
            forall|i: int|
                0 <= i < dependencies@.len() ==> old(pool).live(
                    (#[trigger] dependencies@[i]).0.id(),
                ) && dependencies@[i].1.wf_in(*old(pool)),
            forall|i: int| 0 <= i < members@.len() ==> (#[trigger] members@[i]).wf_in(*old(pool)),
        ensures
            final(pool).wf(),
            match r {
                Ok(step) => {
                    &&& *final(pool) == *old(pool)
                    &&& all_deps_ok(*old(pool), dependencies@, members@)
                    &&& step.workspace().path == path
                    &&& step.workspace().members == members
                    &&& step.workspace().dependencies == dependencies
                    &&& step.workspace().wf_in(*final(pool))
                    &&& match step {
                        LoadStep::Done(ws) => match selected_project {
                            Some(s) => ws.current_member is Some && first_name_match(
                                *old(pool),
                                members@,
                                s@,
                                ws.current_member->Some_0 as int,
                            ),
                            None => ws.current_member is Some && first_dir_match(
                                members@,
                                current_dir@,
                                ws.current_member->Some_0 as int,
                            ),
                        },
                        LoadStep::CheckStandalone(ws) => {
                            &&& selected_project is None
                            &&& ws.current_member is None
                            &&& forall|j: int|
                                0 <= j < members@.len() ==> !spec_path_starts_with(
                                    current_dir@,
                                    (#[trigger] members@[j]).path@,
                                )
                        },
                    }
                },
                Err(e) => match e {
                    WorkspaceError::InvalidDependency(name, p) => {
                        &&& !all_deps_ok(*old(pool), dependencies@, members@)
                        &&& ((exists|j: int|
                            0 <= j < dependencies@.len() && (
                            #[trigger] dependencies@[j]).1.spec_is_workspace() && !dep_ok(
                                *old(pool),
                                dependencies@[j].0,
                                dependencies@[j].1,
                                members@,
                            ) && name@ == old(pool).content(dependencies@[j].0.id()) && p == path)
                            || (exists|i: int, j: int|
                            0 <= i < members@.len() && 0 <= j
                                < (#[trigger] members@[i]).dependencies@.len() && (
                            #[trigger] members@[i].dependencies@[j]).1.spec_is_workspace()
                                && !dep_ok(
                                *old(pool),
                                members@[i].dependencies@[j].0,
                                members@[i].dependencies@[j].1,
                                members@,
                            ) && name@ == old(pool).content(members@[i].dependencies@[j].0.id())
                                && p == members@[i].path))
                    },
                    WorkspaceError::CannotFindMember(s, p) => {
                        &&& selected_project is Some
                        &&& s == selected_project->Some_0
                        &&& p == path
                        &&& all_deps_ok(*old(pool), dependencies@, members@)
                        &&& forall|j: int|
                            0 <= j < members@.len() ==> old(pool).content(
                                (#[trigger] members@[j]).name.id(),
                            ) != s@
                    },
                    _ => false,
                },
            },
            r is Err ==> release_post(
                *old(pool),
                *final(pool),
                dep_list_ids(dependencies@) + members_ids(members@),
            ),
    {
        if let Some(j) = find_invalid_dep(pool, &dependencies, &members) {
            let name = dependencies[j].0.get(pool).clone();
            let ghost entry = *pool;
            let ghost did = dep_list_ids(dependencies@);
            let ghost mid = members_ids(members@);
            release_dep_list(pool, dependencies);
            let ghost p1 = *pool;
            release_members(pool, members);
            proof {
                lemma_release_post_trans(entry, p1, *pool, did, mid);
            }
            return Err(WorkspaceError::InvalidDependency(name, path));
        }
        let mut i: usize = 0;
        while i < members.len()
            invariant
                pool.wf(),
                *pool == *old(pool),
                forall|k: int|
                    0 <= k < dependencies@.len() ==> pool.live(
                        (#[trigger] dependencies@[k]).0.id(),
                    ) && dependencies@[k].1.wf_in(*pool),
                forall|k: int| 0 <= k < members@.len() ==> (#[trigger] members@[k]).wf_in(*pool),
                i <= members@.len(),
                deps_ok(*pool, dependencies@, members@),
                forall|k: int|
                    0 <= k < i ==> deps_ok(*pool, (#[trigger] members@[k]).dependencies@, members@),
            decreases members@.len() - i,
        {
            if let Some(j) = find_invalid_dep(pool, &members[i].dependencies, &members) {
                let name = members[i].dependencies[j].0.get(pool).clone();
                let p = members[i].path.clone();
                let ghost entry = *pool;
                let ghost did = dep_list_ids(dependencies@);
                let ghost mid = members_ids(members@);
                release_dep_list(pool, dependencies);
                let ghost p1 = *pool;
                release_members(pool, members);
                proof {
                    lemma_release_post_trans(entry, p1, *pool, did, mid);
                }
                return Err(WorkspaceError::InvalidDependency(name, p));
            }
            i += 1;
        }
        match selected_project {
            Some(s) => {
                let mut k: usize = 0;
                while k < members.len()
                    invariant
                        pool.wf(),
                        *pool == *old(pool),
                        forall|j: int|
                            0 <= j < members@.len() ==> (#[trigger] members@[j]).wf_in(*pool),
                        forall|j: int|
                            0 <= j < dependencies@.len() ==> pool.live(
                                (#[trigger] dependencies@[j]).0.id(),
                            ) && dependencies@[j].1.wf_in(*pool),
                        all_deps_ok(*pool, dependencies@, members@),
                        selected_project == Some(s),
                        k <= members@.len(),
                        forall|j: int|
                            0 <= j < k ==> pool.content((#[trigger] members@[j]).name.id()) != s@,
                    decreases members@.len() - k,
                {
                    if *members[k].name.get(pool) == s {
                        return Ok(
                            LoadStep::Done(
                                Workspace {
                                    members,
                                    current_member: Some(k),
                                    path,
                                    dependencies,
                                },
                            ),
                        );
                    }
                    k += 1;
                }
                let ghost entry = *pool;
                let ghost did = dep_list_ids(dependencies@);
                let ghost mid = members_ids(members@);
                release_dep_list(pool, dependencies);
                let ghost p1 = *pool;
                release_members(pool, members);
                proof {
                    lemma_release_post_trans(entry, p1, *pool, did, mid);
                }
                Err(WorkspaceError::CannotFindMember(s, path))
            },
            None => {
                let mut k: usize = 0;
                while k < members.len()
                    invariant
                        pool.wf(),
                        *pool == *old(pool),
                        forall|j: int|
                            0 <= j < members@.len() ==> (#[trigger] members@[j]).wf_in(*pool),
                        forall|j: int|
                            0 <= j < dependencies@.len() ==> pool.live(
                                (#[trigger] dependencies@[j]).0.id(),
                            ) && dependencies@[j].1.wf_in(*pool),
                        all_deps_ok(*pool, dependencies@, members@),
                        selected_project is None,
                        k <= members@.len(),
                        forall|j: int|
                            0 <= j < k ==> !spec_path_starts_with(
                                current_dir@,
                                (#[trigger] members@[j]).path@,
                            ),
                    decreases members@.len() - k,
                {
                    if path_starts_with(current_dir, members[k].path.as_str()) {
                        return Ok(
                            LoadStep::Done(
                                Workspace {
                                    members,
                                    current_member: Some(k),
                                    path,
                                    dependencies,
                                },
                            ),
                        );
                    }
                    k += 1;
                }
                Ok(
                    LoadStep::CheckStandalone(
                        Workspace { members, current_member: None, path, dependencies },
                    ),
                )
            },
        }
    }

    /// Shapes the first package manifest of an upward search into a
    /// workspace of one member, current. A standalone package may not
    /// carry workspace-only dependencies: there is no workspace to
    /// satisfy them.
    pub fn from_first_package(pool: &mut StringPool, path: String, manifest: Manifest) -> (r:
        Result<Workspace, WorkspaceError>)
        requires
            old(pool).wf(),
            manifest.wf_in(*old(pool)),
        ensures
            final(pool).wf(),
            match r {
                Ok(ws) => {
                    &&& pool_preserves(*old(pool), *final(pool))
                    &&& manifest.kind is Package
                    &&& forall|j: int|
                        0 <= j < manifest.dependencies@.len() ==> !(
                        #[trigger] manifest.dependencies@[j]).1.spec_is_workspace()
                    &&& ws.wf_in(*final(pool))
                    &&& ws.path == path
                    &&& ws.current_member == Some(0usize)
                    &&& ws.members@.len() == 1
                    &&& ws.members@[0].name == manifest.kind->Package_0.name
                    &&& ws.members@[0].output == manifest.kind->Package_0.output
                    &&& ws.members@[0].lto == manifest.kind->Package_0.lto
                    &&& ws.members@[0].path == path
                    &&& ws.members@[0].dependencies == manifest.dependencies
                    &&& ws.dependencies@.len() == manifest.dependencies@.len()
                    &&& forall|j: int|
                        0 <= j < ws.dependencies@.len() ==> final(pool).content(
                            (#[trigger] ws.dependencies@[j]).0.id(),
                        ) == old(pool).content(manifest.dependencies@[j].0.id())
                            && ws.dependencies@[j].1.view_in(*final(pool))
                            == manifest.dependencies@[j].1.view_in(*old(pool))
                },
                Err(e) => match e {
                    WorkspaceError::ExpectedPackage(q) => manifest.kind is Workspace && q == path
                        && release_post(*old(pool), *final(pool), manifest.ids()),
                    WorkspaceError::InvalidDependency(name, q) => manifest.kind is Package && q
                        == path && release_post(*old(pool), *final(pool), manifest.ids())
                        && exists|j: int|
                        0 <= j < manifest.dependencies@.len() && (
                        #[trigger] manifest.dependencies@[j]).1.spec_is_workspace() && name@ == old(
                        pool,
                    ).content(manifest.dependencies@[j].0.id()) && (forall|k: int|
                        0 <= k < j ==> !(#[trigger] manifest.dependencies@[k]).1.spec_is_workspace()),
                    WorkspaceError::Intern => pool_near_limit(
                        *old(pool),
                        dep_list_claims(manifest.dependencies@),
                    ),
                    _ => false,
                },
            },
            manifest.kind is Package && (exists|j: int|
                0 <= j < manifest.dependencies@.len() && (
                #[trigger] manifest.dependencies@[j]).1.spec_is_workspace()) ==> r is Err
                && r->Err_0 is InvalidDependency,
    {
        let member = match Package::from_manifest(pool, path, manifest) {
            Ok(p) => p,
            Err(e) => {
                return Err(e);
            },
        };
        let mut j: usize = 0;
        let n = member.dependencies.len();
        while j < n
            invariant
                pool.wf(),
                *pool == *old(pool),
                member.wf_in(*pool),
                manifest.kind is Package,
                member.name == manifest.kind->Package_0.name,
                member.output == manifest.kind->Package_0.output,
                member.lto == manifest.kind->Package_0.lto,
                member.path == path,
                member.dependencies == manifest.dependencies,
                n == member.dependencies@.len(),
                j <= n,
                forall|k: int|
                    0 <= k < j ==> !(#[trigger] member.dependencies@[k]).1.spec_is_workspace(),
            decreases n - j,
        {
            if member.dependencies[j].1.is_workspace() {
                let name = member.dependencies[j].0.get(pool).clone();
                let p = member.path.clone();
                let ghost entry = *pool;
                let ghost mids = member.ids();
                release_package(pool, member);
                proof {
                    assert(mids =~= manifest.ids());
                }
                return Err(WorkspaceError::InvalidDependency(name, p));
            }
            j += 1;
        }
        let ws_path = member.path.clone();
        let cloned = match clone_dep_vec(pool, &member.dependencies) {
            Ok(c) => c,
            Err(e) => {
                release_package(pool, member);
                return Err(e);
            },
        };
        proof {
            lemma_package_preserved(member, *old(pool), *pool);
        }
        let ghost member_g = member;
        let mut members: Vec<Package> = Vec::new();
        members.push(member);
        proof {
            assert(members@.len() == 1);
            assert(members@[0] == member_g);
        }
        Ok(Workspace { members, current_member: Some(0), path: ws_path, dependencies: cloned })
    }

    /// Turns the expected-package outcome of a standalone search into
    /// no result: walking up past a workspace manifest simply finds no
    /// standalone package.
    pub fn map_expected_package_to_none(value: Result<Option<Workspace>, WorkspaceError>) -> (r:
        Result<Option<Workspace>, WorkspaceError>)
        ensures
            match value {
                Err(WorkspaceError::ExpectedPackage(_)) => r is Ok && r->Ok_0 is None,
                _ => r == value,
            },
    {
        match value {
            Err(WorkspaceError::ExpectedPackage(_)) => Ok(None),
            other => other,
        }
    }

    /// Settles a workspace whose current directory lies in no member:
    /// a standalone package there that sits inside the workspace root is
    /// a fatal error — the package exists but is not declared a member;
    /// otherwise the workspace stands with no current member.
    pub fn check_membership(
        pool: &mut StringPool,
        ws: Workspace,
        standalone: Option<Workspace>,
    ) -> (r: Result<Option<Workspace>, WorkspaceError>)
        requires
            old(pool).wf(),
        ensures
            final(pool).wf(),
            match r {
                Ok(w) => w == Some(ws) && match standalone {
                    Some(s) => !spec_path_starts_with(s.path@, ws.path@) && release_post(
                        *old(pool),
                        *final(pool),
                        members_ids(s.members@) + dep_list_ids(s.dependencies@),
                    ),
                    None => *final(pool) == *old(pool),
                },
                Err(e) => match e {
                    WorkspaceError::PackageNotInWorkspace(p, q) => {
                        &&& standalone is Some
                        &&& spec_path_starts_with(standalone->Some_0.path@, ws.path@)
                        &&& p == standalone->Some_0.path
                        &&& q == ws.path
                        &&& release_post(
                            *old(pool),
                            *final(pool),
                            (members_ids(standalone->Some_0.members@) + dep_list_ids(
                                standalone->Some_0.dependencies@,
                            )) + (members_ids(ws.members@) + dep_list_ids(ws.dependencies@)),
                        )
                    },
                    _ => false,
                },
            },
    {
        match standalone {
            None => Ok(Some(ws)),
            Some(pkg_ws) => {
                if path_starts_with(pkg_ws.path.as_str(), ws.path.as_str()) {
                    let p = pkg_ws.path.clone();
                    let q = ws.path.clone();
                    let ghost entry = *pool;
                    let ghost sid = members_ids(pkg_ws.members@) + dep_list_ids(
                        pkg_ws.dependencies@,
                    );
                    let ghost wid = members_ids(ws.members@) + dep_list_ids(ws.dependencies@);
                    release_workspace(pool, pkg_ws);
                    let ghost p1 = *pool;
                    release_workspace(pool, ws);
                    proof {
                        assert(p == standalone->Some_0.path);
                        lemma_release_post_trans(entry, p1, *pool, sid, wid);
                    }
                    Err(WorkspaceError::PackageNotInWorkspace(p, q))
                } else {
                    release_workspace(pool, pkg_ws);
                    Ok(Some(ws))
                }
            },
        }
    }
}

/// The filename of the artifact a package builds into, following the
/// target's prefix and suffix conventions for its output kind.
pub fn modify_filename(
    package: &Package,
    compiler: &crate::compiler_backend::ClangCompilerBackend,
    extra_options: &crate::compiler_backend::ExtraCompileOptions,
    base_name: &str,
) -> (r: String)
    ensures
        r@ == crate::compiler_backend::spec_artifact_name(
            package.output,
            extra_options.target@,
            base_name@,
        ),
{
    match package.output {
        PackageKind::Executable => {
            let mut s = String::from_str(base_name);
            s.append(compiler.get_executable_suffix(extra_options));
            s
        },
        PackageKind::DynamicLibrary => {
            let mut s = String::from_str(compiler.get_library_prefix(extra_options));
            s.append(base_name);
            s.append(compiler.get_dynamic_suffix(extra_options));
            s
        },
        PackageKind::StaticLibrary => {
            let mut s = String::from_str(compiler.get_library_prefix(extra_options));
            s.append(base_name);
            s.append(compiler.get_static_suffix(extra_options));
            s
        },
    }
}

} // verus!
