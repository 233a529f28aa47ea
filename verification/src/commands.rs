//! The commands' decision logic: rebuilding the lockfile snapshot from
//! fetched source results, choosing what `update` clones, which
//! repositories a batch command runs over, and what each primitive git
//! operation executes. The callers perform the fetches, spawn the
//! processes and read the filesystem; every decision is made here.

use vstd::prelude::*;
use crate::repository::{
    Repository, repo_cmp, repos_sorted, paths_strictly_sorted, sort_repositories, dedup_by_path,
};

verus! {

/// A source whose fetch failed, with its position and its message.
#[derive(Debug)]
pub struct SourceFailure {
    pub index: usize,
    pub message: String,
}

/// The source lists hold a repository at position `j` of source `i`.
pub open spec fn valid_source_index(
    results: Seq<Result<Vec<Repository>, String>>,
    i: int,
    j: int,
) -> bool {
    0 <= i < results.len() && results[i] is Ok && 0 <= j < results[i]->Ok_0@.len()
}

/// The repository at position `j` of source `i`.
pub open spec fn source_repo(
    results: Seq<Result<Vec<Repository>, String>>,
    i: int,
    j: int,
) -> Repository {
    results[i]->Ok_0@[j]
}

/// Some source fetched this repository record.
pub open spec fn flat_contains(
    results: Seq<Result<Vec<Repository>, String>>,
    x: Repository,
) -> bool {
    exists|i: int, j: int|
        valid_source_index(results, i, j) && #[trigger] source_repo(results, i, j) == x
}

/// Every source's fetch succeeded.
pub open spec fn all_sources_ok(results: Seq<Result<Vec<Repository>, String>>) -> bool {
    forall|i: int| 0 <= i < results.len() ==> results[i] is Ok
}

/// Every record of `v` was fetched by some source.
pub open spec fn from_sources(
    results: Seq<Result<Vec<Repository>, String>>,
    v: Seq<Repository>,
) -> bool {
    forall|k: int|
        #![trigger flat_contains(results, v[k])]
        0 <= k < v.len() ==> flat_contains(results, v[k])
}

/// `v` holds every record that any source fetched.
pub open spec fn gathers_sources(
    results: Seq<Result<Vec<Repository>, String>>,
    v: Seq<Repository>,
) -> bool {
    forall|i2: int, j2: int|
        #![trigger source_repo(results, i2, j2)]
        valid_source_index(results, i2, j2) ==> exists|k: int|
            #![trigger v[k]]
            0 <= k < v.len() && v[k] == source_repo(results, i2, j2)
}

/// Every fetched record has a representative of its path in `v` that is
/// no greater than it.
pub open spec fn covers_all_fetched(
    results: Seq<Result<Vec<Repository>, String>>,
    v: Seq<Repository>,
) -> bool {
    forall|x: Repository| #[trigger]
        flat_contains(results, x) ==> exists|k: int|
            #![trigger v[k].path]
            0 <= k < v.len() && v[k].path@ == x.path@ && repo_cmp(&v[k], &x) <= 0
}

/// The canonical snapshot of what the sources fetched: ordered with one
/// record per path, drawn from the sources, and representing every
/// fetched record's path by a record no greater than it.
pub open spec fn snapshot_of(
    results: Seq<Result<Vec<Repository>, String>>,
    v: Seq<Repository>,
) -> bool {
    &&& paths_strictly_sorted(v)
    &&& from_sources(results, v)
    &&& covers_all_fetched(results, v)
}

/// The position of the first source whose fetch failed, with its message.
fn first_failure(results: &Vec<Result<Vec<Repository>, String>>) -> (r: Option<SourceFailure>)
    ensures
        r is None <==> all_sources_ok(results@),
        r matches Some(f) ==> (f.index as int) < results@.len()
            && results@[f.index as int] is Err
            && f.message@ == results@[f.index as int]->Err_0@
            && (forall|i: int| 0 <= i < f.index ==> results@[i] is Ok),
{
    let n = results.len();
    let mut i: usize = 0;
    while i < n
        invariant
            n == results@.len(),
            i <= n,
            forall|i2: int| 0 <= i2 < i ==> results@[i2] is Ok,
        decreases n - i,
    {
        match &results[i] {
            Result::Err(m) => {
                return Option::Some(SourceFailure { index: i, message: m.clone() });
            },
            Result::Ok(_) => {},
        }
        i = i + 1;
    }
    Option::None
}

/// How many records the first `i` sources fetched together.
pub open spec fn flat_len(results: Seq<Result<Vec<Repository>, String>>, i: int) -> int
    decreases i,
{
    if i <= 0 {
        0
    } else {
        flat_len(results, i - 1) + results[i - 1]->Ok_0@.len()
    }
}

/// The flattened prefix only grows, source by source.
proof fn lemma_flat_len_mono(results: Seq<Result<Vec<Repository>, String>>, a: int, b: int)
    requires
        0 <= a <= b,
    ensures
        flat_len(results, a) <= flat_len(results, b),
        a < b ==> flat_len(results, a) + results[a]->Ok_0@.len() <= flat_len(results, b),
        flat_len(results, a) >= 0,
    decreases b,
{
    if a < b {
        lemma_flat_len_mono(results, a, b - 1);
    }
    if a > 0 && a == b {
        lemma_flat_len_mono(results, a - 1, a - 1);
    }
}

/// One batch holding every record that any source fetched, in source
/// order: the record `j` of source `i` stands at the source's offset
/// plus `j`.
#[verifier::rlimit(60)]
fn flatten_sources(results: &Vec<Result<Vec<Repository>, String>>) -> (r: Vec<Repository>)
    requires
        all_sources_ok(results@),
    ensures
        from_sources(results@, r@),
        gathers_sources(results@, r@),
{
    let n = results.len();
    let mut all: Vec<Repository> = Vec::new();
    let mut i: usize = 0;
    while i < n
        invariant
            n == results@.len(),
            i <= n,
            all_sources_ok(results@),
            all@.len() == flat_len(results@, i as int),
            forall|k: int|
                #![trigger flat_contains(results@, all@[k])]
                0 <= k < all@.len() ==> flat_contains(results@, all@[k]),
            forall|i2: int, j2: int|
                #![trigger source_repo(results@, i2, j2)]
                valid_source_index(results@, i2, j2) && i2 < i
                    ==> all@[flat_len(results@, i2) + j2] == source_repo(results@, i2, j2),
        decreases n - i,
    {
        let list: &Vec<Repository> = match &results[i] {
            Result::Ok(l) => l,
            Result::Err(_) => {
                proof {
                    assert(results@[i as int] is Ok);
                }
                unreached()
            },
        };
        let m = list.len();
        let mut j: usize = 0;
        while j < m
            invariant
                n == results@.len(),
                i < n,
                m == list@.len(),
                j <= m,
                all_sources_ok(results@),
                results@[i as int] is Ok,
                list@ == results@[i as int]->Ok_0@,
                all@.len() == flat_len(results@, i as int) + j,
                forall|k: int|
                    #![trigger flat_contains(results@, all@[k])]
                    0 <= k < all@.len() ==> flat_contains(results@, all@[k]),
                forall|i2: int, j2: int|
                    #![trigger source_repo(results@, i2, j2)]
                    valid_source_index(results@, i2, j2) && i2 < i
                        ==> all@[flat_len(results@, i2) + j2] == source_repo(results@, i2, j2),
                forall|j2: int|
                    #![trigger list@[j2]]
                    0 <= j2 < j
                        ==> all@[flat_len(results@, i as int) + j2]
                            == source_repo(results@, i as int, j2),
            decreases m - j,
        {
            let x = list[j].clone();
            let ghost oldall = all@;
            proof {
                lemma_flat_len_mono(results@, 0, i as int);
            }
            all.push(x);
            proof {
                assert(all@[flat_len(results@, i as int) + j] == source_repo(
                    results@,
                    i as int,
                    j as int,
                ));
                assert(flat_contains(results@, all@[oldall.len() as int]));
                assert forall|i2: int, j2: int|
                    valid_source_index(results@, i2, j2) && i2 < i
                    implies all@[flat_len(results@, i2) + j2] == #[trigger] source_repo(
                        results@,
                        i2,
                        j2,
                    ) by {
                    lemma_flat_len_mono(results@, i2, i as int);
                    assert(oldall[flat_len(results@, i2) + j2] == source_repo(results@, i2, j2));
                }
            }
            j = j + 1;
        }
        i = i + 1;
    }
    proof {
        assert forall|i2: int, j2: int|
            valid_source_index(results@, i2, j2)
            implies all@[flat_len(results@, i2) + j2] == #[trigger] source_repo(
                results@,
                i2,
                j2,
            ) by {}
        assert forall|i2: int, j2: int|
            valid_source_index(results@, i2, j2)
            implies exists|k: int|
                #![trigger all@[k]]
                0 <= k < all@.len() && all@[k] == #[trigger] source_repo(results@, i2, j2) by {
            lemma_flat_len_mono(results@, i2, n as int);
            lemma_flat_len_mono(results@, 0, i2);
            let k = flat_len(results@, i2) + j2;
            assert(0 <= k < all@.len() && all@[k] == source_repo(results@, i2, j2));
        }
        assert(from_sources(results@, all@));
        assert(gathers_sources(results@, all@));
    }
    all
}

/// Every record of the deduplicated snapshot came from some source.
#[verifier::rlimit(60)]
proof fn lemma_snapshot_from_sources(
    results: Seq<Result<Vec<Repository>, String>>,
    flat: Seq<Repository>,
    sorted: Seq<Repository>,
    deduped: Seq<Repository>,
)
    requires
        from_sources(results, flat),
        sorted.to_multiset() == flat.to_multiset(),
        crate::repository::drawn_from(sorted, deduped),
    ensures
        from_sources(results, deduped),
{
    broadcast use vstd::seq_lib::to_multiset_contains;

    assert forall|k: int| 0 <= k < deduped.len()
        implies flat_contains(results, #[trigger] deduped[k]) by {
        let j = choose|j: int|
            0 <= j < sorted.len() && deduped[k] == #[trigger] sorted[j];
        assert(sorted.contains(deduped[k]));
        assert(sorted.to_multiset().count(deduped[k]) > 0);
        assert(flat.to_multiset().count(deduped[k]) > 0);
        assert(flat.contains(deduped[k]));
        let m2 = choose|m2: int| 0 <= m2 < flat.len() && (#[trigger] flat[m2]) == deduped[k];
        assert(flat_contains(results, flat[m2]));
    }
    assert(from_sources(results, deduped));
}

/// Every fetched record has a representative of its path in the
/// deduplicated snapshot that is no greater than it.
#[verifier::rlimit(60)]
proof fn lemma_snapshot_covers_sources(
    results: Seq<Result<Vec<Repository>, String>>,
    flat: Seq<Repository>,
    sorted: Seq<Repository>,
    deduped: Seq<Repository>,
)
    requires
        gathers_sources(results, flat),
        sorted.to_multiset() == flat.to_multiset(),
        crate::repository::covers_by_path(sorted, deduped),
    ensures
        covers_all_fetched(results, deduped),
{
    broadcast use vstd::seq_lib::to_multiset_contains;

    assert forall|x: Repository| #[trigger] flat_contains(results, x)
        implies exists|k: int|
            #![trigger deduped[k].path]
            0 <= k < deduped.len() && deduped[k].path@ == x.path@
                && repo_cmp(&deduped[k], &x) <= 0 by {
        let (i2, j2): (int, int) = choose|i2: int, j2: int|
            valid_source_index(results, i2, j2) && #[trigger] source_repo(results, i2, j2) == x;
        let m2 = choose|m2: int|
            0 <= m2 < flat.len() && (#[trigger] flat[m2]) == source_repo(results, i2, j2);
        assert(flat.contains(x));
        assert(flat.to_multiset().count(x) > 0);
        assert(sorted.to_multiset().count(x) > 0);
        assert(sorted.contains(x));
        let js = choose|js: int| 0 <= js < sorted.len() && (#[trigger] sorted[js]) == x;
        assert(sorted[js].path@ == x.path@);
    }
    assert(covers_all_fetched(results, deduped));
}

/// Rebuilds the canonical snapshot from the fetch result of every
/// configured source. If any source failed, the first failure is returned
/// and nothing is produced, so the prior snapshot stays untouched. On
/// success the snapshot is the union of all fetched records, ordered by
/// path with exactly one record per path: the least record of that path.
pub fn lock(results: Vec<Result<Vec<Repository>, String>>) -> (r: Result<
    Vec<Repository>,
    SourceFailure,
>)
    ensures
        r is Ok <==> all_sources_ok(results@),
        r matches Err(f) ==> (f.index as int) < results@.len()
            && results@[f.index as int] is Err
            && f.message@ == results@[f.index as int]->Err_0@
            && (forall|i: int| 0 <= i < f.index ==> results@[i] is Ok),
        r matches Ok(v) ==> snapshot_of(results@, v@),
{
    match first_failure(&results) {
        Option::Some(f) => {
            return Result::Err(f);
        },
        Option::None => {},
    }
    let all = flatten_sources(&results);
    let ghost flat = all@;
    let sorted = sort_repositories(all);
    let ghost sorted_view = sorted@;
    let deduped = dedup_by_path(sorted);
    proof {
        lemma_snapshot_from_sources(results@, flat, sorted_view, deduped@);
        lemma_snapshot_covers_sources(results@, flat, sorted_view, deduped@);
    }
    Result::Ok(deduped)
}

/// The lockfile entries among the first `i` that have no checkout on disk
/// yet: what `update` clones.
pub open spec fn to_clone_spec(repos: Seq<Repository>, present: Seq<bool>, i: int) -> Seq<
    Repository,
>
    decreases i,
{
    if i <= 0 {
        Seq::empty()
    } else if !present[i - 1] {
        to_clone_spec(repos, present, i - 1).push(repos[i - 1])
    } else {
        to_clone_spec(repos, present, i - 1)
    }
}

/// Chooses what `update` clones: exactly the lockfile entries whose
/// checkout does not exist yet, in lockfile order. Entries that already
/// exist are left untouched.
pub fn update(repos: &Vec<Repository>, present: &Vec<bool>) -> (r: Vec<Repository>)
    requires
        repos@.len() == present@.len(),
    ensures
        r@ == to_clone_spec(repos@, present@, repos@.len() as int),
{
    let n = repos.len();
    let mut out: Vec<Repository> = Vec::new();
    let mut i: usize = 0;
    while i < n
        invariant
            n == repos@.len(),
            n == present@.len(),
            i <= n,
            out@ == to_clone_spec(repos@, present@, i as int),
        decreases n - i,
    {
        if !present[i] {
            out.push(repos[i].clone());
        }
        i = i + 1;
    }
    out
}

/// A batch with every checkout present clones nothing.
proof fn lemma_to_clone_all_present(repos: Seq<Repository>, present: Seq<bool>, i: int)
    requires
        0 <= i <= repos.len(),
        repos.len() == present.len(),
        forall|j: int| 0 <= j < i ==> present[j],
    ensures
        to_clone_spec(repos, present, i).len() == 0,
    decreases i,
{
    if i > 0 {
        lemma_to_clone_all_present(repos, present, i - 1);
    }
}

/// An entry without a checkout is among what the pass clones.
proof fn lemma_to_clone_complete(repos: Seq<Repository>, present: Seq<bool>, i: int, j: int)
    requires
        0 <= j < i <= repos.len(),
        repos.len() == present.len(),
        !present[j],
    ensures
        to_clone_spec(repos, present, i).contains(repos[j]),
    decreases i,
{
    if j == i - 1 {
        assert(to_clone_spec(repos, present, i)[to_clone_spec(repos, present, i - 1).len() as int]
            == repos[j]);
    } else {
        lemma_to_clone_complete(repos, present, i - 1, j);
        let k = choose|k: int|
            0 <= k < to_clone_spec(repos, present, i - 1).len() && #[trigger] to_clone_spec(
                repos,
                present,
                i - 1,
            )[k] == repos[j];
        assert(to_clone_spec(repos, present, i)[k] == repos[j]);
    }
}

/// `update` is idempotent: with no external change, a second pass right
/// after the first performs no clone. After the first pass every entry's
/// checkout exists -- it either existed before or was just cloned -- so the
/// second pass finds nothing to clone.
pub proof fn lemma_update_idempotent(
    repos: Seq<Repository>,
    before: Seq<bool>,
    after: Seq<bool>,
)
    requires
        repos.len() == before.len(),
        repos.len() == after.len(),
        forall|i: int|
            0 <= i < repos.len() ==> #[trigger] after[i] == (before[i] || to_clone_spec(
                repos,
                before,
                repos.len() as int,
            ).contains(repos[i])),
    ensures
        to_clone_spec(repos, after, repos.len() as int).len() == 0,
{
    assert forall|i: int| 0 <= i < repos.len() implies #[trigger] after[i] by {
        if !before[i] {
            lemma_to_clone_complete(repos, before, repos.len() as int, i);
        }
    }
    lemma_to_clone_all_present(repos, after, repos.len() as int);
}

/// A batch command over the workspace: the program to spawn, its
/// arguments, and the repositories to run it in.
pub struct CommandPlan {
    pub program: String,
    pub args: Vec<String>,
    pub repositories: Vec<Repository>,
}

/// The repositories among the first `i` whose checkout exists: batch
/// commands run only in those.
pub open spec fn existing_spec(repos: Seq<Repository>, present: Seq<bool>, i: int) -> Seq<
    Repository,
>
    decreases i,
{
    if i <= 0 {
        Seq::empty()
    } else if present[i - 1] {
        existing_spec(repos, present, i - 1).push(repos[i - 1])
    } else {
        existing_spec(repos, present, i - 1)
    }
}

/// Plans one arbitrary command across the workspace: it runs `cmd` with
/// `args` in every lockfile entry whose checkout exists, in lockfile
/// order.
pub fn execute_cmd(
    repos: &Vec<Repository>,
    present: &Vec<bool>,
    cmd: String,
    args: Vec<String>,
) -> (r: CommandPlan)
    requires
        repos@.len() == present@.len(),
    ensures
        r.program == cmd,
        r.args == args,
        r.repositories@ == existing_spec(repos@, present@, repos@.len() as int),
{
    let n = repos.len();
    let mut out: Vec<Repository> = Vec::new();
    let mut i: usize = 0;
    while i < n
        invariant
            n == repos@.len(),
            n == present@.len(),
            i <= n,
            out@ == existing_spec(repos@, present@, i as int),
        decreases n - i,
    {
        if present[i] {
            out.push(repos[i].clone());
        }
        i = i + 1;
    }
    CommandPlan { program: cmd, args, repositories: out }
}

/// Plans the fetch of new commits: `git fetch` over all remotes, pruning,
/// with submodules on demand and streamed progress, in every existing
/// checkout.
pub fn fetch(repos: &Vec<Repository>, present: &Vec<bool>) -> (r: CommandPlan)
    requires
        repos@.len() == present@.len(),
    ensures
        r.program@ == "git"@,
        r.args@.len() == 5,
        r.args@[0]@ == "fetch"@,
        r.args@[1]@ == "--all"@,
        r.args@[2]@ == "--prune"@,
        r.args@[3]@ == "--recurse-submodules=on-demand"@,
        r.args@[4]@ == "--progress"@,
        r.repositories@ == existing_spec(repos@, present@, repos@.len() as int),
{
    let mut args: Vec<String> = Vec::new();
    args.push(String::from_str("fetch"));
    args.push(String::from_str("--all"));
    args.push(String::from_str("--prune"));
    args.push(String::from_str("--recurse-submodules=on-demand"));
    args.push(String::from_str("--progress"));
    execute_cmd(repos, present, String::from_str("git"), args)
}

/// The lines `list` prints for the first `i` entries: the name of every
/// existing checkout, or its location below the root when `full` is asked.
pub open spec fn list_lines_spec(
    repos: Seq<Repository>,
    present: Seq<bool>,
    full: bool,
    root: Seq<char>,
    i: int,
) -> Seq<Seq<char>>
    decreases i,
{
    if i <= 0 {
        Seq::empty()
    } else if present[i - 1] {
        list_lines_spec(repos, present, full, root, i - 1).push(
            if full {
                root + seq!['/'] + repos[i - 1].path@
            } else {
                repos[i - 1].path@
            },
        )
    } else {
        list_lines_spec(repos, present, full, root, i - 1)
    }
}

/// Lists the workspace: one line per existing checkout, its name, or with
/// `full` its location below the workspace root.
pub fn list(repos: &Vec<Repository>, present: &Vec<bool>, full: bool, root: &str) -> (r: Vec<
    String,
>)
    requires
        repos@.len() == present@.len(),
    ensures
        crate::archive::strings_view(r@) == list_lines_spec(
            repos@,
            present@,
            full,
            root@,
            repos@.len() as int,
        ),
{
    let n = repos.len();
    let mut out: Vec<String> = Vec::new();
    let mut i: usize = 0;
    while i < n
        invariant
            n == repos@.len(),
            n == present@.len(),
            i <= n,
            crate::archive::strings_view(out@) == list_lines_spec(
                repos@,
                present@,
                full,
                root@,
                i as int,
            ),
        decreases n - i,
    {
        let ghost oldout = out@;
        if present[i] {
            if full {
                out.push(repos[i].get_path(root));
            } else {
                out.push(repos[i].name().clone());
            }
            proof {
                assert(crate::archive::strings_view(out@) =~= crate::archive::strings_view(
                    oldout,
                ).push(out@[oldout.len() as int]@));
            }
        }
        i = i + 1;
    }
    out
}

/// The arguments of the pull in one repository: from the declared upstream
/// remote on the primary branch where both are declared, plainly otherwise.
pub open spec fn pull_args_spec(r: &Repository) -> Seq<Seq<char>> {
    if r.upstream is Some && r.branch is Some {
        seq!["pull"@, "upstream"@, r.branch->0@]
    } else {
        seq!["pull"@]
    }
}

/// The arguments of the pull in one repository.
pub fn pull_args(r: &Repository) -> (a: Vec<String>)
    ensures
        crate::archive::strings_view(a@) == pull_args_spec(r),
{
    let mut a: Vec<String> = Vec::new();
    match (&r.upstream, &r.branch) {
        (Option::Some(_), Option::Some(b)) => {
            a.push(String::from_str("pull"));
            a.push(String::from_str("upstream"));
            a.push(b.clone());
            proof {
                assert(crate::archive::strings_view(a@) =~= pull_args_spec(r));
            }
        },
        _ => {
            a.push(String::from_str("pull"));
            proof {
                assert(crate::archive::strings_view(a@) =~= pull_args_spec(r));
            }
        },
    }
    a
}

/// Plans the pull across the workspace: each repository paired with the
/// arguments of its pull, in lockfile order. The switch to the primary
/// branch that precedes each pull is decided per repository by
/// `switch_step`.
pub fn pull_all_repositories(repos: &Vec<Repository>) -> (r: Vec<(Repository, Vec<String>)>)
    ensures
        r@.len() == repos@.len(),
        forall|i: int|
            #![trigger r@[i]]
            0 <= i < r@.len() ==> r@[i].0 == repos@[i] && crate::archive::strings_view(r@[i].1@)
                == pull_args_spec(&repos@[i]),
{
    let n = repos.len();
    let mut out: Vec<(Repository, Vec<String>)> = Vec::new();
    let mut i: usize = 0;
    while i < n
        invariant
            n == repos@.len(),
            i <= n,
            out@.len() == i,
            forall|j: int|
                #![trigger out@[j]]
                0 <= j < i ==> out@[j].0 == repos@[j] && crate::archive::strings_view(out@[j].1@)
                    == pull_args_spec(&repos@[j]),
        decreases n - i,
    {
        let args = pull_args(&repos[i]);
        out.push((repos[i].clone(), args));
        i = i + 1;
    }
    out
}

} // verus!
