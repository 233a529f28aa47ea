//! The repository record: identity, location and remote metadata of one
//! checkout, with the total order that keeps the lockfile canonical.

use vstd::prelude::*;
use crate::order::{lex_cmp, opt_lex_cmp, str_compare, opt_str_compare, view_opt};
use vstd::multiset::Multiset;

verus! {

/// One tracked git checkout. `path` is the workspace-relative directory,
/// `url` the clone remote, `branch` the optional primary branch and
/// `upstream` the optional secondary remote.
pub struct Repository {
    pub path: String,
    pub url: String,
    pub upstream: Option<String>,
    pub branch: Option<String>,
}

/// Three-way comparison of two repository records over the full record:
/// path first, then url, then upstream, then branch.
pub open spec fn repo_cmp(a: &Repository, b: &Repository) -> int {
    if lex_cmp(a.path@, b.path@) != 0 {
        lex_cmp(a.path@, b.path@)
    } else if lex_cmp(a.url@, b.url@) != 0 {
        lex_cmp(a.url@, b.url@)
    } else if opt_lex_cmp(view_opt(&a.upstream), view_opt(&b.upstream)) != 0 {
        opt_lex_cmp(view_opt(&a.upstream), view_opt(&b.upstream))
    } else {
        opt_lex_cmp(view_opt(&a.branch), view_opt(&b.branch))
    }
}

/// Structural equality of two repository records.
pub open spec fn repo_eq(a: &Repository, b: &Repository) -> bool {
    a.path@ =~= b.path@ && a.url@ =~= b.url@
        && view_opt_eq(view_opt(&a.upstream), view_opt(&b.upstream))
        && view_opt_eq(view_opt(&a.branch), view_opt(&b.branch))
}

pub open spec fn view_opt_eq(a: Option<Seq<char>>, b: Option<Seq<char>>) -> bool {
    match (a, b) {
        (Option::None, Option::None) => true,
        (Option::Some(x), Option::Some(y)) => x =~= y,
        _ => false,
    }
}

pub proof fn lemma_repo_cmp_eq(a: &Repository, b: &Repository)
    ensures
        repo_cmp(a, b) == 0 <==> repo_eq(a, b),
{
    crate::order::lemma_lex_cmp_eq(a.path@, b.path@);
    crate::order::lemma_lex_cmp_eq(a.url@, b.url@);
    crate::order::lemma_opt_lex_cmp_eq(view_opt(&a.upstream), view_opt(&b.upstream));
    crate::order::lemma_opt_lex_cmp_eq(view_opt(&a.branch), view_opt(&b.branch));
}

impl Repository {
    /// Builds a repository record from its parts. Paths already use the
    /// platform's separator, so they are stored as given.
    pub fn new(path: String, url: String, branch: Option<String>, upstream: Option<String>)
        -> (r: Repository)
        ensures
            r.path@ == path@,
            r.url@ == url@,
            r.branch == branch,
            r.upstream == upstream,
    {
        Repository { path, url, branch, upstream }
    }

    /// The workspace-relative name of the checkout.
    pub fn name(&self) -> (r: &String)
        ensures
            r@ == self.path@,
    {
        &self.path
    }

    /// Three-way comparison with another record, over the full record.
    pub fn compare(&self, other: &Repository) -> (r: i8)
        ensures
            r as int == repo_cmp(self, other),
    {
        let c = str_compare(self.path.as_str(), other.path.as_str());
        if c != 0 {
            return c;
        }
        let c = str_compare(self.url.as_str(), other.url.as_str());
        if c != 0 {
            return c;
        }
        let c = opt_str_compare(&self.upstream, &other.upstream);
        if c != 0 {
            return c;
        }
        opt_str_compare(&self.branch, &other.branch)
    }
}

/// Swapping the arguments negates the record comparison.
pub proof fn lemma_repo_cmp_antisym(a: &Repository, b: &Repository)
    ensures
        repo_cmp(b, a) == -repo_cmp(a, b),
{
    crate::order::lemma_lex_cmp_antisym(a.path@, b.path@);
    crate::order::lemma_lex_cmp_antisym(a.url@, b.url@);
    crate::order::lemma_opt_lex_cmp_antisym(view_opt(&a.upstream), view_opt(&b.upstream));
    crate::order::lemma_opt_lex_cmp_antisym(view_opt(&a.branch), view_opt(&b.branch));
}

/// The record order is transitive.
pub proof fn lemma_repo_cmp_trans(a: &Repository, b: &Repository, c: &Repository)
    requires
        repo_cmp(a, b) <= 0,
        repo_cmp(b, c) <= 0,
    ensures
        repo_cmp(a, c) <= 0,
        repo_cmp(a, b) < 0 || repo_cmp(b, c) < 0 ==> repo_cmp(a, c) < 0,
{
    crate::order::lemma_lex_cmp_eq(a.path@, b.path@);
    crate::order::lemma_lex_cmp_eq(b.path@, c.path@);
    crate::order::lemma_lex_cmp_eq(a.path@, c.path@);
    crate::order::lemma_lex_cmp_trans(a.path@, b.path@, c.path@);
    if lex_cmp(a.path@, b.path@) == 0 && lex_cmp(b.path@, c.path@) == 0 {
        assert(a.path@ =~= c.path@);
        crate::order::lemma_lex_cmp_eq(a.url@, b.url@);
        crate::order::lemma_lex_cmp_eq(b.url@, c.url@);
        crate::order::lemma_lex_cmp_eq(a.url@, c.url@);
        crate::order::lemma_lex_cmp_trans(a.url@, b.url@, c.url@);
        if lex_cmp(a.url@, b.url@) == 0 && lex_cmp(b.url@, c.url@) == 0 {
            assert(a.url@ =~= c.url@);
            crate::order::lemma_opt_lex_cmp_eq(view_opt(&a.upstream), view_opt(&b.upstream));
            crate::order::lemma_opt_lex_cmp_eq(view_opt(&b.upstream), view_opt(&c.upstream));
            crate::order::lemma_opt_lex_cmp_eq(view_opt(&a.upstream), view_opt(&c.upstream));
            crate::order::lemma_opt_lex_cmp_trans(
                view_opt(&a.upstream),
                view_opt(&b.upstream),
                view_opt(&c.upstream),
            );
            if opt_lex_cmp(view_opt(&a.upstream), view_opt(&b.upstream)) == 0 && opt_lex_cmp(
                view_opt(&b.upstream),
                view_opt(&c.upstream),
            ) == 0 {
                crate::order::lemma_opt_lex_cmp_trans(
                    view_opt(&a.branch),
                    view_opt(&b.branch),
                    view_opt(&c.branch),
                );
            }
        }
    }
}

/// The whole sequence is ordered by the record comparison.
pub open spec fn repos_sorted(s: Seq<Repository>) -> bool {
    forall|i: int, j: int| 0 <= i <= j < s.len() ==> repo_cmp(&s[i], &s[j]) <= 0
}

/// The paths of the sequence are strictly increasing: no two entries share
/// a path, and the sequence is ordered.
pub open spec fn paths_strictly_sorted(s: Seq<Repository>) -> bool {
    forall|i: int, j: int|
        0 <= i < j < s.len() ==> lex_cmp(s[i].path@, s[j].path@) < 0
}

/// Inserts one record into an ordered sequence, keeping it ordered.
pub fn insert_sorted(v: &mut Vec<Repository>, x: Repository)
    requires
        repos_sorted(old(v)@),
    ensures
        repos_sorted(final(v)@),
        final(v)@.to_multiset() == old(v)@.to_multiset().insert(x),
{
    broadcast use vstd::seq_lib::to_multiset_insert;

    let mut idx: usize = 0;
    while idx < v.len() && v[idx].compare(&x) < 0
        invariant
            idx <= v@.len(),
            repos_sorted(v@),
            v@ == old(v)@,
            forall|j: int| 0 <= j < idx ==> repo_cmp(&v@[j], &x) < 0,
        decreases v@.len() - idx,
    {
        idx = idx + 1;
    }
    proof {
        if idx < v@.len() {
            lemma_repo_cmp_antisym(&v@[idx as int], &x);
        }
        v@.insert_ensures(idx as int, x);
        assert forall|i: int, j: int|
            0 <= i <= j < v@.insert(idx as int, x).len() implies repo_cmp(
            &v@.insert(idx as int, x)[i],
            &v@.insert(idx as int, x)[j],
        ) <= 0 by {
            let s = v@.insert(idx as int, x);
            lemma_repo_cmp_eq(&x, &x);
            if i < idx && j == idx {
                assert(s[i] == v@[i] && s[j] == x);
            } else if i == idx && j > idx {
                assert(s[i] == x && s[j] == v@[j - 1]);
                lemma_repo_cmp_trans(&x, &v@[idx as int], &v@[j - 1]);
            } else if i < idx && j > idx {
                assert(s[i] == v@[i] && s[j] == v@[j - 1]);
                lemma_repo_cmp_trans(&x, &v@[idx as int], &v@[j - 1]);
                lemma_repo_cmp_trans(&v@[i], &x, &v@[j - 1]);
            } else if i != idx && j != idx {
                assert(s[i] == if i < idx { v@[i] } else { v@[i - 1] });
                assert(s[j] == if j < idx { v@[j] } else { v@[j - 1] });
            }
        }
    }
    v.insert(idx, x);
}

/// Orders a batch of records by the full record.
pub fn sort_repositories(mut v: Vec<Repository>) -> (r: Vec<Repository>)
    ensures
        repos_sorted(r@),
        r@.to_multiset() == v@.to_multiset(),
{
    broadcast use vstd::seq_lib::group_to_multiset_ensures;

    let mut out: Vec<Repository> = Vec::new();
    let ghost orig = v@;
    proof {
        assert(out@.to_multiset() =~= Multiset::empty());
    }
    while v.len() > 0
        invariant
            repos_sorted(out@),
            out@.to_multiset().add(v@.to_multiset()) == orig.to_multiset(),
        decreases v@.len(),
    {
        let ghost prev = v@;
        let x = v.pop().unwrap();
        proof {
            assert(prev.drop_last().push(x) =~= prev);
            vstd::seq_lib::to_multiset_build(prev.drop_last(), x);
            assert(prev.drop_last().to_multiset().insert(x) =~= prev.to_multiset());
        }
        insert_sorted(&mut out, x);
        proof {
            assert(out@.to_multiset().add(v@.to_multiset()) =~= orig.to_multiset());
        }
    }
    proof {
        assert(v@.to_multiset() =~= Multiset::empty());
        assert(out@.to_multiset() =~= orig.to_multiset());
    }
    out
}

/// Every record of `out` is one of the records of `v`.
pub open spec fn drawn_from(v: Seq<Repository>, out: Seq<Repository>) -> bool {
    forall|k: int|
        #![trigger out[k]]
        0 <= k < out.len() ==> exists|j: int|
            #![trigger v[j]]
            0 <= j < v.len() && out[k] == v[j]
}

/// Every record of `v` has a representative of its path in `out` that is
/// no greater than it.
pub open spec fn covers_by_path(v: Seq<Repository>, out: Seq<Repository>) -> bool {
    forall|j: int|
        #![trigger v[j].path]
        0 <= j < v.len() ==> exists|k: int|
            #![trigger out[k].path]
            0 <= k < out.len() && out[k].path@ == v[j].path@ && repo_cmp(&out[k], &v[j]) <= 0
}

/// The dedup loop's shape after `i` records were read: `out` holds one
/// record per distinct path of the read prefix (its least record), with
/// paths strictly increasing; `src` tells where each kept record came from.
pub open spec fn dedup_inv(v: Seq<Repository>, out: Seq<Repository>, i: int, src: Seq<int>)
    -> bool {
    &&& 0 <= i <= v.len()
    &&& src.len() == out.len()
    &&& forall|k: int|
        #![trigger src[k]]
        0 <= k < out.len() ==> 0 <= src[k] < i && out[k] == v[src[k]]
    &&& paths_strictly_sorted(out)
    &&& (i > 0 ==> out.len() > 0 && out[out.len() - 1].path@ == v[i - 1].path@)
    &&& forall|j: int|
        #![trigger v[j].path]
        0 <= j < i ==> exists|k: int|
            #![trigger out[k].path]
            0 <= k < out.len() && out[k].path@ == v[j].path@ && repo_cmp(&out[k], &v[j]) <= 0
}

/// One step of the dedup loop keeps its shape: a record of a new path is
/// kept, a record repeating the last kept path is dropped.
proof fn lemma_dedup_step(
    v: Seq<Repository>,
    out: Seq<Repository>,
    i: int,
    src: Seq<int>,
    keep: bool,
)
    requires
        repos_sorted(v),
        0 <= i < v.len(),
        dedup_inv(v, out, i, src),
        keep <==> (out.len() == 0 || lex_cmp(out[out.len() - 1].path@, v[i].path@) != 0),
    ensures
        keep ==> dedup_inv(v, out.push(v[i]), i + 1, src.push(i)),
        !keep ==> dedup_inv(v, out, i + 1, src),
{
    let cur = v[i];
    if keep {
        let grown = out.push(cur);
        let gsrc = src.push(i);
        assert forall|k: int| 0 <= k < grown.len()
            implies 0 <= #[trigger] gsrc[k] < i + 1 && grown[k] == v[gsrc[k]] by {
            if k < out.len() {
                assert(0 <= src[k] < i && out[k] == v[src[k]]);
            }
        }
        if out.len() > 0 {
            // The previous record's path sorts strictly before the new one.
            assert(out[out.len() - 1].path@ == v[i - 1].path@);
            assert(repo_cmp(&v[i - 1], &v[i]) <= 0);
            crate::order::lemma_lex_cmp_eq(v[i - 1].path@, cur.path@);
            assert(lex_cmp(out[out.len() - 1].path@, cur.path@) < 0);
        }
        assert forall|a: int, b: int| 0 <= a < b < grown.len()
            implies lex_cmp((#[trigger] grown[a]).path@, (#[trigger] grown[b]).path@) < 0 by {
            if b < out.len() {
                assert(lex_cmp(out[a].path@, out[b].path@) < 0);
            } else {
                assert(grown[b] == cur && grown[a] == out[a]);
                if a < out.len() - 1 {
                    crate::order::lemma_lex_cmp_trans(
                        out[a].path@,
                        out[out.len() - 1].path@,
                        cur.path@,
                    );
                }
            }
        }
        lemma_repo_cmp_eq(&cur, &cur);
        assert forall|j: int| 0 <= j < i + 1
            implies exists|k: int|
                #![trigger grown[k].path]
                0 <= k < grown.len() && grown[k].path@ == (#[trigger] v[j].path)@
                    && repo_cmp(&grown[k], &v[j]) <= 0 by {
            if j < i {
                let k = choose|k: int|
                    0 <= k < out.len() && (#[trigger] out[k].path)@ == v[j].path@
                        && repo_cmp(&out[k], &v[j]) <= 0;
                assert(grown[k].path@ == v[j].path@ && repo_cmp(&grown[k], &v[j]) <= 0);
            } else {
                assert(grown[out.len() as int].path@ == v[j].path@);
                assert(repo_cmp(&grown[out.len() as int], &v[j]) <= 0);
            }
        }
    } else {
        let last = out[out.len() - 1];
        crate::order::lemma_lex_cmp_eq(last.path@, cur.path@);
        assert(last.path@ == cur.path@);
        assert(0 <= src[out.len() - 1] < i && out[out.len() - 1] == v[src[out.len() - 1]]);
        assert(repo_cmp(&v[src[out.len() - 1]], &v[i]) <= 0);
        assert forall|j: int| 0 <= j < i + 1
            implies exists|k: int|
                #![trigger out[k].path]
                0 <= k < out.len() && out[k].path@ == (#[trigger] v[j].path)@
                    && repo_cmp(&out[k], &v[j]) <= 0 by {
            if j == i {
                assert(out[out.len() - 1].path@ == v[j].path@
                    && repo_cmp(&out[out.len() - 1], &v[j]) <= 0);
            }
        }
    }
}

/// Keeps, for each path, only the least record of an ordered batch. The
/// result has strictly increasing paths, holds only records of the input,
/// and keeps for every input record a representative of its path that is
/// no greater than it.
pub fn dedup_by_path(v: Vec<Repository>) -> (r: Vec<Repository>)
    requires
        repos_sorted(v@),
    ensures
        paths_strictly_sorted(r@),
        drawn_from(v@, r@),
        covers_by_path(v@, r@),
{
    let mut out: Vec<Repository> = Vec::new();
    let ghost mut src: Seq<int> = Seq::empty();
    let mut i: usize = 0;
    while i < v.len()
        invariant
            repos_sorted(v@),
            i <= v@.len(),
            dedup_inv(v@, out@, i as int, src),
        decreases v@.len() - i,
    {
        let keep: bool = if out.len() == 0 {
            true
        } else {
            let last_idx = out.len() - 1;
            str_compare(out[last_idx].path.as_str(), v[i].path.as_str()) != 0
        };
        proof {
            lemma_dedup_step(v@, out@, i as int, src, keep);
        }
        if keep {
            let x = v[i].clone();
            out.push(x);
            proof {
                src = src.push(i as int);
            }
        }
        i = i + 1;
    }
    proof {
        assert forall|k: int| 0 <= k < out@.len()
            implies exists|j: int|
                #![trigger v@[j]]
                0 <= j < v@.len() && (#[trigger] out@[k]) == v@[j] by {
            assert(0 <= src[k] < v@.len() && out@[k] == v@[src[k]]);
        }
        assert(drawn_from(v@, out@));
        assert(covers_by_path(v@, out@));
    }
    out
}

impl Clone for Repository {
    /// An exact copy of the record.
    fn clone(&self) -> (r: Repository)
        ensures
            r == *self,
    {
        Repository {
            path: self.path.clone(),
            url: self.url.clone(),
            upstream: match &self.upstream {
                Option::Some(s) => Option::Some(s.clone()),
                Option::None => Option::None,
            },
            branch: match &self.branch {
                Option::Some(s) => Option::Some(s.clone()),
                Option::None => Option::None,
            },
        }
    }
}

/// What `switch_to_primary_branch` decides for one repository: keep the
/// current head, refuse because the working tree is dirty, or check out
/// the named primary branch.
pub enum SwitchStep {
    KeepHead,
    Dirty,
    Checkout(String),
}

impl Repository {
    /// The location of the checkout below the workspace root.
    pub fn get_path(&self, root: &str) -> (r: String)
        ensures
            r@ == root@ + seq!['/'] + self.path@,
    {
        let mut s = String::new();
        s.append(root);
        s.append("/");
        proof {
            reveal_strlit("/");
            assert(s@ =~= root@ + seq!['/']);
        }
        s.append(self.path.as_str());
        s
    }

    /// Whether the checkout exists in the workspace: some directory of the
    /// snapshot has this record's path and holds a git checkout.
    pub fn exists_at(&self, snapshot: &Vec<crate::archive::DirEntry>) -> (r: bool)
        ensures
            r == exists_in(snapshot@, self.path@),
    {
        let n = snapshot.len();
        let mut i: usize = 0;
        while i < n
            invariant
                n == snapshot@.len(),
                i <= n,
                forall|j: int|
                    0 <= j < i ==> !((#[trigger] snapshot@[j]).path@ == self.path@
                        && snapshot@[j].has_git),
            decreases n - i,
        {
            if snapshot[i].has_git && snapshot[i].path == self.path {
                proof {
                    assert(snapshot@[i as int].path@ == self.path@ && snapshot@[i as int].has_git);
                }
                return true;
            }
            i = i + 1;
        }
        false
    }

    /// The arguments of the external clone of this repository into the
    /// workspace: a recursive clone of its url with streamed progress.
    pub fn clone_command(&self, root: &str) -> (a: Vec<String>)
        ensures
            a@.len() == 5,
            a@[0]@ == "clone"@,
            a@[1]@ == "--recurse-submodules"@,
            a@[2]@ == "--progress"@,
            a@[3]@ == self.url@,
            a@[4]@ == root@ + seq!['/'] + self.path@,
    {
        let mut a: Vec<String> = Vec::new();
        a.push(String::from_str("clone"));
        a.push(String::from_str("--recurse-submodules"));
        a.push(String::from_str("--progress"));
        a.push(self.url.clone());
        a.push(self.get_path(root));
        a
    }

    /// Whether a secondary remote is declared, so that `set_upstream` has
    /// work to do.
    pub fn needs_upstream(&self) -> (r: bool)
        ensures
            r == (self.upstream is Some),
    {
        match &self.upstream {
            Option::Some(_) => true,
            Option::None => false,
        }
    }

    /// The arguments that remove any existing remote named `upstream` from
    /// this checkout; run first and allowed to fail, since the remote may
    /// not exist.
    pub fn upstream_remove_command(&self, root: &str) -> (a: Vec<String>)
        ensures
            a@.len() == 5,
            a@[0]@ == "-C"@,
            a@[1]@ == root@ + seq!['/'] + self.path@,
            a@[2]@ == "remote"@,
            a@[3]@ == "rm"@,
            a@[4]@ == "upstream"@,
    {
        let mut a: Vec<String> = Vec::new();
        a.push(String::from_str("-C"));
        a.push(self.get_path(root));
        a.push(String::from_str("remote"));
        a.push(String::from_str("rm"));
        a.push(String::from_str("upstream"));
        a
    }

    /// The arguments that add the declared secondary remote under the name
    /// `upstream`; a failure here is a hard error.
    pub fn upstream_add_command(&self, root: &str) -> (a: Vec<String>)
        requires
            self.upstream is Some,
        ensures
            a@.len() == 6,
            a@[0]@ == "-C"@,
            a@[1]@ == root@ + seq!['/'] + self.path@,
            a@[2]@ == "remote"@,
            a@[3]@ == "add"@,
            a@[4]@ == "upstream"@,
            a@[5]@ == self.upstream->0@,
    {
        let mut a: Vec<String> = Vec::new();
        a.push(String::from_str("-C"));
        a.push(self.get_path(root));
        a.push(String::from_str("remote"));
        a.push(String::from_str("add"));
        a.push(String::from_str("upstream"));
        let u = match &self.upstream {
            Option::Some(u) => u.clone(),
            Option::None => unreached(),
        };
        a.push(u);
        a
    }

    /// What switching to the primary branch does, given how many pending
    /// status entries the working tree has: nothing without a declared
    /// branch; a refusal when the tree is dirty, rather than risking data
    /// loss; otherwise a checkout of the declared branch.
    pub fn switch_step(&self, status_count: usize) -> (r: SwitchStep)
        ensures
            self.branch is None ==> r is KeepHead,
            self.branch is Some && status_count > 0 ==> r is Dirty,
            self.branch is Some && status_count == 0 ==> (r matches SwitchStep::Checkout(b)
                && b@ == self.branch->0@),
    {
        match &self.branch {
            Option::None => SwitchStep::KeepHead,
            Option::Some(b) => {
                if status_count > 0 {
                    SwitchStep::Dirty
                } else {
                    SwitchStep::Checkout(b.clone())
                }
            },
        }
    }
}

/// Some directory of the snapshot has this path and holds a git checkout.
pub open spec fn exists_in(snap: Seq<crate::archive::DirEntry>, p: Seq<char>) -> bool {
    exists|i: int|
        0 <= i < snap.len() && (#[trigger] snap[i]).path@ == p && snap[i].has_git
}

} // verus!
