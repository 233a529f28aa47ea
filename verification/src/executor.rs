//! The batch outcome model of the concurrent executor. Workers run the
//! per-repository operations outside the library and hand back one result
//! per repository; the bookkeeping below says exactly which failures the
//! run reports: every failing repository with its message, in order, and
//! no other, while every repository of the batch is completed.

use vstd::prelude::*;
use crate::repository::Repository;

verus! {

/// What a finished batch reports: how many items ran to an end, and every
/// failure paired with its repository, in the order of the batch.
pub struct BatchOutcome {
    pub completed: usize,
    pub failures: Vec<(Repository, String)>,
}

/// The failures among the first `i` results, each paired with its
/// repository, in batch order.
pub open spec fn failures_of(
    repos: Seq<Repository>,
    results: Seq<Result<(), String>>,
    i: int,
) -> Seq<(Repository, String)>
    decreases i,
{
    if i <= 0 {
        Seq::empty()
    } else if results[i - 1] is Err {
        failures_of(repos, results, i - 1).push((repos[i - 1], results[i - 1]->Err_0))
    } else {
        failures_of(repos, results, i - 1)
    }
}

/// A failing item is reported: its repository and message stand among the
/// collected failures.
pub proof fn lemma_failure_recorded(
    repos: Seq<Repository>,
    results: Seq<Result<(), String>>,
    i: int,
    j: int,
)
    requires
        0 <= j < i <= results.len(),
        results[j] is Err,
    ensures
        exists|k: int|
            0 <= k < failures_of(repos, results, i).len() && #[trigger] failures_of(
                repos,
                results,
                i,
            )[k] == (repos[j], results[j]->Err_0),
    decreases i,
{
    if j == i - 1 {
        assert(failures_of(repos, results, i)[failures_of(repos, results, i - 1).len() as int]
            == (repos[j], results[j]->Err_0));
    } else {
        lemma_failure_recorded(repos, results, i - 1, j);
        let k = choose|k: int|
            0 <= k < failures_of(repos, results, i - 1).len() && #[trigger] failures_of(
                repos,
                results,
                i - 1,
            )[k] == (repos[j], results[j]->Err_0);
        assert(failures_of(repos, results, i)[k] == (repos[j], results[j]->Err_0));
    }
}

/// A batch with no failing item reports no failure.
pub proof fn lemma_no_failures(repos: Seq<Repository>, results: Seq<Result<(), String>>, i: int)
    requires
        0 <= i <= results.len(),
        forall|j: int| 0 <= j < i ==> !(results[j] is Err),
    ensures
        failures_of(repos, results, i).len() == 0,
    decreases i,
{
    if i > 0 {
        lemma_no_failures(repos, results, i - 1);
    }
}

/// Sums up a finished batch: every item completed, and the failures are
/// exactly the failing items, each with its repository and message, in
/// batch order. One item's failure neither stops the batch nor hides
/// another failure.
pub fn map_repositories(repos: &Vec<Repository>, results: &Vec<Result<(), String>>) -> (r:
    BatchOutcome)
    requires
        repos@.len() == results@.len(),
    ensures
        r.completed == repos@.len(),
        r.failures@ == failures_of(repos@, results@, results@.len() as int),
{
    let n = repos.len();
    let mut failures: Vec<(Repository, String)> = Vec::new();
    let mut i: usize = 0;
    while i < n
        invariant
            n == repos@.len(),
            n == results@.len(),
            i <= n,
            failures@ == failures_of(repos@, results@, i as int),
        decreases n - i,
    {
        match &results[i] {
            Result::Err(m) => {
                failures.push((repos[i].clone(), m.clone()));
            },
            Result::Ok(_) => {},
        }
        i = i + 1;
    }
    BatchOutcome { completed: n, failures }
}

} // verus!
