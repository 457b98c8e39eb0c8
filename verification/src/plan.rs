//! What applying a ledger to a store does, stated over plain versions, and
//! the laws that hold of it.

use crate::record::AppliedVersionRecord;
use crate::step::{ints_of, versions_of, MigrationStep};
use vstd::prelude::*;

verus! {

/// A store, as far as a run reads and changes it: the versions that it has
/// applied, and the versions whose statements were committed to it, in the
/// order in which they were. The schema of a store is what its history made
/// it.
pub struct Store {
    pub applied: Set<int>,
    pub history: Seq<int>,
}

/// How a run ended: the store that it left, and the version of the step at
/// which it stopped, if a step failed.
pub struct Outcome {
    pub store: Store,
    pub failed: Option<int>,
}

/// The store after the statement of the step `version` was committed and
/// the version recorded, both at once.
pub open spec fn commit(store: Store, version: int) -> Store {
    Store { applied: store.applied.insert(version), history: store.history.push(version) }
}

/// The index of the first step from `from` on whose version is not applied,
/// or the length of the ledger where every one of them is.
pub open spec fn next_pending(versions: Seq<int>, applied: Set<int>, from: int) -> int
    decreases versions.len() - from,
{
    if 0 <= from < versions.len() {
        if applied.contains(versions[from]) {
            next_pending(versions, applied, from + 1)
        } else {
            from
        }
    } else {
        versions.len() as int
    }
}

/// What a run does from step `from` on, where the store refuses exactly the
/// statements of the steps in `refused`. A step whose version is applied is
/// passed over. The first step that the store refuses ends the run and
/// leaves the store as it was before that step. Every other step is
/// committed.
pub open spec fn run_from(versions: Seq<int>, from: int, store: Store, refused: Set<int>) -> Outcome
    decreases versions.len() - from,
{
    if 0 <= from < versions.len() {
        let version = versions[from];
        if store.applied.contains(version) {
            run_from(versions, from + 1, store, refused)
        } else if refused.contains(version) {
            Outcome { store, failed: Some(version) }
        } else {
            run_from(versions, from + 1, commit(store, version), refused)
        }
    } else {
        Outcome { store, failed: None }
    }
}

/// What applying a whole ledger to a store does.
pub open spec fn run(versions: Seq<int>, store: Store, refused: Set<int>) -> Outcome {
    run_from(versions, 0, store, refused)
}

/// The versions of the steps from `from` up to, not including, `to`.
pub open spec fn versions_between(versions: Seq<int>, from: int, to: int) -> Set<int> {
    Set::new(|v: int| exists|i: int| from <= i < to && 0 <= i < versions.len() && versions[i] == v)
}

/// The next pending step lies between `from` and the end of the ledger;
/// every step between `from` and it is applied, and it is not.
pub proof fn lemma_next_pending(versions: Seq<int>, applied: Set<int>, from: int)
    requires
        0 <= from <= versions.len(),
    ensures
        from <= next_pending(versions, applied, from) <= versions.len(),
        forall|i: int|
            from <= i < next_pending(versions, applied, from) ==> applied.contains(
                #[trigger] versions[i],
            ),
        next_pending(versions, applied, from) < versions.len() ==> !applied.contains(
            versions[next_pending(versions, applied, from)],
        ),
    decreases versions.len() - from,
{
    if from < versions.len() && applied.contains(versions[from]) {
        lemma_next_pending(versions, applied, from + 1);
    }
}

/// A run passes over applied steps: it does from `from` what it does from
/// the next pending step.
pub proof fn lemma_run_from_next_pending(
    versions: Seq<int>,
    from: int,
    store: Store,
    refused: Set<int>,
)
    requires
        0 <= from <= versions.len(),
    ensures
        run_from(versions, from, store, refused) == run_from(
            versions,
            next_pending(versions, store.applied, from),
            store,
            refused,
        ),
    decreases versions.len() - from,
{
    if from < versions.len() && store.applied.contains(versions[from]) {
        lemma_run_from_next_pending(versions, from + 1, store, refused);
    }
}

/// A store only grows under a run: what was applied stays applied, and the
/// history is continued, never rewritten.
pub proof fn lemma_run_grows(versions: Seq<int>, from: int, store: Store, refused: Set<int>)
    requires
        0 <= from <= versions.len(),
    ensures
        store.applied.subset_of(run_from(versions, from, store, refused).store.applied),
        store.history.is_prefix_of(run_from(versions, from, store, refused).store.history),
    decreases versions.len() - from,
{
    if from < versions.len() {
        let version = versions[from];
        if store.applied.contains(version) {
            lemma_run_grows(versions, from + 1, store, refused);
        } else if !refused.contains(version) {
            lemma_run_grows(versions, from + 1, commit(store, version), refused);
        }
    }
}

/// A run that did not fail leaves every step from `from` on applied.
pub proof fn lemma_success_applies_all(
    versions: Seq<int>,
    from: int,
    store: Store,
    refused: Set<int>,
)
    requires
        0 <= from <= versions.len(),
        run_from(versions, from, store, refused).failed is None,
    ensures
        forall|i: int|
            from <= i < versions.len() ==> run_from(
                versions,
                from,
                store,
                refused,
            ).store.applied.contains(#[trigger] versions[i]),
    decreases versions.len() - from,
{
    if from < versions.len() {
        let version = versions[from];
        let next = if store.applied.contains(version) {
            store
        } else {
            commit(store, version)
        };
        lemma_success_applies_all(versions, from + 1, next, refused);
        lemma_run_grows(versions, from + 1, next, refused);
    }
}

/// Where every step from `from` on is applied, a run executes nothing,
/// cannot fail, and leaves the store as it is.
pub proof fn lemma_nothing_pending(versions: Seq<int>, from: int, store: Store, refused: Set<int>)
    requires
        0 <= from <= versions.len(),
        forall|i: int| from <= i < versions.len() ==> store.applied.contains(#[trigger] versions[i]),
    ensures
        run_from(versions, from, store, refused) == (Outcome { store, failed: None }),
    decreases versions.len() - from,
{
    if from < versions.len() {
        lemma_nothing_pending(versions, from + 1, store, refused);
    }
}

/// Applying a ledger is idempotent. Once a ledger has been applied to a
/// store without failure, applying it again executes no statement, cannot
/// fail whatever the store would refuse, and leaves the store, its schema
/// and its applied versions, as the first run left them.
pub proof fn lemma_second_run_changes_nothing(
    versions: Seq<int>,
    store: Store,
    refused: Set<int>,
    refused_later: Set<int>,
)
    requires
        run(versions, store, refused).failed is None,
    ensures
        run(versions, run(versions, store, refused).store, refused_later) == run(
            versions,
            store,
            refused,
        ),
{
    lemma_success_applies_all(versions, 0, store, refused);
    lemma_nothing_pending(versions, 0, run(versions, store, refused).store, refused_later);
}

/// Applying a ledger is idempotent also where it fails, as long as the
/// store refuses the same statements both times: the second run stops at the
/// same step and leaves the store as the first run left it.
pub proof fn lemma_second_run_fails_alike(versions: Seq<int>, store: Store, refused: Set<int>)
    ensures
        run(versions, run(versions, store, refused).store, refused) == run(
            versions,
            store,
            refused,
        ),
{
    lemma_rerun_from(versions, 0, store, refused);
}

/// A run from `from` on the store that a run from `from` left behind ends
/// as that run did.
proof fn lemma_rerun_from(versions: Seq<int>, from: int, store: Store, refused: Set<int>)
    requires
        0 <= from <= versions.len(),
    ensures
        run_from(versions, from, run_from(versions, from, store, refused).store, refused)
            == run_from(versions, from, store, refused),
    decreases versions.len() - from,
{
    if from < versions.len() {
        let version = versions[from];
        if store.applied.contains(version) {
            lemma_rerun_from(versions, from + 1, store, refused);
            lemma_run_grows(versions, from + 1, store, refused);
        } else if !refused.contains(version) {
            lemma_rerun_from(versions, from + 1, commit(store, version), refused);
            lemma_run_grows(versions, from + 1, commit(store, version), refused);
        }
    }
}

/// A run that fails fails at a step from `from` on, one that was not
/// applied and that the store refuses.
pub proof fn lemma_failure_is_a_step(
    versions: Seq<int>,
    from: int,
    store: Store,
    refused: Set<int>,
) -> (k: int)
    requires
        0 <= from <= versions.len(),
        run_from(versions, from, store, refused).failed is Some,
    ensures
        from <= k < versions.len(),
        run_from(versions, from, store, refused).failed == Some(versions[k]),
        refused.contains(versions[k]),
    decreases versions.len() - from,
{
    let version = versions[from];
    if store.applied.contains(version) {
        lemma_failure_is_a_step(versions, from + 1, store, refused)
    } else if refused.contains(version) {
        from
    } else {
        lemma_failure_is_a_step(versions, from + 1, commit(store, version), refused)
    }
}

/// What a run that fails at step `k` leaves behind, for a run from `from`
/// on over versions that do not repeat.
pub proof fn lemma_failure_from(
    versions: Seq<int>,
    from: int,
    store: Store,
    refused: Set<int>,
    k: int,
)
    requires
        versions.no_duplicates(),
        0 <= from <= k < versions.len(),
        run_from(versions, from, store, refused).failed == Some(versions[k]),
    ensures
        run_from(versions, from, store, refused).store.applied == store.applied.union(
            versions_between(versions, from, k),
        ),
        !run_from(versions, from, store, refused).store.applied.contains(versions[k]),
        store.history.is_prefix_of(run_from(versions, from, store, refused).store.history),
        forall|p: int|
            store.history.len() <= p < run_from(versions, from, store, refused).store.history.len()
                ==> versions_between(versions, from, k).contains(
                #[trigger] run_from(versions, from, store, refused).store.history[p],
            ),
    decreases versions.len() - from,
{
    let version = versions[from];
    let end = run_from(versions, from, store, refused).store;
    if store.applied.contains(version) || !refused.contains(version) {
        let next = if store.applied.contains(version) {
            store
        } else {
            commit(store, version)
        };
        assert(run_from(versions, from, store, refused) == run_from(
            versions,
            from + 1,
            next,
            refused,
        ));
        if from == k {
            let m = lemma_failure_is_a_step(versions, from + 1, next, refused);
            assert(versions[m] == versions[k] && m != k);
            assert(false);
        }
        lemma_failure_from(versions, from + 1, next, refused, k);
        assert(versions_between(versions, from, k).contains(version)) by {
            assert(from <= from < k && versions[from] == version);
        }
        assert forall|v: int|
            versions_between(versions, from + 1, k).contains(v) implies versions_between(
            versions,
            from,
            k,
        ).contains(v) by {
            let i = choose|i: int|
                from + 1 <= i < k && 0 <= i < versions.len() && versions[i] == v;
            assert(from <= i < k && versions[i] == v);
        }
        assert forall|v: int|
            versions_between(versions, from, k).contains(v) implies v == version
            || versions_between(versions, from + 1, k).contains(v) by {
            let i = choose|i: int| from <= i < k && 0 <= i < versions.len() && versions[i] == v;
            if i != from {
                assert(from + 1 <= i < k && versions[i] == v);
            }
        }
        assert(end.applied =~= store.applied.union(versions_between(versions, from, k)));
        assert forall|p: int| store.history.len() <= p < end.history.len() implies versions_between(
            versions,
            from,
            k,
        ).contains(#[trigger] end.history[p]) by {
            if p < next.history.len() {
                assert(next.history.is_prefix_of(end.history));
                assert(end.history[p] == next.history[p]);
                assert(end.history[p] == version);
            }
        }
    } else {
        assert(from == k);
        assert(versions_between(versions, from, k) =~= Set::<int>::empty());
        assert(end.applied =~= store.applied.union(versions_between(versions, from, k)));
    }
}

/// A failing step stops the run. Where applying a ledger whose versions do
/// not repeat fails at step `k`: the store refused that step; every step
/// before it is applied; its own version is not; and nothing was executed
/// but steps before it, so that no later step was attempted and the store
/// is left as the last step before `k` left it.
pub proof fn lemma_failed_step_stops_run(
    versions: Seq<int>,
    store: Store,
    refused: Set<int>,
    k: int,
)
    requires
        versions.no_duplicates(),
        0 <= k < versions.len(),
        run(versions, store, refused).failed == Some(versions[k]),
    ensures
        refused.contains(versions[k]),
        forall|i: int|
            0 <= i < k ==> run(versions, store, refused).store.applied.contains(
                #[trigger] versions[i],
            ),
        !run(versions, store, refused).store.applied.contains(versions[k]),
        forall|j: int|
            k < j < versions.len() && !store.applied.contains(versions[j]) ==> !run(
                versions,
                store,
                refused,
            ).store.applied.contains(#[trigger] versions[j]),
        store.history.is_prefix_of(run(versions, store, refused).store.history),
        forall|p: int|
            store.history.len() <= p < run(versions, store, refused).store.history.len()
                ==> versions_between(versions, 0, k).contains(
                #[trigger] run(versions, store, refused).store.history[p],
            ),
{
    let end = run(versions, store, refused).store;
    lemma_failure_from(versions, 0, store, refused, k);
    let m = lemma_failure_is_a_step(versions, 0, store, refused);
    assert(m == k);
    assert forall|i: int| 0 <= i < k implies end.applied.contains(#[trigger] versions[i]) by {
        assert(versions_between(versions, 0, k).contains(versions[i]));
    }
    assert forall|j: int|
        k < j < versions.len() && !store.applied.contains(
            versions[j],
        ) implies !end.applied.contains(#[trigger] versions[j]) by {
        if versions_between(versions, 0, k).contains(versions[j]) {
            let i = choose|i: int| 0 <= i < k && 0 <= i < versions.len() && versions[i] == versions[j];
            assert(i != j);
        }
    }
}

/// The versions of a ledger that are not applied, in ledger order: what a
/// run has to execute.
pub open spec fn pending(versions: Seq<int>, applied: Set<int>) -> Seq<int> {
    versions.filter(|v: int| !applied.contains(v))
}

/// The pending versions of a ledger are decided by its first version and
/// by the rest of it.
proof fn lemma_pending_first(versions: Seq<int>, applied: Set<int>)
    requires
        versions.len() > 0,
    ensures
        pending(versions, applied) == if applied.contains(versions[0]) {
            pending(versions.subrange(1, versions.len() as int), applied)
        } else {
            seq![versions[0]] + pending(versions.subrange(1, versions.len() as int), applied)
        },
{
    let first = seq![versions[0]];
    let rest = versions.subrange(1, versions.len() as int);
    let unapplied = |v: int| !applied.contains(v);
    assert(versions =~= first + rest);
    Seq::filter_distributes_over_add(first, rest, unapplied);
    assert(first.filter(unapplied) =~= if applied.contains(versions[0]) {
        Seq::<int>::empty()
    } else {
        first
    }) by {
        reveal_with_fuel(Seq::filter, 2);
        assert(first.drop_last() =~= Seq::<int>::empty());
    }
    assert(Seq::<int>::empty() + rest.filter(unapplied) =~= rest.filter(unapplied));
}

/// A version that a ledger does not hold makes no difference to what is
/// pending of it.
proof fn lemma_pending_ignores(versions: Seq<int>, applied: Set<int>, version: int)
    requires
        !versions.contains(version),
    ensures
        pending(versions, applied.insert(version)) == pending(versions, applied),
    decreases versions.len(),
{
    reveal(Seq::filter);
    if versions.len() > 0 {
        let front = versions.drop_last();
        assert forall|v: int| front.contains(v) implies versions.contains(v) by {
            let i = choose|i: int| 0 <= i < front.len() && front[i] == v;
            assert(versions[i] == v);
        }
        lemma_pending_ignores(front, applied, version);
        assert(versions[versions.len() - 1] == versions.last());
        assert(versions.contains(versions.last()));
    }
}

/// What a run that does not fail leaves behind, for a run from `from` on
/// over versions that do not repeat.
proof fn lemma_success_from(versions: Seq<int>, from: int, store: Store, refused: Set<int>)
    requires
        versions.no_duplicates(),
        0 <= from <= versions.len(),
        run_from(versions, from, store, refused).failed is None,
    ensures
        run_from(versions, from, store, refused).store.history == store.history + pending(
            versions.subrange(from, versions.len() as int),
            store.applied,
        ),
    decreases versions.len() - from,
{
    let end = run_from(versions, from, store, refused).store;
    let here = versions.subrange(from, versions.len() as int);
    if from < versions.len() {
        let version = versions[from];
        let rest = versions.subrange(from + 1, versions.len() as int);
        assert(here.subrange(1, here.len() as int) =~= rest);
        assert(here[0] == version);
        lemma_pending_first(here, store.applied);
        if store.applied.contains(version) {
            lemma_success_from(versions, from + 1, store, refused);
        } else {
            let next = commit(store, version);
            lemma_success_from(versions, from + 1, next, refused);
            assert(!rest.contains(version)) by {
                if rest.contains(version) {
                    let i = choose|i: int| 0 <= i < rest.len() && rest[i] == version;
                    assert(versions[from + 1 + i] == versions[from]);
                }
            }
            lemma_pending_ignores(rest, store.applied, version);
            assert(end.history =~= store.history + (seq![version] + pending(rest, store.applied)));
        }
    } else {
        assert(here =~= Seq::<int>::empty());
        assert(pending(here, store.applied) =~= Seq::<int>::empty()) by {
            reveal(Seq::filter);
        }
        assert(end.history =~= store.history + Seq::<int>::empty());
    }
}

/// A run executes each pending step once, in ledger order. Where applying
/// a ledger whose versions do not repeat does not fail, the statements that
/// it committed are those of the steps that were not applied, each once and
/// in the order of the ledger; and every step of the ledger is applied in
/// the end.
pub proof fn lemma_run_executes_pending(versions: Seq<int>, store: Store, refused: Set<int>)
    requires
        versions.no_duplicates(),
        run(versions, store, refused).failed is None,
    ensures
        run(versions, store, refused).store.history == store.history + pending(
            versions,
            store.applied,
        ),
        forall|i: int|
            0 <= i < versions.len() ==> run(versions, store, refused).store.applied.contains(
                #[trigger] versions[i],
            ),
{
    lemma_success_from(versions, 0, store, refused);
    lemma_success_applies_all(versions, 0, store, refused);
    assert(versions.subrange(0, versions.len() as int) =~= versions);
}

/// The versions of the steps that a run of the ledger has to execute on a
/// store with the given applied versions, in the order in which it will.
pub fn pending_versions(ledger: &Vec<MigrationStep>, applied: &AppliedVersionRecord) -> (due: Vec<
    i64,
>)
    ensures
        ints_of(due@) == pending(versions_of(ledger@), applied@),
{
    let ghost versions = versions_of(ledger@);
    let mut due: Vec<i64> = Vec::new();
    let mut i: usize = 0;
    proof {
        reveal(Seq::filter);
    }
    while i < ledger.len()
        invariant
            i <= ledger.len(),
            versions == versions_of(ledger@),
            ints_of(due@) == pending(versions.subrange(0, i as int), applied@),
        decreases ledger.len() - i,
    {
        let version = ledger[i].version;
        proof {
            reveal(Seq::filter);
            assert(versions.subrange(0, i + 1).drop_last() =~= versions.subrange(0, i as int));
        }
        if !applied.is_applied(version) {
            due.push(version);
        }
        i += 1;
    }
    assert(versions.subrange(0, i as int) =~= versions);
    due
}

} // verus!
