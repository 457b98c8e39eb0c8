//! The run of a ledger against a store, one step at a time.

use crate::ledger::{ledger_fault, valid_ledger, validate};
use crate::plan::{
    commit, lemma_next_pending, lemma_run_from_next_pending, next_pending, run, run_from, Outcome,
    Store,
};
use crate::record::AppliedVersionRecord;
use crate::step::{ints_of, versions_of, MigrationError, MigrationStep};
use vstd::prelude::*;

verus! {

/// The state of one run of a ledger against a store.
///
/// The runner decides; it does not touch the store. Whoever holds the store
/// asks for the pending step, executes its statement and records its version
/// in one transaction, and tells the runner how that went. The runner then
/// moves to the next step whose version is not applied, or stops.
#[derive(Debug)]
pub struct Runner {
    ledger: Vec<MigrationStep>,
    applied: AppliedVersionRecord,
    executed: Vec<i64>,
    cursor: usize,
    failure: Option<String>,
}

impl Runner {
    /// The ledger that is being applied.
    pub closed spec fn ledger(&self) -> Seq<MigrationStep> {
        self.ledger@
    }

    /// The store as the run has left it so far: the versions that are
    /// applied, and the versions that this run has committed, in order.
    pub closed spec fn store(&self) -> Store {
        Store { applied: self.applied@, history: ints_of(self.executed@) }
    }

    /// The index of the step that the run has reached, or the length of the
    /// ledger where no step is left.
    pub closed spec fn position(&self) -> int {
        self.cursor as int
    }

    /// The cause that the store gave when it refused the step that the run
    /// has reached, if it did.
    pub closed spec fn failure(&self) -> Option<Seq<char>> {
        match self.failure {
            Some(cause) => Some(cause@),
            None => None,
        }
    }

    /// The versions of the ledger.
    pub open spec fn versions(&self) -> Seq<int> {
        versions_of(self.ledger())
    }

    /// A step waits to be executed: none has failed, and one is left.
    pub open spec fn awaiting(&self) -> bool {
        self.failure() is None && self.position() < self.ledger().len()
    }

    /// What holds of a runner at all times. Its ledger is valid. Every step
    /// before the one that it has reached is applied, and that one is not:
    /// it waits, or it has failed.
    pub open spec fn settled(&self) -> bool {
        &&& valid_ledger(self.ledger())
        &&& 0 <= self.position() <= self.ledger().len()
        &&& forall|i: int|
            0 <= i < self.position() ==> self.store().applied.contains(#[trigger] self.versions()[i])
        &&& self.position() < self.ledger().len() ==> !self.store().applied.contains(
            self.versions()[self.position()],
        )
        &&& self.failure() is Some ==> self.position() < self.ledger().len()
    }

    /// How the run ends where the store refuses exactly the statements of
    /// the steps in `refused` from now on.
    pub open spec fn projected(&self, refused: Set<int>) -> Outcome {
        if self.failure() is Some {
            Outcome { store: self.store(), failed: Some(self.versions()[self.position()]) }
        } else {
            run_from(self.versions(), self.position(), self.store(), refused)
        }
    }

    #[verifier::type_invariant]
    spec fn well_formed(self) -> bool {
        self.settled()
    }

    /// Begins a run of `ledger` against a store whose applied versions are
    /// `applied`.
    ///
    /// The ledger is checked first. A ledger with a fault is refused with
    /// that fault, and no runner exists that could have a statement of it
    /// executed. For a valid ledger the run starts at the first step whose
    /// version is not applied.
    pub fn start(ledger: Vec<MigrationStep>, applied: AppliedVersionRecord) -> (result: Result<
        Runner,
        MigrationError,
    >)
        ensures
            match result {
                Ok(runner) => {
                    &&& valid_ledger(ledger@)
                    &&& runner.settled()
                    &&& runner.ledger() == ledger@
                    &&& runner.store() == (Store { applied: applied@, history: Seq::empty() })
                    &&& runner.failure() is None
                    &&& runner.position() == next_pending(versions_of(ledger@), applied@, 0)
                    &&& forall|refused: Set<int>| #[trigger]
                        runner.projected(refused) == run(
                            versions_of(ledger@),
                            runner.store(),
                            refused,
                        )
                },
                Err(fault) => ledger_fault(ledger@) == Some(fault),
            },
    {
        match validate(&ledger) {
            Err(fault) => {
                return Err(fault);
            },
            Ok(_) => {},
        }
        let cursor = seek_pending(&ledger, &applied, 0);
        proof {
            lemma_next_pending(versions_of(ledger@), applied@, 0);
        }
        let runner = Runner { ledger, applied, executed: Vec::new(), cursor, failure: None };
        proof {
            assert(runner.store().history =~= Seq::<int>::empty());
            assert forall|refused: Set<int>| #[trigger]
                runner.projected(refused) == run(
                    versions_of(ledger@),
                    runner.store(),
                    refused,
                ) by {
                lemma_run_from_next_pending(versions_of(ledger@), 0, runner.store(), refused);
            }
        }
        Ok(runner)
    }

    /// The step to execute now, if the run has not ended.
    pub fn pending(&self) -> (step: Option<&MigrationStep>)
        ensures
            self.settled(),
            match step {
                Some(step) => self.awaiting() && *step == self.ledger()[self.position()],
                None => !self.awaiting(),
            },
    {
        proof {
            use_type_invariant(self);
        }
        if self.failure.is_some() || self.cursor >= self.ledger.len() {
            None
        } else {
            Some(&self.ledger[self.cursor])
        }
    }

    /// The store has committed the pending step: its statement and the
    /// record of its version, both or neither.
    ///
    /// The version is now applied, and the run moves to the next step whose
    /// version is not. Where no step was pending, nothing changes.
    pub fn committed(self) -> (next: Runner)
        ensures
            next.settled(),
            next.ledger() == self.ledger(),
            next.failure() == self.failure(),
            self.awaiting() ==> next.store() == commit(
                self.store(),
                self.versions()[self.position()],
            ),
            self.awaiting() ==> next.position() == next_pending(
                self.versions(),
                next.store().applied,
                self.position() + 1,
            ),
            !self.awaiting() ==> next.store() == self.store() && next.position()
                == self.position(),
            forall|refused: Set<int>|
                !(self.awaiting() && refused.contains(self.versions()[self.position()]))
                    ==> #[trigger] next.projected(refused) == self.projected(refused),
    {
        proof {
            use_type_invariant(&self);
        }
        if self.failure.is_some() || self.cursor >= self.ledger.len() {
            return self;
        }
        let ghost before = self;
        let Runner { ledger, applied, executed, cursor, failure } = self;
        let mut applied = applied;
        let mut executed = executed;
        let version = ledger[cursor].version;
        applied.record_applied(version);
        executed.push(version);
        let reached = seek_pending(&ledger, &applied, cursor + 1);
        proof {
            let versions = versions_of(ledger@);
            lemma_next_pending(versions, applied@, cursor + 1);
            assert forall|i: int| 0 <= i < reached implies applied@.contains(
                #[trigger] versions[i],
            ) by {
                if i < cursor {
                    assert(before.store().applied.contains(before.versions()[i]));
                }
            }
        }
        let next = Runner { ledger, applied, executed, cursor: reached, failure };
        proof {
            let versions = before.versions();
            assert(next.store().history =~= before.store().history.push(version as int));
            assert(next.store() == commit(before.store(), versions[cursor as int]));
            assert forall|refused: Set<int>|
                !refused.contains(versions[cursor as int]) implies #[trigger] next.projected(
                refused,
            ) == before.projected(refused) by {
                lemma_run_from_next_pending(versions, cursor + 1, next.store(), refused);
            }
        }
        next
    }

    /// The store has refused the pending step and rolled it back, for the
    /// given cause.
    ///
    /// The run ends here: no step is pending any more, the version of the
    /// refused step is not applied, and the store is as the last committed
    /// step left it. Where no step was pending, nothing changes.
    pub fn failed(self, cause: String) -> (next: Runner)
        ensures
            next.settled(),
            next.ledger() == self.ledger(),
            next.store() == self.store(),
            next.position() == self.position(),
            !next.awaiting(),
            self.awaiting() ==> next.failure() == Some(cause@),
            !self.awaiting() ==> next.failure() == self.failure(),
            forall|refused: Set<int>|
                !(self.awaiting() && !refused.contains(self.versions()[self.position()]))
                    ==> #[trigger] next.projected(refused) == self.projected(refused),
    {
        proof {
            use_type_invariant(&self);
        }
        if self.failure.is_some() || self.cursor >= self.ledger.len() {
            return self;
        }
        let Runner { ledger, applied, executed, cursor, failure } = self;
        Runner { ledger, applied, executed, cursor, failure: Some(cause) }
    }

    /// How the run has ended, if it has: without failure once every step of
    /// the ledger is applied, or with the failure of the step that the store
    /// refused.
    pub fn outcome(&self) -> (outcome: Option<Result<(), MigrationError>>)
        ensures
            self.settled(),
            self.awaiting() ==> outcome is None,
            self.failure() is None && self.position() == self.ledger().len() ==> outcome == Some(
                Ok::<(), MigrationError>(()),
            ),
            self.failure() is Some ==> {
                &&& outcome matches Some(Err(MigrationError::MigrationFailed { version, cause }))
                &&& version as int == self.versions()[self.position()]
                &&& Some(cause@) == self.failure()
            },
    {
        proof {
            use_type_invariant(self);
        }
        match &self.failure {
            Some(cause) => Some(
                Err(
                    MigrationError::MigrationFailed {
                        version: self.ledger[self.cursor].version,
                        cause: cause.clone(),
                    },
                ),
            ),
            None => {
                if self.cursor >= self.ledger.len() {
                    Some(Ok(()))
                } else {
                    None
                }
            },
        }
    }

    /// The versions that are applied, as the run has left them so far.
    pub fn applied(&self) -> (applied: &AppliedVersionRecord)
        ensures
            applied@ == self.store().applied,
    {
        &self.applied
    }

    /// The versions of the steps that this run has committed, in the order
    /// in which it did.
    pub fn executed(&self) -> (executed: &Vec<i64>)
        ensures
            ints_of(executed@) == self.store().history,
    {
        &self.executed
    }
}

fn seek_pending(ledger: &Vec<MigrationStep>, applied: &AppliedVersionRecord, from: usize) -> (r:
    usize)
    requires
        from <= ledger.len(),
    ensures
        r == next_pending(versions_of(ledger@), applied@, from as int),
        from <= r <= ledger.len(),
{
    let mut i: usize = from;
    while i < ledger.len() && applied.is_applied(ledger[i].version)
        invariant
            from <= i <= ledger.len(),
            next_pending(versions_of(ledger@), applied@, i as int) == next_pending(
                versions_of(ledger@),
                applied@,
                from as int,
            ),
        decreases ledger.len() - i,
    {
        i += 1;
    }
    i
}

} // verus!
