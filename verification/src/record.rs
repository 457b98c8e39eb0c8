//! The versions that a store has applied.

use crate::step::ints_of;
use vstd::prelude::*;

verus! {

/// The versions that a store has applied, as the runner knows them. A
/// record starts empty and only ever grows: there is no way to take a
/// version out of it.
#[derive(Debug)]
pub struct AppliedVersionRecord {
    versions: Vec<i64>,
}

impl View for AppliedVersionRecord {
    type V = Set<int>;

    closed spec fn view(&self) -> Set<int> {
        ints_of(self.versions@).to_set()
    }
}

impl Clone for AppliedVersionRecord {
    fn clone(&self) -> (copy: AppliedVersionRecord)
        ensures
            copy@ == self@,
    {
        AppliedVersionRecord { versions: self.versions() }
    }
}

impl AppliedVersionRecord {
    /// No version is held twice.
    #[verifier::type_invariant]
    spec fn unique(self) -> bool {
        self.versions@.no_duplicates()
    }

    /// The record of a fresh store: no version is applied.
    pub fn new() -> (record: AppliedVersionRecord)
        ensures
            record@ == Set::<int>::empty(),
    {
        let record = AppliedVersionRecord { versions: Vec::new() };
        assert(record@ =~= Set::<int>::empty());
        record
    }

    /// The record that holds exactly the given versions.
    pub fn from_versions(versions: &Vec<i64>) -> (record: AppliedVersionRecord)
        ensures
            record@ == ints_of(versions@).to_set(),
    {
        let mut record = AppliedVersionRecord::new();
        let mut i: usize = 0;
        while i < versions.len()
            invariant
                i <= versions.len(),
                record@ == ints_of(versions@.subrange(0, i as int)).to_set(),
            decreases versions.len() - i,
        {
            record.record_applied(versions[i]);
            proof {
                let before = ints_of(versions@.subrange(0, i as int));
                let after = ints_of(versions@.subrange(0, i + 1));
                assert(after =~= before.push(versions@[i as int] as int));
                lemma_push_to_set(before, versions@[i as int] as int);
            }
            i += 1;
        }
        assert(versions@.subrange(0, i as int) =~= versions@);
        record
    }

    /// Whether the version is applied.
    pub fn is_applied(&self, version: i64) -> (applied: bool)
        ensures
            applied == self@.contains(version as int),
    {
        let mut i: usize = 0;
        while i < self.versions.len()
            invariant
                i <= self.versions@.len(),
                forall|k: int| 0 <= k < i ==> self.versions@[k] != version,
            decreases self.versions.len() - i,
        {
            if self.versions[i] == version {
                assert(ints_of(self.versions@)[i as int] == version as int);
                return true;
            }
            i += 1;
        }
        false
    }

    /// Notes the version as applied. Every version that was applied before
    /// stays applied.
    pub fn record_applied(&mut self, version: i64)
        ensures
            final(self)@ == old(self)@.insert(version as int),
    {
        proof {
            use_type_invariant(&*self);
        }
        if !self.is_applied(version) {
            let ghost before = self.versions@;
            let mut versions: Vec<i64> = Vec::new();
            core::mem::swap(&mut self.versions, &mut versions);
            versions.push(version);
            proof {
                assert forall|k: int| 0 <= k < before.len() implies before[k] != version by {
                    assert(ints_of(before)[k] == before[k] as int);
                }
                assert(versions@.no_duplicates());
                assert(ints_of(versions@) =~= ints_of(before).push(version as int));
                lemma_push_to_set(ints_of(before), version as int);
            }
            core::mem::swap(&mut self.versions, &mut versions);
        } else {
            assert(self@ =~= old(self)@.insert(version as int));
        }
    }

    /// The applied versions, each once, in no particular order.
    pub fn versions(&self) -> (versions: Vec<i64>)
        ensures
            versions@.no_duplicates(),
            ints_of(versions@).to_set() == self@,
    {
        proof {
            use_type_invariant(self);
        }
        let mut out: Vec<i64> = Vec::new();
        let mut i: usize = 0;
        while i < self.versions.len()
            invariant
                i <= self.versions@.len(),
                out@ == self.versions@.subrange(0, i as int),
            decreases self.versions.len() - i,
        {
            out.push(self.versions[i]);
            i += 1;
        }
        assert(out@ =~= self.versions@);
        out
    }
}

/// The set of what a sequence holds gains the value that is pushed to the
/// sequence, and nothing else.
proof fn lemma_push_to_set(s: Seq<int>, v: int)
    ensures
        s.push(v).to_set() == s.to_set().insert(v),
{
    assert forall|x: int| s.push(v).to_set().contains(x) <==> s.to_set().insert(v).contains(
        x,
    ) by {
        if s.push(v).contains(x) {
            let k = choose|k: int| 0 <= k < s.push(v).len() && s.push(v)[k] == x;
            if k < s.len() {
                assert(s[k] == x);
            }
        }
        if s.contains(x) {
            let k = choose|k: int| 0 <= k < s.len() && s[k] == x;
            assert(s.push(v)[k] == x);
        }
        if x == v {
            assert(s.push(v)[s.len() as int] == v);
        }
    }
    assert(s.push(v).to_set() =~= s.to_set().insert(v));
}

} // verus!
