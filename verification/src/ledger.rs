//! Checking a ledger before anything is run from it.

use crate::sql::{defined_tables, table_names, texts};
use crate::step::{versions_of, MigrationError, MigrationStep};
use vstd::prelude::*;
use vstd::utf8::encode_utf8;

verus! {

/// The versions are positive and strictly increasing.
pub open spec fn ascending(versions: Seq<int>) -> bool {
    &&& forall|i: int| 0 <= i < versions.len() ==> versions[i] > 0
    &&& forall|i: int, j: int| 0 <= i < j < versions.len() ==> versions[i] < versions[j]
}

/// The bytes of a step's statement.
pub open spec fn statement_bytes(step: MigrationStep) -> Seq<u8> {
    encode_utf8(step.statement@)
}

/// The names of the tables that the first `n` steps of a ledger define, in
/// the order of the definitions.
pub open spec fn ledger_tables_upto(ledger: Seq<MigrationStep>, n: int) -> Seq<Seq<u8>>
    decreases n,
{
    if n <= 0 {
        Seq::empty()
    } else {
        ledger_tables_upto(ledger, n - 1) + table_names(statement_bytes(ledger[n - 1]))
    }
}

/// The names of the tables that a ledger defines, in the order of the
/// definitions.
pub open spec fn ledger_tables(ledger: Seq<MigrationStep>) -> Seq<Seq<u8>> {
    ledger_tables_upto(ledger, ledger.len() as int)
}

/// What is wrong with a ledger, if anything is. A version that occurs twice
/// comes before every other fault; versions out of order come before a table
/// that is defined twice.
pub open spec fn ledger_fault(ledger: Seq<MigrationStep>) -> Option<MigrationError> {
    if !versions_of(ledger).no_duplicates() {
        Some(MigrationError::DuplicateVersion)
    } else if !ascending(versions_of(ledger)) {
        Some(MigrationError::OutOfOrder)
    } else if !ledger_tables(ledger).no_duplicates() {
        Some(MigrationError::DuplicateTableDefinition)
    } else {
        None
    }
}

/// A ledger that may be applied: nothing is wrong with it.
pub open spec fn valid_ledger(ledger: Seq<MigrationStep>) -> bool {
    ledger_fault(ledger) is None
}

/// Versions that are positive and strictly increasing do not repeat.
pub proof fn lemma_ascending_is_unique(versions: Seq<int>)
    requires
        ascending(versions),
    ensures
        versions.no_duplicates(),
{
    assert forall|i: int, j: int|
        0 <= i < versions.len() && 0 <= j < versions.len() && i != j implies versions[i]
        != versions[j] by {
        if i < j {
            assert(versions[i] < versions[j]);
        } else {
            assert(versions[j] < versions[i]);
        }
    }
}

fn versions_ascend(ledger: &Vec<MigrationStep>) -> (r: bool)
    ensures
        r == ascending(versions_of(ledger@)),
{
    let ghost versions = versions_of(ledger@);
    let mut i: usize = 0;
    while i < ledger.len()
        invariant
            i <= ledger.len(),
            versions == versions_of(ledger@),
            forall|a: int| 0 <= a < i ==> versions[a] > 0,
            forall|a: int, b: int| 0 <= a < b < i ==> versions[a] < versions[b],
        decreases ledger.len() - i,
    {
        if ledger[i].version <= 0 {
            assert(!(versions[i as int] > 0));
            return false;
        }
        if i > 0 && ledger[i - 1].version >= ledger[i].version {
            assert(!(versions[i - 1] < versions[i as int]));
            return false;
        }
        assert forall|a: int, b: int| 0 <= a < b < i + 1 implies versions[a] < versions[b] by {
            if b == i && a < i - 1 {
                assert(versions[a] < versions[i - 1]);
            }
        }
        i += 1;
    }
    true
}

fn versions_repeat(ledger: &Vec<MigrationStep>) -> (r: bool)
    ensures
        r == !versions_of(ledger@).no_duplicates(),
{
    let ghost versions = versions_of(ledger@);
    let mut j: usize = 0;
    while j < ledger.len()
        invariant
            j <= ledger.len(),
            versions == versions_of(ledger@),
            forall|a: int, b: int| 0 <= a < b < j ==> versions[a] != versions[b],
        decreases ledger.len() - j,
    {
        let mut i: usize = 0;
        while i < j
            invariant
                i <= j < ledger.len(),
                versions == versions_of(ledger@),
                forall|a: int| 0 <= a < i ==> versions[a] != versions[j as int],
            decreases j - i,
        {
            if ledger[i].version == ledger[j].version {
                assert(versions[i as int] == versions[j as int]);
                return true;
            }
            i += 1;
        }
        j += 1;
    }
    false
}

fn same_bytes(a: &Vec<u8>, b: &Vec<u8>) -> (r: bool)
    ensures
        r == (a@ == b@),
{
    if a.len() != b.len() {
        return false;
    }
    let mut k: usize = 0;
    while k < a.len()
        invariant
            k <= a.len(),
            a.len() == b.len(),
            forall|m: int| 0 <= m < k ==> a@[m] == b@[m],
        decreases a.len() - k,
    {
        if a[k] != b[k] {
            return false;
        }
        k += 1;
    }
    assert(a@ =~= b@);
    true
}

fn names_repeat(names: &Vec<Vec<u8>>) -> (r: bool)
    ensures
        r == !texts(names@).no_duplicates(),
{
    let ghost all = texts(names@);
    let mut j: usize = 0;
    while j < names.len()
        invariant
            j <= names.len(),
            all == texts(names@),
            forall|a: int, b: int| 0 <= a < b < j ==> all[a] != all[b],
        decreases names.len() - j,
    {
        let mut i: usize = 0;
        while i < j
            invariant
                i <= j < names.len(),
                all == texts(names@),
                forall|a: int| 0 <= a < i ==> all[a] != all[j as int],
            decreases j - i,
        {
            if same_bytes(&names[i], &names[j]) {
                assert(all[i as int] == all[j as int]);
                return true;
            }
            i += 1;
        }
        j += 1;
    }
    false
}

/// The names of the tables that a ledger defines, in the order of the
/// definitions, each with its ASCII capitals turned into small letters.
pub fn defined_table_names(ledger: &Vec<MigrationStep>) -> (names: Vec<Vec<u8>>)
    ensures
        texts(names@) == ledger_tables(ledger@),
{
    let mut names: Vec<Vec<u8>> = Vec::new();
    let mut i: usize = 0;
    while i < ledger.len()
        invariant
            i <= ledger.len(),
            texts(names@) == ledger_tables_upto(ledger@, i as int),
        decreases ledger.len() - i,
    {
        let mut found = defined_tables(ledger[i].statement.as_str().as_bytes());
        names.append(&mut found);
        i += 1;
    }
    names
}

/// Checks a ledger before anything is run from it.
///
/// The ledger is refused with `DuplicateVersion` where a version occurs
/// twice in it; else with `OutOfOrder` where its versions are not positive
/// and strictly increasing; else with `DuplicateTableDefinition` where two
/// of its definitions create a table of the same name. Every other ledger is
/// accepted.
pub fn validate(ledger: &Vec<MigrationStep>) -> (result: Result<(), MigrationError>)
    ensures
        match ledger_fault(ledger@) {
            Some(fault) => result == Err::<(), MigrationError>(fault),
            None => result == Ok::<(), MigrationError>(()),
        },
{
    if !versions_ascend(ledger) {
        if versions_repeat(ledger) {
            return Err(MigrationError::DuplicateVersion);
        }
        return Err(MigrationError::OutOfOrder);
    }
    proof {
        lemma_ascending_is_unique(versions_of(ledger@));
    }
    let names = defined_table_names(ledger);
    if names_repeat(&names) {
        Err(MigrationError::DuplicateTableDefinition)
    } else {
        Ok(())
    }
}

} // verus!
