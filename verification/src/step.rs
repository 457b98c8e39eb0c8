//! The steps of a ledger, and what can go wrong with a ledger or a run.

use vstd::prelude::*;

verus! {

/// The way a step moves the schema. Steps only ever move it forward: there is
/// no variant that undoes one.
#[derive(Debug, Clone, Copy, PartialEq, Eq, Structural)]
pub enum Direction {
    Up,
}

/// One versioned unit of schema change.
#[derive(Debug, Clone, PartialEq, Eq)]
pub struct MigrationStep {
    /// Identifies the step; a store remembers a step by this number alone.
    pub version: i64,
    /// A label for diagnostics. It plays no part in identity.
    pub description: String,
    /// The operations that the step runs against the store.
    pub statement: String,
    pub direction: Direction,
}

/// What a step is, as plain mathematical values.
pub struct StepView {
    pub version: int,
    pub description: Seq<char>,
    pub statement: Seq<char>,
}

impl View for MigrationStep {
    type V = StepView;

    open spec fn view(&self) -> StepView {
        StepView {
            version: self.version as int,
            description: self.description@,
            statement: self.statement@,
        }
    }
}

impl MigrationStep {
    /// A forward step with the given version, label and statement.
    pub fn new(version: i64, description: &str, statement: &str) -> (step: MigrationStep)
        ensures
            step.version == version,
            step.description@ == description@,
            step.statement@ == statement@,
            step.direction == Direction::Up,
    {
        MigrationStep {
            version,
            description: String::from_str(description),
            statement: String::from_str(statement),
            direction: Direction::Up,
        }
    }
}

/// Why a ledger was refused, or why a run stopped.
#[derive(Debug, Clone, PartialEq, Eq)]
pub enum MigrationError {
    /// Two steps of the ledger carry the same version.
    DuplicateVersion,
    /// The versions are not positive and strictly increasing.
    OutOfOrder,
    /// Two definitions in the ledger create a table of the same name.
    DuplicateTableDefinition,
    /// The store refused the statement of the step with this version.
    MigrationFailed { version: i64, cause: String },
}

/// The versions of a list as mathematical integers.
pub open spec fn ints_of(versions: Seq<i64>) -> Seq<int> {
    Seq::new(versions.len(), |i: int| versions[i] as int)
}

/// The versions of a ledger, in ledger order.
pub open spec fn versions_of(ledger: Seq<MigrationStep>) -> Seq<int> {
    Seq::new(ledger.len(), |i: int| ledger[i].version as int)
}

} // verus!
