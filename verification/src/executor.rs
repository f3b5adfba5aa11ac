//! Execution plans for a single migration unit.
//!
//! Running a unit forward means executing each statement of its up body
//! in source order against the store and then inserting its ledger row;
//! reverting means executing each statement of its down body and then
//! deleting its ledger row. The ledger write always comes last: a row is
//! present only for units whose SQL ran to completion. The plan is
//! executed fail-fast: at the first failing action nothing further runs,
//! already-executed statements are not rolled back, and the failure is
//! classified by which action failed.

use vstd::prelude::*;

use crate::catalog::MigrationUnit;
use crate::errors::{ExecError, StoreError};
use crate::ledger::{MigrationRow, RowModel};
use crate::statements::{spec_statements, split_statements, strings_model};

verus! {

/// One call against the store.
#[derive(Debug)]
pub enum StoreAction {
    /// Run one SQL statement of a unit's body.
    Execute { statement: String },
    /// Insert the row recording a unit as applied.
    Insert { row: MigrationRow },
    /// Delete the row of a reverted version.
    Delete { version: String },
}

/// The mathematical content of a [`StoreAction`].
pub enum ActionModel {
    Execute { statement: Seq<char> },
    Insert { row: RowModel },
    Delete { version: Seq<char> },
}

impl StoreAction {
    /// The action as a pure value.
    pub open spec fn model(&self) -> ActionModel {
        match self {
            StoreAction::Execute { statement } => ActionModel::Execute { statement: statement@ },
            StoreAction::Insert { row } => ActionModel::Insert { row: row.model() },
            StoreAction::Delete { version } => ActionModel::Delete { version: version@ },
        }
    }

    /// The failure reported when this action is the first to fail:
    /// a failing statement means the unit's SQL failed and nothing was
    /// recorded; a failing ledger write means the SQL already succeeded.
    pub fn failure(&self, version: &String, cause: StoreError) -> (e: ExecError)
        ensures
            self is Execute ==> (e matches ExecError::Apply { version: v, cause: c } && v@
                == version@ && c == cause),
            !(self is Execute) ==> (e matches ExecError::LedgerWriteFailed { version: v, cause: c }
                && v@ == version@ && c == cause),
    {
        match self {
            StoreAction::Execute { .. } => ExecError::Apply { version: version.clone(), cause },
            _ => ExecError::LedgerWriteFailed { version: version.clone(), cause },
        }
    }
}

/// The actions of a plan as pure values.
pub open spec fn actions_model(s: Seq<StoreAction>) -> Seq<ActionModel> {
    s.map_values(|a: StoreAction| a.model())
}

/// The plan that applies one unit: its up-body statements in source
/// order, then the ledger insert recording the unit.
pub open spec fn spec_apply_plan(version: Seq<char>, body: Seq<char>, ran_at: int) -> Seq<
    ActionModel,
> {
    spec_statements(body).map_values(|t: Seq<char>| ActionModel::Execute { statement: t }).push(
        ActionModel::Insert { row: RowModel { version, ran_at } },
    )
}

/// The plan that reverts one unit: its down-body statements in source
/// order, then the ledger delete committing the revert.
pub open spec fn spec_revert_plan(version: Seq<char>, body: Seq<char>) -> Seq<ActionModel> {
    spec_statements(body).map_values(|t: Seq<char>| ActionModel::Execute { statement: t }).push(
        ActionModel::Delete { version },
    )
}

/// The store calls that apply `unit` forward, given its up body and the
/// application time to record.
pub fn apply_unit_plan(unit: &MigrationUnit, body: &str, ran_at: u32) -> (p: Vec<StoreAction>)
    ensures
        actions_model(p@) == spec_apply_plan(unit.model().version, body@, ran_at as int),
{
    let stmts = split_statements(body);
    let ghost sm = strings_model(stmts@);
    let mut out: Vec<StoreAction> = Vec::new();
    let mut i: usize = 0;
    while i < stmts.len()
        invariant
            sm == spec_statements(body@),
            stmts@.len() == sm.len(),
            forall|k: int| 0 <= k < sm.len() ==> #[trigger] stmts@[k]@ == sm[k],
            out@.len() == i,
            0 <= i <= sm.len(),
            forall|k: int|
                0 <= k < i ==> #[trigger] out@[k].model() == (ActionModel::Execute {
                    statement: sm[k],
                }),
        decreases sm.len() - i,
    {
        out.push(StoreAction::Execute { statement: stmts[i].clone() });
        i = i + 1;
    }
    out.push(
        StoreAction::Insert {
            row: MigrationRow { version: unit.version.clone(), ran_at },
        },
    );
    proof {
        assert(actions_model(out@) =~= spec_apply_plan(unit.model().version, body@, ran_at as int));
    }
    out
}

/// The store calls that revert `unit`, given its down body.
pub fn revert_unit_plan(unit: &MigrationUnit, body: &str) -> (p: Vec<StoreAction>)
    ensures
        actions_model(p@) == spec_revert_plan(unit.model().version, body@),
{
    let stmts = split_statements(body);
    let ghost sm = strings_model(stmts@);
    let mut out: Vec<StoreAction> = Vec::new();
    let mut i: usize = 0;
    while i < stmts.len()
        invariant
            sm == spec_statements(body@),
            stmts@.len() == sm.len(),
            forall|k: int| 0 <= k < sm.len() ==> #[trigger] stmts@[k]@ == sm[k],
            out@.len() == i,
            0 <= i <= sm.len(),
            forall|k: int|
                0 <= k < i ==> #[trigger] out@[k].model() == (ActionModel::Execute {
                    statement: sm[k],
                }),
        decreases sm.len() - i,
    {
        out.push(StoreAction::Execute { statement: stmts[i].clone() });
        i = i + 1;
    }
    out.push(StoreAction::Delete { version: unit.version.clone() });
    proof {
        assert(actions_model(out@) =~= spec_revert_plan(unit.model().version, body@));
    }
    out
}

} // verus!
