//! The three user-facing operations, as decisions over one snapshot.
//!
//! `run` applies every pending unit in ascending version order; `revert`
//! undoes the single most recently applied unit; `redo` is a revert
//! followed by a run, where a failing revert stops the redo. Both
//! planners refuse to proceed past drift: when the ledger records a
//! version with no local unit, they fail before any store-mutating call
//! is planned, so a drifting command performs none.

use vstd::prelude::*;

use crate::catalog::{units_model, MigrationUnit, UnitModel};
use crate::errors::MigrationError;
use crate::ledger::{has_version, is_most_recent, rows_model, MigrationRow, RowModel};
use crate::reconcile::{catalog_has_version, drift_pred, ensure_migrations_sync, pending_pred,
    pending_units, spec_drift, spec_pending};
use crate::reconcile::most_recent_target;

verus! {

/// Plans a `run`: fails with the drifted rows when catalog and ledger
/// are out of sync, and otherwise returns the pending units, in catalog
/// order, that the command is to apply. On drift nothing is planned, so
/// zero store-mutating calls are performed.
pub fn plan_run(catalog: &Vec<MigrationUnit>, ledger: &Vec<MigrationRow>) -> (r: Result<
    Vec<MigrationUnit>,
    MigrationError,
>)
    ensures
        r is Ok <==> spec_drift(units_model(catalog@), rows_model(ledger@)).len() == 0,
        r matches Ok(p) ==> units_model(p@) == spec_pending(
            units_model(catalog@),
            rows_model(ledger@),
        ),
        r matches Err(e) ==> (e matches MigrationError::Drift { records } && rows_model(records@)
            == spec_drift(units_model(catalog@), rows_model(ledger@))),
{
    match ensure_migrations_sync(catalog, ledger) {
        Ok(()) => Ok(pending_units(catalog, ledger)),
        Err(e) => Err(e),
    }
}

/// Plans a `revert`: fails with the drifted rows when catalog and ledger
/// are out of sync, reports `NothingToRevert` on an empty ledger, and
/// otherwise returns the catalog unit whose version is the most recently
/// applied one — and only that single unit.
pub fn plan_revert(catalog: &Vec<MigrationUnit>, ledger: &Vec<MigrationRow>) -> (r: Result<
    MigrationUnit,
    MigrationError,
>)
    ensures
        r is Ok <==> (spec_drift(units_model(catalog@), rows_model(ledger@)).len() == 0
            && rows_model(ledger@).len() > 0),
        r matches Ok(u) ==> exists|i: int|
            #[trigger] is_most_recent(rows_model(ledger@), i) && u.model().version == rows_model(
                ledger@,
            )[i].version && units_model(catalog@).contains(u.model()),
        r matches Err(e) ==> ((e matches MigrationError::Drift { records } && rows_model(records@)
            == spec_drift(units_model(catalog@), rows_model(ledger@)) && spec_drift(
            units_model(catalog@),
            rows_model(ledger@),
        ).len() > 0) || (e is NothingToRevert && spec_drift(
            units_model(catalog@),
            rows_model(ledger@),
        ).len() == 0 && rows_model(ledger@).len() == 0)),
{
    match ensure_migrations_sync(catalog, ledger) {
        Ok(()) => most_recent_target(catalog, ledger),
        Err(e) => Err(e),
    }
}

/// Every catalog unit is recorded after a completed `run`: appending one
/// row per pending unit, carrying that unit's version, leaves an empty
/// pending set. A second `run` with no local changes therefore applies
/// zero units.
pub proof fn lemma_run_makes_pending_empty(
    c: Seq<UnitModel>,
    l: Seq<RowModel>,
    applied: Seq<RowModel>,
)
    requires
        applied.len() == spec_pending(c, l).len(),
        forall|k: int|
            0 <= k < applied.len() ==> #[trigger] applied[k].version == spec_pending(c, l)[
                k
            ].version,
    ensures
        spec_pending(c, l + applied).len() == 0,
{
    let l2 = l + applied;
    let p = spec_pending(c, l);
    assert forall|i: int| 0 <= i < c.len() implies !(pending_pred(l2)(#[trigger] c[i])) by {
        if !has_version(l, c[i].version) {
            c.lemma_filter_contains(pending_pred(l), i);
            let j = choose|j: int| 0 <= j < p.len() && p[j] == c[i];
            assert(l2[l.len() + j] == applied[j]);
            assert(l2[l.len() + j].version == c[i].version);
        } else {
            let j = choose|j: int| 0 <= j < l.len() && #[trigger] l[j].version == c[i].version;
            assert(l2[j] == l[j]);
        }
    }
    c.lemma_all_neg_filter_empty(pending_pred(l2));
}

} // verus!
