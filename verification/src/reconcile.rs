//! Reconciliation of the local catalog with the store-side ledger.
//!
//! Everything here is pure: the catalog and the ledger are taken as one
//! consistent snapshot, so the drift check and the pending set are always
//! computed from the same picture of the world and no store call happens
//! in between.

use vstd::prelude::*;
use vstd::seq_lib::*;

use crate::catalog::{catalog_sorted, units_model, MigrationUnit, UnitModel};
use crate::errors::MigrationError;
use crate::ledger::{has_version, is_most_recent, most_recently_applied, rows_model, MigrationRow,
    RowModel};

verus! {

/// Some unit of the catalog carries version `v`.
pub open spec fn catalog_has_version(c: Seq<UnitModel>, v: Seq<char>) -> bool {
    exists|i: int| 0 <= i < c.len() && #[trigger] c[i].version == v
}

/// A unit is pending when no ledger row records its version.
pub open spec fn pending_pred(l: Seq<RowModel>) -> spec_fn(UnitModel) -> bool {
    |u: UnitModel| !has_version(l, u.version)
}

/// The pending set: every catalog unit not recorded as applied, in
/// catalog order.
pub open spec fn spec_pending(c: Seq<UnitModel>, l: Seq<RowModel>) -> Seq<UnitModel> {
    c.filter(pending_pred(l))
}

/// A row has drifted when no catalog unit carries its version.
pub open spec fn drift_pred(c: Seq<UnitModel>) -> spec_fn(RowModel) -> bool {
    |r: RowModel| !catalog_has_version(c, r.version)
}

/// The drifted rows: every ledger record whose version no local unit
/// carries, in ledger order.
pub open spec fn spec_drift(c: Seq<UnitModel>, l: Seq<RowModel>) -> Seq<RowModel> {
    l.filter(drift_pred(c))
}

/// Whether some ledger row carries version `v`.
fn ledger_contains_version(ledger: &Vec<MigrationRow>, v: &String) -> (b: bool)
    ensures
        b == has_version(rows_model(ledger@), v@),
{
    let ghost l = rows_model(ledger@);
    let mut j: usize = 0;
    while j < ledger.len()
        invariant
            l == rows_model(ledger@),
            0 <= j <= l.len(),
            forall|k: int| 0 <= k < j ==> #[trigger] l[k].version != v@,
        decreases l.len() - j,
    {
        if ledger[j].version == *v {
            assert(l[j as int].version == v@);
            return true;
        }
        j = j + 1;
    }
    false
}

/// Whether some catalog unit carries version `v`.
fn catalog_contains_version(catalog: &Vec<MigrationUnit>, v: &String) -> (b: bool)
    ensures
        b == catalog_has_version(units_model(catalog@), v@),
{
    let ghost c = units_model(catalog@);
    let mut j: usize = 0;
    while j < catalog.len()
        invariant
            c == units_model(catalog@),
            0 <= j <= c.len(),
            forall|k: int| 0 <= k < j ==> #[trigger] c[k].version != v@,
        decreases c.len() - j,
    {
        if catalog[j].version == *v {
            assert(c[j as int].version == v@);
            return true;
        }
        j = j + 1;
    }
    false
}

/// The units of the catalog that the ledger does not record as applied,
/// preserving the catalog's ascending order.
pub fn pending_units(catalog: &Vec<MigrationUnit>, ledger: &Vec<MigrationRow>) -> (p: Vec<
    MigrationUnit,
>)
    ensures
        units_model(p@) == spec_pending(units_model(catalog@), rows_model(ledger@)),
{
    let ghost c = units_model(catalog@);
    let ghost l = rows_model(ledger@);
    let mut out: Vec<MigrationUnit> = Vec::new();
    let mut i: usize = 0;
    proof {
        assert(units_model(out@) =~= c.take(0).filter(pending_pred(l)));
    }
    while i < catalog.len()
        invariant
            c == units_model(catalog@),
            l == rows_model(ledger@),
            0 <= i <= c.len(),
            units_model(out@) == c.take(i as int).filter(pending_pred(l)),
        decreases c.len() - i,
    {
        let ghost pre = units_model(out@);
        if !ledger_contains_version(ledger, &catalog[i].version) {
            let u = catalog[i].duplicate();
            assert(pending_pred(l)(c[i as int]));
            out.push(u);
            proof {
                assert(units_model(out@) =~= pre.push(c[i as int]));
            }
        } else {
            assert(!pending_pred(l)(c[i as int]));
        }
        proof {
            c.take(i as int).lemma_filter_push(c[i as int], pending_pred(l));
            assert(c.take(i as int + 1) =~= c.take(i as int).push(c[i as int]));
        }
        i = i + 1;
    }
    proof {
        assert(c.take(c.len() as int) =~= c);
    }
    out
}

/// The ledger rows that no local unit matches, preserving the ledger's
/// order.
pub fn applied_not_in_catalog(catalog: &Vec<MigrationUnit>, ledger: &Vec<MigrationRow>) -> (d: Vec<
    MigrationRow,
>)
    ensures
        rows_model(d@) == spec_drift(units_model(catalog@), rows_model(ledger@)),
{
    let ghost c = units_model(catalog@);
    let ghost l = rows_model(ledger@);
    let mut out: Vec<MigrationRow> = Vec::new();
    let mut i: usize = 0;
    proof {
        assert(rows_model(out@) =~= l.take(0).filter(drift_pred(c)));
    }
    while i < ledger.len()
        invariant
            c == units_model(catalog@),
            l == rows_model(ledger@),
            0 <= i <= l.len(),
            rows_model(out@) == l.take(i as int).filter(drift_pred(c)),
        decreases l.len() - i,
    {
        let ghost pre = rows_model(out@);
        if !catalog_contains_version(catalog, &ledger[i].version) {
            let r = ledger[i].duplicate();
            assert(drift_pred(c)(l[i as int]));
            out.push(r);
            proof {
                assert(rows_model(out@) =~= pre.push(l[i as int]));
            }
        } else {
            assert(!drift_pred(c)(l[i as int]));
        }
        proof {
            l.take(i as int).lemma_filter_push(l[i as int], drift_pred(c));
            assert(l.take(i as int + 1) =~= l.take(i as int).push(l[i as int]));
        }
        i = i + 1;
    }
    proof {
        assert(l.take(l.len() as int) =~= l);
    }
    out
}

/// The drift invariant: fails exactly when some ledger row records a
/// version that no local unit carries, returning those rows; succeeds
/// when catalog and ledger agree.
pub fn ensure_migrations_sync(catalog: &Vec<MigrationUnit>, ledger: &Vec<MigrationRow>) -> (r:
    Result<(), MigrationError>)
    ensures
        r is Ok <==> spec_drift(units_model(catalog@), rows_model(ledger@)).len() == 0,
        r matches Err(e) ==> (e matches MigrationError::Drift { records } && rows_model(records@)
            == spec_drift(units_model(catalog@), rows_model(ledger@))),
{
    let drifted = applied_not_in_catalog(catalog, ledger);
    if drifted.len() == 0 {
        assert(rows_model(drifted@).len() == 0);
        Ok(())
    } else {
        assert(rows_model(drifted@).len() != 0);
        Err(MigrationError::Drift { records: drifted })
    }
}

/// The unit a `revert` targets: the catalog unit carrying the most
/// recently applied version. Takes a drift-free snapshot — under drift
/// no revert may proceed, and the caller must have refused it already.
/// Reports `NothingToRevert` exactly when the ledger is empty.
pub fn most_recent_target(catalog: &Vec<MigrationUnit>, ledger: &Vec<MigrationRow>) -> (r: Result<
    MigrationUnit,
    MigrationError,
>)
    requires
        spec_drift(units_model(catalog@), rows_model(ledger@)).len() == 0,
    ensures
        r is Ok <==> rows_model(ledger@).len() > 0,
        r matches Ok(u) ==> exists|i: int|
            #[trigger] is_most_recent(rows_model(ledger@), i) && u.model().version == rows_model(
                ledger@,
            )[i].version && units_model(catalog@).contains(u.model()),
        r matches Err(e) ==> e is NothingToRevert && rows_model(ledger@).len() == 0,
{
    let ghost c = units_model(catalog@);
    let ghost l = rows_model(ledger@);
    match most_recently_applied(ledger) {
        None => Err(MigrationError::NothingToRevert),
        Some(v) => {
            proof {
                let i = choose|i: int| #[trigger] is_most_recent(l, i) && v@ == l[i].version;
                if drift_pred(c)(l[i]) {
                    l.lemma_filter_contains(drift_pred(c), i);
                }
                assert(catalog_has_version(c, v@));
            }
            let mut k: usize = 0;
            while k < catalog.len()
                invariant
                    c == units_model(catalog@),
                    l == rows_model(ledger@),
                    0 <= k <= c.len(),
                    catalog_has_version(c, v@),
                    exists|i: int| #[trigger] is_most_recent(l, i) && v@ == l[i].version,
                    forall|m: int| 0 <= m < k ==> #[trigger] c[m].version != v@,
                decreases c.len() - k,
            {
                if catalog[k].version == v {
                    let u = catalog[k].duplicate();
                    proof {
                        assert(c[k as int] == u.model());
                        assert(c.contains(u.model()));
                    }
                    return Ok(u);
                }
                k = k + 1;
            }
            proof {
                let kk = choose|kk: int| 0 <= kk < c.len() && #[trigger] c[kk].version == v@;
                assert(false);
            }
            vstd::pervasive::unreached()
        },
    }
}

/// Every unit of the pending set is a catalog unit that the ledger does
/// not record, and every such unit is in the pending set; when the
/// catalog is sorted the pending set is sorted the same way.
pub proof fn lemma_pending_units_exact(c: Seq<UnitModel>, l: Seq<RowModel>)
    ensures
        forall|u: UnitModel|
            #[trigger] spec_pending(c, l).contains(u) <==> (c.contains(u) && !has_version(
                l,
                u.version,
            )),
        catalog_sorted(c) ==> catalog_sorted(spec_pending(c, l)),
{
    let p = spec_pending(c, l);
    assert forall|u: UnitModel| #[trigger] p.contains(u) implies c.contains(u) && !has_version(
        l,
        u.version,
    ) by {
        c.lemma_filter_contains_rev(pending_pred(l), u);
        let i = choose|i: int| 0 <= i < p.len() && p[i] == u;
        c.lemma_filter_pred(pending_pred(l), i);
    }
    assert forall|u: UnitModel| c.contains(u) && !has_version(l, u.version) implies #[trigger] p
        .contains(u) by {
        let i = choose|i: int| 0 <= i < c.len() && c[i] == u;
        assert(pending_pred(l)(c[i]));
        c.lemma_filter_contains(pending_pred(l), i);
    }
    if catalog_sorted(c) {
        lemma_filter_preserves_sorted(c, pending_pred(l));
    }
}

/// Filtering a version-sorted sequence of units keeps it sorted.
proof fn lemma_filter_preserves_sorted(c: Seq<UnitModel>, pred: spec_fn(UnitModel) -> bool)
    requires
        catalog_sorted(c),
    ensures
        catalog_sorted(c.filter(pred)),
    decreases c.len(),
{
    reveal(Seq::filter);
    if c.len() > 0 {
        let d = c.drop_last();
        assert(catalog_sorted(d)) by {
            assert(forall|i: int| 0 <= i < d.len() ==> #[trigger] d[i] == c[i]);
        }
        lemma_filter_preserves_sorted(d, pred);
        if pred(c.last()) {
            let f = c.filter(pred);
            assert(f =~= d.filter(pred).push(c.last()));
            assert forall|i1: int, i2: int|
                #![trigger f[i1], f[i2]]
                0 <= i1 < i2 < f.len() implies crate::version::lex_le(
                f[i1].version,
                f[i2].version,
            ) by {
                if i2 == f.len() - 1 {
                    let u = f[i1];
                    assert(d.filter(pred)[i1] == u);
                    assert(d.filter(pred).contains(u));
                    d.lemma_filter_contains_rev(pred, u);
                    let k = choose|k: int| 0 <= k < d.len() && d[k] == u;
                    assert(c[k] == u);
                    assert(c[c.len() - 1] == c.last());
                } else {
                    assert(d.filter(pred)[i1] == f[i1]);
                    assert(d.filter(pred)[i2] == f[i2]);
                }
            }
        }
    }
}

} // verus!
