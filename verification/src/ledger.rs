//! The store-side ledger of applied migrations.
//!
//! Each applied unit leaves one row holding its version and the time it
//! ran. The ledger is a set of rows keyed by version; whenever "the most
//! recently applied" unit is needed, rows are ordered by `ran_at` with
//! ties broken by version.

use vstd::prelude::*;

use crate::version::{lex_le, lemma_lex_le_antisymmetric, lemma_lex_le_refl, lemma_lex_le_total,
    lemma_lex_le_transitive, version_le};

verus! {

/// One row of the ledger table: an applied version and when it ran.
#[derive(Debug)]
pub struct MigrationRow {
    pub version: String,
    pub ran_at: u32,
}

/// The mathematical content of a [`MigrationRow`].
pub struct RowModel {
    pub version: Seq<char>,
    pub ran_at: int,
}

impl MigrationRow {
    /// The row as a pure value.
    pub open spec fn model(&self) -> RowModel {
        RowModel { version: self.version@, ran_at: self.ran_at as int }
    }

    /// An exact copy of the row.
    pub fn duplicate(&self) -> (r: Self)
        ensures
            r.model() == self.model(),
    {
        MigrationRow { version: self.version.clone(), ran_at: self.ran_at }
    }
}

/// The rows of a ledger as pure values.
pub open spec fn rows_model(s: Seq<MigrationRow>) -> Seq<RowModel> {
    s.map_values(|r: MigrationRow| r.model())
}

/// At most one row per version: version is the ledger's primary key.
pub open spec fn ledger_wf(l: Seq<RowModel>) -> bool {
    forall|i: int, j: int|
        0 <= i < l.len() && 0 <= j < l.len() && i != j ==> #[trigger] l[i].version != #[trigger] l[
            j
        ].version
}

/// Some row of `l` carries version `v`.
pub open spec fn has_version(l: Seq<RowModel>, v: Seq<char>) -> bool {
    exists|i: int| 0 <= i < l.len() && #[trigger] l[i].version == v
}

/// Application order on rows: by `ran_at`, ties broken by version.
pub open spec fn rec_le(a: RowModel, b: RowModel) -> bool {
    a.ran_at < b.ran_at || (a.ran_at == b.ran_at && lex_le(a.version, b.version))
}

pub proof fn lemma_rec_le_refl(a: RowModel)
    ensures
        rec_le(a, a),
{
    lemma_lex_le_refl(a.version);
}

pub proof fn lemma_rec_le_total(a: RowModel, b: RowModel)
    ensures
        rec_le(a, b) || rec_le(b, a),
{
    lemma_lex_le_total(a.version, b.version);
}

pub proof fn lemma_rec_le_transitive(a: RowModel, b: RowModel, c: RowModel)
    requires
        rec_le(a, b),
        rec_le(b, c),
    ensures
        rec_le(a, c),
{
    if a.ran_at == b.ran_at && b.ran_at == c.ran_at {
        lemma_lex_le_transitive(a.version, b.version, c.version);
    }
}

/// Row `i` is applied no earlier than every other row.
pub open spec fn is_most_recent(l: Seq<RowModel>, i: int) -> bool {
    &&& 0 <= i < l.len()
    &&& forall|j: int| 0 <= j < l.len() ==> rec_le(#[trigger] l[j], l[i])
}

/// In a well-formed ledger the most recent row is unique.
pub proof fn lemma_most_recent_unique(l: Seq<RowModel>, i: int, j: int)
    requires
        ledger_wf(l),
        is_most_recent(l, i),
        is_most_recent(l, j),
    ensures
        i == j,
{
    if i != j {
        assert(rec_le(l[i], l[j]));
        assert(rec_le(l[j], l[i]));
        lemma_lex_le_antisymmetric(l[i].version, l[j].version);
    }
}

/// Keep every row whose version differs from the reverted one.
pub open spec fn revert_keep_pred(v: Seq<char>) -> spec_fn(RowModel) -> bool {
    |r: RowModel| r.version != v
}

/// The ledger after recording one applied unit: its row is added.
pub open spec fn ledger_after_apply(l: Seq<RowModel>, r: RowModel) -> Seq<RowModel> {
    l.push(r)
}

/// The ledger after reverting version `v`: every row carrying `v` is
/// deleted. Deleting a version with no row is a no-op, not an error.
pub open spec fn ledger_after_revert(l: Seq<RowModel>, v: Seq<char>) -> Seq<RowModel> {
    l.filter(revert_keep_pred(v))
}

/// A filter that keeps every element returns the sequence unchanged.
proof fn lemma_filter_identity<A>(s: Seq<A>, p: spec_fn(A) -> bool)
    requires
        forall|i: int| 0 <= i < s.len() ==> p(#[trigger] s[i]),
    ensures
        s.filter(p) =~= s,
    decreases s.len(),
{
    reveal(Seq::filter);
    if s.len() > 0 {
        let d = s.drop_last();
        assert(forall|i: int| 0 <= i < d.len() ==> p(#[trigger] d[i]));
        lemma_filter_identity(d, p);
        assert(p(s.last()));
    }
}

/// Applying one unit and then reverting it restores the ledger exactly:
/// the fresh row is the unique most recently applied one, and deleting
/// its version removes it and nothing else. This is the round trip of a
/// `run` that applied a single unit followed by a `revert`.
pub proof fn lemma_apply_then_revert_round_trip(l: Seq<RowModel>, row: RowModel)
    requires
        ledger_wf(l),
        !has_version(l, row.version),
        forall|j: int| 0 <= j < l.len() ==> rec_le(#[trigger] l[j], row),
    ensures
        ledger_wf(ledger_after_apply(l, row)),
        is_most_recent(ledger_after_apply(l, row), l.len() as int),
        ledger_after_apply(l, row)[l.len() as int] == row,
        forall|i: int| is_most_recent(ledger_after_apply(l, row), i) ==> i == l.len(),
        ledger_after_revert(ledger_after_apply(l, row), row.version) == l,
{
    let l2 = ledger_after_apply(l, row);
    assert(ledger_wf(l2)) by {
        assert(forall|j: int| 0 <= j < l.len() ==> #[trigger] l2[j] == l[j]);
        assert(l2[l.len() as int] == row);
    }
    assert(is_most_recent(l2, l.len() as int)) by {
        lemma_rec_le_refl(row);
    }
    assert forall|i: int| is_most_recent(l2, i) implies i == l.len() by {
        lemma_most_recent_unique(l2, i, l.len() as int);
    }
    let keep = revert_keep_pred(row.version);
    assert(!keep(row));
    l.lemma_filter_push(row, keep);
    lemma_filter_identity(l, keep);
}

/// A `revert` right after a `run` undoes only the run's last row. When a
/// run appended the rows `applied` — each at least as recent as every
/// row before it — the most recent row of the ledger is the last one
/// appended, and deleting its version leaves the pre-run rows plus all
/// of the run's rows but that last one.
pub proof fn lemma_revert_removes_only_the_last_applied(l: Seq<RowModel>, applied: Seq<RowModel>)
    requires
        applied.len() > 0,
        ledger_wf(l + applied),
        forall|k: int, j: int|
            0 <= k < applied.len() && 0 <= j < l.len() ==> rec_le(
                #[trigger] l[j],
                #[trigger] applied[k],
            ),
        forall|k: int, j: int|
            0 <= j < k < applied.len() ==> rec_le(#[trigger] applied[j], #[trigger] applied[k]),
    ensures
        is_most_recent(l + applied, l.len() + applied.len() - 1),
        ledger_after_revert(l + applied, applied.last().version) == l + applied.drop_last(),
{
    let l2 = l + applied;
    let n = l2.len() as int;
    let last = applied.last();
    assert(l2[n - 1] == last);
    assert(is_most_recent(l2, n - 1)) by {
        assert forall|j: int| 0 <= j < n implies rec_le(#[trigger] l2[j], last) by {
            if j < l.len() {
                assert(l2[j] == l[j]);
            } else if j < n - 1 {
                assert(l2[j] == applied[j - l.len()]);
            } else {
                lemma_rec_le_refl(last);
            }
        }
    }
    let keep = revert_keep_pred(last.version);
    let shorter = l + applied.drop_last();
    assert(l2 =~= shorter.push(last));
    assert(!keep(last));
    shorter.lemma_filter_push(last, keep);
    assert forall|i: int| 0 <= i < shorter.len() implies keep(#[trigger] shorter[i]) by {
        assert(l2[i] == shorter[i]);
        assert(l2[i].version != l2[n - 1].version);
    }
    lemma_filter_identity(shorter, keep);
}

/// Decides the application order on two rows.
fn rec_le_exec(a: &MigrationRow, b: &MigrationRow) -> (r: bool)
    ensures
        r == rec_le(a.model(), b.model()),
{
    if a.ran_at < b.ran_at {
        true
    } else if a.ran_at == b.ran_at {
        version_le(a.version.as_str(), b.version.as_str())
    } else {
        false
    }
}

/// The version of the most recently applied row: the row with the
/// greatest `ran_at`, ties broken by the greatest version. Returns
/// `None` exactly when the ledger is empty ("nothing to revert" is the
/// caller's reported condition, not an error of this function).
pub fn most_recently_applied(ledger: &Vec<MigrationRow>) -> (r: Option<String>)
    ensures
        r is None <==> ledger@.len() == 0,
        r matches Some(v) ==> exists|i: int|
            #[trigger] is_most_recent(rows_model(ledger@), i) && v@ == rows_model(ledger@)[
                i
            ].version,
{
    if ledger.len() == 0 {
        return None;
    }
    let ghost l = rows_model(ledger@);
    let mut best: usize = 0;
    let mut k: usize = 1;
    proof {
        lemma_rec_le_refl(l[0]);
    }
    while k < ledger.len()
        invariant
            ledger@.len() == l.len(),
            l == rows_model(ledger@),
            0 <= best < k <= l.len(),
            forall|j: int| 0 <= j < k ==> rec_le(#[trigger] l[j], l[best as int]),
        decreases ledger@.len() - k,
    {
        if rec_le_exec(&ledger[best], &ledger[k]) {
            proof {
                assert forall|j: int| 0 <= j < k + 1 implies rec_le(#[trigger] l[j], l[k as int]) by {
                    if j < k {
                        lemma_rec_le_transitive(l[j], l[best as int], l[k as int]);
                    } else {
                        lemma_rec_le_refl(l[j]);
                    }
                }
            }
            best = k;
        } else {
            proof {
                lemma_rec_le_total(l[best as int], l[k as int]);
            }
        }
        k = k + 1;
    }
    assert(is_most_recent(l, best as int));
    Some(ledger[best].version.clone())
}

} // verus!
