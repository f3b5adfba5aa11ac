//! The local catalog of migration units.
//!
//! Units are authored on disk, one directory per unit, named
//! `<version>_<name>`. Loading a catalog parses each entry's name,
//! rejects malformed entries outright, and sorts the units ascending by
//! version so that application order is independent of scan order.

use vstd::prelude::*;
use vstd::seq_lib::*;

use crate::errors::MigrationError;
use crate::version::{check_version, is_digit, lemma_lex_le_antisymmetric, lemma_lex_le_refl,
    lemma_lex_le_total, lemma_lex_le_transitive, lex_le, valid_version, version_le};

verus! {

/// One versioned, reversible migration unit. The SQL bodies live in the
/// unit's directory (`up.sql` and `down.sql`) and are read only when the
/// unit is executed, never at load time.
#[derive(Debug)]
pub struct MigrationUnit {
    pub version: String,
    pub name: String,
}

/// The mathematical content of a [`MigrationUnit`].
pub struct UnitModel {
    pub version: Seq<char>,
    pub name: Seq<char>,
}

impl MigrationUnit {
    /// The unit as a pure value.
    pub open spec fn model(&self) -> UnitModel {
        UnitModel { version: self.version@, name: self.name@ }
    }

    /// An exact copy of the unit.
    pub fn duplicate(&self) -> (r: Self)
        ensures
            r.model() == self.model(),
    {
        MigrationUnit { version: self.version.clone(), name: self.name.clone() }
    }

    /// The directory name the unit lives under: `<version>_<name>`.
    pub fn dir_name(&self) -> (r: String)
        ensures
            r@ == self.model().version + "_"@ + self.model().name,
    {
        let mut s = self.version.clone();
        s.append("_");
        s.append(self.name.as_str());
        proof {
            assert(s@ =~= self.model().version + "_"@ + self.model().name);
        }
        s
    }
}

/// The units of a catalog as pure values.
pub open spec fn units_model(s: Seq<MigrationUnit>) -> Seq<UnitModel> {
    s.map_values(|u: MigrationUnit| u.model())
}

/// A well-formed unit carries a well-formed version string.
pub open spec fn unit_wf(u: UnitModel) -> bool {
    valid_version(u.version)
}

/// Catalog order: ascending by plain string comparison of versions,
/// which coincides with chronological order for the fixed-width form.
pub open spec fn catalog_sorted(c: Seq<UnitModel>) -> bool {
    forall|i: int, j: int|
        #![trigger c[i], c[j]]
        0 <= i < j < c.len() ==> lex_le(c[i].version, c[j].version)
}

/// Entry name `s` splits at position `k` into a well-formed version and
/// a name: `k` holds the first underscore and everything before it is a
/// well-formed version string.
pub open spec fn splits_as_unit(s: Seq<char>, k: int) -> bool {
    &&& 0 <= k < s.len()
    &&& s[k] == '_'
    &&& forall|j: int| 0 <= j < k ==> s[j] != '_'
    &&& valid_version(s.take(k))
}

/// Entry name `s` is a well-formed `<version>_<name>`.
pub open spec fn parses_as_unit(s: Seq<char>) -> bool {
    exists|k: int| splits_as_unit(s, k)
}

/// The unit encoded by a well-formed entry name.
pub open spec fn unit_of_entry(s: Seq<char>) -> UnitModel {
    let k = choose|k: int| splits_as_unit(s, k);
    UnitModel { version: s.take(k), name: s.skip(k + 1) }
}

/// The split position of an entry name is unique: it must be the first
/// underscore.
proof fn lemma_split_unique(s: Seq<char>, k1: int, k2: int)
    requires
        splits_as_unit(s, k1),
        splits_as_unit(s, k2),
    ensures
        k1 == k2,
{
    if k1 < k2 {
        assert(s[k1] != '_');
    }
    if k2 < k1 {
        assert(s[k2] != '_');
    }
}

/// Parses a directory entry name into a migration unit.
///
/// Succeeds exactly on names of the form `<version>_<name>` whose
/// version part is a well-formed version string; the split is at the
/// first underscore. A malformed entry is rejected, never skipped.
pub fn parse_unit_name(entry: &str) -> (r: Result<MigrationUnit, MigrationError>)
    ensures
        r is Ok <==> parses_as_unit(entry@),
        r matches Ok(u) ==> u.model() == unit_of_entry(entry@) && unit_wf(u.model()),
        r matches Err(e) ==> (e matches MigrationError::BadInput { entry: d } && d@ == entry@),
{
    let n = entry.unicode_len();
    let mut i: usize = 0;
    while i < n
        invariant
            n == entry@.len(),
            0 <= i <= n,
            forall|j: int| 0 <= j < i ==> entry@[j] != '_',
        decreases n - i,
    {
        if entry.get_char(i) == '_' {
            let version_part = entry.substring_char(0, i);
            proof {
                assert(version_part@ =~= entry@.take(i as int));
            }
            if !check_version(version_part) {
                proof {
                    assert forall|k: int| !splits_as_unit(entry@, k) by {
                        if splits_as_unit(entry@, k) {
                            lemma_split_unique(entry@, k, i as int);
                        }
                    }
                }
                return Err(MigrationError::BadInput { entry: entry.to_owned() });
            }
            let name_part = entry.substring_char(i + 1, n);
            proof {
                assert(splits_as_unit(entry@, i as int));
                let kk = choose|k: int| splits_as_unit(entry@, k);
                lemma_split_unique(entry@, kk, i as int);
                assert(name_part@ =~= entry@.skip(i as int + 1));
            }
            return Ok(
                MigrationUnit { version: version_part.to_owned(), name: name_part.to_owned() },
            );
        }
        i = i + 1;
    }
    proof {
        assert forall|k: int| !splits_as_unit(entry@, k) by {}
    }
    Err(MigrationError::BadInput { entry: entry.to_owned() })
}

/// Inserting into a sequence of units and then taking models is the same
/// as inserting the model into the sequence of models.
proof fn lemma_units_model_insert(s: Seq<MigrationUnit>, k: int, u: MigrationUnit)
    requires
        0 <= k <= s.len(),
    ensures
        units_model(s.insert(k, u)) =~= units_model(s).insert(k, u.model()),
{
    s.insert_ensures(k, u);
    units_model(s).insert_ensures(k, u.model());
    assert forall|i: int| 0 <= i < s.len() + 1 implies units_model(s.insert(k, u))[i]
        == units_model(s).insert(k, u.model())[i] by {
        if i < k {
            assert(s.insert(k, u)[i] == s[i]);
        } else if i == k {
            assert(s.insert(k, u)[i] == u);
        } else {
            assert(s.insert(k, u)[(i - 1) + 1] == s[i - 1]);
            assert(units_model(s).insert(k, u.model())[(i - 1) + 1] == units_model(s)[i - 1]);
        }
    }
}

/// Inserting an element anywhere adds exactly that element to the
/// multiset of a sequence.
proof fn lemma_to_multiset_insert<A>(s: Seq<A>, k: int, x: A)
    requires
        0 <= k <= s.len(),
    ensures
        s.insert(k, x).to_multiset() == s.to_multiset().insert(x),
{
    let t = s.insert(k, x);
    s.insert_ensures(k, x);
    t.to_multiset_ensures();
    t.remove_ensures(k);
    assert(t.remove(k) =~= s);
    assert(t.contains(x)) by {
        assert(t[k] == x);
    }
    assert(s.to_multiset() =~= t.to_multiset().remove(x));
    assert(t.to_multiset().remove(x).insert(x) =~= t.to_multiset());
}

/// Inserts a unit into a version-sorted vector, keeping it sorted.
fn insert_sorted(out: &mut Vec<MigrationUnit>, u: MigrationUnit)
    requires
        catalog_sorted(units_model(old(out)@)),
    ensures
        catalog_sorted(units_model(final(out)@)),
        units_model(final(out)@).to_multiset() == units_model(old(out)@).to_multiset().insert(
            u.model(),
        ),
{
    let mut j: usize = 0;
    while j < out.len() && version_le(out[j].version.as_str(), u.version.as_str())
        invariant
            out@ == old(out)@,
            0 <= j <= out@.len(),
            forall|k: int| 0 <= k < j ==> lex_le(units_model(out@)[k].version, u.model().version),
        decreases out@.len() - j,
    {
        j = j + 1;
    }
    proof {
        if j < out@.len() {
            lemma_lex_le_total(units_model(out@)[j as int].version, u.model().version);
        }
    }
    let ghost pre = out@;
    out.insert(j, u);
    proof {
        lemma_units_model_insert(pre, j as int, u);
        lemma_to_multiset_insert(units_model(pre), j as int, u.model());
        units_model(pre).insert_ensures(j as int, u.model());
        let m = units_model(out@);
        assert forall|i1: int, i2: int|
            #![trigger m[i1], m[i2]]
            0 <= i1 < i2 < m.len() implies lex_le(m[i1].version, m[i2].version) by {
            let jj = j as int;
            if i1 < jj && i2 < jj {
                assert(m[i1] == units_model(pre)[i1]);
                assert(m[i2] == units_model(pre)[i2]);
            } else if i1 < jj && i2 == jj {
                assert(m[i1] == units_model(pre)[i1]);
            } else if i1 < jj && i2 > jj {
                assert(m[i1] == units_model(pre)[i1]);
                assert(m[i2] == units_model(pre)[i2 - 1]);
                if i1 < i2 - 1 {
                } else {
                    assert(i1 == i2 - 1);
                    assert(jj == i2 - 1);
                }
            } else if i1 == jj {
                assert(m[i2] == units_model(pre)[i2 - 1]);
                if i2 - 1 > jj {
                    lemma_lex_le_transitive(
                        u.model().version,
                        units_model(pre)[jj].version,
                        units_model(pre)[i2 - 1].version,
                    );
                }
            } else {
                assert(m[i1] == units_model(pre)[i1 - 1]);
                assert(m[i2] == units_model(pre)[i2 - 1]);
            }
        }
    }
}

/// Sorts units ascending by version. The result is a permutation of the
/// input: same units, same multiplicities.
pub fn sort_units(units: Vec<MigrationUnit>) -> (r: Vec<MigrationUnit>)
    ensures
        catalog_sorted(units_model(r@)),
        units_model(r@).to_multiset() == units_model(units@).to_multiset(),
{
    let mut out: Vec<MigrationUnit> = Vec::new();
    let mut i: usize = 0;
    proof {
        assert(units_model(out@) =~= units_model(units@.take(0)));
    }
    while i < units.len()
        invariant
            0 <= i <= units@.len(),
            catalog_sorted(units_model(out@)),
            units_model(out@).to_multiset() == units_model(units@.take(i as int)).to_multiset(),
        decreases units@.len() - i,
    {
        let u = units[i].duplicate();
        proof {
            let prefix = units@.take(i as int);
            let next = units@.take(i as int + 1);
            assert(next.drop_last() =~= prefix);
            assert(units_model(next) =~= units_model(prefix).push(units@[i as int].model()));
            units_model(prefix).to_multiset_ensures();
        }
        insert_sorted(&mut out, u);
        i = i + 1;
    }
    proof {
        assert(units@.take(units@.len() as int) =~= units@);
    }
    out
}

/// No two units of the catalog share a version.
pub open spec fn versions_unique(c: Seq<UnitModel>) -> bool {
    forall|i: int, j: int|
        #![trigger c[i], c[j]]
        0 <= i < j < c.len() ==> c[i].version != c[j].version
}

/// A sorted catalog is determined by its units alone: two version-sorted
/// sequences holding the same units with the same multiplicities, with
/// no version repeated, are identical. Loading therefore yields the same
/// catalog — and `run` the same application order — whatever order the
/// directory scan returned the entries in.
pub proof fn lemma_sorted_catalog_unique(a: Seq<UnitModel>, b: Seq<UnitModel>)
    requires
        catalog_sorted(a),
        catalog_sorted(b),
        versions_unique(a),
        versions_unique(b),
        a.to_multiset() == b.to_multiset(),
    ensures
        a == b,
    decreases a.len(),
{
    a.to_multiset_ensures();
    b.to_multiset_ensures();
    assert(a.len() == b.len());
    if a.len() == 0 {
        assert(a =~= b);
    } else {
        let n = a.len() as int;
        let x = a.last();
        let y = b.last();
        assert(a.contains(x)) by {
            assert(a[n - 1] == x);
        }
        assert(b.contains(x)) by {
            assert(b.to_multiset().count(x) > 0);
        }
        assert(b.contains(y)) by {
            assert(b[n - 1] == y);
        }
        assert(a.contains(y)) by {
            assert(a.to_multiset().count(y) > 0);
        }
        let k = choose|k: int| 0 <= k < b.len() && b[k] == x;
        let m = choose|m: int| 0 <= m < a.len() && a[m] == y;
        assert(lex_le(x.version, y.version)) by {
            if k == n - 1 {
                lemma_lex_le_refl(x.version);
            }
        }
        assert(lex_le(y.version, x.version)) by {
            if m == n - 1 {
                lemma_lex_le_refl(y.version);
            }
        }
        lemma_lex_le_antisymmetric(x.version, y.version);
        assert(x == y) by {
            if k < n - 1 {
                assert(b[k].version != b[n - 1].version);
            }
        }
        let a1 = a.drop_last();
        let b1 = b.drop_last();
        assert(a1 =~= a.remove(n - 1));
        assert(b1 =~= b.remove(n - 1));
        assert(a1.to_multiset() == b1.to_multiset()) by {
            assert(a.remove(n - 1).to_multiset() =~= a.to_multiset().remove(x));
            assert(b.remove(n - 1).to_multiset() =~= b.to_multiset().remove(y));
        }
        assert(catalog_sorted(a1) && versions_unique(a1)) by {
            assert(forall|i: int| 0 <= i < a1.len() ==> #[trigger] a1[i] == a[i]);
        }
        assert(catalog_sorted(b1) && versions_unique(b1)) by {
            assert(forall|i: int| 0 <= i < b1.len() ==> #[trigger] b1[i] == b[i]);
        }
        lemma_sorted_catalog_unique(a1, b1);
        assert forall|i: int| 0 <= i < n implies a[i] == b[i] by {
            if i < n - 1 {
                assert(a1[i] == b1[i]);
            }
        }
        assert(a =~= b);
    }
}

/// A unit's directory name parses back to the unit itself: the version
/// holds no underscore, so the first underscore of `<version>_<name>`
/// is exactly the separator written by [`MigrationUnit::dir_name`].
pub proof fn lemma_dir_name_parses_back(u: UnitModel)
    requires
        valid_version(u.version),
    ensures
        parses_as_unit(u.version + "_"@ + u.name),
        unit_of_entry(u.version + "_"@ + u.name) == u,
{
    reveal_strlit("_");
    let s = u.version + "_"@ + u.name;
    let k = u.version.len() as int;
    assert(s[k] == '_');
    assert forall|j: int| 0 <= j < k implies s[j] != '_' by {
        assert(s[j] == u.version[j]);
        if j != 4 && j != 7 && j != 10 {
            assert(is_digit(u.version[j]));
        } else {
            assert(u.version[j] == '-');
        }
    }
    assert(s.take(k) =~= u.version);
    assert(splits_as_unit(s, k));
    let kk = choose|kk: int| splits_as_unit(s, kk);
    lemma_split_unique(s, kk, k);
    assert(s.skip(k + 1) =~= u.name);
}

/// The units encoded by a list of entry names, in scan order.
pub open spec fn entry_units(s: Seq<String>) -> Seq<UnitModel> {
    s.map_values(|e: String| unit_of_entry(e@))
}

/// Loads the catalog from the entry names of the migrations directory.
///
/// Fails on the first malformed entry; otherwise returns every entry's
/// unit, sorted ascending by version, whatever order the names came in.
pub fn build_catalog(entries: &Vec<String>) -> (r: Result<Vec<MigrationUnit>, MigrationError>)
    ensures
        r is Ok <==> (forall|i: int|
            0 <= i < entries@.len() ==> parses_as_unit(#[trigger] entries@[i]@)),
        r matches Ok(c) ==> catalog_sorted(units_model(c@)) && units_model(c@).to_multiset()
            == entry_units(entries@).to_multiset() && (forall|i: int|
            0 <= i < c@.len() ==> unit_wf(#[trigger] units_model(c@)[i])),
        r matches Err(e) ==> (e matches MigrationError::BadInput { entry: d } && exists|i: int|
            0 <= i < entries@.len() && d@ == #[trigger] entries@[i]@ && !parses_as_unit(
                entries@[i]@,
            )),
{
    let mut units: Vec<MigrationUnit> = Vec::new();
    let mut i: usize = 0;
    while i < entries.len()
        invariant
            0 <= i <= entries@.len(),
            units@.len() == i,
            forall|k: int|
                0 <= k < i ==> #[trigger] units@[k].model() == unit_of_entry(entries@[k]@),
            forall|k: int| 0 <= k < i ==> parses_as_unit(#[trigger] entries@[k]@),
        decreases entries@.len() - i,
    {
        match parse_unit_name(entries[i].as_str()) {
            Ok(u) => {
                units.push(u);
            },
            Err(e) => {
                return Err(e);
            },
        }
        i = i + 1;
    }
    proof {
        assert(units_model(units@) =~= entry_units(entries@));
    }
    let sorted = sort_units(units);
    proof {
        let sm = units_model(sorted@);
        let em = entry_units(entries@);
        sm.to_multiset_ensures();
        em.to_multiset_ensures();
        assert forall|k: int| 0 <= k < sorted@.len() implies unit_wf(#[trigger] sm[k]) by {
            assert(sm.contains(sm[k]));
            assert(em.to_multiset().count(sm[k]) > 0);
            let j = choose|j: int| 0 <= j < em.len() && em[j] == sm[k];
            let s = entries@[j]@;
            assert(parses_as_unit(s));
            let kk = choose|kk: int| splits_as_unit(s, kk);
            assert(valid_version(s.take(kk)));
        }
    }
    Ok(sorted)
}

} // verus!
