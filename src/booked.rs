use crate::seqs::seq_set_extend;
use crate::version::{merged, BookError, KnownDbVersion, VersionView};
use rangemap::RangeInclusiveMap;
use vstd::prelude::*;

verus! {

#[verifier::external_type_specification]
#[verifier::external_body]
#[verifier::reject_recursive_types(K)]
#[verifier::reject_recursive_types(V)]
#[verifier::reject_recursive_types(StepFnsT)]
pub struct ExRangeInclusiveMap<K, V, StepFnsT>(RangeInclusiveMap<K, V, StepFnsT>);

/// The content of each version that a range map holds an entry for.
pub uninterp spec fn booked_of(m: RangeInclusiveMap<i64, KnownDbVersion, i64>) -> Map<int, VersionView>;

/// The entry held for `version`, if any.
pub open spec fn entry_at(m: Map<int, VersionView>, version: int) -> Option<VersionView> {
    if m.contains_key(version) {
        Some(m[version])
    } else {
        None
    }
}

/// Relies on `RangeInclusiveMap::new`: a new map holds no entry.
#[verifier::external_body]
fn versions_new() -> (r: RangeInclusiveMap<i64, KnownDbVersion, i64>)
    ensures
        booked_of(r).dom() == Set::<int>::empty(),
{
    RangeInclusiveMap::new()
}

/// Relies on `RangeInclusiveMap::get`: the value of the range that covers
/// `version`, if one does.
#[verifier::external_body]
fn versions_get(m: &RangeInclusiveMap<i64, KnownDbVersion, i64>, version: i64) -> (r: Option<&KnownDbVersion>)
    ensures
        match r {
            Some(v) => booked_of(*m).contains_key(version as int) && v@ == booked_of(*m)[version as int],
            None => !booked_of(*m).contains_key(version as int),
        },
{
    m.get(&version)
}

/// Relies on `RangeInclusiveMap::contains_key`: whether a range covers
/// `version`.
#[verifier::external_body]
fn versions_contains(m: &RangeInclusiveMap<i64, KnownDbVersion, i64>, version: i64) -> (r: bool)
    ensures
        r == booked_of(*m).contains_key(version as int),
{
    m.contains_key(&version)
}

/// Relies on `RangeInclusiveMap::insert` with the one-version range
/// `version..=version`: that version now maps to `value`, the others keep
/// theirs. Adjacent equal values are coalesced through `PartialEq` of
/// `KnownDbVersion`, which compares content, and values are copied through
/// its `Clone`, which keeps content.
#[verifier::external_body]
fn versions_insert(m: &mut RangeInclusiveMap<i64, KnownDbVersion, i64>, version: i64, value: KnownDbVersion)
    ensures
        booked_of(*final(m)) == booked_of(*old(m)).insert(version as int, value@),
{
    m.insert(version..=version, value)
}

/// Relies on `RangeInclusiveMap::last_range_value`: the ranges are kept
/// sorted and disjoint, so the end of the last one is the highest version
/// covered.
#[verifier::external_body]
fn versions_last(m: &RangeInclusiveMap<i64, KnownDbVersion, i64>) -> (r: Option<i64>)
    ensures
        match r {
            Some(k) => booked_of(*m).contains_key(k as int) && forall|j: int|
                #[trigger] booked_of(*m).contains_key(j) ==> j <= k,
            None => forall|j: int| !(#[trigger] booked_of(*m).contains_key(j)),
        },
{
    m.last_range_value().map(|(range, _value)| *range.end())
}

/// The ledger of one actor: what is known of each of its versions.
pub struct Booked {
    versions: RangeInclusiveMap<i64, KnownDbVersion, i64>,
}

impl View for Booked {
    type V = Map<int, VersionView>;

    closed spec fn view(&self) -> Map<int, VersionView> {
        booked_of(self.versions)
    }
}

/// The ledger that holds no entry.
pub open spec fn empty_ledger() -> Map<int, VersionView> {
    Map::empty()
}

/// The highest version that `m` holds an entry for, if any.
pub open spec fn last_of(m: Map<int, VersionView>) -> Option<int> {
    if exists|k: int| m.contains_key(k) && forall|j: int| #[trigger] m.contains_key(j) ==> j <= k {
        Some(choose|k: int| m.contains_key(k) && forall|j: int| #[trigger] m.contains_key(j) ==> j <= k)
    } else {
        None
    }
}

/// The ledger that booking `value` at `version` leaves, with the outcome.
pub open spec fn booked_after(m: Map<int, VersionView>, version: int, value: VersionView) -> (Map<int, VersionView>, Result<(), BookError>) {
    match merged(entry_at(m, version), value) {
        Ok(v) => (m.insert(version, v), Ok(())),
        Err(e) => (m, Err(e)),
    }
}

/// The ledger that booking `values[i]` at `versions[i]`, in order, leaves.
pub open spec fn booked_all(m: Map<int, VersionView>, versions: Seq<i64>, values: Seq<VersionView>) -> Map<int, VersionView>
    decreases versions.len(),
{
    if versions.len() == 0 || values.len() != versions.len() {
        m
    } else {
        booked_after(
            booked_all(m, versions.drop_last(), values.drop_last()),
            versions.last() as int,
            values.last(),
        ).0
    }
}

proof fn lemma_increasing_current_dom(versions: Seq<i64>, values: Seq<VersionView>)
    requires
        versions.len() == values.len(),
        forall|i: int, j: int| 0 <= i < j < versions.len() ==> versions[i] < versions[j],
        forall|i: int| 0 <= i < values.len() ==> #[trigger] values[i] is Current,
    ensures
        forall|v: int|
            booked_all(empty_ledger(), versions, values).contains_key(v) <==> exists|i: int|
                0 <= i < versions.len() && #[trigger] versions[i] as int == v,
        versions.len() > 0 ==> forall|v: int|
            #[trigger] booked_all(empty_ledger(), versions, values).contains_key(v) ==> v <= versions.last(),
    decreases versions.len(),
{
    if versions.len() > 0 {
        let vs = versions.drop_last();
        let xs = values.drop_last();
        assert forall|i: int| 0 <= i < xs.len() implies #[trigger] xs[i] is Current by {
            assert(xs[i] == values[i]);
        }
        lemma_increasing_current_dom(vs, xs);
        let before = booked_all(empty_ledger(), vs, xs);
        let last = versions.last() as int;
        assert forall|v: int| #[trigger] before.contains_key(v) implies v < last by {
            if vs.len() > 0 {
                assert(vs.last() == versions[versions.len() - 2]);
            } else {
                assert(before == empty_ledger());
            }
        }
        assert(values.last() is Current);
        assert(!before.contains_key(last));
        let after = booked_all(empty_ledger(), versions, values);
        assert(after == before.insert(last, values.last()));
        assert forall|v: int| after.contains_key(v) implies exists|i: int|
            0 <= i < versions.len() && #[trigger] versions[i] as int == v by {
            if v != last {
                let i = choose|i: int| 0 <= i < vs.len() && #[trigger] vs[i] as int == v;
                assert(versions[i] == vs[i]);
            } else {
                assert(versions[versions.len() - 1] as int == v);
            }
        }
        assert forall|v: int| (exists|i: int| 0 <= i < versions.len() && #[trigger] versions[i] as int == v) implies after.contains_key(v) by {
            let i = choose|i: int| 0 <= i < versions.len() && #[trigger] versions[i] as int == v;
            if i < versions.len() - 1 {
                assert(vs[i] == versions[i]);
            }
        }
    } else {
        assert(booked_all(empty_ledger(), versions, values) == empty_ledger());
    }
}

/// Booking current entries at strictly increasing versions into an empty
/// ledger books exactly those versions, and the last of them is the highest
/// version booked.
pub proof fn lemma_increasing_current_inserts(versions: Seq<i64>, values: Seq<VersionView>)
    requires
        versions.len() == values.len(),
        forall|i: int, j: int| 0 <= i < j < versions.len() ==> versions[i] < versions[j],
        forall|i: int| 0 <= i < values.len() ==> #[trigger] values[i] is Current,
    ensures
        forall|v: int|
            booked_all(empty_ledger(), versions, values).contains_key(v) <==> exists|i: int|
                0 <= i < versions.len() && #[trigger] versions[i] as int == v,
        versions.len() > 0 ==> last_of(booked_all(empty_ledger(), versions, values)) == Some(versions.last() as int),
        versions.len() == 0 ==> last_of(booked_all(empty_ledger(), versions, values)) is None,
{
    lemma_increasing_current_dom(versions, values);
    let m = booked_all(empty_ledger(), versions, values);
    if versions.len() > 0 {
        let k = versions.last() as int;
        assert(versions[versions.len() - 1] as int == k);
        assert(m.contains_key(k) && forall|j: int| #[trigger] m.contains_key(j) ==> j <= k);
        let c = choose|c: int| m.contains_key(c) && forall|j: int| #[trigger] m.contains_key(j) ==> j <= c;
        assert(c <= k && k <= c);
    } else {
        assert(!exists|k: int| m.contains_key(k) && forall|j: int| #[trigger] m.contains_key(j) ==> j <= k);
    }
}

impl Booked {
    /// An empty ledger.
    pub fn new() -> (r: Booked)
        ensures
            r@ == empty_ledger(),
    {
        let r = Booked { versions: versions_new() };
        assert(r@ =~= empty_ledger());
        r
    }

    /// Books `known` at `version`, merged with what is held there by the
    /// rule of `merged`. On a fault the ledger is left as it was.
    pub fn insert(&mut self, version: i64, known: KnownDbVersion) -> (r: Result<(), BookError>)
        ensures
            (final(self)@, r) == booked_after(old(self)@, version as int, known@),
    {
        let ghost before = self@;
        let ghost new_view = known@;
        let existing = versions_get(&self.versions, version);
        assert(entry_at(before, version as int) == match existing {
            Some(v) => Some(v@),
            None => None::<VersionView>,
        });
        match known {
            KnownDbVersion::Partial { seqs, last_seq, ts } => {
                match existing {
                    None => {
                        versions_insert(&mut self.versions, version, KnownDbVersion::Partial { seqs, last_seq, ts });
                        Ok(())
                    },
                    Some(KnownDbVersion::Partial { seqs: old_seqs, last_seq: old_last_seq, ts: old_ts }) => {
                        if *old_last_seq != last_seq {
                            return Err(BookError::DivergentLastSeq);
                        }
                        if *old_ts != ts {
                            return Err(BookError::DivergentTimestamp);
                        }
                        let mut seqs = seqs;
                        seq_set_extend(&mut seqs, old_seqs);
                        versions_insert(&mut self.versions, version, KnownDbVersion::Partial { seqs, last_seq, ts });
                        Ok(())
                    },
                    Some(_) => Err(BookError::PartialOverComplete),
                }
            },
            KnownDbVersion::Current { db_version, last_seq, ts } => {
                match existing {
                    Some(KnownDbVersion::Current { db_version: d, last_seq: l, ts: t }) => {
                        if *d != db_version || *l != last_seq || *t != ts {
                            return Err(BookError::DivergentCurrent);
                        }
                    },
                    Some(KnownDbVersion::Cleared) => {
                        return Err(BookError::CurrentOverCleared);
                    },
                    _ => {},
                }
                versions_insert(&mut self.versions, version, KnownDbVersion::Current { db_version, last_seq, ts });
                Ok(())
            },
            KnownDbVersion::Cleared => {
                versions_insert(&mut self.versions, version, KnownDbVersion::Cleared);
                Ok(())
            },
        }
    }

    /// Whether an entry is held for `version`.
    pub fn contains(&self, version: i64) -> (r: bool)
        ensures
            r == self@.contains_key(version as int),
    {
        versions_contains(&self.versions, version)
    }

    /// The highest version booked, if any.
    pub fn last(&self) -> (r: Option<i64>)
        ensures
            r matches Some(k) ==> last_of(self@) == Some(k as int),
            r is None <==> last_of(self@) is None,
    {
        let r = versions_last(&self.versions);
        proof {
            if let Some(k) = r {
                let m = self@;
                assert(m.contains_key(k as int) && forall|j: int| #[trigger] m.contains_key(j) ==> j <= k);
                let c = choose|c: int| m.contains_key(c) && forall|j: int| #[trigger] m.contains_key(j) ==> j <= c;
                assert(c <= k && k <= c);
            }
        }
        r
    }

    /// The entry held for `version`, if any.
    pub fn get(&self, version: i64) -> (r: Option<&KnownDbVersion>)
        ensures
            match r {
                Some(v) => self@.contains_key(version as int) && v@ == self@[version as int],
                None => !self@.contains_key(version as int),
            },
    {
        versions_get(&self.versions, version)
    }
}

} // verus!
