//! The bundle store: content-addressed persistence of bundles. Records
//! are named by the digest of their identity fields, a directory listing
//! is the source of truth for what exists, dispatching moves a record to
//! the sent area, and expired records can be purged. This module holds
//! the store's state and rules; mirroring them onto a disk directory is
//! the runtime shell's job.

use vstd::prelude::*;
use vstd::string::*;

use crate::bundle::{Bundle, BundleView};
use crate::digest::spec_bundle_id;

verus! {

/// Why a store operation failed. The store itself knows only one
/// failure: the requested bundle is not there.
#[derive(Debug)]
pub enum StoreError {
    NotFound,
}

impl StoreError {
    /// A human-readable description of the failure.
    pub fn message(&self) -> (r: String)
        ensures
            r@ == "Bundle ID not found"@,
    {
        String::from_str("Bundle ID not found")
    }
}

/// One stored record: the identity it is filed under and the bundle.
#[derive(Debug)]
struct StoredBundle {
    id: String,
    bundle: Bundle,
}

/// The identifiers of a record sequence, in order.
pub open spec fn ids_of(s: Seq<(Seq<char>, BundleView)>) -> Seq<Seq<char>> {
    s.map_values(|p: (Seq<char>, BundleView)| p.0)
}

/// No identifier occurs twice.
pub open spec fn distinct_ids(s: Seq<(Seq<char>, BundleView)>) -> bool {
    forall|i: int, j: int|
        0 <= i < j < s.len() ==> (#[trigger] s[i]).0 != (#[trigger] s[j]).0
}

/// Whether some record carries identifier `id`.
pub open spec fn has_id(s: Seq<(Seq<char>, BundleView)>, id: Seq<char>) -> bool {
    exists|i: int| 0 <= i < s.len() && (#[trigger] s[i]).0 == id
}

/// The position of the record carrying `id`.
pub open spec fn index_of_id(s: Seq<(Seq<char>, BundleView)>, id: Seq<char>) -> int {
    choose|i: int| 0 <= i < s.len() && (#[trigger] s[i]).0 == id
}

/// The records as a map from identifier to bundle; on duplicate
/// identifiers the later record wins.
pub open spec fn map_of_entries(s: Seq<(Seq<char>, BundleView)>) -> Map<Seq<char>, BundleView>
    decreases s.len(),
{
    if s.len() == 0 {
        Map::empty()
    } else {
        map_of_entries(s.drop_last()).insert(s.last().0, s.last().1)
    }
}

/// What the record map holds: exactly the listed identifiers, and with
/// distinct identifiers each record's own bundle.
pub proof fn lemma_map_of_entries_facts(s: Seq<(Seq<char>, BundleView)>)
    ensures
        forall|id: Seq<char>| #[trigger]
            map_of_entries(s).dom().contains(id) <==> has_id(s, id),
        distinct_ids(s) ==> forall|i: int|
            0 <= i < s.len() ==> map_of_entries(s)[(#[trigger] s[i]).0] == s[i].1,
    decreases s.len(),
{
    if s.len() > 0 {
        let rest = s.drop_last();
        lemma_map_of_entries_facts(rest);
        assert(map_of_entries(s) == map_of_entries(rest).insert(s.last().0, s.last().1));
        assert forall|id: Seq<char>| #[trigger]
            map_of_entries(s).dom().contains(id) implies has_id(s, id) by {
            if id == s.last().0 {
                assert(s[s.len() - 1].0 == id);
            } else {
                assert(map_of_entries(rest).dom().contains(id));
                assert(has_id(rest, id));
                let i = choose|i: int| 0 <= i < rest.len() && (#[trigger] rest[i]).0 == id;
                assert(s[i].0 == id);
            }
        }
        assert forall|id: Seq<char>| has_id(s, id) implies #[trigger] map_of_entries(
            s,
        ).dom().contains(id) by {
            let i = choose|i: int| 0 <= i < s.len() && (#[trigger] s[i]).0 == id;
            if i < s.len() - 1 {
                assert(rest[i].0 == id);
                assert(has_id(rest, id));
            }
        }
        if distinct_ids(s) {
            assert forall|i: int| 0 <= i < s.len() implies map_of_entries(s)[(#[trigger] s[
                i]).0] == s[i].1 by {
                if i < s.len() - 1 {
                    assert(rest[i] == s[i]);
                    assert(s[i].0 != s.last().0);
                }
            }
        }
    }
}

/// Where a new record lands: replacing the record already filed under
/// `id`, or appended at the end.
pub open spec fn insert_effect(
    s: Seq<(Seq<char>, BundleView)>,
    id: Seq<char>,
    b: BundleView,
) -> Seq<(Seq<char>, BundleView)> {
    if has_id(s, id) {
        s.update(index_of_id(s, id), (id, b))
    } else {
        s.push((id, b))
    }
}

/// Filing a record keeps identifiers distinct, updates the map by
/// insertion, and extends the listing only for a fresh identifier.
pub proof fn lemma_insert_effect(s: Seq<(Seq<char>, BundleView)>, id: Seq<char>, b: BundleView)
    requires
        distinct_ids(s),
    ensures
        distinct_ids(insert_effect(s, id, b)),
        map_of_entries(insert_effect(s, id, b)) == map_of_entries(s).insert(id, b),
        ids_of(insert_effect(s, id, b)) == if has_id(s, id) {
            ids_of(s)
        } else {
            ids_of(s).push(id)
        },
        has_id(s, id) ==> insert_effect(s, id, b)[index_of_id(s, id)] == (id, b),
        forall|k: int|
            0 <= k < s.len() && (#[trigger] s[k]).0 != id ==> insert_effect(s, id, b)[k] == s[k],
{
    let r = insert_effect(s, id, b);
    lemma_map_of_entries_facts(s);
    if has_id(s, id) {
        let i = index_of_id(s, id);
        assert(0 <= i < s.len() && s[i].0 == id);
        assert forall|k: int|
            0 <= k < s.len() && (#[trigger] s[k]).0 != id implies r[k] == s[k] by {
            assert(k != i);
        }
        assert(distinct_ids(r)) by {
            assert forall|k1: int, k2: int|
                0 <= k1 < k2 < r.len() implies (#[trigger] r[k1]).0 != (#[trigger] r[k2]).0 by {
                assert(r[k1].0 == s[k1].0 && r[k2].0 == s[k2].0);
            }
        }
        lemma_map_of_entries_facts(r);
        assert(map_of_entries(r) =~= map_of_entries(s).insert(id, b)) by {
            assert forall|x: Seq<char>| #[trigger]
                map_of_entries(r).dom().contains(x) implies map_of_entries(s).insert(
                id,
                b,
            ).dom().contains(x) by {
                let k = choose|k: int| 0 <= k < r.len() && (#[trigger] r[k]).0 == x;
                if k != i {
                    assert(s[k].0 == x);
                }
            }
            assert forall|x: Seq<char>| map_of_entries(s).insert(id, b).dom().contains(x)
                implies #[trigger] map_of_entries(r).dom().contains(x) by {
                if x == id {
                    assert(r[i].0 == x);
                } else {
                    let k = choose|k: int| 0 <= k < s.len() && (#[trigger] s[k]).0 == x;
                    assert(r[k].0 == x);
                }
            }
            assert forall|x: Seq<char>| #[trigger]
                map_of_entries(r).dom().contains(x) implies map_of_entries(r)[x]
                == map_of_entries(s).insert(id, b)[x] by {
                if x == id {
                    assert(r[i] == (id, b));
                    assert(map_of_entries(r)[r[i].0] == r[i].1);
                } else {
                    let k = choose|k: int| 0 <= k < r.len() && (#[trigger] r[k]).0 == x;
                    assert(k != i);
                    assert(r[k] == s[k]);
                    assert(map_of_entries(r)[r[k].0] == r[k].1);
                    assert(map_of_entries(s)[s[k].0] == s[k].1);
                }
            }
        }
        assert(ids_of(r) =~= ids_of(s));
    } else {
        assert(r == s.push((id, b)));
        assert(r.drop_last() =~= s);
        assert(map_of_entries(r) == map_of_entries(s).insert(id, b));
        assert(distinct_ids(r)) by {
            assert forall|k1: int, k2: int|
                0 <= k1 < k2 < r.len() implies (#[trigger] r[k1]).0 != (#[trigger] r[k2]).0 by {
                if k2 == r.len() - 1 {
                    assert(r[k1].0 == s[k1].0);
                    assert(!has_id(s, id) ==> s[k1].0 != id);
                } else {
                    assert(r[k1] == s[k1] && r[k2] == s[k2]);
                }
            }
        }
        assert(ids_of(r) =~= ids_of(s).push(id));
    }
}

/// Removing the record filed under `id` keeps identifiers distinct,
/// removes exactly that identifier, and leaves the map of the others.
pub proof fn lemma_remove_effect(s: Seq<(Seq<char>, BundleView)>, id: Seq<char>)
    requires
        distinct_ids(s),
        has_id(s, id),
    ensures
        ({
            let r = s.remove(index_of_id(s, id));
            &&& distinct_ids(r)
            &&& map_of_entries(r) == map_of_entries(s).remove(id)
            &&& forall|x: Seq<char>| has_id(r, x) <==> (has_id(s, x) && x != id)
        }),
{
    let i = index_of_id(s, id);
    assert(0 <= i < s.len() && s[i].0 == id);
    let r = s.remove(i);
    assert(r.len() == s.len() - 1);
    assert forall|k: int| 0 <= k < r.len() implies #[trigger] r[k] == (if k < i {
        s[k]
    } else {
        s[k + 1]
    }) by {}
    assert(distinct_ids(r)) by {
        assert forall|k1: int, k2: int|
            0 <= k1 < k2 < r.len() implies (#[trigger] r[k1]).0 != (#[trigger] r[k2]).0 by {
            let m1: int = if k1 < i { k1 } else { k1 + 1 };
            let m2: int = if k2 < i { k2 } else { k2 + 1 };
            assert(r[k1] == s[m1] && r[k2] == s[m2]);
        }
    }
    assert forall|x: Seq<char>| has_id(r, x) implies (has_id(s, x) && x != id) by {
        let k = choose|k: int| 0 <= k < r.len() && (#[trigger] r[k]).0 == x;
        let m: int = if k < i { k } else { k + 1 };
        assert(s[m].0 == x);
        assert(m != i);
    }
    assert forall|x: Seq<char>| has_id(s, x) && x != id implies has_id(r, x) by {
        let m = choose|m: int| 0 <= m < s.len() && (#[trigger] s[m]).0 == x;
        assert(m != i);
        let k: int = if m < i { m } else { m - 1 };
        assert(r[k].0 == x);
    }
    lemma_map_of_entries_facts(s);
    lemma_map_of_entries_facts(r);
    assert(map_of_entries(r) =~= map_of_entries(s).remove(id)) by {
        assert forall|x: Seq<char>| #[trigger]
            map_of_entries(r).dom().contains(x) implies map_of_entries(r)[x] == map_of_entries(
            s,
        ).remove(id)[x] by {
            let k = choose|k: int| 0 <= k < r.len() && (#[trigger] r[k]).0 == x;
            let m: int = if k < i { k } else { k + 1 };
            assert(r[k] == s[m]);
            assert(map_of_entries(r)[r[k].0] == r[k].1);
            assert(map_of_entries(s)[s[m].0] == s[m].1);
        }
    }
}

/// The records that are not expired at `now`, in order.
pub open spec fn live_entries(
    s: Seq<(Seq<char>, BundleView)>,
    now: u64,
) -> Seq<(Seq<char>, BundleView)>
    decreases s.len(),
{
    if s.len() == 0 {
        seq![]
    } else {
        let prefix = live_entries(s.drop_last(), now);
        if !s.last().1.expired_at(now) {
            prefix.push(s.last())
        } else {
            prefix
        }
    }
}

/// The surviving records all come from the original sequence, every
/// non-expired record survives, and distinctness is kept.
pub proof fn lemma_live_entries(s: Seq<(Seq<char>, BundleView)>, now: u64)
    ensures
        ({
            let r = live_entries(s, now);
            &&& forall|k: int|
                0 <= k < r.len() ==> exists|m: int|
                    0 <= m < s.len() && (#[trigger] r[k]) == s[m]
            &&& forall|k: int| 0 <= k < r.len() ==> !(#[trigger] r[k]).1.expired_at(now)
            &&& forall|m: int|
                0 <= m < s.len() && !(#[trigger] s[m]).1.expired_at(now) ==> has_id(r, s[m].0)
            &&& forall|x: Seq<char>| has_id(r, x) ==> has_id(s, x)
            &&& (distinct_ids(s) ==> distinct_ids(r))
        }),
    decreases s.len(),
{
    if s.len() > 0 {
        let rest = s.drop_last();
        lemma_live_entries(rest, now);
        let prefix = live_entries(rest, now);
        let r = live_entries(s, now);
        assert forall|k: int| 0 <= k < r.len() implies exists|m: int|
            0 <= m < s.len() && (#[trigger] r[k]) == s[m] by {
            if k < prefix.len() {
                let m = choose|m: int| 0 <= m < rest.len() && (#[trigger] prefix[k]) == rest[m];
                assert(r[k] == s[m]);
            } else {
                assert(r[k] == s[s.len() - 1]);
            }
        }
        assert forall|m: int|
            0 <= m < s.len() && !(#[trigger] s[m]).1.expired_at(now) implies has_id(
            r,
            s[m].0,
        ) by {
            if m < s.len() - 1 {
                assert(rest[m] == s[m]);
                assert(has_id(prefix, s[m].0));
                let k = choose|k: int| 0 <= k < prefix.len() && (#[trigger] prefix[k]).0 == s[
                    m].0;
                assert(r[k].0 == s[m].0);
            } else {
                assert(r[r.len() - 1] == s[m]);
            }
        }
        assert forall|x: Seq<char>| has_id(r, x) implies has_id(s, x) by {
            let k = choose|k: int| 0 <= k < r.len() && (#[trigger] r[k]).0 == x;
            if k < prefix.len() {
                let m = choose|m: int| 0 <= m < rest.len() && (#[trigger] prefix[k]) == rest[m];
                assert(s[m].0 == x);
            } else {
                assert(s[s.len() - 1].0 == x);
            }
        }
        if distinct_ids(s) {
            assert(distinct_ids(rest));
            assert(distinct_ids(r)) by {
                if !s.last().1.expired_at(now) {
                    assert forall|k1: int, k2: int|
                        0 <= k1 < k2 < r.len() implies (#[trigger] r[k1]).0 != (#[trigger] r[
                        k2]).0 by {
                        if k2 == r.len() - 1 {
                            let m = choose|m: int|
                                0 <= m < rest.len() && (#[trigger] prefix[k1]) == rest[m];
                            assert(r[k1] == s[m]);
                            assert(s[m].0 != s[s.len() - 1].0);
                        } else {
                            assert(r[k1] == prefix[k1] && r[k2] == prefix[k2]);
                        }
                    }
                }
            }
        }
    }
}

/// The content-addressed store: the active records, the records already
/// dispatched, and the directory path the shell mirrors them to.
#[derive(Debug)]
pub struct BundleStore {
    dir: String,
    entries: Vec<StoredBundle>,
    dispatched: Vec<StoredBundle>,
}

impl BundleStore {
    /// The configured directory path.
    pub closed spec fn spec_dir(self) -> Seq<char> {
        self.dir@
    }

    /// The active records, in listing order.
    pub closed spec fn active_seq(self) -> Seq<(Seq<char>, BundleView)> {
        self.entries@.map_values(|e: StoredBundle| (e.id@, e.bundle@))
    }

    /// The dispatched records, in listing order.
    pub closed spec fn dispatched_seq(self) -> Seq<(Seq<char>, BundleView)> {
        self.dispatched@.map_values(|e: StoredBundle| (e.id@, e.bundle@))
    }

    /// The active identifiers, in listing order.
    pub open spec fn active_ids(self) -> Seq<Seq<char>> {
        ids_of(self.active_seq())
    }

    /// The active records as a map.
    pub open spec fn active_map(self) -> Map<Seq<char>, BundleView> {
        map_of_entries(self.active_seq())
    }

    /// The dispatched records as a map.
    pub open spec fn dispatched_map(self) -> Map<Seq<char>, BundleView> {
        map_of_entries(self.dispatched_seq())
    }

    /// The store's invariant: identifiers are distinct in each area, and
    /// every record is filed under the digest of its own bundle.
    pub open spec fn wf(self) -> bool {
        &&& distinct_ids(self.active_seq())
        &&& distinct_ids(self.dispatched_seq())
        &&& forall|i: int|
            0 <= i < self.active_seq().len() ==> (#[trigger] self.active_seq()[i]).0
                == spec_bundle_id(self.active_seq()[i].1)
        &&& forall|i: int|
            0 <= i < self.dispatched_seq().len() ==> (#[trigger] self.dispatched_seq()[i]).0
                == spec_bundle_id(self.dispatched_seq()[i].1)
    }

    /// An empty store for the given directory. The directory creation
    /// itself is the shell's work; the store starts out empty.
    pub fn new(path: &str) -> (r: Self)
        ensures
            r.wf(),
            r.spec_dir() == path@,
            r.active_seq() =~= Seq::<(Seq<char>, BundleView)>::empty(),
            r.dispatched_seq() =~= Seq::<(Seq<char>, BundleView)>::empty(),
    {
        let r = BundleStore { dir: path.to_owned(), entries: Vec::new(), dispatched: Vec::new() };
        proof {
            assert(r.active_seq() =~= Seq::<(Seq<char>, BundleView)>::empty());
            assert(r.dispatched_seq() =~= Seq::<(Seq<char>, BundleView)>::empty());
        }
        r
    }

    /// File a bundle under its content digest. A bundle with the same
    /// digest is silently overwritten: the documented collision hazard of
    /// content addressing, which callers avoid by distinct identities.
    pub fn insert(&mut self, bundle: &Bundle) -> (r: Result<(), StoreError>)
        requires
            old(self).wf(),
        ensures
            r is Ok,
            final(self).wf(),
            final(self).spec_dir() == old(self).spec_dir(),
            final(self).dispatched_seq() == old(self).dispatched_seq(),
            final(self).active_seq() == insert_effect(
                old(self).active_seq(),
                spec_bundle_id(bundle@),
                bundle@,
            ),
            final(self).active_map() == old(self).active_map().insert(
                spec_bundle_id(bundle@),
                bundle@,
            ),
            final(self).active_ids() == if has_id(old(self).active_seq(), spec_bundle_id(bundle@)) {
                old(self).active_ids()
            } else {
                old(self).active_ids().push(spec_bundle_id(bundle@))
            },
    {
        let id = crate::digest::bundle_id_for(bundle);
        let ghost s = old(self).active_seq();
        let ghost gid = spec_bundle_id(bundle@);
        proof {
            lemma_insert_effect(s, gid, bundle@);
        }
        match find_entry_index(&self.entries, &id) {
            Some(i) => {
                proof {
                    assert(s[i as int].0 == gid);
                    assert(has_id(s, gid));
                    assert(index_of_id(s, gid) == i) by {
                        let k = index_of_id(s, gid);
                        assert(0 <= k < s.len() && s[k].0 == gid);
                        if k != i {
                            assert(s[k].0 != s[i as int].0);
                        }
                    }
                }
                let record = StoredBundle { id, bundle: bundle.clone() };
                self.entries.set(i, record);
                proof {
                    assert(self.active_seq() =~= insert_effect(s, gid, bundle@));
                }
            },
            None => {
                proof {
                    assert(!has_id(s, gid)) by {
                        if has_id(s, gid) {
                            let k = index_of_id(s, gid);
                            assert(0 <= k < s.len() && s[k].0 == gid);
                        }
                    }
                }
                let record = StoredBundle { id, bundle: bundle.clone() };
                self.entries.push(record);
                proof {
                    assert(self.active_seq() =~= insert_effect(s, gid, bundle@));
                }
            },
        }
        proof {
            let r = self.active_seq();
            assert forall|i: int| 0 <= i < r.len() implies (#[trigger] r[i]).0 == spec_bundle_id(
                r[i].1,
            ) by {
                if has_id(s, gid) {
                    if i != index_of_id(s, gid) {
                        assert(r[i] == s[i]);
                    }
                } else {
                    if i < s.len() {
                        assert(r[i] == s[i]);
                    }
                }
            }
        }
        Ok(())
    }

    /// The identifiers of every bundle currently present, in listing
    /// order.
    pub fn list(&self) -> (r: Result<Vec<String>, StoreError>)
        ensures
            r matches Ok(ids) && ids@.map_values(|s: String| s@) == self.active_ids(),
    {
        let mut ids: Vec<String> = Vec::new();
        let n = self.entries.len();
        for i in 0..n
            invariant
                n == self.entries@.len(),
                ids@.map_values(|s: String| s@) =~= self.active_ids().subrange(0, i as int),
        {
            proof {
                assert(self.active_ids()[i as int] == self.entries@[i as int].id@);
            }
            ids.push(self.entries[i].id.clone());
            proof {
                assert(self.active_ids().subrange(0, i + 1) =~= self.active_ids().subrange(
                    0,
                    i as int,
                ).push(self.active_ids()[i as int]));
                assert(ids@.map_values(|s: String| s@) =~= self.active_ids().subrange(0, i + 1));
            }
        }
        proof {
            assert(self.active_ids().subrange(0, n as int) =~= self.active_ids());
        }
        Ok(ids)
    }

    /// Load the bundle filed under exactly `id_hash`; not-found when no
    /// record carries it.
    pub fn load(&self, id_hash: &str) -> (r: Result<Bundle, StoreError>)
        requires
            self.wf(),
        ensures
            match r {
                Ok(b) => self.active_map().dom().contains(id_hash@) && b@ == self.active_map()[
                    id_hash@],
                Err(e) => e is NotFound && !self.active_map().dom().contains(id_hash@),
            },
    {
        proof {
            lemma_map_of_entries_facts(self.active_seq());
        }
        let id = id_hash.to_owned();
        match find_entry_index(&self.entries, &id) {
            Some(i) => {
                proof {
                    assert(self.active_seq()[i as int].0 == id_hash@);
                    assert(has_id(self.active_seq(), id_hash@));
                }
                Ok(self.entries[i].bundle.clone())
            },
            None => {
                proof {
                    assert(!has_id(self.active_seq(), id_hash@)) by {
                        if has_id(self.active_seq(), id_hash@) {
                            let k = index_of_id(self.active_seq(), id_hash@);
                            assert(0 <= k < self.active_seq().len() && self.active_seq()[k].0
                                == id_hash@);
                        }
                    }
                }
                Err(StoreError::NotFound)
            },
        }
    }

    /// The first identifier, in listing order, that `partial` is a
    /// prefix of. Ambiguous prefixes are not detected: first match wins.
    pub fn find_by_partial_id(&self, partial: &str) -> (r: Option<String>)
        ensures
            match r {
                Some(id) => exists|i: int|
                    0 <= i < self.active_ids().len() && id@ == (#[trigger] self.active_ids()[i])
                        && crate::text::is_prefix(partial@, self.active_ids()[i]) && (forall|j: int|
                        0 <= j < i ==> !crate::text::is_prefix(
                            partial@,
                            #[trigger] self.active_ids()[j],
                        )),
                None => forall|j: int|
                    0 <= j < self.active_ids().len() ==> !crate::text::is_prefix(
                        partial@,
                        #[trigger] self.active_ids()[j],
                    ),
            },
    {
        let n = self.entries.len();
        for i in 0..n
            invariant
                n == self.entries@.len(),
                n == self.active_ids().len(),
                forall|j: int|
                    0 <= j < i ==> !crate::text::is_prefix(
                        partial@,
                        #[trigger] self.active_ids()[j],
                    ),
        {
            proof {
                assert(self.active_ids()[i as int] == self.entries@[i as int].id@);
            }
            if crate::text::str_starts_with(self.entries[i].id.as_str(), partial) {
                return Some(self.entries[i].id.clone());
            }
        }
        None
    }

    /// Resolve a prefix against the listing and load the first match;
    /// not-found when nothing matches.
    pub fn load_by_partial_id(&self, partial: &str) -> (r: Result<Bundle, StoreError>)
        requires
            self.wf(),
        ensures
            match r {
                Ok(b) => exists|i: int|
                    0 <= i < self.active_ids().len() && crate::text::is_prefix(
                        partial@,
                        #[trigger] self.active_ids()[i],
                    ) && b@ == self.active_map()[self.active_ids()[i]] && (forall|j: int|
                        0 <= j < i ==> !crate::text::is_prefix(
                            partial@,
                            #[trigger] self.active_ids()[j],
                        )),
                Err(e) => e is NotFound && forall|j: int|
                    0 <= j < self.active_ids().len() ==> !crate::text::is_prefix(
                        partial@,
                        #[trigger] self.active_ids()[j],
                    ),
            },
    {
        match self.find_by_partial_id(partial) {
            Some(full_id) => {
                proof {
                    let i = choose|i: int|
                        0 <= i < self.active_ids().len() && full_id@ == (#[trigger] self
                            .active_ids()[i]) && crate::text::is_prefix(
                            partial@,
                            self.active_ids()[i],
                        ) && (forall|j: int|
                            0 <= j < i ==> !crate::text::is_prefix(
                                partial@,
                                #[trigger] self.active_ids()[j],
                            ));
                    assert(self.active_seq()[i].0 == full_id@);
                    assert(has_id(self.active_seq(), full_id@));
                    lemma_map_of_entries_facts(self.active_seq());
                }
                self.load(full_id.as_str())
            },
            None => Err(StoreError::NotFound),
        }
    }

    /// Move the record for this bundle from the active area to the
    /// dispatched area, after a confirmed transmission. Fails not-found
    /// when the record is already gone (dispatched or purged earlier),
    /// a race the caller must tolerate.
    pub fn dispatch_one(&mut self, bundle: &Bundle) -> (r: Result<(), StoreError>)
        requires
            old(self).wf(),
        ensures
            final(self).wf(),
            final(self).spec_dir() == old(self).spec_dir(),
            ({
                let id = spec_bundle_id(bundle@);
                if has_id(old(self).active_seq(), id) {
                    &&& r is Ok
                    &&& final(self).active_seq() == old(self).active_seq().remove(
                        index_of_id(old(self).active_seq(), id),
                    )
                    &&& final(self).active_map() == old(self).active_map().remove(id)
                    &&& final(self).dispatched_map() == old(self).dispatched_map().insert(
                        id,
                        old(self).active_map()[id],
                    )
                } else {
                    &&& r matches Err(e) && e is NotFound
                    &&& final(self).active_seq() == old(self).active_seq()
                    &&& final(self).dispatched_seq() == old(self).dispatched_seq()
                }
            }),
    {
        let id = crate::digest::bundle_id_for(bundle);
        let ghost s = old(self).active_seq();
        let ghost gid = spec_bundle_id(bundle@);
        match find_entry_index(&self.entries, &id) {
            Some(i) => {
                proof {
                    assert(s[i as int].0 == gid);
                    assert(has_id(s, gid));
                    assert(index_of_id(s, gid) == i) by {
                        let k = index_of_id(s, gid);
                        assert(0 <= k < s.len() && s[k].0 == gid);
                        if k != i {
                            assert(s[k].0 != s[i as int].0);
                        }
                    }
                    lemma_map_of_entries_facts(s);
                    lemma_remove_effect(s, gid);
                }
                let moved = StoredBundle {
                    id: self.entries[i].id.clone(),
                    bundle: self.entries[i].bundle.clone(),
                };
                let ghost moved_view = (moved.id@, moved.bundle@);
                self.entries.remove(i);
                proof {
                    assert(self.active_seq() =~= s.remove(i as int));
                }
                let ghost d = old(self).dispatched_seq();
                proof {
                    lemma_insert_effect(d, gid, moved_view.1);
                }
                match find_entry_index(&self.dispatched, &moved.id) {
                    Some(k) => {
                        proof {
                            assert(d[k as int].0 == gid);
                            assert(has_id(d, gid));
                            assert(index_of_id(d, gid) == k) by {
                                let m = index_of_id(d, gid);
                                assert(0 <= m < d.len() && d[m].0 == gid);
                                if m != k {
                                    assert(d[m].0 != d[k as int].0);
                                }
                            }
                        }
                        self.dispatched.set(k, moved);
                        proof {
                            assert(self.dispatched_seq() =~= insert_effect(d, gid, moved_view.1));
                        }
                    },
                    None => {
                        proof {
                            assert(!has_id(d, gid)) by {
                                if has_id(d, gid) {
                                    let m = index_of_id(d, gid);
                                    assert(0 <= m < d.len() && d[m].0 == gid);
                                }
                            }
                        }
                        self.dispatched.push(moved);
                        proof {
                            assert(self.dispatched_seq() =~= insert_effect(d, gid, moved_view.1));
                        }
                    },
                }
                proof {
                    assert(moved_view.1 == old(self).active_map()[gid]) by {
                        lemma_map_of_entries_facts(s);
                        assert(s[i as int].0 == gid);
                    }
                    let dr = self.dispatched_seq();
                    assert forall|k: int| 0 <= k < dr.len() implies (#[trigger] dr[k]).0
                        == spec_bundle_id(dr[k].1) by {
                        if has_id(d, gid) {
                            if k != index_of_id(d, gid) {
                                assert(dr[k] == d[k]);
                            } else {
                                assert(dr[k] == (gid, moved_view.1));
                            }
                        } else {
                            if k < d.len() {
                                assert(dr[k] == d[k]);
                            } else {
                                assert(dr[k] == (gid, moved_view.1));
                            }
                        }
                    }
                    let ar = self.active_seq();
                    assert forall|k: int| 0 <= k < ar.len() implies (#[trigger] ar[k]).0
                        == spec_bundle_id(ar[k].1) by {
                        let m: int = if k < i as int {
                            k
                        } else {
                            k + 1
                        };
                        assert(ar[k] == s[m]);
                    }
                }
                Ok(())
            },
            None => {
                proof {
                    assert(!has_id(s, gid)) by {
                        if has_id(s, gid) {
                            let k = index_of_id(s, gid);
                            assert(0 <= k < s.len() && s[k].0 == gid);
                        }
                    }
                }
                Err(StoreError::NotFound)
            },
        }
    }

    /// Load from the dispatched area by exact identifier.
    pub fn load_dispatched(&self, id_hash: &str) -> (r: Result<Bundle, StoreError>)
        requires
            self.wf(),
        ensures
            match r {
                Ok(b) => self.dispatched_map().dom().contains(id_hash@) && b@
                    == self.dispatched_map()[id_hash@],
                Err(e) => e is NotFound && !self.dispatched_map().dom().contains(id_hash@),
            },
    {
        proof {
            lemma_map_of_entries_facts(self.dispatched_seq());
        }
        let id = id_hash.to_owned();
        match find_entry_index(&self.dispatched, &id) {
            Some(i) => {
                proof {
                    assert(self.dispatched_seq()[i as int].0 == id_hash@);
                    assert(has_id(self.dispatched_seq(), id_hash@));
                }
                Ok(self.dispatched[i].bundle.clone())
            },
            None => {
                proof {
                    assert(!has_id(self.dispatched_seq(), id_hash@)) by {
                        if has_id(self.dispatched_seq(), id_hash@) {
                            let k = index_of_id(self.dispatched_seq(), id_hash@);
                            assert(0 <= k < self.dispatched_seq().len() && self.dispatched_seq()[
                                k].0 == id_hash@);
                        }
                    }
                }
                Err(StoreError::NotFound)
            },
        }
    }

    /// Purge every record that is expired at `now`; the records that are
    /// not expired stay, in order.
    pub fn cleanup_expired_at(&mut self, now: u64) -> (r: Result<(), StoreError>)
        requires
            old(self).wf(),
        ensures
            r is Ok,
            final(self).wf(),
            final(self).spec_dir() == old(self).spec_dir(),
            final(self).dispatched_seq() == old(self).dispatched_seq(),
            final(self).active_seq() == live_entries(old(self).active_seq(), now),
    {
        let ghost s = self.active_seq();
        let mut kept: Vec<StoredBundle> = Vec::new();
        let n = self.entries.len();
        for i in 0..n
            invariant
                n == self.entries@.len(),
                s == self.active_seq(),
                s.len() == n,
                kept@.map_values(|e: StoredBundle| (e.id@, e.bundle@)) =~= live_entries(
                    s.subrange(0, i as int),
                    now,
                ),
        {
            proof {
                assert(s.subrange(0, i + 1).drop_last() =~= s.subrange(0, i as int));
                assert(s.subrange(0, i + 1).last() == s[i as int]);
                assert(s[i as int] == (self.entries@[i as int].id@, self.entries@[i as int]
                    .bundle@));
            }
            if !self.entries[i].bundle.is_expired_at(now) {
                let record = StoredBundle {
                    id: self.entries[i].id.clone(),
                    bundle: self.entries[i].bundle.clone(),
                };
                kept.push(record);
            }
        }
        proof {
            assert(s.subrange(0, n as int) =~= s);
        }
        self.entries = kept;
        proof {
            lemma_live_entries(s, now);
            let r = self.active_seq();
            assert forall|k: int| 0 <= k < r.len() implies (#[trigger] r[k]).0 == spec_bundle_id(
                r[k].1,
            ) by {
                let m = choose|m: int| 0 <= m < s.len() && (#[trigger] r[k]) == s[m];
            }
        }
        Ok(())
    }


    /// How many active records are not yet expired and how many are
    /// expired, at `now`.
    pub fn expired_counts_at(&self, now: u64) -> (r: (usize, usize))
        ensures
            r.1 == count_expired(self.active_seq(), now),
            r.0 + r.1 == self.active_seq().len(),
            r.0 + r.1 <= usize::MAX,
    {
        let ghost s = self.active_seq();
        let mut expired: usize = 0;
        let n = self.entries.len();
        for i in 0..n
            invariant
                n == self.entries@.len(),
                s == self.active_seq(),
                s.len() == n,
                expired == count_expired(s.subrange(0, i as int), now),
                expired <= i,
        {
            proof {
                assert(s.subrange(0, i + 1).drop_last() =~= s.subrange(0, i as int));
                assert(s.subrange(0, i + 1).last() == s[i as int]);
                assert(s[i as int].1 == self.entries@[i as int].bundle@);
            }
            if self.entries[i].bundle.is_expired_at(now) {
                expired = expired + 1;
            }
        }
        proof {
            assert(s.subrange(0, n as int) =~= s);
        }
        (n - expired, expired)
    }

    /// Purge expired records against the system clock; the decision for
    /// a given time stamp is [`BundleStore::cleanup_expired_at`].
    pub fn cleanup_expired(&mut self) -> (r: Result<(), StoreError>)
        requires
            old(self).wf(),
        ensures
            r is Ok,
            final(self).wf(),
            final(self).spec_dir() == old(self).spec_dir(),
            final(self).dispatched_seq() == old(self).dispatched_seq(),
            exists|now: u64|
                final(self).active_seq() == live_entries(old(self).active_seq(), now),
    {
        let now = crate::config::generate_creation_timestamp();
        self.cleanup_expired_at(now)
    }
}

/// Position of the record carrying exactly `id`, if any.
fn find_entry_index(entries: &Vec<StoredBundle>, id: &String) -> (r: Option<usize>)
    ensures
        match r {
            Some(i) => i < entries@.len() && entries@[i as int].id@ == id@ && forall|j: int|
                0 <= j < i ==> (#[trigger] entries@[j]).id@ != id@,
            None => forall|j: int| 0 <= j < entries@.len() ==> (#[trigger] entries@[j]).id@ != id@,
        },
{
    let n = entries.len();
    for i in 0..n
        invariant
            n == entries@.len(),
            forall|j: int| 0 <= j < i ==> (#[trigger] entries@[j]).id@ != id@,
    {
        if entries[i].id.eq(id) {
            return Some(i);
        }
    }
    None
}


/// Round trip of two insertions under distinct identities: after filing
/// `b1` and then `b2`, whose `(source, destination, creation_timestamp)`
/// triples differ and whose stored identities differ (the identities are
/// digests, so colliding digests are left out), the store lists both
/// identifiers and each loads back unchanged, payload included.
pub proof fn lemma_two_inserts_round_trip(
    s: Seq<(Seq<char>, BundleView)>,
    b1: BundleView,
    b2: BundleView,
)
    requires
        distinct_ids(s),
        b1.source != b2.source || b1.destination != b2.destination || b1.creation_timestamp
            != b2.creation_timestamp,
        spec_bundle_id(b1) != spec_bundle_id(b2),
    ensures
        ({
            let s2 = insert_effect(
                insert_effect(s, spec_bundle_id(b1), b1),
                spec_bundle_id(b2),
                b2,
            );
            &&& has_id(s2, spec_bundle_id(b1))
            &&& has_id(s2, spec_bundle_id(b2))
            &&& map_of_entries(s2)[spec_bundle_id(b1)] == b1
            &&& map_of_entries(s2)[spec_bundle_id(b2)] == b2
        }),
{
    let id1 = spec_bundle_id(b1);
    let id2 = spec_bundle_id(b2);
    lemma_insert_effect(s, id1, b1);
    let s1 = insert_effect(s, id1, b1);
    lemma_insert_effect(s1, id2, b2);
    let s2 = insert_effect(s1, id2, b2);
    lemma_map_of_entries_facts(s2);
    assert(map_of_entries(s2) == map_of_entries(s).insert(id1, b1).insert(id2, b2));
    assert(map_of_entries(s2)[id1] == b1);
    assert(map_of_entries(s2)[id2] == b2);
    assert(map_of_entries(s2).dom().contains(id1));
    assert(map_of_entries(s2).dom().contains(id2));
}

/// Purging a store that holds one expired and one non-expired record
/// leaves exactly the non-expired one, whichever order they stand in.
pub proof fn lemma_cleanup_keeps_live(
    e1: (Seq<char>, BundleView),
    e2: (Seq<char>, BundleView),
    now: u64,
)
    requires
        e1.1.expired_at(now),
        !e2.1.expired_at(now),
    ensures
        live_entries(seq![e1, e2], now) =~= seq![e2],
        live_entries(seq![e2, e1], now) =~= seq![e2],
{
    let s12 = seq![e1, e2];
    let s21 = seq![e2, e1];
    assert(s12.drop_last() =~= seq![e1]);
    assert(s21.drop_last() =~= seq![e2]);
    assert(seq![e1].drop_last() =~= Seq::<(Seq<char>, BundleView)>::empty());
    assert(seq![e2].drop_last() =~= Seq::<(Seq<char>, BundleView)>::empty());
    assert(live_entries(Seq::<(Seq<char>, BundleView)>::empty(), now) =~= Seq::<(
        Seq<char>,
        BundleView,
    )>::empty());
    assert(seq![e1].last() == e1);
    assert(seq![e2].last() == e2);
    assert(live_entries(seq![e1], now) =~= Seq::<(Seq<char>, BundleView)>::empty());
    assert(live_entries(seq![e2], now) =~= seq![e2]);
    assert(live_entries(s12, now) =~= seq![e2]);
    assert(live_entries(s21, now) =~= seq![e2]);
}

/// Dispatch moves a record: afterwards the active area no longer holds
/// the identifier -- so dispatching the same bundle again fails on the
/// missing source -- and the dispatched area holds the very bundle that
/// was stored, under the same identifier.
pub proof fn lemma_dispatch_moves_record(
    s: Seq<(Seq<char>, BundleView)>,
    d: Seq<(Seq<char>, BundleView)>,
    id: Seq<char>,
)
    requires
        distinct_ids(s),
        distinct_ids(d),
        has_id(s, id),
    ensures
        ({
            let s2 = s.remove(index_of_id(s, id));
            let d2 = insert_effect(d, id, map_of_entries(s)[id]);
            &&& !has_id(s2, id)
            &&& has_id(d2, id)
            &&& map_of_entries(d2)[id] == map_of_entries(s)[id]
        }),
{
    lemma_remove_effect(s, id);
    let b = map_of_entries(s)[id];
    lemma_insert_effect(d, id, b);
    let d2 = insert_effect(d, id, b);
    lemma_map_of_entries_facts(d2);
    assert(map_of_entries(d2) == map_of_entries(d).insert(id, b));
    assert(map_of_entries(d2).dom().contains(id));
}


/// How many records are expired at `now`.
pub open spec fn count_expired(s: Seq<(Seq<char>, BundleView)>, now: u64) -> int
    decreases s.len(),
{
    if s.len() == 0 {
        0
    } else {
        count_expired(s.drop_last(), now) + if s.last().1.expired_at(now) {
            1int
        } else {
            0int
        }
    }
}

} // verus!
