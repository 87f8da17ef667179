//! The deduplication cache: the memo from metadata fingerprints to content
//! hashes, the upload ledger that records which content is held by which
//! store, and the in-flight locks that keep two tasks from encrypting and
//! uploading the same content at once.
use vstd::prelude::*;
use vstd::hash_map::StringHashMap;
use crate::hash::{content_hash, data, fingerprint, metadata};
use vstd::string::StringSliceAdditionalSpecFns;
use crate::store::DataStore;

verus! {

pub open spec fn opt_view(o: Option<String>) -> Option<Seq<char>> {
    match o {
        Some(s) => Some(s@),
        None => None,
    }
}

fn copy_opt(o: &Option<String>) -> (r: Option<String>)
    ensures
        opt_view(r) == opt_view(*o),
{
    match o {
        Some(s) => Some(s.clone()),
        None => None,
    }
}

fn copy_ids(v: &Vec<i32>) -> (r: Vec<i32>)
    ensures
        r@ == v@,
{
    let mut r: Vec<i32> = Vec::new();
    let mut i: usize = 0;
    while i < v.len()
        invariant
            i <= v@.len(),
            r@ == v@.subrange(0, i as int),
        decreases v@.len() - i,
    {
        r.push(v[i]);
        assert(v@.subrange(0, i + 1) == v@.subrange(0, i as int).push(v@[i as int]));
        i = i + 1;
    }
    assert(v@.subrange(0, v@.len() as int) == v@);
    r
}

fn contains_id(v: &Vec<i32>, id: i32) -> (r: bool)
    ensures
        r == v@.contains(id),
{
    let mut i: usize = 0;
    while i < v.len()
        invariant
            i <= v@.len(),
            forall|j: int| 0 <= j < i ==> v@[j] != id,
        decreases v@.len() - i,
    {
        if v[i] == id {
            return true;
        }
        i = i + 1;
    }
    false
}

/// The ids of the stores in a list, in order.
pub open spec fn store_ids(stores: Seq<DataStore>) -> Seq<i32> {
    stores.map_values(|s: DataStore| s.id)
}

spec fn copy_in(stored: Map<Seq<char>, Vec<i32>>, h: Seq<char>, id: i32) -> bool {
    stored.contains_key(h) && stored[h]@.contains(id)
}

spec fn row_in(rows: Seq<LedgerRow>, h: Seq<char>, id: i32) -> bool {
    exists|i: int| 0 <= i < rows.len() && #[trigger] rows[i].data_hash@ == h && rows[i].store_id == id
}

spec fn ledger_consistent(stored: Map<Seq<char>, Vec<i32>>, rows: Seq<LedgerRow>) -> bool {
    forall|h: Seq<char>, id: i32| #[trigger] copy_in(stored, h, id) == row_in(rows, h, id)
}

spec fn rows_unique(rows: Seq<LedgerRow>) -> bool {
    forall|i: int, j: int|
        0 <= i < j < rows.len() ==> !(#[trigger] rows[i].data_hash@ == #[trigger] rows[j].data_hash@
            && rows[i].store_id == rows[j].store_id)
}

spec fn disjoint(stale: Map<Seq<char>, Option<String>>, used: Map<Seq<char>, Option<String>>) -> bool {
    forall|k: Seq<char>| !(#[trigger] stale.contains_key(k) && used.contains_key(k))
}

spec fn keys_listed(used: Map<Seq<char>, Option<String>>, keys: Seq<String>) -> bool {
    &&& forall|i: int| 0 <= i < keys.len() ==> used.contains_key(#[trigger] keys[i]@)
    &&& forall|k: Seq<char>|
        #[trigger] used.contains_key(k) ==> exists|i: int| 0 <= i < keys.len() && #[trigger] keys[i]@ == k
    &&& forall|i: int, j: int| 0 <= i < j < keys.len() ==> #[trigger] keys[i]@ != #[trigger] keys[j]@
}

spec fn keys_in(dom: Set<Seq<char>>, keys: Seq<String>) -> bool {
    &&& forall|i: int| 0 <= i < keys.len() ==> dom.contains(#[trigger] keys[i]@)
    &&& forall|k: Seq<char>|
        #[trigger] dom.contains(k) ==> exists|i: int| 0 <= i < keys.len() && #[trigger] keys[i]@ == k
    &&& forall|i: int, j: int| 0 <= i < j < keys.len() ==> #[trigger] keys[i]@ != #[trigger] keys[j]@
}

proof fn lemma_keys_push(dom: Set<Seq<char>>, keys: Seq<String>, key: String)
    requires
        keys_in(dom, keys),
        !dom.contains(key@),
    ensures
        keys_in(dom.insert(key@), keys.push(key)),
{
    let n = keys.len() as int;
    let ks = keys.push(key);
    assert(ks[n]@ == key@);
    assert forall|k: Seq<char>| #[trigger] dom.insert(key@).contains(k) implies exists|i: int|
        0 <= i < ks.len() && #[trigger] ks[i]@ == k by {
        if k == key@ {
            assert(ks[n]@ == k);
        } else {
            let i = choose|i: int| 0 <= i < keys.len() && #[trigger] keys[i]@ == k;
            assert(ks[i]@ == k);
        }
    }
    assert forall|i: int, j: int| 0 <= i < j < ks.len() implies #[trigger] ks[i]@ != #[trigger] ks[j]@ by {
        if j == n {
            assert(dom.contains(keys[i]@));
        } else {
            assert(ks[i] == keys[i] && ks[j] == keys[j]);
        }
    }
    assert forall|i: int| 0 <= i < ks.len() implies dom.insert(key@).contains(#[trigger] ks[i]@) by {
        if i < n {
            assert(ks[i] == keys[i]);
        }
    }
}

fn copy_keys(v: &Vec<String>) -> (r: Vec<String>)
    ensures
        r@.len() == v@.len(),
        forall|i: int| 0 <= i < v@.len() ==> #[trigger] r@[i]@ == v@[i]@,
{
    let mut r: Vec<String> = Vec::new();
    let mut i: usize = 0;
    while i < v.len()
        invariant
            i <= v@.len(),
            r@.len() == i,
            forall|j: int| 0 <= j < i ==> #[trigger] r@[j]@ == v@[j]@,
        decreases v@.len() - i,
    {
        let k = v[i].clone();
        let ghost prev = r@;
        r.push(k);
        assert(forall|j: int| 0 <= j < i ==> r@[j] == prev[j]);
        i = i + 1;
    }
    r
}

/// One row of the upload ledger: this content is held by this store.
/// `encrypted_md5` is advisory and may be empty.
pub struct LedgerRow {
    pub data_hash: String,
    pub encrypted_md5: String,
    pub store_id: i32,
}

/// The plain values of a ledger row: content hash, checksum, store id.
pub open spec fn row_view(row: LedgerRow) -> (Seq<char>, Seq<char>, i32) {
    (row.data_hash@, row.encrypted_md5@, row.store_id)
}

/// The plain values of ledger rows, in order.
pub open spec fn rows_view(rows: Seq<LedgerRow>) -> Seq<(Seq<char>, Seq<char>, i32)> {
    rows.map_values(|row: LedgerRow| row_view(row))
}

/// The rows that record one content hash, with its checksum, for each store
/// of a list, in the list's order.
pub open spec fn new_rows(h: Seq<char>, md5: Seq<char>, ids: Seq<i32>) -> Seq<(Seq<char>, Seq<char>, i32)> {
    ids.map_values(|id: i32| (h, md5, id))
}

/// One row of the memo: a fingerprint and the content hash known for it.
pub struct MemoRow {
    pub fs_hash: String,
    pub data_hash: Option<String>,
}

/// Why the ledger refused a record.
pub enum CacheError {
    /// The store already holds the content, or was named twice.
    AlreadyStored(i32),
}

/// The state of the deduplication cache. Memo rows touched since `init` are
/// in use; `cleanup` drops the others.
pub struct AsyncCache {
    stale: StringHashMap<Option<String>>,
    used: StringHashMap<Option<String>>,
    used_keys: Vec<String>,
    memo_keys: Vec<String>,
    rows: Vec<LedgerRow>,
    stored: StringHashMap<Vec<i32>>,
    locks: StringHashMap<bool>,
}

impl AsyncCache {
    /// The memo: each fingerprint with the content hash recorded for it, if any.
    pub closed spec fn memo(self) -> Map<Seq<char>, Option<Seq<char>>> {
        Map::new(
            |k: Seq<char>| self.stale@.contains_key(k) || self.used@.contains_key(k),
            |k: Seq<char>|
                if self.used@.contains_key(k) {
                    opt_view(self.used@[k])
                } else {
                    opt_view(self.stale@[k])
                },
        )
    }

    /// Whether a memo row has been touched since the last `init`.
    pub closed spec fn in_use(self, fp: Seq<char>) -> bool {
        self.used@.contains_key(fp)
    }

    /// Whether the ledger records that a store holds the content.
    pub closed spec fn has_copy(self, h: Seq<char>, id: i32) -> bool {
        copy_in(self.stored@, h, id)
    }

    /// The content hashes that an in-flight task holds.
    pub closed spec fn locked(self) -> Set<Seq<char>> {
        self.locks@.dom()
    }

    /// The ledger's rows, in the order in which they were recorded.
    pub closed spec fn rows(self) -> Seq<LedgerRow> {
        self.rows@
    }

    pub closed spec fn logged(self, h: Seq<char>, id: i32) -> bool {
        row_in(self.rows@, h, id)
    }

    /// The stores of a list that the ledger does not record as holding the
    /// content, in the list's order.
    pub open spec fn missing(self, h: Seq<char>, ids: Seq<i32>) -> Seq<i32>
        decreases ids.len(),
    {
        if ids.len() == 0 {
            Seq::empty()
        } else if self.has_copy(h, ids.last()) {
            self.missing(h, ids.drop_last())
        } else {
            self.missing(h, ids.drop_last()).push(ids.last())
        }
    }

    /// Whether recording the content for these stores would repeat a row: a
    /// store already holds it, or is named twice.
    pub open spec fn conflicts(self, h: Seq<char>, ids: Seq<i32>) -> bool {
        (exists|i: int| 0 <= i < ids.len() && self.has_copy(h, #[trigger] ids[i])) || (exists|
            i: int,
            j: int,
        | 0 <= i < j < ids.len() && #[trigger] ids[i] == #[trigger] ids[j])
    }

    pub closed spec fn wf(self) -> bool {
        &&& disjoint(self.stale@, self.used@)
        &&& keys_listed(self.used@, self.used_keys@)
        &&& ledger_consistent(self.stored@, self.rows@)
        &&& rows_unique(self.rows@)
        &&& keys_in(self.memo().dom(), self.memo_keys@)
    }

    /// Whether two states hold the same ledger.
    pub open spec fn same_ledger(self, other: AsyncCache) -> bool {
        &&& self.rows() == other.rows()
        &&& forall|h: Seq<char>, id: i32| #[trigger] self.has_copy(h, id) == other.has_copy(h, id)
    }

    /// Whether two states mark the same memo rows as in use.
    pub open spec fn same_use(self, other: AsyncCache) -> bool {
        forall|k: Seq<char>| #[trigger] self.in_use(k) == other.in_use(k)
    }

    /// What a lookup of a fingerprint finds in the memo.
    pub open spec fn memo_lookup(self, fp: Seq<char>) -> Option<Seq<char>> {
        if self.memo().contains_key(fp) {
            self.memo()[fp]
        } else {
            None
        }
    }

    /// The memo once a fingerprint has been looked up: a new row, without a
    /// content hash, for one it did not hold.
    pub open spec fn memo_touched(self, fp: Seq<char>) -> Map<Seq<char>, Option<Seq<char>>> {
        if self.memo().contains_key(fp) {
            self.memo()
        } else {
            self.memo().insert(fp, None)
        }
    }

    /// An empty cache.
    pub fn new() -> (r: AsyncCache)
        ensures
            r.wf(),
            r.memo() == Map::<Seq<char>, Option<Seq<char>>>::empty(),
            forall|h: Seq<char>, id: i32| !r.has_copy(h, id),
            r.locked() == Set::<Seq<char>>::empty(),
            r.rows() == Seq::<LedgerRow>::empty(),
    {
        let r = AsyncCache {
            stale: StringHashMap::new(),
            used: StringHashMap::new(),
            used_keys: Vec::new(),
            memo_keys: Vec::new(),
            rows: Vec::new(),
            stored: StringHashMap::new(),
            locks: StringHashMap::new(),
        };
        assert(r.memo() =~= Map::<Seq<char>, Option<Seq<char>>>::empty());
        assert(r.memo().dom() =~= Set::<Seq<char>>::empty());
        assert(r.locked() =~= Set::<Seq<char>>::empty());
        r
    }

    /// Starts a run: every memo row is marked unused and the in-flight locks
    /// are released.
    pub fn init(&mut self)
        requires
            old(self).wf(),
        ensures
            final(self).wf(),
            final(self).memo() == old(self).memo(),
            forall|k: Seq<char>| !#[trigger] final(self).in_use(k),
            final(self).same_ledger(*old(self)),
            final(self).locked() == Set::<Seq<char>>::empty(),
    {
        let mut taken = StringHashMap::new();
        core::mem::swap(&mut self.used, &mut taken);
        self.stale.union_prefer_right(taken);
        self.used_keys = Vec::new();
        self.locks.clear();
        assert(self.memo() =~= old(self).memo());
        assert(self.memo().dom() =~= old(self).memo().dom());
        assert(self.locked() =~= Set::<Seq<char>>::empty());
    }

    /// Ends a run: the memo rows that this run did not touch are deleted.
    pub fn cleanup(&mut self)
        requires
            old(self).wf(),
        ensures
            final(self).wf(),
            final(self).memo() == old(self).memo().restrict(
                Set::new(|k: Seq<char>| old(self).in_use(k)),
            ),
            final(self).same_use(*old(self)),
            final(self).same_ledger(*old(self)),
            final(self).locked() == old(self).locked(),
    {
        self.stale = StringHashMap::new();
        self.memo_keys = copy_keys(&self.used_keys);
        assert(self.memo() =~= old(self).memo().restrict(
            Set::new(|k: Seq<char>| old(self).in_use(k)),
        ));
        proof {
            let dom = self.memo().dom();
            let keys = self.memo_keys@;
            assert(dom =~= self.used@.dom());
            assert forall|k: Seq<char>| #[trigger] dom.contains(k) implies exists|i: int|
                0 <= i < keys.len() && #[trigger] keys[i]@ == k by {
                assert(self.used@.contains_key(k));
                let i = choose|i: int| 0 <= i < self.used_keys@.len() && #[trigger] self.used_keys@[i]@ == k;
                assert(keys[i]@ == k);
            }
            assert forall|i: int, j: int| 0 <= i < j < keys.len() implies #[trigger] keys[i]@ != #[trigger] keys[j]@ by {
                assert(self.used_keys@[i]@ != self.used_keys@[j]@);
            }
            assert forall|i: int| 0 <= i < keys.len() implies dom.contains(#[trigger] keys[i]@) by {
                assert(self.used@.contains_key(self.used_keys@[i]@));
            }
        }
    }

    fn mark_used_and_lookup_hash(&mut self, fp: String) -> (r: Option<String>)
        requires
            old(self).wf(),
        ensures
            final(self).wf(),
            opt_view(r) == old(self).memo_lookup(fp@),
            final(self).memo() == old(self).memo_touched(fp@),
            final(self).in_use(fp@),
            forall|k: Seq<char>| k != fp@ ==> #[trigger] final(self).in_use(k) == old(self).in_use(k),
            final(self).same_ledger(*old(self)),
            final(self).locked() == old(self).locked(),
    {
        let found = match self.used.get(fp.as_str()) {
            Some(v) => Some(copy_opt(v)),
            None => None,
        };
        match found {
            Some(v) => {
                return v;
            },
            None => {},
        }
        let known = self.stale.contains_key(fp.as_str());
        if !known {
            proof {
                lemma_keys_push(self.memo().dom(), self.memo_keys@, fp);
            }
            self.memo_keys.push(fp.clone());
        }
        let value = match self.stale.get(fp.as_str()) {
            Some(v) => copy_opt(v),
            None => None,
        };
        let kept = copy_opt(&value);
        self.stale.remove(fp.as_str());
        self.used.insert(fp.clone(), kept);
        let ghost before = self.used_keys@;
        self.used_keys.push(fp);
        proof {
            assert(self.used_keys@[before.len() as int]@ == fp@);
            assert forall|k: Seq<char>| #[trigger] self.used@.contains_key(k) implies exists|i: int|
                0 <= i < self.used_keys@.len() && #[trigger] self.used_keys@[i]@ == k by {
                if k == fp@ {
                    assert(self.used_keys@[before.len() as int]@ == k);
                } else {
                    assert(old(self).used@.contains_key(k));
                    let i = choose|i: int| 0 <= i < before.len() && #[trigger] before[i]@ == k;
                    assert(self.used_keys@[i]@ == k);
                }
            }
            assert forall|i: int, j: int| 0 <= i < j < self.used_keys@.len() implies
                #[trigger] self.used_keys@[i]@ != #[trigger] self.used_keys@[j]@ by {
                if j == before.len() {
                    assert(old(self).used@.contains_key(before[i]@));
                }
            }
        }
        assert(self.memo() =~= old(self).memo_touched(fp@));
        assert(self.memo().dom() =~= if known {
            old(self).memo().dom()
        } else {
            old(self).memo().dom().insert(fp@)
        });
        value
    }

    /// Looks up the content hash memoised for a file, keyed by its metadata
    /// fingerprint, and marks that memo row in use; a fingerprint not seen
    /// before gets a new row without a hash.
    pub fn try_get_hash(&mut self, len: u64, mtime: i64, path: &[u8]) -> (r: Option<String>)
        requires
            old(self).wf(),
        ensures
            final(self).wf(),
            opt_view(r) == old(self).memo_lookup(fingerprint(len, mtime, path@)),
            final(self).memo() == old(self).memo_touched(fingerprint(len, mtime, path@)),
            final(self).in_use(fingerprint(len, mtime, path@)),
            forall|k: Seq<char>|
                k != fingerprint(len, mtime, path@) ==> #[trigger] final(self).in_use(k)
                    == old(self).in_use(k),
            final(self).same_ledger(*old(self)),
            final(self).locked() == old(self).locked(),
    {
        let fp = metadata(len, mtime, path);
        self.mark_used_and_lookup_hash(fp)
    }

    /// The content hash of a file: the memoised one when the memo has it,
    /// else the one computed from the file's bytes, which is then memoised.
    pub fn get_hash(&mut self, len: u64, mtime: i64, path: &[u8], contents: &[u8], hmac_secret: &str) -> (r: String)
        requires
            old(self).wf(),
        ensures
            final(self).wf(),
            ({
                let fp = fingerprint(len, mtime, path@);
                match old(self).memo_lookup(fp) {
                    Some(h) => r@ == h && final(self).memo() == old(self).memo(),
                    None => {
                        &&& r@ == content_hash(contents@, hmac_secret.spec_bytes())
                        &&& final(self).memo() == old(self).memo().insert(fp, Some(r@))
                    },
                }
            }),
            final(self).in_use(fingerprint(len, mtime, path@)),
            final(self).same_ledger(*old(self)),
            final(self).locked() == old(self).locked(),
    {
        let fp = metadata(len, mtime, path);
        let ghost k = fp@;
        match self.mark_used_and_lookup_hash(fp.clone()) {
            Some(h) => h,
            None => {
                let h = data(contents, hmac_secret);
                self.set_data_hash(fp.as_str(), h.as_str());
                assert(self.memo() =~= old(self).memo().insert(k, Some(h@)));
                h
            },
        }
    }

    /// Records the content hash for a fingerprint that has a memo row;
    /// returns the number of rows changed.
    pub fn set_data_hash(&mut self, fs_hash: &str, data_hash: &str) -> (r: u64)
        requires
            old(self).wf(),
        ensures
            final(self).wf(),
            r == (if old(self).memo().contains_key(fs_hash@) { 1u64 } else { 0u64 }),
            final(self).memo() == (if old(self).memo().contains_key(fs_hash@) {
                old(self).memo().insert(fs_hash@, Some(data_hash@))
            } else {
                old(self).memo()
            }),
            final(self).same_use(*old(self)),
            final(self).same_ledger(*old(self)),
            final(self).locked() == old(self).locked(),
    {
        if self.used.contains_key(fs_hash) {
            self.used.insert(fs_hash.to_owned(), Some(data_hash.to_owned()));
            assert(self.memo() =~= old(self).memo().insert(fs_hash@, Some(data_hash@)));
            assert(self.memo().dom() =~= old(self).memo().dom());
            1
        } else if self.stale.contains_key(fs_hash) {
            self.stale.insert(fs_hash.to_owned(), Some(data_hash.to_owned()));
            assert(self.memo() =~= old(self).memo().insert(fs_hash@, Some(data_hash@)));
            assert(self.memo().dom() =~= old(self).memo().dom());
            1
        } else {
            assert(self.memo() =~= old(self).memo());
            0
        }
    }

    /// Takes the in-flight lock on a content hash: true when no task held it,
    /// false when one already does.
    pub fn lock_data(&mut self, hash: &str) -> (r: bool)
        requires
            old(self).wf(),
        ensures
            final(self).wf(),
            r == !old(self).locked().contains(hash@),
            final(self).locked() == old(self).locked().insert(hash@),
            final(self).memo() == old(self).memo(),
            final(self).same_use(*old(self)),
            final(self).same_ledger(*old(self)),
    {
        if self.locks.contains_key(hash) {
            assert(old(self).locked().insert(hash@) =~= old(self).locked());
            false
        } else {
            self.locks.insert(hash.to_owned(), true);
            assert(self.locked() =~= old(self).locked().insert(hash@));
            true
        }
    }

    fn holds(&self, hash: &str, id: i32) -> (r: bool)
        ensures
            r == self.has_copy(hash@, id),
    {
        match self.stored.get(hash) {
            Some(v) => contains_id(v, id),
            None => false,
        }
    }

    /// The ids of the stores, in the list's order, that the ledger does not
    /// record as holding the content.
    pub fn requires_upload(&self, data_hash: &String, stores: &Vec<DataStore>) -> (r: Vec<i32>)
        ensures
            r@ == self.missing(data_hash@, store_ids(stores@)),
    {
        let ghost ids = store_ids(stores@);
        let mut r: Vec<i32> = Vec::new();
        let mut i: usize = 0;
        while i < stores.len()
            invariant
                i <= stores@.len(),
                ids == store_ids(stores@),
                r@ == self.missing(data_hash@, ids.subrange(0, i as int)),
            decreases stores@.len() - i,
        {
            let id = stores[i].id;
            assert(ids.subrange(0, i + 1).drop_last() == ids.subrange(0, i as int));
            assert(ids.subrange(0, i + 1).last() == id);
            if !self.holds(data_hash.as_str(), id) {
                r.push(id);
            }
            i = i + 1;
        }
        assert(ids.subrange(0, stores@.len() as int) == ids);
        r
    }

    /// Whether the ledger records every listed store as holding the content.
    pub fn is_data_in_cold_storage(&self, data_hash: &String, stores: &Vec<DataStore>) -> (r: bool)
        ensures
            r == (forall|i: int|
                0 <= i < stores@.len() ==> self.has_copy(data_hash@, #[trigger] stores@[i].id)),
    {
        let mut i: usize = 0;
        while i < stores.len()
            invariant
                i <= stores@.len(),
                forall|j: int| 0 <= j < i ==> self.has_copy(data_hash@, #[trigger] stores@[j].id),
            decreases stores@.len() - i,
        {
            if !self.holds(data_hash.as_str(), stores[i].id) {
                return false;
            }
            i = i + 1;
        }
        true
    }

    fn record(&mut self, hash: &str, md5: &str, id: i32)
        requires
            old(self).wf(),
            !old(self).has_copy(hash@, id),
        ensures
            final(self).wf(),
            forall|h: Seq<char>, j: i32|
                #[trigger] final(self).has_copy(h, j) == (old(self).has_copy(h, j) || (h == hash@
                    && j == id)),
            final(self).rows().len() == old(self).rows().len() + 1,
            final(self).rows().drop_last() == old(self).rows(),
            final(self).rows().last().data_hash@ == hash@,
            final(self).rows().last().encrypted_md5@ == md5@,
            final(self).rows().last().store_id == id,
            final(self).memo() == old(self).memo(),
            final(self).same_use(*old(self)),
            final(self).locked() == old(self).locked(),
    {
        let mut ids = match self.stored.get(hash) {
            Some(v) => copy_ids(v),
            None => Vec::new(),
        };
        ids.push(id);
        self.stored.insert(hash.to_owned(), ids);
        self.rows.push(LedgerRow {
            data_hash: hash.to_owned(),
            encrypted_md5: md5.to_owned(),
            store_id: id,
        });
        proof {
            let n = old(self).rows@.len();
            assert forall|h: Seq<char>, j: i32| #[trigger]
                self.has_copy(h, j) == (old(self).has_copy(h, j) || (h == hash@ && j == id)) by {
                if h == hash@ {
                    if old(self).stored@.contains_key(h) {
                        assert(self.stored@[h]@ == old(self).stored@[h]@.push(id));
                        if old(self).stored@[h]@.contains(j) {
                            let k = choose|k: int| 0 <= k < old(self).stored@[h]@.len() && #[trigger] old(self).stored@[h]@[k] == j;
                            assert(self.stored@[h]@[k] == j);
                        }
                    } else {
                        assert(self.stored@[h]@ == seq![id]);
                    }
                    if j == id {
                        assert(self.stored@[h]@[self.stored@[h]@.len() - 1] == id);
                    }
                }
            }
            assert forall|h: Seq<char>, j: i32| #[trigger]
                copy_in(self.stored@, h, j) == row_in(self.rows@, h, j) by {
                assert(self.has_copy(h, j) == (old(self).has_copy(h, j) || (h == hash@ && j == id)));
                if self.logged(h, j) {
                    let k = choose|k: int|
                        0 <= k < self.rows@.len() && #[trigger] self.rows@[k].data_hash@ == h
                            && self.rows@[k].store_id == j;
                    if k < n {
                        assert(old(self).rows@[k] == self.rows@[k]);
                        assert(old(self).logged(h, j));
                    }
                }
                if old(self).logged(h, j) {
                    let k = choose|k: int|
                        0 <= k < old(self).rows@.len() && #[trigger] old(self).rows@[k].data_hash@ == h
                            && old(self).rows@[k].store_id == j;
                    assert(self.rows@[k] == old(self).rows@[k]);
                    assert(self.logged(h, j));
                }
                if h == hash@ && j == id {
                    assert(self.rows@[n as int].data_hash@ == h);
                    assert(self.logged(h, j));
                }
            }
            assert(self.rows@.drop_last() =~= old(self).rows@);
            assert(ledger_consistent(self.stored@, self.rows@));
            assert forall|a: int, b: int| 0 <= a < b < self.rows@.len() implies !(
                #[trigger] self.rows@[a].data_hash@ == #[trigger] self.rows@[b].data_hash@
                && self.rows@[a].store_id == self.rows@[b].store_id) by {
                if b == n {
                    assert(old(self).rows@[a] == self.rows@[a]);
                    if self.rows@[a].data_hash@ == hash@ && self.rows@[a].store_id == id {
                        assert(row_in(old(self).rows@, hash@, id));
                    }
                } else {
                    assert(old(self).rows@[a] == self.rows@[a]);
                    assert(old(self).rows@[b] == self.rows@[b]);
                }
            }
            assert(keys_listed(self.used@, self.used_keys@));
            assert(disjoint(self.stale@, self.used@));
        }
    }

    /// Whether the store at position `k` of a list cannot be recorded for the
    /// content: it already holds it, or an earlier position names it too.
    pub open spec fn conflict_at(self, h: Seq<char>, ids: Seq<i32>, k: int) -> bool {
        self.has_copy(h, ids[k]) || exists|j: int| 0 <= j < k && #[trigger] ids[j] == ids[k]
    }

    /// The ledger once the content is recorded for the first `k` stores of a
    /// list, and the rows it gained, are as `after` holds them.
    pub open spec fn recorded_prefix(
        self,
        after: AsyncCache,
        h: Seq<char>,
        md5: Seq<char>,
        ids: Seq<i32>,
        k: int,
    ) -> bool {
        &&& 0 <= k <= ids.len()
        &&& forall|j: int| 0 <= j < k ==> !self.conflict_at(h, ids, j)
        &&& rows_view(after.rows()) == rows_view(self.rows()) + new_rows(h, md5, ids.subrange(0, k))
        &&& forall|g: Seq<char>, id: i32|
            #[trigger] after.has_copy(g, id) == (self.has_copy(g, id) || (g == h && ids.subrange(
                0,
                k,
            ).contains(id)))
    }

    /// Records that each listed store holds the content, one store after the
    /// other, stopping at the first store that already holds it or that the
    /// list names a second time: the error names that store, and the stores
    /// before it stay recorded. Returns the number of rows recorded.
    pub fn set_data_in_cold_storage(&mut self, hash: &str, md5_hash: &str, store_ids: &Vec<i32>) -> (r: Result<usize, CacheError>)
        requires
            old(self).wf(),
        ensures
            final(self).wf(),
            r is Err <==> old(self).conflicts(hash@, store_ids@),
            exists|k: int|
                #![trigger old(self).recorded_prefix(*final(self), hash@, md5_hash@, store_ids@, k)]
                old(self).recorded_prefix(*final(self), hash@, md5_hash@, store_ids@, k) && (k
                    == store_ids@.len() <==> r is Ok) && (k < store_ids@.len() ==> old(
                    self,
                ).conflict_at(hash@, store_ids@, k) && r == Err::<usize, CacheError>(
                    CacheError::AlreadyStored(store_ids@[k]),
                )),
            r is Ok ==> r == Ok::<usize, CacheError>(store_ids@.len() as usize),
            r is Ok ==> forall|h: Seq<char>, j: i32|
                #[trigger] final(self).has_copy(h, j) == (old(self).has_copy(h, j) || (h == hash@
                    && store_ids@.contains(j))),
            r is Ok ==> rows_view(final(self).rows()) == rows_view(old(self).rows()) + new_rows(
                hash@,
                md5_hash@,
                store_ids@,
            ),
            final(self).memo() == old(self).memo(),
            final(self).same_use(*old(self)),
            final(self).locked() == old(self).locked(),
    {
        let ghost start = *self;
        let mut k: usize = 0;
        assert(rows_view(start.rows()) =~= rows_view(start.rows()) + new_rows(hash@, md5_hash@, store_ids@.subrange(0, 0)));
        while k < store_ids.len()
            invariant
                k <= store_ids@.len(),
                self.wf(),
                start == *old(self),
                start.wf(),
                start.recorded_prefix(*self, hash@, md5_hash@, store_ids@, k as int),
                self.memo() == start.memo(),
                self.same_use(start),
                self.locked() == start.locked(),
            decreases store_ids@.len() - k,
        {
            let id = store_ids[k];
            proof {
                assert(self.has_copy(hash@, id) == start.conflict_at(hash@, store_ids@, k as int)) by {
                    if store_ids@.subrange(0, k as int).contains(id) {
                        let a = choose|a: int| 0 <= a < k && #[trigger] store_ids@.subrange(0, k as int)[a] == id;
                        assert(store_ids@[a] == store_ids@[k as int]);
                    }
                    if exists|j: int| 0 <= j < k && #[trigger] store_ids@[j] == store_ids@[k as int] {
                        let a = choose|a: int| 0 <= a < k && #[trigger] store_ids@[a] == store_ids@[k as int];
                        assert(store_ids@.subrange(0, k as int)[a] == id);
                    }
                }
            }
            if self.holds(hash, id) {
                proof {
                    assert(start.conflicts(hash@, store_ids@)) by {
                        if !start.has_copy(hash@, store_ids@[k as int]) {
                            let a = choose|a: int| 0 <= a < k && #[trigger] store_ids@[a] == store_ids@[k as int];
                            assert(store_ids@[a] == store_ids@[k as int]);
                        }
                    }
                    assert(start.recorded_prefix(*self, hash@, md5_hash@, store_ids@, k as int));
                }
                return Err(CacheError::AlreadyStored(id));
            }
            let ghost prev = self.rows();
            let ghost mid = *self;
            self.record(hash, md5_hash, id);
            proof {
                assert(self.rows() =~= prev.push(self.rows().last()));
                assert(rows_view(self.rows()) =~= rows_view(prev).push((hash@, md5_hash@, id)));
                assert(new_rows(hash@, md5_hash@, store_ids@.subrange(0, k + 1)) =~= new_rows(
                    hash@,
                    md5_hash@,
                    store_ids@.subrange(0, k as int),
                ).push((hash@, md5_hash@, id)));
                assert forall|h: Seq<char>, j: i32| #[trigger] self.has_copy(h, j) == (start.has_copy(h, j) || (h == hash@
                        && store_ids@.subrange(0, k + 1).contains(j))) by {
                    assert(mid.has_copy(h, j) == (start.has_copy(h, j) || (h == hash@ && store_ids@.subrange(0, k as int).contains(j))));
                    if store_ids@.subrange(0, k as int).contains(j) {
                        let a = choose|a: int| 0 <= a < k && #[trigger] store_ids@.subrange(0, k as int)[a] == j;
                        assert(store_ids@.subrange(0, k + 1)[a] == j);
                    }
                    if store_ids@.subrange(0, k + 1).contains(j) {
                        let a = choose|a: int| 0 <= a < k + 1 && #[trigger] store_ids@.subrange(0, k + 1)[a] == j;
                        if a < k {
                            assert(store_ids@.subrange(0, k as int)[a] == j);
                        }
                    }
                    assert(store_ids@.subrange(0, k + 1)[k as int] == id);
                }
                assert(start.recorded_prefix(*self, hash@, md5_hash@, store_ids@, k + 1));
            }
            k = k + 1;
        }
        proof {
            assert(store_ids@.subrange(0, store_ids@.len() as int) == store_ids@);
            assert(!start.conflicts(hash@, store_ids@)) by {
                if exists|i: int| 0 <= i < store_ids@.len() && start.has_copy(hash@, #[trigger] store_ids@[i]) {
                    let i = choose|i: int| 0 <= i < store_ids@.len() && start.has_copy(hash@, #[trigger] store_ids@[i]);
                    assert(start.conflict_at(hash@, store_ids@, i));
                }
                if exists|i: int, j: int| 0 <= i < j < store_ids@.len() && #[trigger] store_ids@[i] == #[trigger] store_ids@[j] {
                    let (i, j) = choose|i: int, j: int| 0 <= i < j < store_ids@.len() && #[trigger] store_ids@[i] == #[trigger] store_ids@[j];
                    assert(start.conflict_at(hash@, store_ids@, j));
                }
            }
            assert(start.recorded_prefix(*self, hash@, md5_hash@, store_ids@, store_ids@.len() as int));
        }
        Ok(store_ids.len())
    }

    /// Empties the ledger, before it is rebuilt from the stores' listings.
    pub fn clear_cold_storage_cache(&mut self)
        requires
            old(self).wf(),
        ensures
            final(self).wf(),
            forall|h: Seq<char>, j: i32| !#[trigger] final(self).has_copy(h, j),
            final(self).rows() == Seq::<LedgerRow>::empty(),
            final(self).memo() == old(self).memo(),
            final(self).same_use(*old(self)),
            final(self).locked() == old(self).locked(),
    {
        self.rows = Vec::new();
        self.stored.clear();
    }

    /// Adds a memo row read back from storage, not in use. A fingerprint the
    /// memo already holds keeps its row; returns whether the row was added.
    pub fn load_memo_row(&mut self, fs_hash: String, data_hash: Option<String>) -> (r: bool)
        requires
            old(self).wf(),
        ensures
            final(self).wf(),
            r == !old(self).memo().contains_key(fs_hash@),
            final(self).memo() == (if r {
                old(self).memo().insert(fs_hash@, opt_view(data_hash))
            } else {
                old(self).memo()
            }),
            final(self).same_use(*old(self)),
            final(self).same_ledger(*old(self)),
            final(self).locked() == old(self).locked(),
    {
        if self.used.contains_key(fs_hash.as_str()) || self.stale.contains_key(fs_hash.as_str()) {
            return false;
        }
        let ghost k = fs_hash@;
        let ghost v = opt_view(data_hash);
        proof {
            lemma_keys_push(self.memo().dom(), self.memo_keys@, fs_hash);
        }
        self.memo_keys.push(fs_hash.clone());
        self.stale.insert(fs_hash, data_hash);
        assert(self.memo() =~= old(self).memo().insert(k, v));
        assert(self.memo().dom() =~= old(self).memo().dom().insert(k));
        true
    }

    /// Every memo row, each fingerprint once.
    pub fn memo_rows(&self) -> (r: Vec<MemoRow>)
        requires
            self.wf(),
        ensures
            forall|i: int|
                0 <= i < r@.len() ==> self.memo().contains_key(#[trigger] r@[i].fs_hash@)
                    && opt_view(r@[i].data_hash) == self.memo()[r@[i].fs_hash@],
            forall|k: Seq<char>|
                #[trigger] self.memo().contains_key(k) ==> exists|i: int|
                    0 <= i < r@.len() && #[trigger] r@[i].fs_hash@ == k,
            forall|i: int, j: int|
                0 <= i < j < r@.len() ==> #[trigger] r@[i].fs_hash@ != #[trigger] r@[j].fs_hash@,
    {
        let mut r: Vec<MemoRow> = Vec::new();
        let mut i: usize = 0;
        while i < self.memo_keys.len()
            invariant
                self.wf(),
                i <= self.memo_keys@.len(),
                r@.len() == i,
                forall|a: int| 0 <= a < i ==> #[trigger] r@[a].fs_hash@ == self.memo_keys@[a]@,
                forall|a: int|
                    0 <= a < i ==> opt_view(#[trigger] r@[a].data_hash) == self.memo()[self.memo_keys@[a]@],
            decreases self.memo_keys@.len() - i,
        {
            let key = &self.memo_keys[i];
            assert(self.memo().dom().contains(self.memo_keys@[i as int]@));
            let value = match self.used.get(key.as_str()) {
                Some(v) => copy_opt(v),
                None => match self.stale.get(key.as_str()) {
                    Some(v) => copy_opt(v),
                    None => None,
                },
            };
            let fs_hash = key.clone();
            let ghost prev = r@;
            r.push(MemoRow { fs_hash, data_hash: value });
            assert(forall|a: int| 0 <= a < i ==> r@[a] == prev[a]);
            assert forall|a: int| 0 <= a < i + 1 implies #[trigger] r@[a].fs_hash@ == self.memo_keys@[a]@ by {
                if a < i {
                    assert(prev[a].fs_hash@ == self.memo_keys@[a]@);
                }
            }
            i = i + 1;
        }
        proof {
            assert forall|k: Seq<char>| #[trigger] self.memo().contains_key(k) implies exists|a: int|
                0 <= a < r@.len() && #[trigger] r@[a].fs_hash@ == k by {
                assert(self.memo().dom().contains(k));
                let a = choose|a: int| 0 <= a < self.memo_keys@.len() && #[trigger] self.memo_keys@[a]@ == k;
                assert(r@[a].fs_hash@ == k);
            }
            assert forall|a: int, b: int| 0 <= a < b < r@.len() implies
                #[trigger] r@[a].fs_hash@ != #[trigger] r@[b].fs_hash@ by {
                assert(self.memo_keys@[a]@ != self.memo_keys@[b]@);
            }
            assert forall|a: int| 0 <= a < r@.len() implies self.memo().contains_key(#[trigger] r@[a].fs_hash@) by {
                assert(self.memo().dom().contains(self.memo_keys@[a]@));
            }
        }
        r
    }

    /// The memo rows in use, each fingerprint once.
    pub fn in_use_rows(&self) -> (r: Vec<MemoRow>)
        requires
            self.wf(),
        ensures
            forall|i: int|
                0 <= i < r@.len() ==> self.in_use(#[trigger] r@[i].fs_hash@) && opt_view(
                    r@[i].data_hash,
                ) == self.memo()[r@[i].fs_hash@],
            forall|k: Seq<char>|
                #[trigger] self.in_use(k) ==> exists|i: int|
                    0 <= i < r@.len() && #[trigger] r@[i].fs_hash@ == k,
            forall|i: int, j: int|
                0 <= i < j < r@.len() ==> #[trigger] r@[i].fs_hash@ != #[trigger] r@[j].fs_hash@,
    {
        let mut r: Vec<MemoRow> = Vec::new();
        let mut i: usize = 0;
        while i < self.used_keys.len()
            invariant
                self.wf(),
                i <= self.used_keys@.len(),
                r@.len() == i,
                forall|a: int| 0 <= a < i ==> #[trigger] r@[a].fs_hash@ == self.used_keys@[a]@,
                forall|a: int|
                    0 <= a < i ==> opt_view(#[trigger] r@[a].data_hash) == opt_view(
                        self.used@[self.used_keys@[a]@],
                    ),
            decreases self.used_keys@.len() - i,
        {
            let key = &self.used_keys[i];
            assert(self.used@.contains_key(self.used_keys@[i as int]@));
            let value = match self.used.get(key.as_str()) {
                Some(v) => copy_opt(v),
                None => None,
            };
            let fs_hash = key.clone();
            assert(fs_hash@ == self.used_keys@[i as int]@);
            let ghost prev = r@;
            r.push(MemoRow { fs_hash, data_hash: value });
            assert(forall|a: int| 0 <= a < i ==> r@[a] == prev[a]);
            assert(r@[i as int].fs_hash@ == self.used_keys@[i as int]@);
            assert forall|a: int| 0 <= a < i + 1 implies #[trigger] r@[a].fs_hash@ == self.used_keys@[a]@ by {
                if a < i {
                    assert(prev[a].fs_hash@ == self.used_keys@[a]@);
                }
            }
            i = i + 1;
        }
        proof {
            assert forall|k: Seq<char>| #[trigger] self.in_use(k) implies exists|a: int|
                0 <= a < r@.len() && #[trigger] r@[a].fs_hash@ == k by {
                let a = choose|a: int|
                    0 <= a < self.used_keys@.len() && #[trigger] self.used_keys@[a]@ == k;
                assert(r@[a].fs_hash@ == k);
            }
            assert forall|a: int, b: int| 0 <= a < b < r@.len() implies
                #[trigger] r@[a].fs_hash@ != #[trigger] r@[b].fs_hash@ by {
                assert(self.used_keys@[a]@ != self.used_keys@[b]@);
            }
        }
        r
    }

    /// The ledger's rows: a pair of content and store is recorded exactly when
    /// a row names it, and no two rows name the same pair.
    pub fn ledger_rows(&self) -> (r: &Vec<LedgerRow>)
        requires
            self.wf(),
        ensures
            r@ == self.rows(),
            forall|h: Seq<char>, id: i32|
                #[trigger] self.has_copy(h, id) <==> exists|i: int|
                    0 <= i < r@.len() && #[trigger] r@[i].data_hash@ == h && r@[i].store_id == id,
            forall|i: int, j: int|
                0 <= i < j < r@.len() ==> !(#[trigger] r@[i].data_hash@ == #[trigger] r@[j].data_hash@
                    && r@[i].store_id == r@[j].store_id),
    {
        proof {
            assert forall|h: Seq<char>, id: i32| #[trigger] self.has_copy(h, id) <==> exists|i: int|
                0 <= i < self.rows@.len() && #[trigger] self.rows@[i].data_hash@ == h && self.rows@[i].store_id == id by {
                assert(copy_in(self.stored@, h, id) == row_in(self.rows@, h, id));
            }
        }
        &self.rows
    }
}

/// How many stores of a list the ledger records as holding the content.
pub open spec fn held_count(cache: AsyncCache, h: Seq<char>, ids: Seq<i32>) -> nat
    decreases ids.len(),
{
    if ids.len() == 0 {
        0
    } else if cache.has_copy(h, ids.last()) {
        held_count(cache, h, ids.drop_last()) + 1
    } else {
        held_count(cache, h, ids.drop_last())
    }
}

/// The stores that need an upload are exactly the listed stores without a
/// copy; with N stores listed of which the ledger records M, there are N - M
/// of them, and none when every listed store holds the content.
pub proof fn lemma_requires_upload_missing(cache: AsyncCache, h: Seq<char>, ids: Seq<i32>)
    ensures
        cache.missing(h, ids).len() + held_count(cache, h, ids) == ids.len(),
        forall|id: i32|
            #[trigger] cache.missing(h, ids).contains(id) <==> (ids.contains(id) && !cache.has_copy(
                h,
                id,
            )),
        cache.missing(h, ids).len() == 0 <==> (forall|i: int|
            0 <= i < ids.len() ==> cache.has_copy(h, #[trigger] ids[i])),
    decreases ids.len(),
{
    if ids.len() > 0 {
        let init = ids.drop_last();
        lemma_requires_upload_missing(cache, h, init);
        let last = ids.last();
        let mi = cache.missing(h, init);
        assert(ids == init.push(last));
        assert forall|id: i32| #[trigger] ids.contains(id) <==> (init.contains(id) || id == last) by {
            if ids.contains(id) {
                let i = choose|i: int| 0 <= i < ids.len() && ids[i] == id;
                if i < init.len() {
                    assert(init[i] == id);
                }
            }
            if init.contains(id) {
                let i = choose|i: int| 0 <= i < init.len() && init[i] == id;
                assert(ids[i] == id);
            }
            if id == last {
                assert(ids[ids.len() - 1] == id);
            }
        }
        if !cache.has_copy(h, last) {
            assert(cache.missing(h, ids) == mi.push(last));
            assert forall|id: i32| #[trigger] mi.push(last).contains(id) <==> (mi.contains(id) || id == last) by {
                if mi.push(last).contains(id) {
                    let i = choose|i: int| 0 <= i < mi.len() + 1 && mi.push(last)[i] == id;
                    if i < mi.len() {
                        assert(mi[i] == id);
                    }
                }
                if mi.contains(id) {
                    let i = choose|i: int| 0 <= i < mi.len() && mi[i] == id;
                    assert(mi.push(last)[i] == id);
                }
                if id == last {
                    assert(mi.push(last)[mi.len() as int] == id);
                }
            }
        }
        assert forall|id: i32|
            #[trigger] cache.missing(h, ids).contains(id) <==> (ids.contains(id) && !cache.has_copy(h, id)) by {
            assert(mi.contains(id) <==> (init.contains(id) && !cache.has_copy(h, id)));
        }
        if cache.missing(h, ids).len() == 0 {
            assert forall|i: int| 0 <= i < ids.len() implies cache.has_copy(h, #[trigger] ids[i]) by {
                if !cache.has_copy(h, ids[i]) {
                    assert(ids.contains(ids[i]));
                    assert(cache.missing(h, ids).contains(ids[i]));
                }
            }
        } else {
            let id = cache.missing(h, ids)[0];
            assert(cache.missing(h, ids).contains(id));
            let i = choose|i: int| 0 <= i < ids.len() && ids[i] == id;
            assert(!cache.has_copy(h, ids[i]));
        }
    }
}

/// Which stores need an upload depends on the ledger alone: two caches whose
/// ledgers record the same pairs, one rebuilt from the stores' listings and
/// one filled by uploads, send the same content to the same stores.
pub proof fn lemma_requires_upload_ledger_only(a: AsyncCache, b: AsyncCache, h: Seq<char>, ids: Seq<i32>)
    requires
        forall|g: Seq<char>, id: i32| #[trigger] a.has_copy(g, id) == b.has_copy(g, id),
    ensures
        a.missing(h, ids) == b.missing(h, ids),
    decreases ids.len(),
{
    if ids.len() > 0 {
        lemma_requires_upload_ledger_only(a, b, h, ids.drop_last());
        assert(a.has_copy(h, ids.last()) == b.has_copy(h, ids.last()));
    }
}

/// A memo row that a run touched keeps its content hash through the end of
/// that run and the start of the next, so an unchanged file is found in the
/// memo and counted as unchanged.
pub proof fn lemma_touched_rows_survive(
    during: AsyncCache,
    after_cleanup: AsyncCache,
    next_run: AsyncCache,
    fp: Seq<char>,
)
    requires
        during.in_use(fp),
        after_cleanup.memo() == during.memo().restrict(Set::new(|k: Seq<char>| during.in_use(k))),
        next_run.memo() == after_cleanup.memo(),
    ensures
        next_run.memo_lookup(fp) == during.memo_lookup(fp),
{
    assert(Set::new(|k: Seq<char>| during.in_use(k)).contains(fp));
    assert(during.used@.contains_key(fp));
}

/// Within one run the first `lock_data` on a content hash succeeds and a
/// second one is refused: `init` leaves no lock held, and a lock once taken is
/// held until the next `init`.
pub proof fn lemma_lock_once(after_init: AsyncCache, after_first: AsyncCache, h: Seq<char>)
    requires
        after_init.locked() == Set::<Seq<char>>::empty(),
        after_first.locked() == after_init.locked().insert(h),
    ensures
        !after_init.locked().contains(h),
        after_first.locked().contains(h),
{
}

} // verus!
