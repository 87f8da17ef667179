//! The upload stage of a backup: which stores a blob goes to, and which of
//! them took it.
use vstd::prelude::*;
use crate::store::DataStore;

verus! {

/// A blob ready to go: the file that holds it and its content hash.
pub struct UploadRequest {
    pub filename: String,
    pub data_hash: String,
}

/// What became of a blob: the stores that took it.
pub struct UploadReport {
    pub filename: String,
    pub data_hash: String,
    pub store_ids: Vec<i32>,
}

/// The position of the first store with the id, if any.
pub open spec fn first_with_id(stores: Seq<DataStore>, id: i32) -> Option<int>
    decreases stores.len(),
{
    if stores.len() == 0 {
        None
    } else {
        match first_with_id(stores.drop_last(), id) {
            Some(i) => Some(i),
            None => if stores.last().id == id {
                Some(stores.len() - 1)
            } else {
                None
            },
        }
    }
}

/// For each id in turn, the position of the first store with it; ids that
/// no store has are passed over.
pub open spec fn targets(stores: Seq<DataStore>, ids: Seq<i32>) -> Seq<usize>
    decreases ids.len(),
{
    if ids.len() == 0 {
        Seq::empty()
    } else {
        match first_with_id(stores, ids.last()) {
            Some(i) => targets(stores, ids.drop_last()).push(i as usize),
            None => targets(stores, ids.drop_last()),
        }
    }
}

/// The ids, in order, whose upload succeeded.
pub open spec fn succeeded_ids(ids: Seq<i32>, ok: Seq<bool>) -> Seq<i32>
    decreases ids.len(),
{
    if ids.len() == 0 || ok.len() != ids.len() {
        Seq::empty()
    } else if ok.last() {
        succeeded_ids(ids.drop_last(), ok.drop_last()).push(ids.last())
    } else {
        succeeded_ids(ids.drop_last(), ok.drop_last())
    }
}

fn find_store(stores: &Vec<DataStore>, id: i32) -> (r: Option<usize>)
    ensures
        match r {
            Some(i) => first_with_id(stores@, id) == Some(i as int),
            None => first_with_id(stores@, id) is None,
        },
{
    let mut i: usize = 0;
    while i < stores.len()
        invariant
            i <= stores@.len(),
            first_with_id(stores@.subrange(0, i as int), id) is None,
        decreases stores@.len() - i,
    {
        assert(stores@.subrange(0, i + 1).drop_last() == stores@.subrange(0, i as int));
        if stores[i].id == id {
            proof {
                lemma_first_with_id_extends(stores@, i as int + 1, id);
            }
            return Some(i);
        }
        i = i + 1;
    }
    assert(stores@.subrange(0, stores@.len() as int) == stores@);
    None
}

proof fn lemma_first_with_id_extends(stores: Seq<DataStore>, k: int, id: i32)
    requires
        0 <= k <= stores.len(),
        first_with_id(stores.subrange(0, k), id) is Some,
    ensures
        first_with_id(stores, id) == first_with_id(stores.subrange(0, k), id),
    decreases stores.len() - k,
{
    if k < stores.len() {
        assert(stores.subrange(0, k + 1).drop_last() == stores.subrange(0, k));
        assert(first_with_id(stores.subrange(0, k + 1), id) == first_with_id(stores.subrange(0, k), id));
        lemma_first_with_id_extends(stores, k + 1, id);
    } else {
        assert(stores.subrange(0, k) == stores);
    }
}

/// The stores to send a blob to: for each id that needs it, the first store
/// configured with that id.
pub fn upload_targets(stores: &Vec<DataStore>, needed: &Vec<i32>) -> (r: Vec<usize>)
    ensures
        r@ == targets(stores@, needed@),
        forall|k: int| 0 <= k < r@.len() ==> #[trigger] r@[k] < stores@.len(),
{
    let mut r: Vec<usize> = Vec::new();
    let mut k: usize = 0;
    while k < needed.len()
        invariant
            k <= needed@.len(),
            r@ == targets(stores@, needed@.subrange(0, k as int)),
            forall|a: int| 0 <= a < r@.len() ==> #[trigger] r@[a] < stores@.len(),
        decreases needed@.len() - k,
    {
        assert(needed@.subrange(0, k + 1).drop_last() == needed@.subrange(0, k as int));
        match find_store(stores, needed[k]) {
            Some(i) => {
                proof {
                    lemma_first_with_id_bound(stores@, needed@[k as int]);
                }
                r.push(i);
            },
            None => {},
        }
        k = k + 1;
    }
    assert(needed@.subrange(0, needed@.len() as int) == needed@);
    r
}

proof fn lemma_first_with_id_bound(stores: Seq<DataStore>, id: i32)
    ensures
        first_with_id(stores, id) matches Some(i) ==> 0 <= i < stores.len() && stores[i].id == id,
    decreases stores.len(),
{
    if stores.len() > 0 {
        lemma_first_with_id_bound(stores.drop_last(), id);
    }
}

/// The report of an upload: the ids of the stores whose upload succeeded,
/// in the order tried.
pub fn upload(request: UploadRequest, tried: &Vec<i32>, succeeded: &Vec<bool>) -> (r: UploadReport)
    requires
        tried@.len() == succeeded@.len(),
    ensures
        r.filename == request.filename,
        r.data_hash == request.data_hash,
        r.store_ids@ == succeeded_ids(tried@, succeeded@),
{
    let mut ids: Vec<i32> = Vec::new();
    let mut k: usize = 0;
    while k < tried.len()
        invariant
            k <= tried@.len(),
            tried@.len() == succeeded@.len(),
            ids@ == succeeded_ids(tried@.subrange(0, k as int), succeeded@.subrange(0, k as int)),
        decreases tried@.len() - k,
    {
        assert(tried@.subrange(0, k + 1).drop_last() == tried@.subrange(0, k as int));
        assert(succeeded@.subrange(0, k + 1).drop_last() == succeeded@.subrange(0, k as int));
        if succeeded[k] {
            ids.push(tried[k]);
        }
        k = k + 1;
    }
    assert(tried@.subrange(0, tried@.len() as int) == tried@);
    assert(succeeded@.subrange(0, succeeded@.len() as int) == succeeded@);
    UploadReport { filename: request.filename, data_hash: request.data_hash, store_ids: ids }
}

} // verus!
