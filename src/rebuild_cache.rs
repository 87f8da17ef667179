//! Rebuilding the upload ledger from what the stores actually hold.
use vstd::prelude::*;
use crate::cache::{new_rows, rows_view, AsyncCache, CacheError};
use crate::store::DataStore;
use crate::swift::ObjectEntry;

verus! {

/// Whether a page of a data container's listing names the blob of a content
/// hash.
pub open spec fn listed(store: DataStore, page: Seq<ObjectEntry>, h: Seq<char>) -> bool {
    exists|k: int| 0 <= k < page.len() && #[trigger] page[k].name@ == store.data_prefix@ + h
}

/// Whether an object's name lies under the store's data prefix.
pub open spec fn under_prefix(store: DataStore, name: Seq<char>) -> bool {
    store.data_prefix@.len() <= name.len() && name.subrange(0, store.data_prefix@.len() as int)
        == store.data_prefix@
}

/// How many objects of a page lie under the store's data prefix.
pub open spec fn blob_count(store: DataStore, page: Seq<ObjectEntry>) -> nat
    decreases page.len(),
{
    if page.len() == 0 {
        0
    } else {
        blob_count(store, page.drop_last()) + (if under_prefix(store, page.last().name@) {
            1nat
        } else {
            0nat
        })
    }
}

/// The content hash that a blob's object name stands for: the name after
/// the store's data prefix.
pub open spec fn blob_hash(store: DataStore, name: Seq<char>) -> Seq<char> {
    name.subrange(store.data_prefix@.len() as int, name.len() as int)
}

/// Whether the object at position `k` of a page cannot be recorded: it is a
/// blob of the store that the ledger already records for the store, or an
/// earlier object of the page has the same name.
pub open spec fn listing_conflict(cache: AsyncCache, store: DataStore, page: Seq<ObjectEntry>, k: int) -> bool {
    &&& under_prefix(store, page[k].name@)
    &&& (cache.has_copy(blob_hash(store, page[k].name@), store.id) || exists|j: int|
        0 <= j < k && #[trigger] page[j].name@ == page[k].name@)
}

/// The ledger rows that a page gives, in the page's order: for each blob of
/// the store, its content hash, the listed checksum and the store's id.
pub open spec fn listing_rows(store: DataStore, page: Seq<ObjectEntry>) -> Seq<(Seq<char>, Seq<char>, i32)>
    decreases page.len(),
{
    if page.len() == 0 {
        Seq::empty()
    } else if under_prefix(store, page.last().name@) {
        listing_rows(store, page.drop_last()).push(
            (blob_hash(store, page.last().name@), page.last().hash@, store.id),
        )
    } else {
        listing_rows(store, page.drop_last())
    }
}

/// Records in the ledger each blob of a page of the store's data container:
/// the object's name without the data prefix is the content hash, and the
/// listing's checksum goes with it. Objects outside the prefix are passed
/// over. Returns the number recorded. Fails exactly when some blob is already
/// recorded for the store, or is listed twice; it then stops at the first
/// such blob.
pub fn record_listing(cache: &mut AsyncCache, store: &DataStore, page: &Vec<ObjectEntry>) -> (r: Result<usize, CacheError>)
    requires
        old(cache).wf(),
    ensures
        final(cache).wf(),
        r is Ok ==> forall|h: Seq<char>, id: i32|
            #[trigger] final(cache).has_copy(h, id) == (old(cache).has_copy(h, id) || (id
                == store.id && listed(*store, page@, h))),
        r is Ok ==> r == Ok::<usize, CacheError>(blob_count(*store, page@) as usize),
        r is Err <==> exists|k: int| 0 <= k < page@.len() && listing_conflict(*old(cache), *store, page@, k),
        r is Ok ==> rows_view(final(cache).rows()) == rows_view(old(cache).rows()) + listing_rows(
            *store,
            page@,
        ),
        r is Err ==> forall|h: Seq<char>, id: i32|
            #[trigger] final(cache).has_copy(h, id) ==> (old(cache).has_copy(h, id) || (id
                == store.id && listed(*store, page@, h))),
        final(cache).memo() == old(cache).memo(),
        final(cache).same_use(*old(cache)),
        final(cache).locked() == old(cache).locked(),
{
    let mut count: usize = 0;
    let mut i: usize = 0;
    while i < page.len()
        invariant
            cache.wf(),
            i <= page@.len(),
            count == blob_count(*store, page@.subrange(0, i as int)),
            count <= i,
            forall|h: Seq<char>, id: i32|
                #[trigger] cache.has_copy(h, id) == (old(cache).has_copy(h, id) || (id == store.id
                    && listed(*store, page@.subrange(0, i as int), h))),
            forall|k: int| 0 <= k < i ==> !listing_conflict(*old(cache), *store, page@, k),
            rows_view(cache.rows()) == rows_view(old(cache).rows()) + listing_rows(
                *store,
                page@.subrange(0, i as int),
            ),
            cache.memo() == old(cache).memo(),
            cache.same_use(*old(cache)),
            cache.locked() == old(cache).locked(),
        decreases page@.len() - i,
    {
        let ghost before = *cache;
        let object = &page[i];
        assert(page@.subrange(0, i + 1).drop_last() == page@.subrange(0, i as int));
        assert(page@.subrange(0, i + 1).last() == page@[i as int]);
        proof {
            lemma_blob_count_bound(*store, page@.subrange(0, i as int));
        }
        let mut ids: Vec<i32> = Vec::new();
        ids.push(store.id);
        match store.ledger_hash(object.name.as_str()) {
            Some(h) => {
                proof {
                    lemma_conflict_at(*old(cache), before, *store, page@, i as int, h@);
                    assert(ids@ == seq![store.id]);
                    assert(before.conflicts(h@, ids@) == before.has_copy(h@, store.id)) by {
                        if before.has_copy(h@, store.id) {
                            assert(before.has_copy(h@, ids@[0]));
                        }
                    }
                }
                let rec = cache.set_data_in_cold_storage(h.as_str(), object.hash.as_str(), &ids);
                match rec {
                    Ok(_) => {
                        assert((store.data_prefix@ + h@).subrange(0, store.data_prefix@.len() as int)
                            =~= store.data_prefix@);
                        assert(under_prefix(*store, page@[i as int].name@));
                        assert(new_rows(h@, object.hash@, ids@) =~= seq![(h@, object.hash@, store.id)]);
                        assert(listing_rows(*store, page@.subrange(0, i + 1)) =~= listing_rows(
                            *store,
                            page@.subrange(0, i as int),
                        ).push((h@, page@[i as int].hash@, store.id)));
                        count = count + 1;
                    },
                    Err(e) => {
                        proof {
                            assert forall|g: Seq<char>, id: i32|
                                #[trigger] cache.has_copy(g, id) implies (old(cache).has_copy(g, id) || (id
                                    == store.id && listed(*store, page@, g))) by {
                                if listed(*store, page@.subrange(0, i as int), g) {
                                    let k = choose|k: int| 0 <= k < i && #[trigger] page@.subrange(0, i as int)[k].name@ == store.data_prefix@ + g;
                                    assert(page@[k].name@ == store.data_prefix@ + g);
                                }
                            }
                        }
                        assert(listing_conflict(*old(cache), *store, page@, i as int));
                        return Err(e);
                    },
                }
                proof {
                    assert forall|g: Seq<char>, id: i32|
                        #[trigger] cache.has_copy(g, id) == (old(cache).has_copy(g, id) || (id == store.id
                            && listed(*store, page@.subrange(0, i + 1), g))) by {
                        assert(ids@ == seq![store.id]);
                        assert(ids@.contains(id) <==> id == store.id) by {
                            if id == store.id {
                                assert(ids@[0] == id);
                            }
                        }
                        lemma_listed_step(*store, page@, i as int, g);
                        if g == h@ {
                            assert(page@.subrange(0, i + 1)[i as int].name@ == store.data_prefix@ + g);
                        }
                        if page@[i as int].name@ == store.data_prefix@ + g {
                            assert(store.data_prefix@ + g == store.data_prefix@ + h@);
                            assert(g =~= (store.data_prefix@ + g).subrange(store.data_prefix@.len() as int, (store.data_prefix@ + g).len() as int));
                            assert(h@ =~= (store.data_prefix@ + h@).subrange(store.data_prefix@.len() as int, (store.data_prefix@ + h@).len() as int));
                        }
                    }
                }
            },
            None => {
                proof {
                    assert(!under_prefix(*store, page@[i as int].name@));
                    assert(listing_rows(*store, page@.subrange(0, i + 1)) == listing_rows(
                        *store,
                        page@.subrange(0, i as int),
                    ));
                    assert forall|g: Seq<char>, id: i32|
                        #[trigger] cache.has_copy(g, id) == (old(cache).has_copy(g, id) || (id == store.id
                            && listed(*store, page@.subrange(0, i + 1), g))) by {
                        lemma_listed_step(*store, page@, i as int, g);
                        if page@[i as int].name@ == store.data_prefix@ + g {
                            assert((store.data_prefix@ + g).subrange(0, store.data_prefix@.len() as int) =~= store.data_prefix@);
                        }
                    }
                }
            },
        }
        i = i + 1;
    }
    assert(page@.subrange(0, page@.len() as int) == page@);
    Ok(count)
}

proof fn lemma_conflict_at(
    start: AsyncCache,
    before: AsyncCache,
    store: DataStore,
    page: Seq<ObjectEntry>,
    i: int,
    h: Seq<char>,
)
    requires
        0 <= i < page.len(),
        page[i].name@ == store.data_prefix@ + h,
        forall|g: Seq<char>, id: i32|
            #[trigger] before.has_copy(g, id) == (start.has_copy(g, id) || (id == store.id
                && listed(store, page.subrange(0, i), g))),
    ensures
        listing_conflict(start, store, page, i) == before.has_copy(h, store.id),
        blob_hash(store, page[i].name@) == h,
{
    let name = page[i].name@;
    assert(name.subrange(0, store.data_prefix@.len() as int) =~= store.data_prefix@);
    assert(blob_hash(store, name) =~= h);
    if listed(store, page.subrange(0, i), h) {
        let j = choose|j: int|
            0 <= j < i && #[trigger] page.subrange(0, i)[j].name@ == store.data_prefix@ + h;
        assert(page[j].name@ == name);
    }
    if exists|j: int| 0 <= j < i && #[trigger] page[j].name@ == name {
        let j = choose|j: int| 0 <= j < i && #[trigger] page[j].name@ == name;
        assert(page.subrange(0, i)[j].name@ == store.data_prefix@ + h);
    }
}

proof fn lemma_blob_count_bound(store: DataStore, page: Seq<ObjectEntry>)
    ensures
        blob_count(store, page) <= page.len(),
    decreases page.len(),
{
    if page.len() > 0 {
        lemma_blob_count_bound(store, page.drop_last());
    }
}

proof fn lemma_listed_step(store: DataStore, page: Seq<ObjectEntry>, i: int, g: Seq<char>)
    requires
        0 <= i < page.len(),
    ensures
        listed(store, page.subrange(0, i + 1), g) == (listed(store, page.subrange(0, i), g)
            || page[i].name@ == store.data_prefix@ + g),
{
    let a = page.subrange(0, i);
    let b = page.subrange(0, i + 1);
    if listed(store, b, g) {
        let k = choose|k: int| 0 <= k < b.len() && #[trigger] b[k].name@ == store.data_prefix@ + g;
        if k < i {
            assert(a[k] == b[k]);
        }
    }
    if listed(store, a, g) {
        let k = choose|k: int| 0 <= k < a.len() && #[trigger] a[k].name@ == store.data_prefix@ + g;
        assert(a[k] == b[k]);
    }
    if page[i].name@ == store.data_prefix@ + g {
        assert(b[i] == page[i]);
    }
}

} // verus!
