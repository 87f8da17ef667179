//! A remote destination of the backup and the names of the objects in it.
use vstd::prelude::*;
use crate::text::{ends_with, starts_with};

verus! {

/// The suffix that marks an encrypted catalog.
pub open spec fn catalog_suffix() -> Seq<char> {
    seq!['.', 'm', 'e', 't', 'a', 'd', 'a', 't', 'a']
}

/// One remote destination: where data blobs and catalogs go, and under which
/// key prefixes. Its id is stable and identifies it in the upload ledger.
pub struct DataStore {
    pub id: i32,
    pub data_container: String,
    pub metadata_container: String,
    pub data_prefix: String,
    pub metadata_prefix: String,
}

impl DataStore {
    /// The object key of a data blob: the data prefix, then the content hash.
    pub fn data_key(&self, data_hash: &str) -> (r: String)
        ensures
            r@ == self.data_prefix@ + data_hash@,
    {
        let mut r = self.data_prefix.clone();
        r.append(data_hash);
        r
    }

    /// The object key of a backup's catalog: the metadata prefix, the backup's
    /// name, then `.metadata`.
    pub fn metadata_key(&self, name: &str) -> (r: String)
        ensures
            r@ == self.metadata_prefix@ + name@ + catalog_suffix(),
    {
        let mut r = self.metadata_prefix.clone();
        r.append(name);
        r.append(".metadata");
        proof {
            reveal_strlit(".metadata");
        }
        assert(".metadata"@ =~= catalog_suffix());
        r
    }

    /// The backup name that a catalog's object key stands for: the key with the
    /// metadata prefix and the `.metadata` suffix taken off, or `None` for a key
    /// of another shape.
    pub fn backup_stem(&self, object_name: &str) -> (r: Option<String>)
        ensures
            match r {
                Some(stem) => object_name@ == self.metadata_prefix@ + stem@ + catalog_suffix(),
                None => !exists|stem: Seq<char>|
                    object_name@ == self.metadata_prefix@ + stem + catalog_suffix(),
            },
    {
        proof {
            reveal_strlit(".metadata");
        }
        assert(".metadata"@ =~= catalog_suffix());
        let prefix = self.metadata_prefix.as_str();
        let p = prefix.unicode_len();
        let n = object_name.unicode_len();
        if starts_with(object_name, prefix) && ends_with(object_name, ".metadata") && p <= n - 9 {
            let stem = object_name.substring_char(p, n - 9);
            let ghost s = object_name@;
            assert(s =~= prefix@ + stem@ + catalog_suffix()) by {
                assert(s =~= s.subrange(0, p as int) + s.subrange(p as int, n - 9) + s.subrange(
                    n - 9,
                    n as int,
                ));
            }
            Some(stem.to_owned())
        } else {
            assert forall|stem: Seq<char>|
                object_name@ != self.metadata_prefix@ + stem + catalog_suffix() by {
                let t = self.metadata_prefix@ + stem + catalog_suffix();
                if object_name@ == t {
                    assert(t.subrange(0, p as int) =~= prefix@);
                    assert(t.subrange(t.len() - 9, t.len() as int) =~= catalog_suffix());
                }
            }
            None
        }
    }

    /// The content hash that a data blob's object key stands for: the key
    /// with the data prefix taken off, or `None` for a key outside the prefix.
    pub fn ledger_hash(&self, object_name: &str) -> (r: Option<String>)
        ensures
            match r {
                Some(h) => object_name@ == self.data_prefix@ + h@,
                None => !(self.data_prefix@.len() <= object_name@.len()
                    && object_name@.subrange(0, self.data_prefix@.len() as int)
                    == self.data_prefix@),
            },
    {
        let prefix = self.data_prefix.as_str();
        if starts_with(object_name, prefix) {
            let n = object_name.unicode_len();
            let h = object_name.substring_char(prefix.unicode_len(), n);
            assert(object_name@ =~= prefix@ + h@) by {
                assert(object_name@ =~= object_name@.subrange(0, prefix@.len() as int)
                    + object_name@.subrange(prefix@.len() as int, n as int));
            }
            Some(h.to_owned())
        } else {
            None
        }
    }
}

} // verus!
