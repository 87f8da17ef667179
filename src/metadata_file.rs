//! The catalog of a backup: one row per file system object, ordered by the
//! index that enumeration gave it, and a small key/value table that holds the
//! format version and the total size of the files.
use vstd::prelude::*;
use crate::filetype::{kind_name, FileType};
use crate::text::{decimal, decimal_value, format_decimal, parse_decimal, text_eq};

verus! {

/// One catalog row.
pub struct FileMetadata {
    pub uid: i64,
    pub name: String,
    pub mtime: i64,
    pub mode: u32,
    pub ttype: FileType,
    pub destination: Option<String>,
    pub data_hash: Option<String>,
}

/// A whole catalog held in memory.
pub struct FileData {
    pub data: Vec<FileMetadata>,
}

/// Why a catalog row or the catalog itself was refused.
#[derive(Clone, Copy, Debug, PartialEq, Eq, Structural)]
pub enum CatalogError {
    /// The stored kind is none of the three.
    UnknownKind,
    /// The stored mode does not fit in 32 bits.
    BadMode,
    /// A negative uid, or a link target or content hash on the wrong kind.
    Malformed,
    /// The row's uid is not above the previous row's.
    OutOfOrder,
    /// The catalog's format version is not supported.
    UnsupportedVersion,
}

impl FileMetadata {
    /// A row is well formed when its uid is not negative, it has a link
    /// target exactly when it is a symlink and a content hash exactly when it
    /// is a regular file.
    pub open spec fn well_formed(self) -> bool {
        &&& self.uid >= 0
        &&& (self.destination is Some <==> self.ttype == FileType::SYMLINK)
        &&& (self.data_hash is Some <==> self.ttype == FileType::FILE)
    }

    /// The row of a regular file.
    pub fn file(uid: usize, name: String, mtime: i64, mode: u32, data_hash: String) -> (r: FileMetadata)
        requires
            uid <= i64::MAX,
        ensures
            r.well_formed(),
            r.uid == uid,
            r.name == name,
            r.mtime == mtime,
            r.mode == mode,
            r.ttype == FileType::FILE,
            r.data_hash == Some(data_hash),
    {
        FileMetadata {
            uid: uid as i64,
            name,
            mtime,
            mode,
            ttype: FileType::FILE,
            destination: None,
            data_hash: Some(data_hash),
        }
    }

    /// The row of a symbolic link, with its literal target.
    pub fn symlink(uid: usize, name: String, mtime: i64, mode: u32, target: String) -> (r: FileMetadata)
        requires
            uid <= i64::MAX,
        ensures
            r.well_formed(),
            r.uid == uid,
            r.name == name,
            r.mtime == mtime,
            r.mode == mode,
            r.ttype == FileType::SYMLINK,
            r.destination == Some(target),
    {
        FileMetadata {
            uid: uid as i64,
            name,
            mtime,
            mode,
            ttype: FileType::SYMLINK,
            destination: Some(target),
            data_hash: None,
        }
    }

    /// The row of a directory.
    pub fn directory(uid: usize, name: String, mtime: i64, mode: u32) -> (r: FileMetadata)
        requires
            uid <= i64::MAX,
        ensures
            r.well_formed(),
            r.uid == uid,
            r.name == name,
            r.mtime == mtime,
            r.mode == mode,
            r.ttype == FileType::DIRECTORY,
    {
        FileMetadata {
            uid: uid as i64,
            name,
            mtime,
            mode,
            ttype: FileType::DIRECTORY,
            destination: None,
            data_hash: None,
        }
    }

    /// A row from the values stored in the catalog's columns.
    pub fn from_row(
        id: i64,
        name: String,
        mtime: i64,
        mode: i64,
        ttype: &str,
        destination: Option<String>,
        data_hash: Option<String>,
    ) -> (r: Result<FileMetadata, CatalogError>)
        ensures
            match r {
                Ok(m) => {
                    &&& m.well_formed()
                    &&& m.uid == id && m.name == name && m.mtime == mtime && m.mode == mode
                    &&& ttype@ == kind_name(m.ttype)
                    &&& m.destination == destination && m.data_hash == data_hash
                },
                Err(CatalogError::UnknownKind) => forall|t: FileType| ttype@ != kind_name(t),
                Err(CatalogError::BadMode) => (exists|t: FileType| ttype@ == kind_name(t)) && !(0
                    <= mode <= u32::MAX),
                Err(CatalogError::Malformed) => (exists|t: FileType|
                    ttype@ == kind_name(t) && !(FileMetadata {
                        uid: id,
                        name,
                        mtime,
                        mode: 0,
                        ttype: t,
                        destination,
                        data_hash,
                    }).well_formed()) && 0 <= mode <= u32::MAX,
                Err(_) => false,
            },
    {
        let kind = match FileType::parse(ttype) {
            Some(t) => t,
            None => {
                return Err(CatalogError::UnknownKind);
            },
        };
        if mode < 0 || mode > 4294967295 {
            return Err(CatalogError::BadMode);
        }
        let m = FileMetadata {
            uid: id,
            name,
            mtime,
            mode: mode as u32,
            ttype: kind,
            destination,
            data_hash,
        };
        let ok = id >= 0 && (m.destination.is_some() == (kind == FileType::SYMLINK)) && (
        m.data_hash.is_some() == (kind == FileType::FILE));
        if !ok {
            return Err(CatalogError::Malformed);
        }
        Ok(m)
    }
}

/// Whether a sequence of uids rises strictly.
pub open spec fn strictly_ascending(uids: Seq<i64>) -> bool {
    forall|i: int, j: int| 0 <= i < j < uids.len() ==> uids[i] < uids[j]
}

/// Reads a catalog's rows in turn and refuses any whose uid is not above the
/// one before, so that the rows it lets through rise strictly.
pub struct CatalogReader {
    last_uid: Option<i64>,
    seen: Ghost<Seq<i64>>,
}

impl CatalogReader {
    /// The uids let through so far, in order.
    pub closed spec fn seen(self) -> Seq<i64> {
        self.seen@
    }

    /// The uid of the last row let through.
    pub closed spec fn last_uid(self) -> Option<i64> {
        self.last_uid
    }

    pub closed spec fn wf(self) -> bool {
        &&& strictly_ascending(self.seen@)
        &&& (self.seen@.len() == 0 <==> self.last_uid is None)
        &&& (self.last_uid matches Some(u) ==> u == self.seen@.last())
    }

    pub fn new() -> (r: CatalogReader)
        ensures
            r.wf(),
            r.seen() == Seq::<i64>::empty(),
            r.last_uid() == None::<i64>,
    {
        CatalogReader { last_uid: None, seen: Ghost(Seq::empty()) }
    }

    /// Lets a row through when its uid is above the previous row's.
    pub fn accept(&mut self, row: FileMetadata) -> (r: Result<FileMetadata, CatalogError>)
        requires
            old(self).wf(),
        ensures
            final(self).wf(),
            strictly_ascending(final(self).seen()),
            match old(self).last_uid() {
                None => true,
                Some(u) => (r is Ok <==> u < row.uid),
            },
            match r {
                Ok(m) => m == row && final(self).seen() == old(self).seen().push(row.uid)
                    && final(self).last_uid() == Some(row.uid),
                Err(e) => e == CatalogError::OutOfOrder && *final(self) == *old(self),
            },
    {
        match self.last_uid {
            Some(u) => {
                if row.uid <= u {
                    return Err(CatalogError::OutOfOrder);
                }
            },
            None => {},
        }
        self.last_uid = Some(row.uid);
        self.seen = Ghost(self.seen@.push(row.uid));
        Ok(row)
    }
}

/// Strictly rising uids drawn from `0..n`, `n` of them, are `0, 1, ..., n - 1`
/// in order: a catalog whose every enumerated entry was recorded has no gap.
pub proof fn lemma_no_gaps(uids: Seq<i64>)
    requires
        strictly_ascending(uids),
        forall|i: int| 0 <= i < uids.len() ==> 0 <= #[trigger] uids[i] < uids.len(),
    ensures
        forall|i: int| 0 <= i < uids.len() ==> #[trigger] uids[i] == i,
{
    assert forall|i: int| 0 <= i < uids.len() implies #[trigger] uids[i] >= i by {
        lemma_rising_from_zero(uids, i);
    }
    assert forall|i: int| 0 <= i < uids.len() implies #[trigger] uids[i] <= i by {
        lemma_rising_below_end(uids, i);
    }
}

proof fn lemma_rising_from_zero(uids: Seq<i64>, i: int)
    requires
        strictly_ascending(uids),
        forall|k: int| 0 <= k < uids.len() ==> 0 <= #[trigger] uids[k],
        0 <= i < uids.len(),
    ensures
        uids[i] >= i,
    decreases i,
{
    if i > 0 {
        lemma_rising_from_zero(uids, i - 1);
    }
}

proof fn lemma_rising_below_end(uids: Seq<i64>, i: int)
    requires
        strictly_ascending(uids),
        forall|k: int| 0 <= k < uids.len() ==> #[trigger] uids[k] < uids.len(),
        0 <= i < uids.len(),
    ensures
        uids[i] <= i,
    decreases uids.len() - i,
{
    if i < uids.len() - 1 {
        lemma_rising_below_end(uids, i + 1);
    }
}

/// The key/value pairs a new catalog carries: the format version `"0"` and
/// the total size of its regular files in bytes.
pub fn catalog_metadata(size: u64) -> (r: Vec<(String, String)>)
    ensures
        r@.len() == 2,
        r@[0].0@ == seq!['v', 'e', 'r', 's', 'i', 'o', 'n'],
        r@[0].1@ == seq!['0'],
        r@[1].0@ == seq!['s', 'i', 'z', 'e'],
        r@[1].1@ == decimal(size as nat),
{
    proof {
        reveal_strlit("version");
        reveal_strlit("0");
        reveal_strlit("size");
    }
    let mut r: Vec<(String, String)> = Vec::new();
    r.push(("version".to_owned(), "0".to_owned()));
    r.push(("size".to_owned(), format_decimal(size)));
    r
}

/// Whether a catalog's stored version is the one this library reads.
pub fn version_supported(version: &str) -> (r: bool)
    ensures
        r == (version@ == seq!['0']),
{
    proof {
        reveal_strlit("0");
    }
    assert("0"@ =~= seq!['0']);
    text_eq(version, "0")
}

/// The total size that a catalog's `size` value states.
pub fn read_size(value: &str) -> (r: Option<u64>)
    ensures
        r == decimal_value(value@),
{
    parse_decimal(value)
}

} // verus!
