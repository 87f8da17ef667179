//! The decisions of a restore: where an entry lands under the destination,
//! what must be done to materialise it, and whether restored bytes are the
//! ones that were backed up.
use vstd::prelude::*;
use crate::filetype::FileType;
use crate::hash::{content_hash, data};
use crate::metadata_file::FileMetadata;
use crate::text::{push_char, text_eq};
use vstd::string::StringSliceAdditionalSpecFns;

verus! {

/// Whether a `..` component starts at position `i` of a path.
pub open spec fn parent_at(s: Seq<char>, i: int) -> bool {
    &&& 0 <= i && i + 2 <= s.len()
    &&& s[i] == '.' && s[i + 1] == '.'
    &&& (i == 0 || s[i - 1] == '/')
    &&& (i + 2 == s.len() || s[i + 2] == '/')
}

/// Whether a path has a `..` component.
pub open spec fn climbs(s: Seq<char>) -> bool {
    exists|i: int| parent_at(s, i)
}

/// A stored name with its leading `/` taken off.
pub open spec fn relative_part(name: Seq<char>) -> Seq<char> {
    if name.len() > 0 && name[0] == '/' {
        name.drop_first()
    } else {
        name
    }
}

/// A relative path appended to a directory, with one separator between them.
pub open spec fn joined(dir: Seq<char>, rel: Seq<char>) -> Seq<char> {
    if dir.len() == 0 {
        rel
    } else if dir.last() == '/' {
        dir + rel
    } else {
        dir.push('/') + rel
    }
}

/// Whether a stored name would lead out of the destination: after its leading
/// `/` it is still absolute, or it has a `..` component.
pub open spec fn escapes(name: Seq<char>) -> bool {
    let rel = relative_part(name);
    (rel.len() > 0 && rel[0] == '/') || climbs(rel)
}

fn climbs_exec(s: &str) -> (r: bool)
    ensures
        r == climbs(s@),
{
    let n = s.unicode_len();
    let mut i: usize = 0;
    while n >= 2 && i <= n - 2
        invariant
            n == s@.len(),
            i <= n,
            forall|j: int| 0 <= j < i ==> !parent_at(s@, j),
        decreases n - i,
    {
        if s.get_char(i) == '.' && s.get_char(i + 1) == '.' && (i == 0 || s.get_char(i - 1) == '/')
            && (i + 2 == n || s.get_char(i + 2) == '/') {
            assert(parent_at(s@, i as int));
            return true;
        }
        i = i + 1;
    }
    assert forall|j: int| !parent_at(s@, j) by {
        if j >= i {
            assert(n < 2 || i > n - 2);
        }
    }
    false
}

/// Where an entry is materialised under the destination: its name with the
/// leading `/` taken off, appended to the destination. `None` for a name that
/// would lead out of the destination.
pub fn restore_target(destination: &str, name: &str) -> (r: Option<String>)
    ensures
        r is None <==> escapes(name@),
        r matches Some(p) ==> p@ == joined(destination@, relative_part(name@)),
{
    let n = name.unicode_len();
    let rel = if n > 0 && name.get_char(0) == '/' {
        name.substring_char(1, n)
    } else {
        name.substring_char(0, n)
    };
    assert(rel@ == relative_part(name@)) by {
        assert(name@.subrange(0, n as int) =~= name@);
        if n > 0 && name@[0] == '/' {
            assert(name@.subrange(1, n as int) =~= name@.drop_first());
        }
    }
    let m = rel.unicode_len();
    if (m > 0 && rel.get_char(0) == '/') || climbs_exec(rel) {
        return None;
    }
    let d = destination.unicode_len();
    let mut p = destination.to_owned();
    if d > 0 && destination.get_char(d - 1) != '/' {
        push_char(&mut p, '/');
    }
    p.append(rel);
    Some(p)
}

/// What restoring one entry takes.
pub enum RestoreAction {
    /// The name leads out of the destination: nothing is done.
    Skip,
    /// Fetch the blob of the content hash, decrypt it to `path`, check it,
    /// then set its modification time and mode.
    File { path: String, data_hash: String, mtime: i64, mode: u32 },
    /// Create a symbolic link at `path` pointing at `target`.
    Symlink { path: String, target: String },
    /// Create the directory and its parents, then set its mode.
    Directory { path: String, mode: u32 },
}

/// The action that restores a well-formed catalog row under a destination.
pub fn restore_action(entry: &FileMetadata, destination: &str) -> (r: RestoreAction)
    requires
        entry.well_formed(),
    ensures
        escapes(entry.name@) ==> r is Skip,
        !escapes(entry.name@) ==> match r {
            RestoreAction::File { path, data_hash, mtime, mode } => {
                &&& entry.ttype == FileType::FILE
                &&& path@ == joined(destination@, relative_part(entry.name@))
                &&& Some(data_hash) == entry.data_hash
                &&& mtime == entry.mtime && mode == entry.mode
            },
            RestoreAction::Symlink { path, target } => {
                &&& entry.ttype == FileType::SYMLINK
                &&& path@ == joined(destination@, relative_part(entry.name@))
                &&& Some(target) == entry.destination
            },
            RestoreAction::Directory { path, mode } => {
                &&& entry.ttype == FileType::DIRECTORY
                &&& path@ == joined(destination@, relative_part(entry.name@))
                &&& mode == entry.mode
            },
            RestoreAction::Skip => false,
        },
{
    let path = match restore_target(destination, entry.name.as_str()) {
        Some(p) => p,
        None => {
            return RestoreAction::Skip;
        },
    };
    match entry.ttype {
        FileType::FILE => {
            let h = match &entry.data_hash {
                Some(h) => h.clone(),
                None => {
                    return RestoreAction::Skip;
                },
            };
            RestoreAction::File { path, data_hash: h, mtime: entry.mtime, mode: entry.mode }
        },
        FileType::SYMLINK => {
            let t = match &entry.destination {
                Some(t) => t.clone(),
                None => {
                    return RestoreAction::Skip;
                },
            };
            RestoreAction::Symlink { path, target: t }
        },
        FileType::DIRECTORY => RestoreAction::Directory { path, mode: entry.mode },
    }
}

/// Why a restore stopped.
#[derive(Clone, Copy, Debug, PartialEq, Eq, Structural)]
pub enum RestoreError {
    /// The destination already exists.
    DestinationExists,
    /// The disk has less free space than the backup's size.
    NotEnoughSpace,
    /// Restored bytes do not match the content hash they were stored under.
    IntegrityMismatch,
}

/// Whether a disk with `available` free bytes can take a backup of `size`.
pub fn check_space(available: u64, size: u64) -> (r: Result<(), RestoreError>)
    ensures
        r is Ok <==> available >= size,
        r matches Err(e) ==> e == RestoreError::NotEnoughSpace,
{
    if available < size {
        Err(RestoreError::NotEnoughSpace)
    } else {
        Ok(())
    }
}

/// Checks restored bytes against the content hash they were stored under.
pub fn verify_restored(contents: &[u8], hmac_secret: &str, expected: &str) -> (r: Result<(), RestoreError>)
    ensures
        r is Ok <==> content_hash(contents@, hmac_secret.spec_bytes()) == expected@,
        r matches Err(e) ==> e == RestoreError::IntegrityMismatch,
{
    let h = data(contents, hmac_secret);
    if text_eq(h.as_str(), expected) {
        Ok(())
    } else {
        Err(RestoreError::IntegrityMismatch)
    }
}

/// The local name of a downloaded blob: the content hash, a random suffix,
/// then `.gpg`.
pub fn download_name(data_hash: &str, suffix: &str) -> (r: String)
    ensures
        r@ == data_hash@ + suffix@ + seq!['.', 'g', 'p', 'g'],
{
    let mut r = data_hash.to_owned();
    r.append(suffix);
    r.append(".gpg");
    proof {
        reveal_strlit(".gpg");
    }
    assert(".gpg"@ =~= seq!['.', 'g', 'p', 'g']);
    r
}

/// A path that the restore materialises lies inside the destination: it is
/// the destination followed by a relative path that is not absolute and has
/// no `..` component.
pub proof fn lemma_restore_stays_inside(destination: Seq<char>, name: Seq<char>)
    requires
        !escapes(name),
    ensures
        ({
            let p = joined(destination, relative_part(name));
            let tail = p.subrange(destination.len() as int, p.len() as int);
            &&& destination.len() <= p.len()
            &&& p.subrange(0, destination.len() as int) == destination
            &&& !climbs(tail)
            &&& (destination.len() > 0 && destination.last() != '/' ==> tail.len() > 0 && tail[0] == '/')
        }),
{
    let rel = relative_part(name);
    let p = joined(destination, rel);
    let tail = p.subrange(destination.len() as int, p.len() as int);
    if destination.len() == 0 || destination.last() == '/' {
        assert(p.subrange(0, destination.len() as int) =~= destination);
        assert(tail =~= rel);
    } else {
        assert(p.subrange(0, destination.len() as int) =~= destination);
        assert(tail =~= seq!['/'] + rel);
        assert forall|i: int| !parent_at(tail, i) by {
            if parent_at(tail, i) {
                assert(i >= 1);
                assert(parent_at(rel, i - 1));
            }
        }
    }
}

} // verus!
