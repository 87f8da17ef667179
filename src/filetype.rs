//! The three kinds of entry a backup records.
use vstd::prelude::*;
use crate::text::text_eq;

verus! {

/// The kind of a catalog entry.
#[allow(non_camel_case_types, clippy::upper_case_acronyms)]
#[derive(Clone, Copy, Debug, PartialEq, Eq, Structural)]
pub enum FileType {
    FILE,
    SYMLINK,
    DIRECTORY,
}

/// How a kind is written in the catalog.
pub open spec fn kind_name(t: FileType) -> Seq<char> {
    match t {
        FileType::FILE => seq!['F', 'I', 'L', 'E'],
        FileType::SYMLINK => seq!['S', 'Y', 'M', 'L', 'I', 'N', 'K'],
        FileType::DIRECTORY => seq!['D', 'I', 'R', 'E', 'C', 'T', 'O', 'R', 'Y'],
    }
}

/// The kind of a file system object from what the file system says of it;
/// `None` for anything else (a device, a socket, a pipe).
pub open spec fn kind_of(is_dir: bool, is_file: bool, is_symlink: bool) -> Option<FileType> {
    if is_dir {
        Some(FileType::DIRECTORY)
    } else if is_file {
        Some(FileType::FILE)
    } else if is_symlink {
        Some(FileType::SYMLINK)
    } else {
        None
    }
}

impl FileType {
    /// Classifies a file system object from its type's three tests.
    pub fn from(is_dir: bool, is_file: bool, is_symlink: bool) -> (r: Option<FileType>)
        ensures
            r == kind_of(is_dir, is_file, is_symlink),
    {
        if is_dir {
            Some(FileType::DIRECTORY)
        } else if is_file {
            Some(FileType::FILE)
        } else if is_symlink {
            Some(FileType::SYMLINK)
        } else {
            None
        }
    }

    /// The kind's name as the catalog stores it.
    pub fn to_string(&self) -> (r: String)
        ensures
            r@ == kind_name(*self),
    {
        proof {
            reveal_strlit("FILE");
            reveal_strlit("SYMLINK");
            reveal_strlit("DIRECTORY");
        }
        match self {
            FileType::FILE => "FILE".to_owned(),
            FileType::SYMLINK => "SYMLINK".to_owned(),
            FileType::DIRECTORY => "DIRECTORY".to_owned(),
        }
    }

    /// Reads a kind back from its stored name.
    pub fn parse(s: &str) -> (r: Option<FileType>)
        ensures
            match r {
                Some(t) => s@ == kind_name(t),
                None => forall|t: FileType| s@ != kind_name(t),
            },
    {
        proof {
            reveal_strlit("FILE");
            reveal_strlit("SYMLINK");
            reveal_strlit("DIRECTORY");
        }
        if text_eq(s, "FILE") {
            Some(FileType::FILE)
        } else if text_eq(s, "SYMLINK") {
            Some(FileType::SYMLINK)
        } else if text_eq(s, "DIRECTORY") {
            Some(FileType::DIRECTORY)
        } else {
            assert forall|t: FileType| s@ != kind_name(t) by {
                match t {
                    FileType::FILE => assert(kind_name(t) =~= "FILE"@),
                    FileType::SYMLINK => assert(kind_name(t) =~= "SYMLINK"@),
                    FileType::DIRECTORY => assert(kind_name(t) =~= "DIRECTORY"@),
                }
            }
            None
        }
    }
}

} // verus!
