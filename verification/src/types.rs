//! The data model: the kind of a filesystem entry, the persisted record of
//! a quarantined item, and the command surface the outer CLI layer drives.

use vstd::prelude::*;

verus! {

/// Kind of a quarantined filesystem entry. Size and permission semantics
/// differ by kind, so every consumer matches on it exhaustively.
#[derive(Clone, Copy, Debug, PartialEq, Eq, Structural)]
pub enum FileType {
    File,
    Dir,
    Symlink,
}

/// The one-character tag a kind contributes to a short identifier.
pub open spec fn spec_type_tag(ft: FileType) -> Seq<char> {
    match ft {
        FileType::File => seq!['f'],
        FileType::Dir => seq!['d'],
        FileType::Symlink => seq!['l'],
    }
}

/// The kind's name inside a persisted record.
pub open spec fn spec_type_name(ft: FileType) -> Seq<char> {
    match ft {
        FileType::File => seq!['F', 'i', 'l', 'e'],
        FileType::Dir => seq!['D', 'i', 'r'],
        FileType::Symlink => seq!['S', 'y', 'm', 'l', 'i', 'n', 'k'],
    }
}

/// The kind's lowercase display word.
pub open spec fn spec_type_label(ft: FileType) -> Seq<char> {
    match ft {
        FileType::File => seq!['f', 'i', 'l', 'e'],
        FileType::Dir => seq!['d', 'i', 'r'],
        FileType::Symlink => seq!['s', 'y', 'm', 'l', 'i', 'n', 'k'],
    }
}

impl FileType {
    /// The tag used as the first character of a short identifier.
    pub fn tag(&self) -> (r: &'static str)
        ensures
            r@ == spec_type_tag(*self),
    {
        proof {
            reveal_strlit("f");
            reveal_strlit("d");
            reveal_strlit("l");
        }
        match self {
            FileType::File => "f",
            FileType::Dir => "d",
            FileType::Symlink => "l",
        }
    }

    /// The kind's name as persisted in a record.
    pub fn name(&self) -> (r: &'static str)
        ensures
            r@ == spec_type_name(*self),
    {
        proof {
            reveal_strlit("File");
            reveal_strlit("Dir");
            reveal_strlit("Symlink");
        }
        match self {
            FileType::File => "File",
            FileType::Dir => "Dir",
            FileType::Symlink => "Symlink",
        }
    }

    /// The kind's lowercase display word.
    pub fn label(&self) -> (r: &'static str)
        ensures
            r@ == spec_type_label(*self),
    {
        proof {
            reveal_strlit("file");
            reveal_strlit("dir");
            reveal_strlit("symlink");
        }
        match self {
            FileType::File => "file",
            FileType::Dir => "dir",
            FileType::Symlink => "symlink",
        }
    }
}

/// The persisted record of one quarantined item, one per deletion event.
///
/// `trash_path` names the quarantined copy inside the quarantine area;
/// `delete_time` is rendered as `YYYY-MM-DD HH:MM:SS`; `expire_days` is the
/// retention window chosen at deletion time; the permission descriptor is
/// optional, captured where the platform offers it.
#[derive(Clone, Debug)]
pub struct FileMeta {
    pub original_path: String,
    pub trash_path: String,
    pub delete_time: String,
    pub expire_days: i64,
    pub file_type: FileType,
    pub permissions: Option<u32>,
    pub uid: Option<u32>,
    pub gid: Option<u32>,
    pub short_id: String,
    pub size_bytes: u64,
}

/// The commands the outer CLI layer can ask of the engine; paths and
/// identifiers arrive as plain strings.
#[derive(Clone, Debug)]
pub enum Commands {
    /// Relocate the named paths into quarantine.
    Delete { paths: Vec<String>, expire_days: i64, force: bool },
    /// Return quarantined items to their original (or an explicit) path.
    Restore { names: Vec<String>, force: bool, target: Option<String> },
    /// Show quarantined items, optionally only the expired ones.
    List { expired: bool, verbose: bool },
    /// Permanently remove expired items, or all of them.
    Clean { all: bool },
    /// Permanently remove everything in quarantine.
    Empty { yes: bool },
}

} // verus!
