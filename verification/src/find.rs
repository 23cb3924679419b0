//! Entry-type filtering and path classification for the tree walkers.
//!
//! Walking a directory tree is I/O; which entries pass the filters, and
//! what to do with each named path, are decisions made here.

use vstd::prelude::*;
use vstd::string::*;

use crate::textfmt::str_eq;

verus! {

/// A kind of directory entry that can be asked for.
#[derive(Clone, Copy, Debug, PartialEq, Eq, Structural)]
pub enum EntryType {
    File,
    Directory,
    Symlink,
}

impl EntryType {
    /// Reads an entry-type letter: `f`, `d` or `l`.
    pub fn from_str(s: &str) -> (r: Result<EntryType, String>)
        ensures
            match r {
                Ok(t) => (s@ == "f"@ && t is File) || (s@ == "d"@ && t is Directory) || (s@
                    == "l"@ && t is Symlink),
                Err(e) => s@ != "f"@ && s@ != "d"@ && s@ != "l"@ && e@ == "Invalid entry type: "@
                    + s@,
            },
    {
        if str_eq(s, "f") {
            Ok(EntryType::File)
        } else if str_eq(s, "d") {
            Ok(EntryType::Directory)
        } else if str_eq(s, "l") {
            Ok(EntryType::Symlink)
        } else {
            let mut m = String::from_str("Invalid entry type: ");
            m.append(s);
            Err(m)
        }
    }
}

/// Whether one asked-for type accepts an entry with the given kinds.
pub open spec fn type_accepts(t: EntryType, is_file: bool, is_dir: bool, is_symlink: bool) -> bool {
    match t {
        EntryType::File => is_file,
        EntryType::Directory => is_dir,
        EntryType::Symlink => is_symlink,
    }
}

/// Whether a walked entry is printed: its name must match, and, when any
/// types are asked for, some asked-for type must accept it.
pub fn entry_matches(
    types: &Vec<EntryType>,
    is_file: bool,
    is_dir: bool,
    is_symlink: bool,
    name_matches: bool,
) -> (r: bool)
    ensures
        r == ((types@.len() == 0 || exists|k: int|
            0 <= k < types@.len() && type_accepts(
                #[trigger] types@[k],
                is_file,
                is_dir,
                is_symlink,
            )) && name_matches),
{
    if !name_matches {
        return false;
    }
    if types.len() == 0 {
        return true;
    }
    let mut k: usize = 0;
    while k < types.len()
        invariant
            name_matches,
            k <= types@.len(),
            forall|j: int|
                0 <= j < k ==> !type_accepts(#[trigger] types@[j], is_file, is_dir, is_symlink),
        decreases types@.len() - k,
    {
        let hit = match types[k] {
            EntryType::File => is_file,
            EntryType::Directory => is_dir,
            EntryType::Symlink => is_symlink,
        };
        if hit {
            assert(type_accepts(types@[k as int], is_file, is_dir, is_symlink));
            return true;
        }
        k += 1;
    }
    false
}

/// What the walker has found a named path to be.
#[derive(Clone, Copy, Debug, PartialEq, Eq, Structural)]
pub enum PathKind {
    File,
    Directory,
    Other,
}

/// What to do with one named search path.
#[derive(Clone, Copy, Debug, PartialEq, Eq, Structural)]
pub enum PathAction {
    /// Read this path as one input.
    Use,
    /// Walk the tree below it for files.
    Walk,
    /// Report that it is a directory and searching it needs recursion.
    DirError,
    /// Report that it could not be examined.
    MetaError,
    /// Pass it over silently.
    Skip,
}

/// Classification of one named search path.
pub open spec fn spec_classify(path: Seq<char>, kind: Option<PathKind>, recursive: bool)
    -> PathAction {
    if path == "-"@ {
        PathAction::Use
    } else {
        match kind {
            None => PathAction::MetaError,
            Some(PathKind::File) => PathAction::Use,
            Some(PathKind::Directory) => if recursive {
                PathAction::Walk
            } else {
                PathAction::DirError
            },
            Some(PathKind::Other) => PathAction::Skip,
        }
    }
}

/// Decides what to do with one named search path: the standard-input name
/// is read directly; a file is read; a directory is walked only under
/// recursion and is otherwise an error; an unexaminable path is an error.
pub fn classify_path(path: &str, kind: Option<PathKind>, recursive: bool) -> (r: PathAction)
    ensures
        r == spec_classify(path@, kind, recursive),
{
    if str_eq(path, "-") {
        return PathAction::Use;
    }
    match kind {
        None => PathAction::MetaError,
        Some(PathKind::File) => PathAction::Use,
        Some(PathKind::Directory) => {
            if recursive {
                PathAction::Walk
            } else {
                PathAction::DirError
            }
        },
        Some(PathKind::Other) => PathAction::Skip,
    }
}

/// The diagnostic for a directory met without recursion.
pub fn directory_error(path: &str) -> (r: String)
    ensures
        r@ == path@ + " is a directory"@,
{
    let mut m = path.to_owned();
    m.append(" is a directory");
    m
}

} // verus!
