//! Unpacking an archive.
use crate::text::has_suffix;
use vstd::prelude::*;

verus! {

/// What becomes of an entry of an archive.
#[derive(Debug, PartialEq)]
pub enum EntryPlan {
    /// Nothing: its path leads out of the directory.
    Skip,
    /// A directory at this path below the target, with these permissions if
    /// there are any.
    Directory(String, Option<u32>),
    /// A file at this path below the target, with these permissions if there
    /// are any.
    File(String, Option<u32>),
}

/// What an `EntryPlan` says.
pub enum PlanView {
    Skip,
    Directory(Seq<char>, Option<u32>),
    File(Seq<char>, Option<u32>),
}

impl View for EntryPlan {
    type V = PlanView;

    open spec fn view(&self) -> PlanView {
        match *self {
            EntryPlan::Skip => PlanView::Skip,
            EntryPlan::Directory(path, mode) => PlanView::Directory(path@, mode),
            EntryPlan::File(path, mode) => PlanView::File(path@, mode),
        }
    }
}

/// What becomes of an entry: one that has no safe path (`enclosed`) is
/// skipped; one whose name ends with a slash is a directory, any other a file,
/// at that path.
pub open spec fn plan_of(
    name: Seq<char>,
    enclosed: Option<Seq<char>>,
    unix_mode: Option<u32>,
) -> PlanView {
    match enclosed {
        None => PlanView::Skip,
        Some(path) => if "/"@.is_suffix_of(name) {
            PlanView::Directory(path, unix_mode)
        } else {
            PlanView::File(path, unix_mode)
        },
    }
}

/// Decides what becomes of an entry.
pub fn plan_entry(name: &str, enclosed: Option<String>, unix_mode: Option<u32>) -> (res: EntryPlan)
    ensures
        res@ == plan_of(
            name@,
            match enclosed {
                Some(path) => Some(path@),
                None => None,
            },
            unix_mode,
        ),
{
    match enclosed {
        None => EntryPlan::Skip,
        Some(path) => if has_suffix(name, "/") {
            EntryPlan::Directory(path, unix_mode)
        } else {
            EntryPlan::File(path, unix_mode)
        },
    }
}

/// An entry is skipped exactly if it has no safe path. With one, it is made
/// there, whatever its permissions are, and gets these: as a directory exactly
/// if the last character of its name is a slash, and else as a file.
pub proof fn every_entry_with_a_path_is_unpacked(
    name: Seq<char>,
    enclosed: Option<Seq<char>>,
    unix_mode: Option<u32>,
)
    ensures
        plan_of(name, enclosed, unix_mode) is Skip <==> enclosed is None,
        match plan_of(name, enclosed, unix_mode) {
            PlanView::Skip => true,
            PlanView::Directory(path, mode) => {
                &&& name.len() > 0 && name.last() == '/'
                &&& enclosed == Some(path)
                &&& mode == unix_mode
            },
            PlanView::File(path, mode) => {
                &&& name.len() == 0 || name.last() != '/'
                &&& enclosed == Some(path)
                &&& mode == unix_mode
            },
        },
{
    reveal_strlit("/");
    if name.len() > 0 {
        assert(name.subrange(name.len() - 1, name.len() as int)[0] == name.last());
        if name.last() == '/' {
            assert("/"@ =~= name.subrange(name.len() - 1, name.len() as int));
        }
    }
}

/// A plan in the program says what its view says: the same path, the same
/// permissions.
pub proof fn plan_shows_its_path(path: String, mode: Option<u32>)
    ensures
        EntryPlan::Skip@ == PlanView::Skip,
        EntryPlan::Directory(path, mode)@ == PlanView::Directory(path@, mode),
        EntryPlan::File(path, mode)@ == PlanView::File(path@, mode),
{
}

} // verus!
