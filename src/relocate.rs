//! Moving an entry from one path to another: a rename where the caller allows
//! it, else a copy of every entry followed by the removal of the source.
//!
//! The filesystem work is the caller's. The functions here decide, at each
//! step, what is to be done next with what the previous step gave.
use vstd::prelude::*;
use crate::paths::{
    parent, parent_of, rebased, rebase, join_components, plain_component, components,
    rooted_components, has_root, lemma_join_components,
};

verus! {

/// Files larger than this many bytes are not copied without asking first.
pub const BIG_FILE_THRESHOLD: u64 = 500000000;

/// The type of a filesystem entry, as its own metadata (links not followed)
/// gives it.
#[derive(Clone, Copy, PartialEq, Eq, Structural, Debug)]
pub enum EntryKind {
    Regular,
    Directory,
    Symlink,
    Fifo,
    /// Sockets, devices and anything else.
    Other,
}

/// What the copy policy reads of an entry's metadata.
#[derive(Clone, Copy, PartialEq, Eq, Structural, Debug)]
pub struct EntryInfo {
    pub kind: EntryKind,
    /// The length that the metadata reports.
    pub len: u64,
    /// The permission bits.
    pub mode: u32,
}

/// How far the copy of one entry has come.
#[derive(Clone, Copy, PartialEq, Eq, Structural, Debug)]
pub enum CopyStep {
    /// Nothing done yet.
    Start,
    /// The entry is big; the answer to "Permanently delete this file instead?".
    BigFileAnswer(bool),
    /// A plain copy of an entry of no supported type failed; the answer to
    /// "Permanently delete the file?".
    UnsupportedAnswer(bool),
}

/// What is to be done next in the copy of one entry.
#[derive(Clone, Copy, PartialEq, Eq, Structural, Debug)]
pub enum CopyAction {
    /// Say that a big file is about to be copied and ask whether to delete it
    /// instead; the answer comes back as `BigFileAnswer`.
    AskBigFile,
    /// Copy the bytes of a regular file; the entry is then copied.
    CopyBytes,
    /// Make a FIFO at the destination with these permission bits; the entry is
    /// then copied.
    MakeFifo(u32),
    /// Make a link at the destination to the target the source link reads; the
    /// entry is then copied.
    CopyLink,
    /// Try a plain copy: the entry is copied if it works, and if it fails, say
    /// that the entry is not a regular file and ask whether to delete it; the
    /// answer comes back as `UnsupportedAnswer`.
    TryCopy,
    /// Write the marker text in place of the entry; it is then copied.
    WriteMarker,
    /// Stop: the entry was not copied and is to be deleted.
    Skip,
    /// Stop with the error of the failed plain copy.
    FailCopy,
}

/// The action that copies an entry of this type.
pub open spec fn copy_by_kind(info: EntryInfo) -> CopyAction {
    match info.kind {
        EntryKind::Regular => CopyAction::CopyBytes,
        EntryKind::Fifo => CopyAction::MakeFifo(info.mode),
        EntryKind::Symlink => CopyAction::CopyLink,
        _ => CopyAction::TryCopy,
    }
}

/// The copy policy for one entry: a big entry is only copied once the caller
/// declines to delete it instead; then each type is copied its own way; an
/// entry that a plain copy cannot reproduce is replaced by a marker if the
/// caller agrees to delete it, and the copy fails otherwise.
pub fn copy_file(info: &EntryInfo, step: CopyStep) -> (r: CopyAction)
    ensures
        step == CopyStep::Start && info.len > BIG_FILE_THRESHOLD ==> r == CopyAction::AskBigFile,
        step == CopyStep::Start && info.len <= BIG_FILE_THRESHOLD ==> r == copy_by_kind(*info),
        step == CopyStep::BigFileAnswer(true) ==> r == CopyAction::Skip,
        step == CopyStep::BigFileAnswer(false) ==> r == copy_by_kind(*info),
        step == CopyStep::UnsupportedAnswer(true) ==> r == CopyAction::WriteMarker,
        step == CopyStep::UnsupportedAnswer(false) ==> r == CopyAction::FailCopy,
{
    let by_kind = match info.kind {
        EntryKind::Regular => CopyAction::CopyBytes,
        EntryKind::Fifo => CopyAction::MakeFifo(info.mode),
        EntryKind::Symlink => CopyAction::CopyLink,
        _ => CopyAction::TryCopy,
    };
    match step {
        CopyStep::Start => {
            if info.len > BIG_FILE_THRESHOLD {
                CopyAction::AskBigFile
            } else {
                by_kind
            }
        },
        CopyStep::BigFileAnswer(delete) => {
            if delete {
                CopyAction::Skip
            } else {
                by_kind
            }
        },
        CopyStep::UnsupportedAnswer(delete) => {
            if delete {
                CopyAction::WriteMarker
            } else {
                CopyAction::FailCopy
            }
        },
    }
}

/// The text written in place of an entry that could not be copied.
pub fn marker_text(source: &str) -> (r: String)
    ensures
        r@ == marker(source@),
{
    proof {
        reveal_strlit("This entry could not be copied to the graveyard and was deleted: ");
        reveal_strlit("\n");
    }
    let mut s = "This entry could not be copied to the graveyard and was deleted: ".to_owned();
    s.append(source);
    s.append("\n");
    s
}

pub open spec fn marker(source: Seq<char>) -> Seq<char> {
    "This entry could not be copied to the graveyard and was deleted: "@ + source + seq!['\n']
}

/// How far a move has come.
#[derive(Clone, Copy, PartialEq, Eq, Structural, Debug)]
pub enum MoveStep {
    /// Nothing done yet.
    Start,
    /// The rename failed (or was not allowed).
    RenameFailed,
    /// The destination's parent directory exists; the source's own type is
    /// known.
    ParentReady(EntryKind),
    /// The single entry was copied (`true`) or is to be deleted without a copy
    /// (`false`).
    FileCopied(bool),
}

/// What is to be done next in a move.
#[derive(Debug)]
pub enum MoveAction {
    /// Rename the source to the destination: if that works, the move is done
    /// and the entry moved; if not, go on with `RenameFailed`.
    Rename,
    /// Create this directory and its ancestors, then read the source's type
    /// and go on with `ParentReady`.
    CreateParent(String),
    /// Copy the directory tree entry by entry (see `move_dir`), then remove the
    /// source tree: the entry moved.
    CopyTree,
    /// Copy the single entry by the copy policy, then go on with `FileCopied`.
    CopyEntry,
    /// Remove the source; the result of the move is the value held.
    RemoveSource(bool),
}

/// What stops a move.
#[derive(Clone, Copy, PartialEq, Eq, Structural, Debug)]
pub enum MoveError {
    /// The destination has no parent directory.
    NoParent,
    /// A walked entry does not lie under the directory being moved.
    NotUnder,
    /// The walk could not read an entry.
    Unreadable,
    /// Creating or copying a walked entry failed.
    EntryFailed,
}

/// The steps of a move: a rename first where `allow_rename` holds; else the
/// destination's parent is created, and a directory is copied as a tree, any
/// other entry by the copy policy, and the source removed.
pub fn move_target(dest: &str, allow_rename: bool, step: MoveStep) -> (r: Result<MoveAction, MoveError>)
    ensures
        step == MoveStep::Start && allow_rename ==> r == Ok::<MoveAction, MoveError>(MoveAction::Rename),
        (step == MoveStep::Start && !allow_rename) || step == MoveStep::RenameFailed ==> {
            &&& r is Err <==> parent(dest@) is None
            &&& r is Err ==> r->Err_0 == MoveError::NoParent
            &&& r is Ok ==> r->Ok_0 is CreateParent && r->Ok_0->CreateParent_0@ == parent(dest@)->0
        },
        step == MoveStep::ParentReady(EntryKind::Directory) ==> r == Ok::<MoveAction, MoveError>(MoveAction::CopyTree),
        step is ParentReady && step != MoveStep::ParentReady(EntryKind::Directory)
            ==> r == Ok::<MoveAction, MoveError>(MoveAction::CopyEntry),
        forall|moved: bool| step == MoveStep::FileCopied(moved)
            ==> r == Ok::<MoveAction, MoveError>(MoveAction::RemoveSource(moved)),
{
    match step {
        MoveStep::Start if allow_rename => Ok(MoveAction::Rename),
        MoveStep::Start | MoveStep::RenameFailed => match parent_of(dest) {
            Some(p) => Ok(MoveAction::CreateParent(p)),
            None => Err(MoveError::NoParent),
        },
        MoveStep::ParentReady(kind) => {
            if kind == EntryKind::Directory {
                Ok(MoveAction::CopyTree)
            } else {
                Ok(MoveAction::CopyEntry)
            }
        },
        MoveStep::FileCopied(moved) => Ok(MoveAction::RemoveSource(moved)),
    }
}

/// What the walk of a directory that moves gives next.
pub enum WalkEvent {
    /// An entry at this path; whether it is a directory (links not followed).
    Entry { path: String, is_dir: bool },
    /// An entry the walk could not read.
    Unreadable,
    /// Creating or copying the entry last named failed.
    Failed,
    /// The walk is over.
    Finished,
}

/// What to do next while a directory moves.
#[derive(Debug)]
pub enum TreeAction {
    /// Create this directory (and its ancestors).
    CreateDir(String),
    /// Copy the entry to this path by the copy policy.
    CopyTo(String),
    /// Stop the move with this error; the source stays as it is.
    Abort(MoveError),
    /// Every entry is in place: remove the source tree.
    RemoveSource,
}

/// The move of the directory `target` to `dest`, entry by entry.
#[derive(Debug)]
pub struct TreeMove {
    target: String,
    dest: String,
    aborted: bool,
}

impl TreeMove {
    pub closed spec fn spec_target(&self) -> Seq<char> {
        self.target@
    }

    pub closed spec fn spec_dest(&self) -> Seq<char> {
        self.dest@
    }

    /// Whether something went wrong during the walk.
    pub closed spec fn spec_aborted(&self) -> bool {
        self.aborted
    }

    /// A move of `target` to `dest` that has not begun.
    pub fn new(target: &str, dest: &str) -> (r: TreeMove)
        ensures
            r.spec_target() == target@,
            r.spec_dest() == dest@,
            !r.spec_aborted(),
    {
        TreeMove { target: target.to_owned(), dest: dest.to_owned(), aborted: false }
    }
}

/// One step of moving a directory: each walked entry goes where the same
/// components lead under `dest`, a directory created there and anything else
/// copied there. An entry the walk could not read, one that does not lie under
/// the target, or a failed creation or copy aborts the move for good; the
/// source is removed only when the walk finishes with nothing aborted.
pub fn move_dir(walk: &mut TreeMove, event: WalkEvent) -> (r: TreeAction)
    ensures
        final(walk).spec_target() == old(walk).spec_target(),
        final(walk).spec_dest() == old(walk).spec_dest(),
        final(walk).spec_aborted() <==> r is Abort,
        old(walk).spec_aborted() ==> r is Abort,
        r is RemoveSource <==> !old(walk).spec_aborted() && event is Finished,
        !old(walk).spec_aborted() ==> match event {
            WalkEvent::Unreadable => r == TreeAction::Abort(MoveError::Unreadable),
            WalkEvent::Failed => r == TreeAction::Abort(MoveError::EntryFailed),
            WalkEvent::Finished => r is RemoveSource,
            WalkEvent::Entry { path, is_dir } => match rebased(path@, old(walk).spec_target(), old(walk).spec_dest()) {
                None => r == TreeAction::Abort(MoveError::NotUnder),
                Some(p) => if is_dir {
                    r is CreateDir && r->CreateDir_0@ == p
                } else {
                    r is CopyTo && r->CopyTo_0@ == p
                },
            },
        },
{
    if walk.aborted {
        return match event {
            WalkEvent::Unreadable => TreeAction::Abort(MoveError::Unreadable),
            WalkEvent::Entry { .. } => TreeAction::Abort(MoveError::NotUnder),
            _ => TreeAction::Abort(MoveError::EntryFailed),
        };
    }
    match event {
        WalkEvent::Unreadable => {
            walk.aborted = true;
            TreeAction::Abort(MoveError::Unreadable)
        },
        WalkEvent::Failed => {
            walk.aborted = true;
            TreeAction::Abort(MoveError::EntryFailed)
        },
        WalkEvent::Finished => TreeAction::RemoveSource,
        WalkEvent::Entry { path, is_dir } => match rebase(path.as_str(), walk.target.as_str(), walk.dest.as_str()) {
            None => {
                walk.aborted = true;
                TreeAction::Abort(MoveError::NotUnder)
            },
            Some(p) => {
                if is_dir {
                    TreeAction::CreateDir(p)
                } else {
                    TreeAction::CopyTo(p)
                }
            },
        },
    }
}

/// A tree copied entry by entry lands where a rename would put it: the entry
/// reached from `target` by the components `rel` goes to the path reached from
/// `dest` by the same components.
pub proof fn lemma_tree_copy_mirrors_rename(target: Seq<char>, dest: Seq<char>, rel: Seq<Seq<char>>)
    requires
        forall|i: int| 0 <= i < rel.len() ==> plain_component(#[trigger] rel[i]),
    ensures
        rebased(join_components(target, rel), target, dest) == Some(join_components(dest, rel)),
{
    let e = join_components(target, rel);
    lemma_join_components(target, rel);
    let (re, rt) = (rooted_components(e), rooted_components(target));
    assert(re =~= rt + rel);
    assert(re.take(rt.len() as int) =~= rt);
    assert(components(e).skip(components(target).len() as int) =~= rel);
}

} // verus!
