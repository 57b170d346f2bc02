//! The decisions of a run: which operation it is, where a target is buried,
//! and which entries an unbury restores.
use vstd::prelude::*;
use crate::args::Args;
use crate::paths::{has_root, has_root_str, joined, join_absolute, push_component, starts_with, path_starts_with};
use crate::record::RecordItem;
use crate::text::views;

verus! {

broadcast use vstd::string::group_string_axioms;

/// The operation a run performs.
#[derive(Clone, Copy, PartialEq, Eq, Structural, Debug)]
pub enum Operation {
    /// Delete the whole graveyard.
    Decompose,
    /// Restore entries.
    Unbury,
    /// List what was buried under the current directory.
    Seance,
    /// Nothing to do: show the help.
    Help,
    /// Bury the targets.
    Bury,
}

/// The operation that the options ask for, the first that applies of:
/// decompose, unbury, seance, bury (with targets) and help (without).
pub fn select_operation(cli: &Args) -> (r: Operation)
    ensures
        cli.decompose ==> r == Operation::Decompose,
        !cli.decompose && cli.unbury is Some ==> r == Operation::Unbury,
        !cli.decompose && cli.unbury is None && cli.seance ==> r == Operation::Seance,
        !cli.decompose && cli.unbury is None && !cli.seance && cli.targets@.len() == 0 ==> r == Operation::Help,
        !cli.decompose && cli.unbury is None && !cli.seance && cli.targets@.len() > 0 ==> r == Operation::Bury,
{
    if cli.decompose {
        Operation::Decompose
    } else if cli.unbury.is_some() {
        Operation::Unbury
    } else if cli.seance {
        Operation::Seance
    } else if cli.targets.len() == 0 {
        Operation::Help
    } else {
        Operation::Bury
    }
}

/// `p` taken relative to `base`, as `Path::join` does: an absolute `p` stands
/// for itself, any other is appended to `base`.
pub open spec fn path_join(base: Seq<char>, p: Seq<char>) -> Seq<char> {
    if has_root(p) {
        p
    } else {
        push_component(base, p)
    }
}

/// `target` taken relative to the directory `cwd`.
pub fn source_path(cwd: &str, target: &str) -> (r: String)
    ensures
        r@ == path_join(cwd@, target@),
{
    proof {
        reveal_strlit("/");
    }
    if has_root_str(target) {
        return target.to_owned();
    }
    let n = cwd.unicode_len();
    let open = n == 0 || cwd.get_char(n - 1) == '/';
    let mut p = cwd.to_owned();
    if !open {
        p.append("/");
    }
    p.append(target);
    p
}

/// What burying a source comes to.
#[derive(Debug)]
pub enum BuryPlan {
    /// The source already lies in the graveyard: it is deleted for good, if
    /// the user agrees, and skipped otherwise.
    AlreadyBuried,
    /// The source goes to this holding path, or to a suffixed name of it where
    /// the path is taken.
    Bury(String),
}

/// Where `source` goes in `graveyard`: its own absolute path under the
/// graveyard, unless it lies in the graveyard already.
pub fn bury_plan(source: &str, graveyard: &str) -> (r: BuryPlan)
    ensures
        r is AlreadyBuried <==> starts_with(source@, graveyard@),
        r is Bury ==> r->Bury_0@ == joined(graveyard@, source@),
{
    if path_starts_with(source, graveyard) {
        BuryPlan::AlreadyBuried
    } else {
        BuryPlan::Bury(join_absolute(graveyard, source))
    }
}

/// The part of the graveyard that mirrors the directory `cwd`.
pub fn seance_root(graveyard: &str, cwd: &str) -> (r: String)
    ensures
        r@ == joined(graveyard@, cwd@),
{
    join_absolute(graveyard, cwd)
}

/// The holding paths that an unbury restores: those named, then those of the
/// records listed by a seance.
pub fn graves_to_exhume(names: Vec<String>, seance: &Vec<RecordItem>) -> (r: Vec<String>)
    ensures
        views(r@) == views(names@) + seance@.map_values(|i: RecordItem| i.dest@),
{
    let mut out = names;
    let ghost start = views(out@);
    let mut j: usize = 0;
    while j < seance.len()
        invariant
            j <= seance@.len(),
            views(out@) == start + seance@.take(j as int).map_values(|i: RecordItem| i.dest@),
        decreases seance.len() - j,
    {
        let ghost before = out@;
        out.push(seance[j].dest.clone());
        assert(views(out@) =~= views(before).push(seance@[j as int].dest@));
        assert(seance@.take(j + 1).map_values(|i: RecordItem| i.dest@)
            =~= seance@.take(j as int).map_values(|i: RecordItem| i.dest@).push(seance@[j as int].dest@));
        j = j + 1;
    }
    assert(seance@.take(j as int) =~= seance@);
    out
}

/// How the path of a bury target is settled.
#[derive(Debug)]
pub enum SourcePlan {
    /// The target is a link: it is buried under this path, not resolved, so
    /// that the link itself moves and not what it points to.
    Link(String),
    /// Any other entry: this path is resolved to its canonical form first.
    Canonicalize(String),
}

/// Why a target cannot be buried.
#[derive(Debug)]
pub enum BuryError {
    /// Nothing exists at the target's path.
    NotFound { target: String },
}

impl BuryError {
    /// The message that explains the failure.
    pub fn message(&self) -> (r: String)
        ensures
            match self {
                BuryError::NotFound { target } => r@ == "Cannot remove "@ + target@ + ": no such file or directory"@,
            },
    {
        match self {
            BuryError::NotFound { target } => {
                let mut s = "Cannot remove ".to_owned();
                s.append(target.as_str());
                s.append(": no such file or directory");
                s
            },
        }
    }
}

/// The first step of burying `target`, given whether anything exists at its
/// path (links not followed) and whether that is a link.
pub fn resolve_source(cwd: &str, target: &str, found: bool, is_symlink: bool) -> (r: Result<SourcePlan, BuryError>)
    ensures
        !found <==> r is Err,
        r is Err ==> match r->Err_0 {
            BuryError::NotFound { target: t } => t@ == target@,
        },
        found && is_symlink ==> r is Ok && r->Ok_0 is Link && r->Ok_0->Link_0@ == path_join(cwd@, target@),
        found && !is_symlink ==> r is Ok && r->Ok_0 is Canonicalize
            && r->Ok_0->Canonicalize_0@ == path_join(cwd@, target@),
{
    if !found {
        return Err(BuryError::NotFound { target: target.to_owned() });
    }
    let p = source_path(cwd, target);
    if is_symlink {
        Ok(SourcePlan::Link(p))
    } else {
        Ok(SourcePlan::Canonicalize(p))
    }
}

/// How many children of a directory an inspection lists.
pub const FILES_TO_INSPECT: usize = 6;

/// How many lines of a file an inspection shows.
pub const LINES_TO_INSPECT: usize = 6;

/// The first line of the inspection of a directory whose size reads `size`.
pub fn describe_dir(target: &str, size: &str) -> (r: String)
    ensures
        r@ == target@ + ": directory, "@ + size@ + " including:"@,
{
    let mut s = target.to_owned();
    s.append(": directory, ");
    s.append(size);
    s.append(" including:");
    s
}

/// The first line of the inspection of a file whose size reads `size`.
pub fn describe_file(target: &str, size: &str) -> (r: String)
    ensures
        r@ == target@ + ": file, "@ + size@,
{
    let mut s = target.to_owned();
    s.append(": file, ");
    s.append(size);
    s
}

/// A line of a file as the inspection quotes it.
pub fn quote_line(line: &str) -> (r: String)
    ensures
        r@ == "> "@ + line@,
{
    let mut s = "> ".to_owned();
    s.append(line);
    s
}

/// The question put after an inspection.
pub fn bury_question(target: &str) -> (r: String)
    ensures
        r@ == "Send "@ + target@ + " to the graveyard?"@,
{
    let mut s = "Send ".to_owned();
    s.append(target);
    s.append(" to the graveyard?");
    s
}

/// Whether an unbury falls back to the last entry buried: where nothing was
/// named and the seance found nothing.
pub fn wants_last_bury(graves: &Vec<String>) -> (r: bool)
    ensures
        r == (graves@.len() == 0),
{
    graves.len() == 0
}

/// The holding paths to restore once the fallback was looked up: `graves` where
/// it names any, else the last entry buried, if one was found.
pub fn with_last_bury(graves: Vec<String>, last: Option<String>) -> (r: Vec<String>)
    ensures
        graves@.len() > 0 ==> r@ == graves@,
        graves@.len() == 0 && last is None ==> r@.len() == 0,
        graves@.len() == 0 && last is Some ==> r@ == seq![last->0],
{
    if graves.len() > 0 {
        return graves;
    }
    let mut out: Vec<String> = Vec::new();
    if let Some(g) = last {
        out.push(g);
    }
    out
}

} // verus!
