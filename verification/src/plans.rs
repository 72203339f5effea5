//! Decisions of the launcher that stand between file system steps: which data
//! directory to use, what to migrate, what to do with a leftover server
//! process, which relative paths a download manifest may name, and where a
//! downloaded chapter's folder is.

use vstd::prelude::*;
use vstd::string::*;
use crate::text::{chars_of, chars_occur_at, ends_with, split, starts_with};

verus! {

/// Whether the data directory ends up at its new place after a legacy one
/// was to be moved there: only when the new place's parent could be made and
/// the legacy directory was moved or, failing that, copied; otherwise the
/// legacy directory stays in use.
pub fn migrated_data_dir_is_new(parent_created: bool, renamed: bool, copied: bool) -> (r: bool)
    ensures
        r == (parent_created && (renamed || copied)),
{
    parent_created && (renamed || copied)
}

/// One file system step of moving legacy data to its new place.
#[derive(Debug, Clone, Copy, PartialEq, Eq, Structural)]
pub enum LegacyMoveAction {
    /// Rename the legacy data to the new place.
    Rename,
    /// Copy the legacy data to the new place.
    Copy,
    /// Remove the legacy data after it was copied.
    RemoveLegacy,
}

/// How moving legacy data ended.
#[derive(Debug, Clone, Copy, PartialEq, Eq, Structural)]
pub enum LegacyMoveOutcome {
    /// The data was renamed to its new place.
    Moved,
    /// The data was copied to its new place (whether or not the legacy copy
    /// could then be removed).
    Copied,
    /// Neither renaming nor copying worked; the data stays where it was.
    Failed,
}

/// What to do next while moving legacy data.
#[derive(Debug, Clone, Copy, PartialEq, Eq, Structural)]
pub enum LegacyMoveStep {
    /// Perform this step and report whether it worked.
    Perform(LegacyMoveAction),
    /// The move is over.
    Finished(LegacyMoveOutcome),
}

/// The step that follows the last one and whether it worked: first a
/// rename; when that fails, a copy; after a copy that worked, the removal of
/// the legacy data where `remove_after_copy` asks for it. A failed removal
/// leaves the copy in place.
pub open spec fn legacy_move_step(
    last: Option<(LegacyMoveAction, bool)>,
    remove_after_copy: bool,
) -> LegacyMoveStep {
    match last {
        None => LegacyMoveStep::Perform(LegacyMoveAction::Rename),
        Some((LegacyMoveAction::Rename, true)) => LegacyMoveStep::Finished(LegacyMoveOutcome::Moved),
        Some((LegacyMoveAction::Rename, false)) => LegacyMoveStep::Perform(LegacyMoveAction::Copy),
        Some((LegacyMoveAction::Copy, true)) => if remove_after_copy {
            LegacyMoveStep::Perform(LegacyMoveAction::RemoveLegacy)
        } else {
            LegacyMoveStep::Finished(LegacyMoveOutcome::Copied)
        },
        Some((LegacyMoveAction::Copy, false)) => LegacyMoveStep::Finished(LegacyMoveOutcome::Failed),
        Some((LegacyMoveAction::RemoveLegacy, _)) => LegacyMoveStep::Finished(
            LegacyMoveOutcome::Copied,
        ),
    }
}

/// Decides the next step of moving legacy data (a folder or a file) from the
/// last step taken and whether it worked; `None` before the first step.
pub fn next_legacy_move_step(last: Option<(LegacyMoveAction, bool)>, remove_after_copy: bool) -> (r:
    LegacyMoveStep)
    ensures
        r == legacy_move_step(last, remove_after_copy),
{
    match last {
        None => LegacyMoveStep::Perform(LegacyMoveAction::Rename),
        Some((LegacyMoveAction::Rename, worked)) => if worked {
            LegacyMoveStep::Finished(LegacyMoveOutcome::Moved)
        } else {
            LegacyMoveStep::Perform(LegacyMoveAction::Copy)
        },
        Some((LegacyMoveAction::Copy, worked)) => if !worked {
            LegacyMoveStep::Finished(LegacyMoveOutcome::Failed)
        } else if remove_after_copy {
            LegacyMoveStep::Perform(LegacyMoveAction::RemoveLegacy)
        } else {
            LegacyMoveStep::Finished(LegacyMoveOutcome::Copied)
        },
        Some((LegacyMoveAction::RemoveLegacy, _)) => LegacyMoveStep::Finished(
            LegacyMoveOutcome::Copied,
        ),
    }
}

/// A move always ends, after at most three steps, whatever each step reports:
/// with the data moved when the rename worked, copied when the copy worked,
/// and failed only when both failed.
pub proof fn legacy_moves_end_within_three_steps(
    first: bool,
    second: bool,
    third: bool,
    remove_after_copy: bool,
)
    ensures
        ({
            let s1 = legacy_move_step(Some((LegacyMoveAction::Rename, first)), remove_after_copy);
            let s2 = legacy_move_step(Some((LegacyMoveAction::Copy, second)), remove_after_copy);
            let s3 = legacy_move_step(
                Some((LegacyMoveAction::RemoveLegacy, third)),
                remove_after_copy,
            );
            &&& legacy_move_step(None, remove_after_copy) == LegacyMoveStep::Perform(
                LegacyMoveAction::Rename,
            )
            &&& (first ==> s1 == LegacyMoveStep::Finished(LegacyMoveOutcome::Moved))
            &&& (!first ==> s1 == LegacyMoveStep::Perform(LegacyMoveAction::Copy))
            &&& (!second ==> s2 == LegacyMoveStep::Finished(LegacyMoveOutcome::Failed))
            &&& (second ==> s2 is Finished || s2 == LegacyMoveStep::Perform(
                LegacyMoveAction::RemoveLegacy,
            ))
            &&& (second && !remove_after_copy ==> s2 == LegacyMoveStep::Finished(
                LegacyMoveOutcome::Copied,
            ))
            &&& s3 == LegacyMoveStep::Finished(LegacyMoveOutcome::Copied)
        }),
{
}

/// What merging legacy settings does with one entry of a legacy folder.
#[derive(Debug, Clone, Copy, PartialEq, Eq, Structural)]
pub enum SettingsEntryAction {
    /// Merge the sub-folder into the matching one.
    MergeFolder,
    /// Keep the file that the settings already have.
    KeepExisting,
    /// Copy the file over.
    CopyFile,
}

/// What merging legacy settings does with an entry: folders are merged,
/// files are copied only when the settings lack them.
pub fn settings_entry_action(is_dir: bool, dest_exists: bool) -> (r: SettingsEntryAction)
    ensures
        r == if is_dir {
            SettingsEntryAction::MergeFolder
        } else if dest_exists {
            SettingsEntryAction::KeepExisting
        } else {
            SettingsEntryAction::CopyFile
        },
{
    if is_dir {
        SettingsEntryAction::MergeFolder
    } else if dest_exists {
        SettingsEntryAction::KeepExisting
    } else {
        SettingsEntryAction::CopyFile
    }
}

/// How to settle on the data directory.
#[derive(Debug, Clone, Copy, PartialEq, Eq, Structural)]
pub enum DataDirPlan {
    /// Use the new directory.
    UseNew,
    /// Use the new directory and leave the legacy one where it is.
    UseNewBesideLegacy,
    /// Remove the empty new directory, then move the legacy one there.
    ReplaceEmptyNew,
    /// Move the legacy directory to the new place.
    MigrateLegacy,
}

/// How to settle on the data directory, from what exists: the new and legacy
/// directories may be the same path, may exist, and the new one may be an
/// empty directory.
pub fn data_dir_plan(same_dir: bool, new_exists: bool, legacy_exists: bool, new_is_empty_dir: bool) -> (r:
    DataDirPlan)
    ensures
        r == if same_dir {
            DataDirPlan::UseNew
        } else if new_exists {
            if legacy_exists && new_is_empty_dir {
                DataDirPlan::ReplaceEmptyNew
            } else if legacy_exists {
                DataDirPlan::UseNewBesideLegacy
            } else {
                DataDirPlan::UseNew
            }
        } else if legacy_exists {
            DataDirPlan::MigrateLegacy
        } else {
            DataDirPlan::UseNew
        },
{
    if same_dir {
        return DataDirPlan::UseNew;
    }
    if new_exists {
        if legacy_exists && new_is_empty_dir {
            return DataDirPlan::ReplaceEmptyNew;
        }
        if legacy_exists {
            return DataDirPlan::UseNewBesideLegacy;
        }
        return DataDirPlan::UseNew;
    }
    if legacy_exists {
        DataDirPlan::MigrateLegacy
    } else {
        DataDirPlan::UseNew
    }
}

/// What to do with legacy server data.
#[derive(Debug, Clone, Copy, PartialEq, Eq, Structural)]
pub enum MigrationPlan {
    /// There is no legacy data.
    NothingToMigrate,
    /// The data directory already has its own copy; leave both alone.
    AlreadyPresent,
    /// Copy over the legacy files that the present copy lacks.
    MergeMissing,
    /// Remove the empty present folder, then move the legacy one in.
    ReplaceEmptyThenMove,
    /// Move the legacy data in.
    Move,
}

/// The plan for the legacy extensions folder: nothing without it; leave it
/// when a non-empty extensions folder is present; else move it in, after
/// removing an empty one.
pub fn extensions_migration_plan(legacy_exists: bool, new_exists: bool, new_is_empty: bool) -> (r:
    MigrationPlan)
    ensures
        r == if !legacy_exists {
            MigrationPlan::NothingToMigrate
        } else if new_exists && !new_is_empty {
            MigrationPlan::AlreadyPresent
        } else if new_exists {
            MigrationPlan::ReplaceEmptyThenMove
        } else {
            MigrationPlan::Move
        },
{
    if !legacy_exists {
        MigrationPlan::NothingToMigrate
    } else if new_exists && !new_is_empty {
        MigrationPlan::AlreadyPresent
    } else if new_exists {
        MigrationPlan::ReplaceEmptyThenMove
    } else {
        MigrationPlan::Move
    }
}

/// The plan for the legacy settings folder: nothing without it; merge the
/// missing files into a non-empty settings folder; else move it in, after
/// removing an empty one.
pub fn settings_migration_plan(legacy_exists: bool, new_exists: bool, new_is_empty: bool) -> (r:
    MigrationPlan)
    ensures
        r == if !legacy_exists {
            MigrationPlan::NothingToMigrate
        } else if new_exists && !new_is_empty {
            MigrationPlan::MergeMissing
        } else if new_exists {
            MigrationPlan::ReplaceEmptyThenMove
        } else {
            MigrationPlan::Move
        },
{
    if !legacy_exists {
        MigrationPlan::NothingToMigrate
    } else if new_exists && !new_is_empty {
        MigrationPlan::MergeMissing
    } else if new_exists {
        MigrationPlan::ReplaceEmptyThenMove
    } else {
        MigrationPlan::Move
    }
}

/// The plan for the legacy database files (`database.mv.db` and
/// `database.h2.db`): nothing without either; leave them when the data
/// directory has either; else move them in.
pub fn database_migration_plan(legacy_mv: bool, legacy_h2: bool, new_mv: bool, new_h2: bool) -> (r:
    MigrationPlan)
    ensures
        r == if !legacy_mv && !legacy_h2 {
            MigrationPlan::NothingToMigrate
        } else if new_mv || new_h2 {
            MigrationPlan::AlreadyPresent
        } else {
            MigrationPlan::Move
        },
{
    if !legacy_mv && !legacy_h2 {
        MigrationPlan::NothingToMigrate
    } else if new_mv || new_h2 {
        MigrationPlan::AlreadyPresent
    } else {
        MigrationPlan::Move
    }
}

/// What to do about a server process named in a leftover pid file.
#[derive(Debug, Clone, Copy, PartialEq, Eq, Structural)]
pub enum OrphanPlan {
    /// The pid belongs to another program: only remove the stale pid file.
    RemoveStalePidFile,
    /// The process has ended: remove the pid file.
    RemovePidFile,
    /// Stop the process, then remove the pid file.
    TerminateAndRemove,
}

/// What to do about a leftover server process, given whether the pid runs
/// the server and whether it is alive.
pub fn orphan_plan(runs_server: bool, alive: bool) -> (r: OrphanPlan)
    ensures
        r == if !runs_server {
            OrphanPlan::RemoveStalePidFile
        } else if !alive {
            OrphanPlan::RemovePidFile
        } else {
            OrphanPlan::TerminateAndRemove
        },
{
    if !runs_server {
        OrphanPlan::RemoveStalePidFile
    } else if !alive {
        OrphanPlan::RemovePidFile
    } else {
        OrphanPlan::TerminateAndRemove
    }
}

/// One component of a path, as `std::path::Path::components` gives it.
pub enum PathPart {
    Prefix,
    RootDir,
    CurDir,
    ParentDir,
    Normal(String),
}

/// A single plain name: not empty, not `.` or `..`, and without `/`, `\` or
/// `:`. On every platform such a name has no root and no prefix (Windows
/// prefixes start with `\` or hold a drive colon), so it is one ordinary
/// component.
pub open spec fn plain_path_name(p: Seq<char>) -> bool {
    &&& p.len() > 0
    &&& p != "."@
    &&& p != ".."@
    &&& forall|i: int| 0 <= i < p.len() ==> #[trigger] p[i] != '/' && p[i] != '\\' && p[i] != ':'
}

/// A path of relative form: it does not start with `/` or `\` and holds no
/// `:`. On every platform such a path has no root and no prefix, so it is
/// never absolute and joins onto a base by extending it.
pub open spec fn relative_form(p: Seq<char>) -> bool {
    &&& (p.len() == 0 || (p[0] != '/' && p[0] != '\\'))
    &&& forall|i: int| 0 <= i < p.len() ==> #[trigger] p[i] != ':'
}

/// A relative path made only of plain names between single `/` separators,
/// such as `images/001.jpg`.
pub open spec fn plain_relative_path(p: Seq<char>) -> bool {
    &&& relative_form(p)
    &&& forall|i: int| 0 <= i < split(p, '/').len() ==> plain_path_name(#[trigger] split(p, '/')[i])
}

/// Some `/`-separated segment of the path is `..`.
pub open spec fn has_parent_segment(p: Seq<char>) -> bool {
    exists|i: int| 0 <= i < split(p, '/').len() && #[trigger] split(p, '/')[i] == ".."@
}

/// The components of a path, from `std::path::Path::components`. Most of what
/// they are depends on the platform's path rules; the contract states only
/// what `std` documents for every platform. `/` is a separator everywhere and
/// components are not normalized beyond repeated separators, interior `.` and
/// a trailing separator, so: plain names between `/` separators are `Normal`
/// components; a `..` segment is a `ParentDir` component (or, where the path
/// starts with `\` on Windows, the path starts with a root or prefix); a
/// leading `/` gives a root (or, on Windows, a prefix) first; a leading `.`
/// or `..` component gives `CurDir` or `ParentDir` first.
#[verifier::external_body]
fn path_parts(path: &str) -> (parts: Vec<PathPart>)
    ensures
        plain_relative_path(path@) ==> all_plain_names(parts@),
        has_parent_segment(path@) ==> !all_plain_names(parts@),
        starts_with(path@, "/"@) ==> parts@.len() > 0 && !(parts@[0] is Normal),
        (path@ == "."@ || starts_with(path@, "./"@)) ==> parts@.len() > 0 && parts@[0] is CurDir,
        (path@ == ".."@ || starts_with(path@, "../"@)) ==> parts@.len() > 0 && parts@[0] is ParentDir,
{
    std::path::Path::new(path).components().map(|component| match component {
        std::path::Component::Prefix(_) => PathPart::Prefix,
        std::path::Component::RootDir => PathPart::RootDir,
        std::path::Component::CurDir => PathPart::CurDir,
        std::path::Component::ParentDir => PathPart::ParentDir,
        std::path::Component::Normal(name) => PathPart::Normal(name.to_string_lossy().to_string()),
    }).collect()
}

/// Whether a path is absolute, from `std::path::Path::is_absolute`. That
/// depends on the platform's path rules (a root on Unix, a prefix and a root
/// on Windows); the contract states only that a path of relative form, which
/// has neither, is never absolute.
#[verifier::external_body]
fn path_is_absolute(path: &str) -> (r: bool)
    ensures
        r ==> !relative_form(path@),
{
    std::path::Path::new(path).is_absolute()
}

/// Every component is a plain name: no root, prefix, `.` or `..`.
pub open spec fn all_plain_names(parts: Seq<PathPart>) -> bool {
    forall|i: int| 0 <= i < parts.len() ==> #[trigger] parts[i] is Normal
}

/// Whether every component of a path is a plain name.
pub fn parts_are_plain_names(parts: &Vec<PathPart>) -> (r: bool)
    ensures
        r == all_plain_names(parts@),
{
    let mut i: usize = 0;
    while i < parts.len()
        invariant
            i <= parts@.len(),
            forall|j: int| 0 <= j < i ==> #[trigger] parts@[j] is Normal,
        decreases parts.len() - i,
    {
        match &parts[i] {
            PathPart::Normal(_) => {},
            _ => return false,
        }
        i += 1;
    }
    true
}

/// Whether a manifest path is accepted, given whether the platform calls it
/// absolute and the components it gives: only a path that is not absolute and
/// whose components are all plain names, and then the path itself.
pub fn accept_manifest_path<'a>(path: &'a str, absolute: bool, parts: &Vec<PathPart>) -> (r: Option<&'a str>)
    ensures
        r == (if !absolute && all_plain_names(parts@) {
            Some(path)
        } else {
            None
        }),
{
    if absolute {
        return None;
    }
    if !parts_are_plain_names(parts) {
        return None;
    }
    Some(path)
}

/// A path that a download manifest names, accepted only when it is not
/// absolute and every component is a plain name, so that it stays inside the
/// chapter folder; what is accepted is the path itself. Whatever the platform:
/// a relative path of plain names between `/` separators is accepted; a path
/// with a `..` segment, or that starts with `/`, `.` or `..`, never is.
pub fn safe_relative_manifest_path(path: &str) -> (r: Option<&str>)
    ensures
        r matches Some(p) ==> p@ == path@,
        plain_relative_path(path@) ==> r is Some,
        has_parent_segment(path@) ==> r is None,
        starts_with(path@, "/"@) ==> r is None,
        (path@ == "."@ || starts_with(path@, "./"@) || path@ == ".."@ || starts_with(path@, "../"@))
            ==> r is None,
{
    let absolute = path_is_absolute(path);
    let parts = path_parts(path);
    proof {
        if parts@.len() > 0 && !(parts@[0] is Normal) {
            assert(!all_plain_names(parts@));
        }
    }
    accept_manifest_path(path, absolute, &parts)
}

/// `r` is `base` followed by `name`, with at most one separator (`/` or
/// `\`) between them.
pub open spec fn joined_under(base: Seq<char>, name: Seq<char>, r: Seq<char>) -> bool {
    ||| r == base + name
    ||| r == base + seq!['/'] + name
    ||| r == base + seq!['\\'] + name
}

/// `r` is what joining `name` onto `base` can give on any platform: `base`
/// extended by `name`, or `name` after a leading part of `base` (all of it
/// gone when `name` is absolute; on Windows, the base's prefix kept when
/// `name` has a root but no prefix).
pub open spec fn join_outcome(base: Seq<char>, name: Seq<char>, r: Seq<char>) -> bool {
    ||| joined_under(base, name, r)
    ||| exists|k: int| 0 <= k <= base.len() && r == #[trigger] base.take(k) + name
}

/// The base is not a Windows verbatim or UNC path: it does not start with `\`.
pub open spec fn plain_base(base: Seq<char>) -> bool {
    base.len() == 0 || base[0] != '\\'
}

/// Joins a path onto a base with `std::path::Path::join`, as a string. How
/// paths join depends on the platform's path rules. The contract states what
/// `std` documents of `PathBuf::push` on every platform, for a base that does
/// not start with `\` (a Windows verbatim path may be normalized): an
/// absolute path replaces the base, a path with a root but no prefix keeps
/// only the base's prefix, a path with a prefix but no root replaces the
/// base, and any other path extends the base, after a separator unless none is
/// needed. In particular a path of relative form extends the base.
#[verifier::external_body]
fn path_join(base: &str, path: &str) -> (r: String)
    ensures
        plain_base(base@) ==> join_outcome(base@, path@, r@),
        plain_base(base@) && relative_form(path@) ==> joined_under(base@, path@, r@),
{
    std::path::Path::new(base).join(path).to_string_lossy().to_string()
}

/// The path that an option stands for, or the default, given whether the
/// platform calls the option absolute: an absolute option as it is, a relative
/// one joined onto the data directory, and the default joined onto the data
/// directory when there is no option.
pub fn resolved_path(option: Option<&str>, absolute: bool, data_dir: &str, default_relative: &str) -> (r:
    String)
    ensures
        absolute ==> (option matches Some(p) ==> r@ == p@),
        plain_base(data_dir@) ==> join_outcome(
            data_dir@,
            match option {
                Some(p) => p@,
                None => default_relative@,
            },
            r@,
        ),
        plain_base(data_dir@) && !(option is Some && absolute) ==> match option {
            Some(p) => relative_form(p@) ==> joined_under(data_dir@, p@, r@),
            None => relative_form(default_relative@) ==> joined_under(data_dir@, default_relative@, r@),
        },
{
    match option {
        Some(path) => {
            if absolute {
                let r = path.to_string();
                assert(data_dir@.take(0) + path@ =~= path@);
                r
            } else {
                path_join(data_dir, path)
            }
        },
        None => path_join(data_dir, default_relative),
    }
}

/// A configured directory as a string: an absolute option as it is, a
/// relative one under the data directory, and the default under the data
/// directory when there is no option. Whether a path is absolute is the
/// platform's rule, which `resolved_path` takes as given. Whatever the
/// platform says, on a data directory that does not start with `\`, the
/// result is the chosen path after a leading part of the data directory (the
/// whole of it, with at most one separator, for a path of relative form such
/// as `downloads` or `a/b`).
pub fn resolve_path_option(option: Option<&str>, data_dir: &str, default_relative: &str) -> (r: String)
    ensures
        plain_base(data_dir@) ==> join_outcome(
            data_dir@,
            match option {
                Some(p) => p@,
                None => default_relative@,
            },
            r@,
        ),
        plain_base(data_dir@) ==> match option {
            Some(p) => relative_form(p@) ==> joined_under(data_dir@, p@, r@),
            None => relative_form(default_relative@) ==> joined_under(data_dir@, default_relative@, r@),
        },
{
    let absolute = match option {
        Some(path) => path_is_absolute(path),
        None => false,
    };
    resolved_path(option, absolute, data_dir, default_relative)
}

/// A child of a directory, as a listing gives it: its name and whether it is
/// a directory.
pub struct DirChild {
    pub name: String,
    pub is_dir: bool,
}

/// The child is a directory whose name ends with `suffix`.
pub open spec fn is_dir_with_suffix(c: DirChild, suffix: Seq<char>) -> bool {
    c.is_dir && ends_with(c.name@, suffix)
}

/// The child at `i` is the first, in listing order, that is a directory whose
/// name ends with `suffix`.
pub open spec fn first_dir_with_suffix(children: Seq<DirChild>, suffix: Seq<char>, i: int) -> bool {
    &&& 0 <= i < children.len()
    &&& is_dir_with_suffix(children[i], suffix)
    &&& forall|j: int| 0 <= j < i ==> !is_dir_with_suffix(#[trigger] children[j], suffix)
}

/// No child is a directory whose name ends with `suffix`.
pub open spec fn no_dir_with_suffix(children: Seq<DirChild>, suffix: Seq<char>) -> bool {
    forall|j: int| 0 <= j < children.len() ==> !is_dir_with_suffix(#[trigger] children[j], suffix)
}

/// Whether a name ends with a suffix.
fn name_ends_with(name: &str, suffix: &str) -> (r: bool)
    ensures
        r == ends_with(name@, suffix@),
{
    let v = chars_of(name);
    let p = chars_of(suffix);
    if p.len() > v.len() {
        return false;
    }
    chars_occur_at(&v, &p, v.len() - p.len())
}

/// The index of the first child, in listing order, that is a directory whose
/// name ends with `suffix`.
pub fn find_child_dir_by_suffix(children: &Vec<DirChild>, suffix: &str) -> (r: Option<usize>)
    ensures
        match r {
            Some(i) => first_dir_with_suffix(children@, suffix@, i as int),
            None => no_dir_with_suffix(children@, suffix@),
        },
{
    let mut i: usize = 0;
    while i < children.len()
        invariant
            i <= children@.len(),
            forall|j: int| 0 <= j < i ==> !is_dir_with_suffix(#[trigger] children@[j], suffix@),
        decreases children.len() - i,
    {
        let c = &children[i];
        if c.is_dir && name_ends_with(c.name.as_str(), suffix) {
            return Some(i);
        }
        i += 1;
    }
    None
}

/// The next step of the search for a chapter folder under a category folder.
pub enum ChapterDirStep {
    /// Go into the child folder of this name and list it.
    Enter(String),
    /// The chapter folder is the child of this name.
    Found(String),
    /// There is no such chapter folder here.
    Missing,
}

/// The suffix that the folder at a depth below the category folder ends with:
/// the source's, then the manga's, then the chapter's.
pub open spec fn suffix_at_depth(depth: int, source: Seq<char>, manga: Seq<char>, chapter: Seq<char>) -> Seq<char> {
    if depth == 0 {
        source
    } else if depth == 1 {
        manga
    } else {
        chapter
    }
}

/// One step of the search for a chapter folder under a category folder, from
/// the listing of the folder reached at `depth` (the category folder is depth
/// 0): the first child directory ending with that depth's suffix is entered
/// below the chapter level and is the answer at it; without one, the search
/// ends with nothing.
pub fn find_chapter_dir_under_category(
    depth: usize,
    children: &Vec<DirChild>,
    source_suffix: &str,
    manga_suffix: &str,
    chapter_suffix: &str,
) -> (r: ChapterDirStep)
    requires
        depth < 3,
    ensures
        ({
            let suffix = suffix_at_depth(depth as int, source_suffix@, manga_suffix@, chapter_suffix@);
            match r {
                ChapterDirStep::Enter(n) => depth < 2 && exists|i: int|
                    first_dir_with_suffix(children@, suffix, i) && n@ == #[trigger] children@[i].name@,
                ChapterDirStep::Found(n) => depth == 2 && exists|i: int|
                    first_dir_with_suffix(children@, suffix, i) && n@ == #[trigger] children@[i].name@,
                ChapterDirStep::Missing => no_dir_with_suffix(children@, suffix),
            }
        }),
{
    let suffix = if depth == 0 {
        source_suffix
    } else if depth == 1 {
        manga_suffix
    } else {
        chapter_suffix
    };
    match find_child_dir_by_suffix(children, suffix) {
        Some(i) => {
            let name = children[i].name.clone();
            if depth < 2 {
                ChapterDirStep::Enter(name)
            } else {
                ChapterDirStep::Found(name)
            }
        },
        None => ChapterDirStep::Missing,
    }
}

} // verus!
