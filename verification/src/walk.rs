use vstd::prelude::*;

use crate::ignore_filter::{should_skip_file, IgnoreFilter};
use crate::paths::{file_name, path_file_name};
use crate::rules::{LineEnding, Rules};

verus! {

/// Why a file of the walk is left alone.
#[derive(Debug, Clone, Copy, PartialEq, Eq, Structural)]
pub enum SkipReason {
    /// A symbolic link, or a path the ignored paths or gitignore rules cover.
    Ignored,
    /// A file name an `ignore.patterns` pattern matches.
    ConfigIgnored,
    /// A file whose first bytes do not read as text.
    Binary,
}

/// What happens next to one file of the walk.
#[derive(Debug, Clone, Copy, PartialEq, Eq, Structural)]
pub enum FileStep {
    /// The file is left alone.
    Skip(SkipReason),
    /// Whether the file is text is to be found out; ask again with the answer.
    InspectContent,
    /// The file is converted to this style.
    Convert(LineEnding),
}

/// The name a file is matched by: the last component of its path, or nothing.
pub open spec fn name_of(path: Seq<char>) -> Seq<char> {
    match path_file_name(path) {
        Some(name) => name,
        None => Seq::empty(),
    }
}

/// The step for a file, from what is known of it: skipped by the walk's
/// filters first, then by the configured name patterns, then as binary once
/// its content is known; otherwise converted to `target`.
pub open spec fn step_for(
    skipped: bool,
    name_ignored: bool,
    looks_like_text: Option<bool>,
    target: LineEnding,
) -> FileStep {
    if skipped {
        FileStep::Skip(SkipReason::Ignored)
    } else if name_ignored {
        FileStep::Skip(SkipReason::ConfigIgnored)
    } else {
        match looks_like_text {
            None => FileStep::InspectContent,
            Some(false) => FileStep::Skip(SkipReason::Binary),
            Some(true) => FileStep::Convert(target),
        }
    }
}

/// Files are matched by name only: two paths with the same last component,
/// in whatever directories, get the same step once the walk's filters treat
/// them alike, so the same ignore verdict and the same style.
pub proof fn law_same_name_same_step(
    rules: Rules,
    filter: IgnoreFilter,
    root: Seq<char>,
    first: Seq<char>,
    second: Seq<char>,
    is_symlink: bool,
    is_dir: bool,
    looks_like_text: Option<bool>,
)
    requires
        path_file_name(first) == path_file_name(second),
        filter.ignored(root, first, is_dir) == filter.ignored(root, second, is_dir),
    ensures
        step_for(
            is_symlink || filter.ignored(root, first, is_dir),
            rules.ignores_name(name_of(first)),
            looks_like_text,
            rules.target_of(name_of(first)),
        ) == step_for(
            is_symlink || filter.ignored(root, second, is_dir),
            rules.ignores_name(name_of(second)),
            looks_like_text,
            rules.target_of(name_of(second)),
        ),
{
}

/// The next step for the file `path` under `root`, given whether it is a
/// symbolic link, whether it is a directory, and, once asked for, whether its
/// content reads as text.
pub fn next_file_step(
    rules: &Rules,
    filter: &IgnoreFilter,
    root: &str,
    path: &str,
    is_symlink: bool,
    is_dir: bool,
    looks_like_text: Option<bool>,
) -> (s: FileStep)
    ensures
        s == step_for(
            is_symlink || filter.ignored(root@, path@, is_dir),
            rules.ignores_name(name_of(path@)),
            looks_like_text,
            rules.target_of(name_of(path@)),
        ),
        path_file_name(path@) matches Some(name) ==> s == step_for(
            is_symlink || filter.ignored(root@, path@, is_dir),
            rules.ignores_name(name),
            looks_like_text,
            rules.target_of(name),
        ),
{
    if should_skip_file(root, path, filter, is_symlink, is_dir) {
        return FileStep::Skip(SkipReason::Ignored);
    }
    let name = match file_name(path) {
        Some(n) => n,
        None => String::new(),
    };
    if rules.is_ignored(name.as_str()) {
        return FileStep::Skip(SkipReason::ConfigIgnored);
    }
    match looks_like_text {
        None => FileStep::InspectContent,
        Some(false) => FileStep::Skip(SkipReason::Binary),
        Some(true) => FileStep::Convert(rules.determine_target(name.as_str())),
    }
}

} // verus!
