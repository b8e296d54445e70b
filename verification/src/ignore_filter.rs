use vstd::prelude::*;

use crate::paths::{file_name, path_file_name, path_strip_prefix, strip_prefix};
use crate::text::{
    chars_of, forward_slashed, forward_slashes, has_prefix, starts_with_chars, trim_end_chars,
    trim_start_char, trimmed_end, trimmed_start, views,
};

verus! {

#[verifier::external_type_specification]
#[verifier::external_body]
pub struct ExGitignore(ignore::gitignore::Gitignore);

/// The byte-order mark that may open a gitignore file.
pub const BOM: char = '\u{feff}';

/// Whether the gitignore matcher for `root` made of `lines` ignores `path`:
/// `GitignoreBuilder::new(root)`, then `add_line(None, line)` for each line in
/// order (a line that does not parse adds no rule), then `build`; then
/// `Gitignore::matched(path, is_dir)` followed by `Match::is_ignore` (no rule,
/// or a whitelist rule, gives `false`). `false` when the matcher fails to build.
pub uninterp spec fn gitignore_verdict(
    root: Seq<char>,
    lines: Seq<Seq<char>>,
    path: Seq<char>,
    is_dir: bool,
) -> bool;

/// A gitignore matcher, kept with the root and the lines it was built from.
#[derive(Debug, Clone)]
pub struct GitignoreRules {
    root: String,
    lines: Vec<String>,
    matcher: Option<ignore::gitignore::Gitignore>,
}

impl View for GitignoreRules {
    type V = (Seq<char>, Seq<Seq<char>>);

    closed spec fn view(&self) -> (Seq<char>, Seq<Seq<char>>) {
        (self.root@, views(self.lines@))
    }
}

/// Builds the matcher for `root` from `lines` with
/// `ignore::gitignore::GitignoreBuilder` (`new`, `add_line` for each line, the
/// error of a line that does not parse dropped, `build`, whose failure leaves no
/// matcher), kept with what it was built from.
#[verifier::external_body]
fn build_gitignore(root: String, lines: Vec<String>) -> (r: GitignoreRules)
    ensures
        r@ == (root@, views(lines@)),
{
    let mut builder = ignore::gitignore::GitignoreBuilder::new(&root);
    for line in &lines {
        let _ = builder.add_line(None, line);
    }
    let matcher = builder.build().ok();
    GitignoreRules { root, lines, matcher }
}

/// `ignore::gitignore::Gitignore::matched` followed by `Match::is_ignore`, on
/// the matcher built by `build_gitignore` (`false` when there is none). The
/// contract claims the answer is the one `gitignore_verdict` names for the root
/// and lines the matcher was built from, the path and `is_dir`.
#[verifier::external_body]
fn gitignore_ignores(rules: &GitignoreRules, path: &str, is_dir: bool) -> (r: bool)
    ensures
        r == gitignore_verdict(rules@.0, rules@.1, path@, is_dir),
{
    match &rules.matcher {
        Some(matcher) => matcher.matched(path, is_dir).is_ignore(),
        None => false,
    }
}

/// The lines of one gitignore file as they are read: the run of byte-order
/// marks that opens the first line is dropped.
pub open spec fn file_lines(file: Seq<Seq<char>>) -> Seq<Seq<char>> {
    if file.len() == 0 {
        file
    } else {
        file.update(0, trimmed_start(file[0], BOM))
    }
}

/// The lines of the gitignore files, one file after the other.
pub open spec fn all_lines(files: Seq<Seq<Seq<char>>>) -> Seq<Seq<char>>
    decreases files.len(),
{
    if files.len() == 0 {
        Seq::empty()
    } else {
        all_lines(files.drop_last()) + file_lines(files.last())
    }
}

/// The views of a list of files, each a list of lines.
pub open spec fn file_views(files: Seq<Vec<String>>) -> Seq<Seq<Seq<char>>> {
    files.map_values(|f: Vec<String>| views(f@))
}

/// The lines of `files`, in order, as `all_lines` gives them.
fn gitignore_lines(files: &Vec<Vec<String>>) -> (r: Vec<String>)
    ensures
        views(r@) == all_lines(file_views(files@)),
{
    let ghost fv = file_views(files@);
    let mut r: Vec<String> = Vec::new();
    let mut i: usize = 0;
    assert(views(r@) =~= all_lines(fv.take(0)));
    while i < files.len()
        invariant
            i <= files@.len(),
            fv == file_views(files@),
            views(r@) == all_lines(fv.take(i as int)),
        decreases files.len() - i,
    {
        let file = &files[i];
        let ghost f = fv[i as int];
        let ghost start = views(r@);
        assert(f == views(file@));
        let mut j: usize = 0;
        while j < file.len()
            invariant
                i < files@.len(),
                file == &files@[i as int],
                f == views(file@),
                j <= file@.len(),
                views(r@) == start + file_lines(f).take(j as int),
            decreases file.len() - j,
        {
            let ghost before = r@;
            let line = if j == 0 {
                trim_start_char(file[j].as_str(), BOM)
            } else {
                file[j].clone()
            };
            r.push(line);
            proof {
                assert(views(before.push(line)) =~= views(before).push(line@));
                assert(file_lines(f).take(j + 1) =~= file_lines(f).take(j as int).push(
                    file_lines(f)[j as int],
                ));
            }
            j = j + 1;
        }
        proof {
            assert(file_lines(f).take(file@.len() as int) =~= file_lines(f));
            assert(fv.take(i + 1).drop_last() =~= fv.take(i as int));
            assert(fv.take(i + 1).last() == f);
        }
        i = i + 1;
    }
    assert(fv.take(files@.len() as int) =~= fv);
    r
}

/// Whether the ignored-path entry `entry` covers the relative path `relative`:
/// with backslashes read as slashes and the entry's trailing slashes dropped,
/// the path starts with the entry.
pub open spec fn entry_covers(entry: Seq<char>, relative: Seq<char>) -> bool {
    has_prefix(forward_slashed(relative), trimmed_end(forward_slashed(entry), '/'))
}

/// Whether some entry of `entries` covers `relative`.
pub open spec fn listed(entries: Seq<Seq<char>>, relative: Seq<char>) -> bool {
    exists|i: int| 0 <= i < entries.len() && entry_covers(#[trigger] entries[i], relative)
}

/// Decides which files of a tree are left alone: the configured ignored paths,
/// and the gitignore rules when those are in use.
#[derive(Debug, Clone)]
pub struct IgnoreFilter {
    use_gitignore: bool,
    gitignore: Option<GitignoreRules>,
    ignore_paths: Vec<String>,
}

impl IgnoreFilter {
    /// Whether gitignore rules are in use.
    pub closed spec fn uses_gitignore(&self) -> bool {
        self.use_gitignore
    }

    /// The root and the lines of the gitignore matcher, when one is consulted.
    pub closed spec fn gitignore_rules(&self) -> Option<(Seq<char>, Seq<Seq<char>>)> {
        match self.gitignore {
            Some(rules) => Some(rules@),
            None => None,
        }
    }

    /// The ignored-path entries, relative to the root.
    pub closed spec fn entries(&self) -> Seq<Seq<char>> {
        views(self.ignore_paths@)
    }

    /// Whether the gitignore rules in use ignore `path`.
    pub open spec fn gitignore_says(&self, path: Seq<char>, is_dir: bool) -> bool {
        match self.gitignore_rules() {
            Some(rules) => gitignore_verdict(rules.0, rules.1, path, is_dir),
            None => false,
        }
    }

    /// Whether `path` under `root` is ignored: nothing outside the root is;
    /// a path is when an entry covers what is left of it after the root, or
    /// when the gitignore rules in use ignore it.
    pub open spec fn ignored(&self, root: Seq<char>, path: Seq<char>, is_dir: bool) -> bool {
        match path_strip_prefix(path, root) {
            None => false,
            Some(relative) => listed(self.entries(), relative) || self.gitignore_says(path, is_dir),
        }
    }

    /// A filter over the given ignored paths. When gitignore rules are in use,
    /// the matcher is built for `root_dir` from `gitignore_files`, the lines of
    /// the tree's `.gitignore` and `.git/info/exclude` in that order.
    pub fn new(
        use_gitignore: bool,
        root_dir: &str,
        gitignore_files: Vec<Vec<String>>,
        ignore_paths: Vec<String>,
    ) -> (f: Self)
        ensures
            f.uses_gitignore() == use_gitignore,
            f.gitignore_rules() == if use_gitignore {
                Some((root_dir@, all_lines(file_views(gitignore_files@))))
            } else {
                None
            },
            f.entries() == views(ignore_paths@),
    {
        let gitignore = if use_gitignore {
            let lines = gitignore_lines(&gitignore_files);
            Some(build_gitignore(root_dir.to_owned(), lines))
        } else {
            None
        };
        IgnoreFilter { use_gitignore, gitignore, ignore_paths }
    }

    /// Whether the path `relative` (relative to the root) is ignored, given
    /// what the gitignore rules answered for it.
    pub fn is_ignored_relative(&self, relative: &str, gitignore_hit: bool) -> (r: bool)
        ensures
            r == (listed(self.entries(), relative@) || gitignore_hit),
    {
        let rel = forward_slashes(&chars_of(relative));
        let ghost es = self.entries();
        let mut i: usize = 0;
        while i < self.ignore_paths.len()
            invariant
                i <= self.ignore_paths@.len(),
                es == views(self.ignore_paths@),
                rel@ == forward_slashed(relative@),
                forall|k: int| 0 <= k < i ==> !entry_covers(#[trigger] es[k], relative@),
            decreases self.ignore_paths.len() - i,
        {
            let entry = trim_end_chars(&forward_slashes(&chars_of(self.ignore_paths[i].as_str())), '/');
            if starts_with_chars(&rel, &entry) {
                assert(entry_covers(es[i as int], relative@));
                return true;
            }
            i = i + 1;
        }
        gitignore_hit
    }

    /// Whether `path` (a path under `root`; `is_dir` tells whether it names a
    /// directory) is ignored by the configured paths or the gitignore rules.
    pub fn is_ignored(&self, root: &str, path: &str, is_dir: bool) -> (r: bool)
        ensures
            r == self.ignored(root@, path@, is_dir),
    {
        let relative = match strip_prefix(path, root) {
            Some(rel) => rel,
            None => return false,
        };
        let hit = match &self.gitignore {
            Some(rules) => gitignore_ignores(rules, path, is_dir),
            None => false,
        };
        self.is_ignored_relative(relative.as_str(), hit)
    }
}

/// Whether `path` names a `.git` directory: its last component is `.git`.
pub fn is_git_dir(path: &str) -> (r: bool)
    ensures
        r == (path_file_name(path@) == Some(".git"@)),
{
    match file_name(path) {
        Some(name) => {
            let git = ".git".to_owned();
            name == git
        },
        None => false,
    }
}

/// Whether the walk leaves out the directory `path` and all it holds.
pub fn should_skip_dir(path: &str) -> (r: bool)
    ensures
        r == (path_file_name(path@) == Some(".git"@)),
{
    is_git_dir(path)
}

/// Whether the walk leaves out the file `path` under `root`: symbolic links
/// are never followed, and ignored paths are skipped.
pub fn should_skip_file(
    root: &str,
    path: &str,
    filter: &IgnoreFilter,
    is_symlink: bool,
    is_dir: bool,
) -> (r: bool)
    ensures
        r == (is_symlink || filter.ignored(root@, path@, is_dir)),
{
    if is_symlink {
        return true;
    }
    filter.is_ignored(root, path, is_dir)
}

} // verus!
