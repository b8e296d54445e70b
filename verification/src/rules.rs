use vstd::prelude::*;

use crate::paths::{join, path_join};
use crate::patterns::{
    any_pattern_hits, compile_glob, glob_compile, matches_any_pattern,
};
use crate::text::{chars_of, push_char, push_chars_from, trim_start_char, trimmed_start, views};

verus! {

/// A line-ending style a file can be converted to.
#[derive(Debug, Clone, Copy, PartialEq, Eq, Structural)]
pub enum LineEnding {
    LF,
    CRLF,
    CR,
}

/// One `force_*` section of the configuration.
#[derive(Debug, Clone, Default)]
pub struct ForceRulesSection {
    /// Glob patterns matched against file names.
    pub patterns: Vec<String>,
    /// Extensions, each standing for the pattern `*.ext`.
    pub extensions: Vec<String>,
    /// Extensions whose built-in patterns are dropped.
    pub ignore_default: Vec<String>,
}

/// The `ignore` section of the configuration.
#[derive(Debug, Clone, Default)]
pub struct IgnoreSection {
    /// Glob patterns of file names to skip.
    pub patterns: Vec<String>,
    /// Paths, relative to the scanned root, to skip.
    pub paths: Vec<String>,
}

/// The configuration file's content.
#[derive(Debug, Clone, Default)]
pub struct RuleConfig {
    /// The style of files that no force rule names; `LF` when absent.
    pub default: Option<LineEnding>,
    pub force_lf: ForceRulesSection,
    pub force_crlf: ForceRulesSection,
    pub force_cr: ForceRulesSection,
    pub ignore: IgnoreSection,
}

/// The rules in effect: built-in force rules merged with the configuration.
#[derive(Debug, Clone)]
pub struct Rules {
    pub force_lf_patterns: Vec<String>,
    pub force_crlf_patterns: Vec<String>,
    pub force_cr_patterns: Vec<String>,
    pub ignore_patterns: Vec<String>,
    pub ignore_paths: Vec<String>,
    pub default_target: LineEnding,
}

/// Why a configuration was found wrong.
#[derive(Debug, Clone)]
pub enum ConfigError {
    /// A glob pattern does not compile; `message` is what the glob library said.
    InvalidPattern { pattern: String, message: String },
    /// `ignore.paths` holds an empty string.
    EmptyIgnorePath,
}

/// The next step of the search for the configuration file.
#[derive(Debug, Clone)]
pub enum ConfigLookup {
    /// Find out whether this path is a directory, and add the answer.
    CheckDir(String),
    /// Find out whether this path is a file, and add the answer.
    CheckFile(String),
    /// The search is over: the configuration file to load, if any.
    Resolved(Option<String>),
}

/// The search for `eolfix.toml`, then `.eolfix.toml`, in `dir`, given the
/// answers so far to whether each is a file: `r` is the step it takes.
pub open spec fn search_outcome(dir: Seq<char>, answers: Seq<bool>, r: ConfigLookup) -> bool {
    let first = path_join(dir, "eolfix.toml"@);
    let second = path_join(dir, ".eolfix.toml"@);
    if answers.len() == 0 {
        r matches ConfigLookup::CheckFile(p) && p@ == first
    } else if answers[0] {
        r matches ConfigLookup::Resolved(Some(p)) && p@ == first
    } else if answers.len() == 1 {
        r matches ConfigLookup::CheckFile(p) && p@ == second
    } else if answers[1] {
        r matches ConfigLookup::Resolved(Some(p)) && p@ == second
    } else {
        r matches ConfigLookup::Resolved(None)
    }
}

/// The search for the configuration file, given the scanned root, the path the
/// user gave (if any) and the answers so far: with no path given, the root is
/// searched; a path that is a directory is searched; any other path is the
/// file itself.
pub open spec fn lookup_outcome(
    root: Seq<char>,
    user_path: Option<Seq<char>>,
    answers: Seq<bool>,
    r: ConfigLookup,
) -> bool {
    match user_path {
        None => search_outcome(root, answers, r),
        Some(p) => if answers.len() == 0 {
            r matches ConfigLookup::CheckDir(q) && q@ == p
        } else if answers[0] {
            search_outcome(p, answers.skip(1), r)
        } else {
            r matches ConfigLookup::Resolved(Some(q)) && q@ == p
        },
    }
}

/// The extensions that always use `\n`.
pub open spec fn builtin_lf_extensions() -> Seq<Seq<char>> {
    seq!["sh"@, "bash"@, "zsh"@, "fish"@, "ksh"@, "mk"@]
}

/// The file names that always use `\n`.
pub open spec fn builtin_lf_names() -> Seq<Seq<char>> {
    seq!["Makefile"@]
}

/// The extensions that always use `\r\n`.
pub open spec fn builtin_crlf_extensions() -> Seq<Seq<char>> {
    seq!["bat"@, "cmd"@]
}

/// The pattern an extension stands for: `*.` and the extension without its
/// leading dots.
pub open spec fn ext_pattern(ext: Seq<char>) -> Seq<char> {
    seq!['*', '.'] + trimmed_start(ext, '.')
}

/// The patterns a list of extensions stands for.
pub open spec fn ext_patterns(exts: Seq<Seq<char>>) -> Seq<Seq<char>> {
    exts.map_values(|e: Seq<char>| ext_pattern(e))
}

/// Whether `dropped` (extensions, leading dots ignored) names `ext`.
pub open spec fn is_dropped(ext: Seq<char>, dropped: Seq<Seq<char>>) -> bool {
    exists|j: int| 0 <= j < dropped.len() && trimmed_start(#[trigger] dropped[j], '.') == ext
}

/// The patterns of the built-in extensions `exts` that `dropped` leaves in.
pub open spec fn builtin_patterns(exts: Seq<Seq<char>>, dropped: Seq<Seq<char>>) -> Seq<Seq<char>>
    decreases exts.len(),
{
    if exts.len() == 0 {
        Seq::empty()
    } else {
        builtin_patterns(exts.drop_last(), dropped) + if is_dropped(exts.last(), dropped) {
            Seq::empty()
        } else {
            seq![ext_pattern(exts.last())]
        }
    }
}

/// The patterns of one line-ending style: the built-in extensions that are not
/// dropped, the built-in names, then the configured patterns and extensions.
pub open spec fn forced_patterns(
    exts: Seq<Seq<char>>,
    names: Seq<Seq<char>>,
    dropped: Seq<Seq<char>>,
    patterns: Seq<Seq<char>>,
    extensions: Seq<Seq<char>>,
) -> Seq<Seq<char>> {
    builtin_patterns(exts, dropped) + names + patterns + ext_patterns(extensions)
}

/// The patterns of one line-ending style under a configuration section.
pub open spec fn section_patterns(
    exts: Seq<Seq<char>>,
    names: Seq<Seq<char>>,
    section: ForceRulesSection,
) -> Seq<Seq<char>> {
    forced_patterns(
        exts,
        names,
        views(section.ignore_default@),
        views(section.patterns@),
        views(section.extensions@),
    )
}

/// The style chosen from which force rules matched: `\n` rules first, then
/// `\r\n`, then `\r`, then the default.
pub open spec fn target_for(lf: bool, crlf: bool, cr: bool, default: LineEnding) -> LineEnding {
    if lf {
        LineEnding::LF
    } else if crlf {
        LineEnding::CRLF
    } else if cr {
        LineEnding::CR
    } else {
        default
    }
}

/// The first pattern of `ps` that does not compile, with the compiler's message.
pub open spec fn first_pattern_error(ps: Seq<Seq<char>>) -> Option<(Seq<char>, Seq<char>)>
    decreases ps.len(),
{
    if ps.len() == 0 {
        None
    } else {
        match glob_compile(ps[0]) {
            Err(message) => Some((ps[0], message)),
            Ok(_) => first_pattern_error(ps.skip(1)),
        }
    }
}

/// Every pattern of a configuration that is checked, in the order it is checked.
pub open spec fn checked_patterns(config: RuleConfig) -> Seq<Seq<char>> {
    views(config.force_lf.patterns@) + views(config.force_crlf.patterns@) + views(
        config.force_cr.patterns@,
    ) + views(config.ignore.patterns@)
}

/// Whether some string of `ps` is empty.
pub open spec fn has_empty(ps: Seq<Seq<char>>) -> bool {
    exists|i: int| 0 <= i < ps.len() && (#[trigger] ps[i]).len() == 0
}

proof fn lemma_views_push(v: Seq<String>, s: String)
    ensures
        views(v.push(s)) == views(v).push(s@),
{
    assert(views(v.push(s)) =~= views(v).push(s@));
}

proof fn lemma_builtin_patterns_contain(exts: Seq<Seq<char>>, dropped: Seq<Seq<char>>, p: Seq<char>)
    ensures
        builtin_patterns(exts, dropped).contains(p) <==> exists|k: int|
            0 <= k < exts.len() && !is_dropped(exts[k], dropped) && ext_pattern(#[trigger] exts[k])
                == p,
    decreases exts.len(),
{
    if exts.len() > 0 {
        let init = exts.drop_last();
        lemma_builtin_patterns_contain(init, dropped, p);
        let tail: Seq<Seq<char>> = if is_dropped(exts.last(), dropped) {
            Seq::empty()
        } else {
            seq![ext_pattern(exts.last())]
        };
        let all = builtin_patterns(init, dropped) + tail;
        assert(builtin_patterns(exts, dropped) == all);
        if all.contains(p) {
            let m = choose|m: int| 0 <= m < all.len() && all[m] == p;
            if m < builtin_patterns(init, dropped).len() {
                assert(builtin_patterns(init, dropped)[m] == p);
                let k = choose|k: int|
                    0 <= k < init.len() && !is_dropped(init[k], dropped) && ext_pattern(
                        #[trigger] init[k],
                    ) == p;
                assert(exts[k] == init[k]);
            } else {
                assert(exts[exts.len() - 1] == exts.last());
            }
        }
        if exists|k: int|
            0 <= k < exts.len() && !is_dropped(exts[k], dropped) && ext_pattern(#[trigger] exts[k])
                == p {
            let k = choose|k: int|
                0 <= k < exts.len() && !is_dropped(exts[k], dropped) && ext_pattern(
                    #[trigger] exts[k],
                ) == p;
            if k < init.len() {
                assert(init[k] == exts[k]);
                let b = builtin_patterns(init, dropped);
                let m = choose|m: int| 0 <= m < b.len() && b[m] == p;
                assert(all[m] == p);
            } else {
                assert(exts[k] == exts.last());
                assert(all[all.len() - 1] == p);
            }
        }
    }
}

/// `ignore_default` drops a built-in extension exactly when one of its
/// entries, leading dots removed, equals that extension: for built-in
/// extensions that are distinct and have no leading dot, `*.ext` stays among
/// the built-in patterns unless an entry names `ext` itself (dropping `sh`
/// leaves `*.bash` in place).
pub proof fn law_ignore_default_drops_exactly(
    exts: Seq<Seq<char>>,
    dropped: Seq<Seq<char>>,
    i: int,
)
    requires
        0 <= i < exts.len(),
        forall|k: int, l: int| 0 <= k < l < exts.len() ==> exts[k] != exts[l],
        forall|k: int| 0 <= k < exts.len() ==> (#[trigger] exts[k]).len() > 0 && exts[k][0] != '.',
    ensures
        builtin_patterns(exts, dropped).contains(seq!['*', '.'] + exts[i]) <==> !exists|j: int|
            0 <= j < dropped.len() && trimmed_start(#[trigger] dropped[j], '.') == exts[i],
{
    let p = seq!['*', '.'] + exts[i];
    lemma_builtin_patterns_contain(exts, dropped, p);
    assert forall|k: int| 0 <= k < exts.len() implies ext_pattern(#[trigger] exts[k]) == seq![
        '*',
        '.',
    ] + exts[k] by {
        assert(trimmed_start(exts[k], '.') == exts[k]);
    }
    assert(ext_pattern(exts[i]) == p);
    assert forall|k: int| 0 <= k < exts.len() && ext_pattern(#[trigger] exts[k]) == p implies k
        == i by {
        assert((seq!['*', '.'] + exts[k]).skip(2) =~= exts[k]);
        assert((seq!['*', '.'] + exts[i]).skip(2) =~= exts[i]);
        if k != i {
            if k < i {
                assert(exts[k] != exts[i]);
            } else {
                assert(exts[i] != exts[k]);
            }
        }
    }
}

/// For the built-in `\n` and `\r\n` extensions, `ignore_default` drops the
/// pattern `*.ext` exactly when one of its entries, leading dots removed,
/// is `ext`.
pub proof fn law_builtin_extensions_dropped_exactly(dropped: Seq<Seq<char>>, i: int)
    ensures
        0 <= i < builtin_lf_extensions().len() ==> (builtin_patterns(
            builtin_lf_extensions(),
            dropped,
        ).contains(seq!['*', '.'] + builtin_lf_extensions()[i]) <==> !exists|j: int|
            0 <= j < dropped.len() && trimmed_start(#[trigger] dropped[j], '.')
                == builtin_lf_extensions()[i]),
        0 <= i < builtin_crlf_extensions().len() ==> (builtin_patterns(
            builtin_crlf_extensions(),
            dropped,
        ).contains(seq!['*', '.'] + builtin_crlf_extensions()[i]) <==> !exists|j: int|
            0 <= j < dropped.len() && trimmed_start(#[trigger] dropped[j], '.')
                == builtin_crlf_extensions()[i]),
{
    reveal_strlit("sh");
    reveal_strlit("bash");
    reveal_strlit("zsh");
    reveal_strlit("fish");
    reveal_strlit("ksh");
    reveal_strlit("mk");
    reveal_strlit("bat");
    reveal_strlit("cmd");
    let lf = builtin_lf_extensions();
    let crlf = builtin_crlf_extensions();
    assert forall|k: int, l: int| 0 <= k < l < lf.len() implies lf[k] != lf[l] by {
        if lf[k] == lf[l] {
            assert(lf[k].len() == lf[l].len());
            assert(lf[k][0] == lf[l][0]);
            assert(lf[k][1] == lf[l][1]);
        }
    }
    assert(crlf[0][0] != crlf[1][0]);
    if 0 <= i < lf.len() {
        law_ignore_default_drops_exactly(lf, dropped, i);
    }
    if 0 <= i < crlf.len() {
        law_ignore_default_drops_exactly(crlf, dropped, i);
    }
}

proof fn lemma_no_first_error(ps: Seq<Seq<char>>)
    ensures
        first_pattern_error(ps) is None <==> forall|i: int|
            0 <= i < ps.len() ==> glob_compile(#[trigger] ps[i]) is Ok,
    decreases ps.len(),
{
    if ps.len() > 0 {
        lemma_no_first_error(ps.skip(1));
        if first_pattern_error(ps) is None {
            assert forall|i: int| 0 <= i < ps.len() implies glob_compile(#[trigger] ps[i]) is Ok by {
                if i > 0 {
                    assert(ps.skip(1)[i - 1] == ps[i]);
                }
            }
        }
        if forall|i: int| 0 <= i < ps.len() ==> glob_compile(#[trigger] ps[i]) is Ok {
            assert(glob_compile(ps[0]) is Ok);
            assert forall|i: int| 0 <= i < ps.skip(1).len() implies glob_compile(
                #[trigger] ps.skip(1)[i],
            ) is Ok by {
                assert(ps.skip(1)[i] == ps[i + 1]);
            }
        }
    }
}

/// A configuration passes the check exactly when every pattern of its
/// `force_lf`, `force_crlf`, `force_cr` and `ignore` sections compiles and no
/// ignored path is empty.
pub proof fn law_config_accepted_exactly(config: RuleConfig)
    ensures
        (first_pattern_error(checked_patterns(config)) is None && !has_empty(
            views(config.ignore.paths@),
        )) <==> {
            &&& forall|i: int|
                0 <= i < config.force_lf.patterns@.len() ==> glob_compile(
                    (#[trigger] config.force_lf.patterns@[i])@,
                ) is Ok
            &&& forall|i: int|
                0 <= i < config.force_crlf.patterns@.len() ==> glob_compile(
                    (#[trigger] config.force_crlf.patterns@[i])@,
                ) is Ok
            &&& forall|i: int|
                0 <= i < config.force_cr.patterns@.len() ==> glob_compile(
                    (#[trigger] config.force_cr.patterns@[i])@,
                ) is Ok
            &&& forall|i: int|
                0 <= i < config.ignore.patterns@.len() ==> glob_compile(
                    (#[trigger] config.ignore.patterns@[i])@,
                ) is Ok
            &&& forall|i: int|
                0 <= i < config.ignore.paths@.len() ==> (#[trigger] config.ignore.paths@[i])@.len()
                    > 0
        },
{
    let a = views(config.force_lf.patterns@);
    let b = views(config.force_crlf.patterns@);
    let c = views(config.force_cr.patterns@);
    let d = views(config.ignore.patterns@);
    let all = checked_patterns(config);
    lemma_no_first_error(all);
    assert(all == a + b + c + d);
    let ok_all = forall|i: int| 0 <= i < all.len() ==> glob_compile(#[trigger] all[i]) is Ok;
    if ok_all {
        assert forall|i: int| 0 <= i < a.len() implies glob_compile(#[trigger] a[i]) is Ok by {
            assert(all[i] == a[i]);
        }
        assert forall|i: int| 0 <= i < b.len() implies glob_compile(#[trigger] b[i]) is Ok by {
            assert(all[a.len() + i] == b[i]);
        }
        assert forall|i: int| 0 <= i < c.len() implies glob_compile(#[trigger] c[i]) is Ok by {
            assert(all[a.len() + b.len() + i] == c[i]);
        }
        assert forall|i: int| 0 <= i < d.len() implies glob_compile(#[trigger] d[i]) is Ok by {
            assert(all[a.len() + b.len() + c.len() + i] == d[i]);
        }
    }
    assert forall|i: int| 0 <= i < config.force_lf.patterns@.len() implies a[i] == (
    #[trigger] config.force_lf.patterns@[i])@ by {}
    assert forall|i: int| 0 <= i < config.force_crlf.patterns@.len() implies b[i] == (
    #[trigger] config.force_crlf.patterns@[i])@ by {}
    assert forall|i: int| 0 <= i < config.force_cr.patterns@.len() implies c[i] == (
    #[trigger] config.force_cr.patterns@[i])@ by {}
    assert forall|i: int| 0 <= i < config.ignore.patterns@.len() implies d[i] == (
    #[trigger] config.ignore.patterns@[i])@ by {}
    let e = views(config.ignore.paths@);
    assert forall|i: int| 0 <= i < config.ignore.paths@.len() implies e[i] == (
    #[trigger] config.ignore.paths@[i])@ by {}
    if (forall|i: int| 0 <= i < a.len() ==> glob_compile(#[trigger] a[i]) is Ok) && (forall|i: int|
        0 <= i < b.len() ==> glob_compile(#[trigger] b[i]) is Ok) && (forall|i: int|
        0 <= i < c.len() ==> glob_compile(#[trigger] c[i]) is Ok) && (forall|i: int|
        0 <= i < d.len() ==> glob_compile(#[trigger] d[i]) is Ok) {
        assert forall|i: int| 0 <= i < all.len() implies glob_compile(#[trigger] all[i]) is Ok by {
            if i < a.len() {
                assert(all[i] == a[i]);
            } else if i < a.len() + b.len() {
                assert(all[i] == b[i - a.len()]);
            } else if i < a.len() + b.len() + c.len() {
                assert(all[i] == c[i - a.len() - b.len()]);
            } else {
                assert(all[i] == d[i - a.len() - b.len() - c.len()]);
            }
        }
    }
}

/// A `--config` directory is searched just as the root is: once it is known
/// to be a directory, the step for the answers that follow is the step of the
/// search that starts in that directory.
pub proof fn law_user_dir_searched_like_root(
    root: Seq<char>,
    dir: Seq<char>,
    answers: Seq<bool>,
    r: ConfigLookup,
)
    ensures
        lookup_outcome(root, Some(dir), seq![true] + answers, r) == lookup_outcome(
            dir,
            None,
            answers,
            r,
        ),
{
    assert((seq![true] + answers).skip(1) =~= answers);
    assert((seq![true] + answers)[0]);
}

/// When `eolfix.toml` is missing from a searched directory, `.eolfix.toml` in
/// the same directory is the next file asked about.
pub proof fn law_second_name_after_first_missing(dir: Seq<char>, r: ConfigLookup)
    ensures
        search_outcome(dir, seq![false], r) <==> (r matches ConfigLookup::CheckFile(q) && q@
            == path_join(dir, ".eolfix.toml"@)),
{
}

/// The search gives up only after both names were found missing in the
/// searched directory.
pub proof fn law_nothing_found_only_after_both_missing(
    root: Seq<char>,
    user_path: Option<Seq<char>>,
    answers: Seq<bool>,
    r: ConfigLookup,
)
    requires
        lookup_outcome(root, user_path, answers, r),
        r matches ConfigLookup::Resolved(None),
    ensures
        user_path is None ==> answers.len() >= 2 && !answers[0] && !answers[1],
        user_path is Some ==> answers.len() >= 3 && answers[0] && !answers[1] && !answers[2],
{
    if user_path is Some {
        assert(answers.len() >= 1 && answers[0]);
        let rest = answers.skip(1);
        assert(rest.len() >= 2 && !rest[0] && !rest[1]);
        assert(rest[0] == answers[1] && rest[1] == answers[2]);
    }
}

proof fn lemma_first_error_concat(a: Seq<Seq<char>>, b: Seq<Seq<char>>)
    ensures
        first_pattern_error(a + b) == if first_pattern_error(a) is Some {
            first_pattern_error(a)
        } else {
            first_pattern_error(b)
        },
    decreases a.len(),
{
    if a.len() == 0 {
        assert(a + b =~= b);
    } else {
        assert((a + b)[0] == a[0]);
        assert((a + b).skip(1) =~= a.skip(1) + b);
        lemma_first_error_concat(a.skip(1), b);
    }
}

/// A `Vec<String>` of string literals' contents.
fn strings_of(items: &[&str]) -> (v: Vec<String>)
    ensures
        v@.len() == items@.len(),
        forall|i: int| 0 <= i < items@.len() ==> (#[trigger] v@[i])@ == items@[i]@,
{
    let mut v: Vec<String> = Vec::new();
    let mut i: usize = 0;
    while i < items.len()
        invariant
            i <= items@.len(),
            v@.len() == i,
            forall|k: int| 0 <= k < i ==> (#[trigger] v@[k])@ == items@[k]@,
        decreases items.len() - i,
    {
        v.push(items[i].to_owned());
        i = i + 1;
    }
    v
}

/// The pattern an extension stands for (`*.` and the extension without its
/// leading dots).
pub fn extension_pattern(ext: &str) -> (r: String)
    ensures
        r@ == ext_pattern(ext@),
{
    let trimmed = trim_start_char(ext, '.');
    let mut r = String::new();
    push_char(&mut r, '*');
    push_char(&mut r, '.');
    push_chars_from(&mut r, &chars_of(trimmed.as_str()), 0);
    assert(r@ =~= ext_pattern(ext@));
    r
}

/// Appends copies of all of `src` to `dst`.
fn push_all(dst: &mut Vec<String>, src: &Vec<String>)
    ensures
        views(final(dst)@) == views(old(dst)@) + views(src@),
{
    let mut i: usize = 0;
    while i < src.len()
        invariant
            i <= src@.len(),
            views(dst@) == views(old(dst)@) + views(src@.take(i as int)),
        decreases src.len() - i,
    {
        let ghost before = dst@;
        dst.push(src[i].clone());
        proof {
            lemma_views_push(before, src@[i as int]);
            lemma_views_push(src@.take(i as int), src@[i as int]);
            assert(src@.take(i + 1) == src@.take(i as int).push(src@[i as int]));
        }
        i = i + 1;
    }
    assert(src@.take(src@.len() as int) == src@);
}

/// Appends the patterns that `exts` stand for to `dst`.
fn push_extension_patterns(dst: &mut Vec<String>, exts: &Vec<String>)
    ensures
        views(final(dst)@) == views(old(dst)@) + ext_patterns(views(exts@)),
{
    let mut i: usize = 0;
    while i < exts.len()
        invariant
            i <= exts@.len(),
            views(dst@) == views(old(dst)@) + ext_patterns(views(exts@.take(i as int))),
        decreases exts.len() - i,
    {
        let ghost before = dst@;
        let p = extension_pattern(exts[i].as_str());
        dst.push(p);
        proof {
            lemma_views_push(before, p);
            assert(ext_patterns(views(exts@.take(i + 1))) =~= ext_patterns(
                views(exts@.take(i as int)),
            ).push(ext_pattern(exts@[i as int]@)));
        }
        i = i + 1;
    }
    assert(exts@.take(exts@.len() as int) == exts@);
}

/// Whether `dropped` names the extension `ext`.
fn names_extension(dropped: &Vec<String>, ext: &String) -> (r: bool)
    ensures
        r == is_dropped(ext@, views(dropped@)),
{
    let ghost ds = views(dropped@);
    let mut j: usize = 0;
    while j < dropped.len()
        invariant
            j <= dropped@.len(),
            ds == views(dropped@),
            forall|k: int| 0 <= k < j ==> trimmed_start(#[trigger] ds[k], '.') != ext@,
        decreases dropped.len() - j,
    {
        let trimmed = trim_start_char(dropped[j].as_str(), '.');
        if trimmed == *ext {
            assert(trimmed_start(ds[j as int], '.') == ext@);
            return true;
        }
        j = j + 1;
    }
    false
}

/// Appends the patterns of the built-in extensions that `dropped` leaves in.
fn push_builtin_patterns(dst: &mut Vec<String>, exts: &Vec<String>, dropped: &Vec<String>)
    ensures
        views(final(dst)@) == views(old(dst)@) + builtin_patterns(views(exts@), views(dropped@)),
{
    let mut i: usize = 0;
    while i < exts.len()
        invariant
            i <= exts@.len(),
            views(dst@) == views(old(dst)@) + builtin_patterns(
                views(exts@.take(i as int)),
                views(dropped@),
            ),
        decreases exts.len() - i,
    {
        let ghost before = dst@;
        let ghost prefix = views(exts@.take(i + 1));
        assert(prefix.drop_last() =~= views(exts@.take(i as int)));
        assert(prefix.last() == exts@[i as int]@);
        if !names_extension(dropped, &exts[i]) {
            let p = extension_pattern(exts[i].as_str());
            dst.push(p);
            proof {
                lemma_views_push(before, p);
            }
        }
        i = i + 1;
    }
    assert(exts@.take(exts@.len() as int) == exts@);
}

/// The patterns of one style: the built-in ones `dropped` leaves in, the
/// built-in names, the configured patterns and the configured extensions'.
fn build_patterns(
    exts: &Vec<String>,
    names: &Vec<String>,
    dropped: &Vec<String>,
    patterns: &Vec<String>,
    extensions: &Vec<String>,
) -> (r: Vec<String>)
    ensures
        views(r@) == forced_patterns(
            views(exts@),
            views(names@),
            views(dropped@),
            views(patterns@),
            views(extensions@),
        ),
{
    let mut r: Vec<String> = Vec::new();
    assert(views(r@) =~= Seq::<Seq<char>>::empty());
    push_builtin_patterns(&mut r, exts, dropped);
    push_all(&mut r, names);
    push_all(&mut r, patterns);
    push_extension_patterns(&mut r, extensions);
    assert(views(r@) =~= forced_patterns(
        views(exts@),
        views(names@),
        views(dropped@),
        views(patterns@),
        views(extensions@),
    ));
    r
}

impl Rules {
    /// The style a file named `filename` gets under these rules.
    pub open spec fn target_of(&self, filename: Seq<char>) -> LineEnding {
        target_for(
            any_pattern_hits(views(self.force_lf_patterns@), filename),
            any_pattern_hits(views(self.force_crlf_patterns@), filename),
            any_pattern_hits(views(self.force_cr_patterns@), filename),
            self.default_target,
        )
    }

    /// Whether a file named `filename` is skipped by an ignore pattern.
    pub open spec fn ignores_name(&self, filename: Seq<char>) -> bool {
        any_pattern_hits(views(self.ignore_patterns@), filename)
    }

    /// The rules in effect under `config` (the built-in rules alone when there
    /// is no configuration file). Configured patterns and extensions are added
    /// after the built-in ones; `ignore_default` drops built-in extensions.
    pub fn load(config: Option<&RuleConfig>) -> (rules: Rules)
        ensures
            config is None ==> {
                &&& views(rules.force_lf_patterns@) == forced_patterns(
                    builtin_lf_extensions(),
                    builtin_lf_names(),
                    seq![],
                    seq![],
                    seq![],
                )
                &&& views(rules.force_crlf_patterns@) == forced_patterns(
                    builtin_crlf_extensions(),
                    seq![],
                    seq![],
                    seq![],
                    seq![],
                )
                &&& rules.force_cr_patterns@.len() == 0
                &&& rules.ignore_patterns@.len() == 0
                &&& rules.ignore_paths@.len() == 0
                &&& rules.default_target == LineEnding::LF
            },
            config is Some ==> {
                let c = *config->Some_0;
                &&& views(rules.force_lf_patterns@) == section_patterns(
                    builtin_lf_extensions(),
                    builtin_lf_names(),
                    c.force_lf,
                )
                &&& views(rules.force_crlf_patterns@) == section_patterns(
                    builtin_crlf_extensions(),
                    seq![],
                    c.force_crlf,
                )
                &&& views(rules.force_cr_patterns@) == section_patterns(
                    seq![],
                    seq![],
                    c.force_cr,
                )
                &&& views(rules.ignore_patterns@) == views(c.ignore.patterns@)
                &&& views(rules.ignore_paths@) == views(c.ignore.paths@)
                &&& rules.default_target == match c.default {
                    Some(t) => t,
                    None => LineEnding::LF,
                }
            },
    {
        let lf_exts = strings_of(&["sh", "bash", "zsh", "fish", "ksh", "mk"]);
        let lf_names = strings_of(&["Makefile"]);
        let crlf_exts = strings_of(&["bat", "cmd"]);
        let none: Vec<String> = Vec::new();
        assert(views(lf_exts@) =~= builtin_lf_extensions());
        assert(views(lf_names@) =~= builtin_lf_names());
        assert(views(crlf_exts@) =~= builtin_crlf_extensions());
        assert(views(none@) =~= Seq::<Seq<char>>::empty());
        match config {
            None => {
                let force_lf_patterns = build_patterns(&lf_exts, &lf_names, &none, &none, &none);
                let force_crlf_patterns = build_patterns(&crlf_exts, &none, &none, &none, &none);
                Rules {
                    force_lf_patterns,
                    force_crlf_patterns,
                    force_cr_patterns: Vec::new(),
                    ignore_patterns: Vec::new(),
                    ignore_paths: Vec::new(),
                    default_target: LineEnding::LF,
                }
            },
            Some(c) => {
                let force_lf_patterns = build_patterns(
                    &lf_exts,
                    &lf_names,
                    &c.force_lf.ignore_default,
                    &c.force_lf.patterns,
                    &c.force_lf.extensions,
                );
                let force_crlf_patterns = build_patterns(
                    &crlf_exts,
                    &none,
                    &c.force_crlf.ignore_default,
                    &c.force_crlf.patterns,
                    &c.force_crlf.extensions,
                );
                let force_cr_patterns = build_patterns(
                    &none,
                    &none,
                    &c.force_cr.ignore_default,
                    &c.force_cr.patterns,
                    &c.force_cr.extensions,
                );
                let mut ignore_patterns: Vec<String> = Vec::new();
                assert(views(ignore_patterns@) =~= Seq::<Seq<char>>::empty());
                push_all(&mut ignore_patterns, &c.ignore.patterns);
                let mut ignore_paths: Vec<String> = Vec::new();
                assert(views(ignore_paths@) =~= Seq::<Seq<char>>::empty());
                push_all(&mut ignore_paths, &c.ignore.paths);
                assert(views(ignore_patterns@) =~= views(c.ignore.patterns@));
                assert(views(ignore_paths@) =~= views(c.ignore.paths@));
                let default_target = match c.default {
                    Some(t) => t,
                    None => LineEnding::LF,
                };
                Rules {
                    force_lf_patterns,
                    force_crlf_patterns,
                    force_cr_patterns,
                    ignore_patterns,
                    ignore_paths,
                    default_target,
                }
            },
        }
    }

    /// The style a file named `filename` is converted to: `\n` when a `\n`
    /// force pattern matches, else `\r\n` when one of those does, else `\r`
    /// when one of those does, else the default style.
    pub fn determine_target(&self, filename: &str) -> (r: LineEnding)
        ensures
            r == self.target_of(filename@),
    {
        let lf = matches_any_pattern(filename, &self.force_lf_patterns);
        let crlf = matches_any_pattern(filename, &self.force_crlf_patterns);
        let cr = matches_any_pattern(filename, &self.force_cr_patterns);
        pick_target(lf, crlf, cr, self.default_target)
    }

    /// Whether a file named `filename` is skipped by an ignore pattern.
    pub fn is_ignored(&self, filename: &str) -> (r: bool)
        ensures
            r == self.ignores_name(filename@),
    {
        matches_any_pattern(filename, &self.ignore_patterns)
    }

    /// Checks a configuration: every pattern of the force and ignore sections
    /// must compile, and no ignored path may be empty. The patterns are checked
    /// first, in the order of `checked_patterns`, and the first one that does not
    /// compile is reported.
    pub fn check_config(config: &RuleConfig) -> (r: Result<(), ConfigError>)
        ensures
            r is Ok <==> (first_pattern_error(checked_patterns(*config)) is None && !has_empty(
                views(config.ignore.paths@),
            )),
            r is Err ==> match first_pattern_error(checked_patterns(*config)) {
                Some(bad) => r->Err_0 matches ConfigError::InvalidPattern { pattern, message }
                    && pattern@ == bad.0 && message@ == bad.1,
                None => r->Err_0 is EmptyIgnorePath,
            },
            r is Ok <==> {
                &&& forall|i: int|
                    0 <= i < config.force_lf.patterns@.len() ==> glob_compile(
                        (#[trigger] config.force_lf.patterns@[i])@,
                    ) is Ok
                &&& forall|i: int|
                    0 <= i < config.force_crlf.patterns@.len() ==> glob_compile(
                        (#[trigger] config.force_crlf.patterns@[i])@,
                    ) is Ok
                &&& forall|i: int|
                    0 <= i < config.force_cr.patterns@.len() ==> glob_compile(
                        (#[trigger] config.force_cr.patterns@[i])@,
                    ) is Ok
                &&& forall|i: int|
                    0 <= i < config.ignore.patterns@.len() ==> glob_compile(
                        (#[trigger] config.ignore.patterns@[i])@,
                    ) is Ok
                &&& forall|i: int|
                    0 <= i < config.ignore.paths@.len() ==> (
                    #[trigger] config.ignore.paths@[i])@.len() > 0
            },
    {
        proof {
            law_config_accepted_exactly(*config);
        }
        let ghost a = views(config.force_lf.patterns@);
        let ghost b = views(config.force_crlf.patterns@);
        let ghost c = views(config.force_cr.patterns@);
        let ghost d = views(config.ignore.patterns@);
        proof {
            lemma_first_error_concat(a + b + c, d);
            lemma_first_error_concat(a + b, c);
            lemma_first_error_concat(a, b);
        }
        match check_patterns(&config.force_lf.patterns) {
            Ok(()) => {},
            Err(e) => {
                return Err(e);
            },
        }
        match check_patterns(&config.force_crlf.patterns) {
            Ok(()) => {},
            Err(e) => {
                return Err(e);
            },
        }
        match check_patterns(&config.force_cr.patterns) {
            Ok(()) => {},
            Err(e) => {
                return Err(e);
            },
        }
        match check_patterns(&config.ignore.patterns) {
            Ok(()) => {},
            Err(e) => {
                return Err(e);
            },
        }
        let ghost ps = views(config.ignore.paths@);
        let mut i: usize = 0;
        while i < config.ignore.paths.len()
            invariant
                i <= config.ignore.paths@.len(),
                ps == views(config.ignore.paths@),
                first_pattern_error(checked_patterns(*config)) is None,
                forall|k: int| 0 <= k < i ==> (#[trigger] ps[k]).len() != 0,
            decreases config.ignore.paths.len() - i,
        {
            if config.ignore.paths[i].as_str().is_empty() {
                assert(ps[i as int].len() == 0);
                return Err(ConfigError::EmptyIgnorePath);
            }
            i = i + 1;
        }
        Ok(())
    }
}

/// The step that the search for the configuration file in `dir` takes, given
/// `answers[from..]`, the answers so far.
fn search_config_in_dir(dir: &str, answers: &[bool], from: usize) -> (r: ConfigLookup)
    requires
        from <= answers@.len(),
    ensures
        search_outcome(dir@, answers@.skip(from as int), r),
{
    let ghost rest = answers@.skip(from as int);
    let first = join(dir, "eolfix.toml");
    if answers.len() == from {
        return ConfigLookup::CheckFile(first);
    }
    assert(rest[0] == answers@[from as int]);
    if answers[from] {
        return ConfigLookup::Resolved(Some(first));
    }
    let second = join(dir, ".eolfix.toml");
    if answers.len() == from + 1 {
        return ConfigLookup::CheckFile(second);
    }
    assert(rest[1] == answers@[from + 1]);
    if answers[from + 1] {
        ConfigLookup::Resolved(Some(second))
    } else {
        ConfigLookup::Resolved(None)
    }
}

/// The next step of the search for the configuration file under `root_dir`,
/// `user_path` being the path the user gave, if any, and `answers` the answers
/// to the checks asked for so far, in order. The search ends once three checks
/// are answered.
pub fn resolve_config_path(root_dir: &str, user_path: Option<&str>, answers: &[bool]) -> (r:
    ConfigLookup)
    ensures
        lookup_outcome(
            root_dir@,
            match user_path {
                Some(p) => Some(p@),
                None => None,
            },
            answers@,
            r,
        ),
        answers@.len() >= 3 ==> r is Resolved,
{
    match user_path {
        None => {
            assert(answers@.skip(0) =~= answers@);
            search_config_in_dir(root_dir, answers, 0)
        },
        Some(p) => {
            if answers.len() == 0 {
                ConfigLookup::CheckDir(p.to_owned())
            } else if answers[0] {
                search_config_in_dir(p, answers, 1)
            } else {
                ConfigLookup::Resolved(Some(p.to_owned()))
            }
        },
    }
}

/// The style chosen from which force rules matched (`lf`, `crlf`, `cr`).
pub fn pick_target(lf: bool, crlf: bool, cr: bool, default: LineEnding) -> (r: LineEnding)
    ensures
        r == target_for(lf, crlf, cr, default),
{
    if lf {
        LineEnding::LF
    } else if crlf {
        LineEnding::CRLF
    } else if cr {
        LineEnding::CR
    } else {
        default
    }
}

/// Reports the first pattern of `patterns` that does not compile.
fn check_patterns(patterns: &Vec<String>) -> (r: Result<(), ConfigError>)
    ensures
        r is Ok <==> first_pattern_error(views(patterns@)) is None,
        r is Err ==> match first_pattern_error(views(patterns@)) {
            Some(bad) => r->Err_0 matches ConfigError::InvalidPattern { pattern, message }
                && pattern@ == bad.0 && message@ == bad.1,
            None => false,
        },
{
    let ghost ps = views(patterns@);
    let mut i: usize = 0;
    assert(ps.skip(0) =~= ps);
    while i < patterns.len()
        invariant
            i <= patterns@.len(),
            ps == views(patterns@),
            first_pattern_error(ps) == first_pattern_error(ps.skip(i as int)),
        decreases patterns.len() - i,
    {
        let ghost rest = ps.skip(i as int);
        assert(rest[0] == ps[i as int]);
        match compile_glob(patterns[i].as_str()) {
            Ok(_) => {
                assert(rest.skip(1) =~= ps.skip(i + 1));
            },
            Err(message) => {
                return Err(
                    ConfigError::InvalidPattern { pattern: patterns[i].clone(), message },
                );
            },
        }
        i = i + 1;
    }
    assert(ps.skip(ps.len() as int).len() == 0);
    Ok(())
}

} // verus!
