use vstd::prelude::*;

verus! {

#[verifier::external_type_specification]
#[verifier::external_body]
pub struct ExGlobPattern(glob::Pattern);

/// What `glob::Pattern::new` makes of `pattern` (for the target this crate is
/// built for): `Ok(())` when the pattern compiles, otherwise `Err` holding the
/// displayed `glob::PatternError`.
pub uninterp spec fn glob_compile(pattern: Seq<char>) -> Result<(), Seq<char>>;

/// Whether the compiled form of `pattern` matches `name`
/// (`glob::Pattern::matches` with the default options).
pub uninterp spec fn glob_match(pattern: Seq<char>, name: Seq<char>) -> bool;

/// Whether `pattern` compiles and then matches `name`; a pattern that does not
/// compile matches nothing.
pub open spec fn pattern_hits(pattern: Seq<char>, name: Seq<char>) -> bool {
    glob_compile(pattern) is Ok && glob_match(pattern, name)
}

/// Whether some pattern of `patterns` hits `name`.
pub open spec fn any_pattern_hits(patterns: Seq<Seq<char>>, name: Seq<char>) -> bool {
    exists|i: int| 0 <= i < patterns.len() && pattern_hits(#[trigger] patterns[i], name)
}

/// A compiled glob pattern, kept with the text it was compiled from.
pub struct GlobPattern {
    source: String,
    compiled: glob::Pattern,
}

impl View for GlobPattern {
    type V = Seq<char>;

    closed spec fn view(&self) -> Seq<char> {
        self.source@
    }
}

/// Compiles `pattern` with `glob::Pattern::new`. On failure the error is
/// turned into its displayed message. The contract claims that the outcome is
/// the one `glob_compile` names for the pattern's text.
#[verifier::external_body]
pub(crate) fn compile_glob(pattern: &str) -> (r: Result<GlobPattern, String>)
    ensures
        r.is_ok() == glob_compile(pattern@).is_ok(),
        r is Ok ==> r->Ok_0@ == pattern@,
        r is Err ==> glob_compile(pattern@) == Err::<(), Seq<char>>(r->Err_0@),
{
    match glob::Pattern::new(pattern) {
        Ok(compiled) => Ok(GlobPattern { source: pattern.to_string(), compiled }),
        Err(e) => Err(format!("{}", e)),
    }
}

/// Matches `name` against a compiled pattern with `glob::Pattern::matches`.
/// The contract claims the answer is the one `glob_match` names for the
/// pattern's text and the name.
#[verifier::external_body]
pub(crate) fn glob_matches(pattern: &GlobPattern, name: &str) -> (r: bool)
    ensures
        r == glob_match(pattern@, name@),
{
    pattern.compiled.matches(name)
}

/// Whether `pattern` compiles and matches `name`.
pub fn pattern_matches(pattern: &str, name: &str) -> (r: bool)
    ensures
        r == pattern_hits(pattern@, name@),
{
    match compile_glob(pattern) {
        Ok(compiled) => glob_matches(&compiled, name),
        Err(_) => false,
    }
}

/// Whether any of `patterns` compiles and matches `name`.
pub fn matches_any_pattern(name: &str, patterns: &Vec<String>) -> (r: bool)
    ensures
        r == any_pattern_hits(crate::text::views(patterns@), name@),
{
    let ghost ps = crate::text::views(patterns@);
    let mut i: usize = 0;
    while i < patterns.len()
        invariant
            i <= patterns@.len(),
            ps == crate::text::views(patterns@),
            forall|k: int| 0 <= k < i ==> !pattern_hits(#[trigger] ps[k], name@),
        decreases patterns.len() - i,
    {
        if pattern_matches(patterns[i].as_str(), name) {
            assert(pattern_hits(ps[i as int], name@));
            return true;
        }
        i = i + 1;
    }
    false
}

} // verus!
