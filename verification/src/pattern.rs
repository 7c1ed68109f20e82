//! Shell-style name patterns (`*`, `?`, bracket classes), matched by the `glob`
//! crate.

use vstd::prelude::*;

verus! {

/// Whether `glob::Pattern::new` accepts the text `pattern`.
pub uninterp spec fn glob_compiles(pattern: Seq<char>) -> bool;

/// Whether the compiled `pattern` matches `name` under the default match
/// options of `glob::Pattern::matches`.
pub uninterp spec fn glob_matches(pattern: Seq<char>, name: Seq<char>) -> bool;

/// Calls `glob::Pattern::new` and reports whether it accepted the text. The
/// answer depends on the text alone.
#[verifier::external_body]
pub(crate) fn compiles(pattern: &str) -> (ok: bool)
    ensures
        ok == glob_compiles(pattern@),
{
    ::glob::Pattern::new(pattern).is_ok()
}

/// Compiles `pattern` with `glob::Pattern::new` and calls
/// `glob::Pattern::matches` on `name`. Neither call panics; the answer depends on
/// the two texts alone.
#[verifier::external_body]
pub(crate) fn pattern_matches(pattern: &str, name: &str) -> (hit: bool)
    requires
        glob_compiles(pattern@),
    ensures
        hit == glob_matches(pattern@, name@),
{
    match ::glob::Pattern::new(pattern) {
        Ok(compiled) => compiled.matches(name),
        Err(_) => false,
    }
}

/// Whether `text` is a pattern that can be matched against names.
pub fn is_valid(text: &str) -> (ok: bool)
    ensures
        ok == glob_compiles(text@),
{
    compiles(text)
}

/// Whether `name` matches `pattern`; `None` where `pattern` is no valid pattern.
pub fn try_match(pattern: &str, name: &str) -> (hit: Option<bool>)
    ensures
        hit is Some == glob_compiles(pattern@),
        hit is Some ==> hit->0 == glob_matches(pattern@, name@),
{
    if compiles(pattern) {
        Some(pattern_matches(pattern, name))
    } else {
        None
    }
}

} // verus!
