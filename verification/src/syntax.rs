//! The marker characters of selectors and expressions.
//!
//! A selector may begin with `%` (a garden), `:` (a group) or `@` (a tree). An
//! expression that begins with `$ ` names a command whose output is its value.

use vstd::prelude::*;
use vstd::string::*;

verus! {

/// `s` begins with the garden marker `%`.
pub open spec fn spec_is_garden(s: Seq<char>) -> bool {
    s.len() > 0 && s[0] == '%'
}

/// `s` begins with the group marker `:`.
pub open spec fn spec_is_group(s: Seq<char>) -> bool {
    s.len() > 0 && s[0] == ':'
}

/// `s` begins with the tree marker `@`.
pub open spec fn spec_is_tree(s: Seq<char>) -> bool {
    s.len() > 0 && s[0] == '@'
}

/// `s` begins with the command marker: a dollar sign and a space.
pub open spec fn spec_is_exec(s: Seq<char>) -> bool {
    s.len() >= 2 && s[0] == '$' && s[1] == ' '
}

/// `s` without its leading selector marker, if it has one.
pub open spec fn spec_trim(s: Seq<char>) -> Seq<char> {
    if spec_is_garden(s) || spec_is_group(s) || spec_is_tree(s) {
        s.subrange(1, s.len() as int)
    } else {
        s
    }
}

/// `s` without its first two characters (the command marker).
pub open spec fn spec_trim_exec(s: Seq<char>) -> Seq<char>
    recommends
        s.len() >= 2,
{
    s.subrange(2, s.len() as int)
}

fn starts_with_char(s: &str, c: char) -> (res: bool)
    ensures
        res == (s@.len() > 0 && s@[0] == c),
{
    let n: usize = s.unicode_len();
    n > 0 && s.get_char(0) == c
}

/// Whether the selector is marked as a garden.
pub fn is_garden(s: &str) -> (res: bool)
    ensures
        res == spec_is_garden(s@),
{
    starts_with_char(s, '%')
}

/// Whether the selector is marked as a group.
pub fn is_group(s: &str) -> (res: bool)
    ensures
        res == spec_is_group(s@),
{
    starts_with_char(s, ':')
}

/// Whether the selector is marked as a tree.
pub fn is_tree(s: &str) -> (res: bool)
    ensures
        res == spec_is_tree(s@),
{
    starts_with_char(s, '@')
}

/// Whether the expression names a command to run.
pub fn is_exec(s: &str) -> (res: bool)
    ensures
        res == spec_is_exec(s@),
{
    let n: usize = s.unicode_len();
    n >= 2 && s.get_char(0) == '$' && s.get_char(1) == ' '
}

/// The selector without its marker.
pub fn trim(s: &str) -> (out: &str)
    ensures
        out@ == spec_trim(s@),
{
    if is_garden(s) || is_group(s) || is_tree(s) {
        let n: usize = s.unicode_len();
        s.substring_char(1, n)
    } else {
        s
    }
}

/// The command of a marked expression: what follows the marker.
pub fn trim_exec(s: &str) -> (out: &str)
    requires
        s@.len() >= 2,
    ensures
        out@ == spec_trim_exec(s@),
{
    let n: usize = s.unicode_len();
    s.substring_char(2, n)
}

/// A selector that carries a marker loses exactly one character by trimming,
/// and an unmarked one is left as it is.
pub proof fn lemma_trim_length(s: Seq<char>)
    ensures
        spec_trim(s).len() == if spec_is_garden(s) || spec_is_group(s) || spec_is_tree(s) {
            s.len() - 1
        } else {
            s.len() as int
        },
{
}

} // verus!
