//! The progress lines that announce a tree, painted by `yansi`.

use vstd::prelude::*;
use vstd::string::*;

use crate::model::Tree;

verus! {

/// `out` is `text` as it was painted: the text itself, or the text between the
/// codes that switch a colour on and off.
pub open spec fn is_painted(out: Seq<char>, text: Seq<char>) -> bool {
    exists|before: Seq<char>, after: Seq<char>| #[trigger] (before + text + after) == out
}

/// Formats `yansi::Paint::cyan` of the text: the text, between colour codes
/// while colours are enabled.
#[verifier::external_body]
fn paint_cyan(text: &str) -> (out: String)
    ensures
        is_painted(out@, text@),
{
    format!("{}", yansi::Paint::cyan(text))
}

/// Formats `yansi::Paint::blue` of the text: the text, between colour codes
/// while colours are enabled.
#[verifier::external_body]
fn paint_blue(text: &str) -> (out: String)
    ensures
        is_painted(out@, text@),
{
    format!("{}", yansi::Paint::blue(text))
}

/// Formats `yansi::Paint::blue` of the text in bold: the text, between colour
/// codes while colours are enabled.
#[verifier::external_body]
fn paint_blue_bold(text: &str) -> (out: String)
    ensures
        is_painted(out@, text@),
{
    format!("{}", yansi::Paint::blue(text).bold())
}

/// Formats `yansi::Paint::black` of the text in bold: the text, between colour
/// codes while colours are enabled.
#[verifier::external_body]
fn paint_black_bold(text: &str) -> (out: String)
    ensures
        is_painted(out@, text@),
{
    format!("{}", yansi::Paint::black(text).bold())
}

/// A text stands for itself unpainted.
pub proof fn lemma_plain_is_painted(text: Seq<char>)
    ensures
        is_painted(text, text),
{
    assert(Seq::<char>::empty() + text + Seq::<char>::empty() =~= text);
}

/// The line for a tree that is run: the mark and the name, and after two
/// spaces the path where the output is verbose.
pub open spec fn spec_tree_line(mark: Seq<char>, name: Seq<char>, path: Seq<char>, verbose: bool) -> Seq<
    char,
> {
    if verbose {
        mark + " "@ + name + "  "@ + path
    } else {
        mark + " "@ + name
    }
}

/// The line for a tree that is skipped: as for one that is run, with a note at
/// the end.
pub open spec fn spec_missing_tree_line(
    mark: Seq<char>,
    name: Seq<char>,
    path: Seq<char>,
    note: Seq<char>,
    verbose: bool,
) -> Seq<char> {
    spec_tree_line(mark, name, path, verbose) + " "@ + note
}

/// Lays out the line for a tree that is run, from its pieces as they were
/// painted.
pub fn tree_line(mark: &str, name: &str, path: &str, verbose: bool) -> (line: String)
    ensures
        line@ == spec_tree_line(mark@, name@, path@, verbose),
{
    let mut line = String::from_str(mark);
    line.append(" ");
    line.append(name);
    if verbose {
        line.append("  ");
        line.append(path);
    }
    line
}

/// Lays out the line for a tree that is skipped, from its pieces as they were
/// painted.
pub fn missing_tree_line(mark: &str, name: &str, path: &str, note: &str, verbose: bool) -> (line:
    String)
    ensures
        line@ == spec_missing_tree_line(mark@, name@, path@, note@, verbose),
{
    let mut line = tree_line(mark, name, path, verbose);
    line.append(" ");
    line.append(note);
    line
}

/// `line` announces a tree that is run: a hash sign, the name, and the path
/// where the output is verbose, each as it was painted.
pub open spec fn is_display_tree(line: Seq<char>, name: Seq<char>, path: Seq<char>, verbose: bool) -> bool {
    exists|mark: Seq<char>, painted_name: Seq<char>, painted_path: Seq<char>|
        #![trigger spec_tree_line(mark, painted_name, painted_path, verbose)]
        is_painted(mark, "#"@) && is_painted(painted_name, name) && is_painted(painted_path, path)
            && line == spec_tree_line(mark, painted_name, painted_path, verbose)
}

/// `line` announces a tree that is skipped: a hash sign, the name, the path
/// where the output is verbose, and `(skipped)`, each as it was painted.
pub open spec fn is_display_missing_tree(
    line: Seq<char>,
    name: Seq<char>,
    path: Seq<char>,
    verbose: bool,
) -> bool {
    exists|mark: Seq<char>, painted_name: Seq<char>, painted_path: Seq<char>, note: Seq<char>|
        #![trigger spec_missing_tree_line(mark, painted_name, painted_path, note, verbose)]
        is_painted(mark, "#"@) && is_painted(painted_name, name) && is_painted(painted_path, path)
            && is_painted(note, "(skipped)"@) && line == spec_missing_tree_line(
            mark,
            painted_name,
            painted_path,
            note,
            verbose,
        )
}

/// The line that announces a tree that is skipped, all in bold black.
pub fn display_missing_tree(tree: &Tree, path: &str, verbose: bool) -> (line: String)
    ensures
        is_display_missing_tree(line@, tree.name@, path@, verbose),
{
    let mark = paint_black_bold("#");
    let name = paint_black_bold(tree.name.as_str());
    let painted_path = paint_black_bold(path);
    let note = paint_black_bold("(skipped)");
    let line = missing_tree_line(
        mark.as_str(),
        name.as_str(),
        painted_path.as_str(),
        note.as_str(),
        verbose,
    );
    assert(line@ == spec_missing_tree_line(mark@, name@, painted_path@, note@, verbose));
    line
}

/// The line that announces a tree that is run: the hash sign in cyan, the name
/// in bold blue and the path in blue.
pub fn display_tree(tree: &Tree, path: &str, verbose: bool) -> (line: String)
    ensures
        is_display_tree(line@, tree.name@, path@, verbose),
{
    let mark = paint_cyan("#");
    let name = paint_blue_bold(tree.name.as_str());
    let painted_path = paint_blue(path);
    let line = tree_line(mark.as_str(), name.as_str(), painted_path.as_str(), verbose);
    assert(line@ == spec_tree_line(mark@, name@, painted_path@, verbose));
    line
}

/// `line` is what is printed for a tree, given whether its directory exists:
/// nothing where the output is quiet; the line of a tree that is run where its
/// path is resolved and exists; else the line of a skipped tree, with
/// `[invalid-path]` for an unresolved path.
pub open spec fn is_print_tree(
    line: Option<String>,
    tree: Tree,
    exists: bool,
    verbose: bool,
    quiet: bool,
) -> bool {
    if quiet {
        line is None
    } else {
        line is Some && match tree.path.value {
            Some(path) => if exists {
                is_display_tree(line->0@, tree.name@, path@, verbose)
            } else {
                is_display_missing_tree(line->0@, tree.name@, path@, verbose)
            },
            None => is_display_missing_tree(line->0@, tree.name@, "[invalid-path]"@, verbose),
        }
    }
}

/// Whether a tree is worked on, and the line to print for it: a tree is worked
/// on where its path is resolved and its directory exists.
pub fn print_tree(tree: &Tree, exists: bool, verbose: bool, quiet: bool) -> (out: (
    bool,
    Option<String>,
))
    ensures
        out.0 == (tree.path.value is Some && exists),
        is_print_tree(out.1, *tree, exists, verbose, quiet),
{
    match tree.path_as_ref() {
        Ok(path) => {
            if !exists {
                if quiet {
                    (false, None)
                } else {
                    (false, Some(display_missing_tree(tree, path.as_str(), verbose)))
                }
            } else {
                (true, print_tree_details(tree, verbose, quiet))
            }
        },
        Err(_) => {
            if quiet {
                (false, None)
            } else {
                (false, Some(display_missing_tree(tree, "[invalid-path]", verbose)))
            }
        },
    }
}

/// The line to print for a tree that is run: none where the output is quiet or
/// the path is unresolved.
pub fn print_tree_details(tree: &Tree, verbose: bool, quiet: bool) -> (line: Option<String>)
    ensures
        match line {
            Some(text) => !quiet && tree.path.value is Some && is_display_tree(
                text@,
                tree.name@,
                tree.path.value->0@,
                verbose,
            ),
            None => quiet || tree.path.value is None,
        },
{
    if quiet {
        return None;
    }
    match tree.path_as_ref() {
        Ok(path) => Some(display_tree(tree, path.as_str(), verbose)),
        Err(_) => None,
    }
}

} // verus!
