//! The grammar of expressions: literal text with `${name}` references.
//!
//! A reference opens with `${` and closes with the first `}` after it; the name
//! is what stands between. A `${` that is never closed is literal text.

use vstd::prelude::*;

verus! {

/// The position of the first `}` at or after `from`; the length of `s` where
/// there is none.
pub open spec fn spec_close(s: Seq<char>, from: int) -> int
    decreases s.len() - from,
{
    if from < 0 || from >= s.len() {
        s.len() as int
    } else if s[from] == '}' {
        from
    } else {
        spec_close(s, from + 1)
    }
}

/// A reference opens at position `i` of `s`.
pub open spec fn spec_opens(s: Seq<char>, i: int) -> bool {
    &&& 0 <= i
    &&& i + 1 < s.len()
    &&& s[i] == '$'
    &&& s[i + 1] == '{'
    &&& spec_close(s, i + 2) < s.len()
}

/// The name of the reference that opens at position `i` of `s`.
pub open spec fn spec_name_at(s: Seq<char>, i: int) -> Seq<char>
    recommends
        spec_opens(s, i),
{
    s.subrange(i + 2, spec_close(s, i + 2))
}

/// No reference opens anywhere in `s`.
pub open spec fn spec_is_literal(s: Seq<char>) -> bool {
    forall|i: int| 0 <= i < s.len() ==> !spec_opens(s, i)
}

/// The first closing brace at or after `from` lies at or after `from`, and
/// within `s` or at its end.
pub proof fn lemma_close_bounds(s: Seq<char>, from: int)
    requires
        0 <= from <= s.len(),
    ensures
        from <= spec_close(s, from) <= s.len(),
        spec_close(s, from) < s.len() ==> s[spec_close(s, from)] == '}',
    decreases s.len() - from,
{
    if from < s.len() && s[from] != '}' {
        lemma_close_bounds(s, from + 1);
    }
}

/// A text without a dollar sign holds no reference.
pub proof fn lemma_no_dollar_is_literal(s: Seq<char>)
    requires
        forall|i: int| 0 <= i < s.len() ==> s[i] != '$',
    ensures
        spec_is_literal(s),
{
}

fn find_close(s: &Vec<char>, from: usize) -> (at: usize)
    requires
        from <= s@.len(),
    ensures
        at == spec_close(s@, from as int),
        from <= at <= s@.len(),
{
    let n: usize = s.len();
    let mut i: usize = from;
    while i < n && s[i] != '}'
        invariant
            n == s@.len(),
            from <= i <= n,
            spec_close(s@, i as int) == spec_close(s@, from as int),
        decreases n - i,
    {
        i = i + 1;
    }
    i
}

/// Where the reference that opens at position `i` closes, if one opens there.
pub fn closing(s: &Vec<char>, i: usize) -> (close: Option<usize>)
    ensures
        close is Some == spec_opens(s@, i as int),
        close is Some ==> close->0 == spec_close(s@, i + 2) && i + 2 <= close->0 < s@.len(),
{
    let n: usize = s.len();
    if i < n && s[i] == '$' && n - i >= 2 && s[i + 1] == '{' {
        let close = find_close(s, i + 2);
        if close < n {
            return Some(close);
        }
    }
    None
}


/// What remains of `s` after its first `k` characters.
pub open spec fn spec_rest(s: Seq<char>, k: int) -> Seq<char> {
    s.subrange(k, s.len() as int)
}

/// The first closing brace of a remainder is that of the whole text.
pub proof fn lemma_close_of_rest(s: Seq<char>, k: int, from: int)
    requires
        0 <= k <= s.len(),
        0 <= from,
    ensures
        spec_close(spec_rest(s, k), from) + k == spec_close(s, from + k),
    decreases s.len() - k - from,
{
    let rest = spec_rest(s, k);
    if from < rest.len() {
        assert(rest[from] == s[from + k]);
        if rest[from] != '}' {
            lemma_close_of_rest(s, k, from + 1);
        }
    }
}

/// What remains of a text without references holds none either.
pub proof fn lemma_rest_is_literal(s: Seq<char>, k: int)
    requires
        0 <= k <= s.len(),
        spec_is_literal(s),
    ensures
        spec_is_literal(spec_rest(s, k)),
{
    let rest = spec_rest(s, k);
    assert forall|i: int| 0 <= i < rest.len() implies !spec_opens(rest, i) by {
        lemma_close_of_rest(s, k, i + 2);
        assert(!spec_opens(s, i + k));
        if i + 1 < rest.len() {
            assert(rest[i] == s[i + k]);
            assert(rest[i + 1] == s[i + k + 1]);
        }
    }
}

} // verus!
