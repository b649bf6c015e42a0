//! Shell-style patterns on names, as the `glob` crate reads them.
//!
//! A pattern is kept as its text. Compiling it and matching a name against
//! it are the work of `glob::Pattern`; both are named here as functions of
//! the texts, and every contract in the library that depends on a pattern
//! speaks of those two names.

use vstd::prelude::*;

verus! {

/// The message of the error with which `glob::Pattern::new` refuses the
/// pattern text, or `None` where the pattern compiles.
pub uninterp spec fn glob_error(pattern: Seq<char>) -> Option<Seq<char>>;

/// Whether `glob::Pattern::matches` finds that the pattern compiled from the
/// pattern text matches `text`. The name says something only of pattern
/// texts that compile.
pub uninterp spec fn glob_matches(pattern: Seq<char>, text: Seq<char>) -> bool;

/// `glob::Pattern::new`: hands back the message of the error, or `None`
/// where the pattern compiles. The outcome depends on the pattern text alone.
#[verifier::external_body]
pub(crate) fn glob_check(pattern: &str) -> (r: Option<String>)
    ensures
        match r {
            Some(msg) => glob_error(pattern@) == Some(msg@),
            None => glob_error(pattern@) is None,
        },
{
    match glob::Pattern::new(pattern) {
        Ok(_) => None,
        Err(e) => Some(e.msg.to_string()),
    }
}

/// `glob::Pattern::matches` on the pattern that `glob::Pattern::new` compiles
/// from `pattern`: whether `text` matches, or nothing where the pattern does
/// not compile. The outcome depends on the two texts alone.
#[verifier::external_body]
pub(crate) fn glob_test(pattern: &str, text: &str) -> (r: Option<bool>)
    ensures
        match r {
            Some(hit) => glob_error(pattern@) is None && hit == glob_matches(pattern@, text@),
            None => glob_error(pattern@) is Some,
        },
{
    match glob::Pattern::new(pattern) {
        Ok(compiled) => Some(compiled.matches(text)),
        Err(_) => None,
    }
}

/// Whether a pattern matches a text: the pattern compiles, and the compiled
/// pattern matches. A pattern that does not compile matches nothing.
pub open spec fn pattern_matches(pattern: Seq<char>, text: Seq<char>) -> bool {
    glob_error(pattern) is None && glob_matches(pattern, text)
}

/// What the outcome of holding a text against a pattern counts as: a hit
/// where the pattern compiled and matched, and no hit otherwise.
pub fn is_hit(outcome: Option<bool>) -> (r: bool)
    ensures
        r == (outcome == Some(true)),
{
    match outcome {
        Some(hit) => hit,
        None => false,
    }
}

/// Whether a pattern matches a text; see [`pattern_matches`].
pub fn pattern_test(pattern: &str, text: &str) -> (r: bool)
    ensures
        r == pattern_matches(pattern@, text@),
{
    is_hit(glob_test(pattern, text))
}

/// Whether at least one of the patterns matches `text`.
pub open spec fn any_matches(patterns: Seq<Seq<char>>, text: Seq<char>) -> bool {
    exists|i: int| 0 <= i < patterns.len() && pattern_matches(#[trigger] patterns[i], text)
}

/// For each pattern, whether it matches `text`.
pub open spec fn hits(patterns: Seq<Seq<char>>, text: Seq<char>) -> Seq<bool> {
    Seq::new(patterns.len(), |i: int| pattern_matches(patterns[i], text))
}

/// The position of the first hit of a list, if it has one.
pub fn first_hit(hits: &Vec<bool>) -> (r: Option<usize>)
    ensures
        match r {
            Some(at) => at < hits.len() && hits[at as int] && forall|k: int|
                0 <= k < at ==> !hits[k],
            None => forall|k: int| 0 <= k < hits.len() ==> !hits[k],
        },
{
    let mut i: usize = 0;
    while i < hits.len()
        invariant
            i <= hits.len(),
            forall|k: int| 0 <= k < i ==> !hits[k],
        decreases hits.len() - i,
    {
        if hits[i] {
            return Some(i);
        }
        i += 1;
    }
    None
}

/// Holds `text` against each of the patterns.
pub fn pattern_hits(patterns: &Vec<String>, text: &str) -> (r: Vec<bool>)
    ensures
        r@ == hits(patterns.deep_view(), text@),
{
    let mut r: Vec<bool> = Vec::new();
    let mut i: usize = 0;
    while i < patterns.len()
        invariant
            i <= patterns.len(),
            r.len() == i,
            forall|k: int| 0 <= k < i ==> r[k] == pattern_matches(patterns[k]@, text@),
        decreases patterns.len() - i,
    {
        r.push(pattern_test(patterns[i].as_str(), text));
        i += 1;
    }
    assert(r@ =~= hits(patterns.deep_view(), text@));
    r
}

/// Whether at least one of the patterns matches `text`.
pub fn matches_any(patterns: &Vec<String>, text: &str) -> (r: bool)
    ensures
        r == any_matches(patterns.deep_view(), text@),
{
    let found = pattern_hits(patterns, text);
    match first_hit(&found) {
        Some(at) => {
            assert(pattern_matches(patterns.deep_view()[at as int], text@));
            true
        },
        None => {
            assert forall|k: int| 0 <= k < patterns.len() implies !pattern_matches(
                #[trigger] patterns.deep_view()[k],
                text@,
            ) by {
                assert(!found[k]);
            }
            false
        },
    }
}

} // verus!
