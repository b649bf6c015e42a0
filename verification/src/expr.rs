//! An early form of the rule language, in which the interfaces of a rule
//! are one word or a group of words in parentheses.
//!
//! ```text
//! expr    := namespace? ifmatch
//! ifmatch := WORD | '(' WORD* ')'
//! ```

use crate::parse::{opt_text, parse_ns_opt};
use crate::text::same_text;
use vstd::prelude::*;
use vstd::string::*;

verus! {

/// The word that closes a group.
pub open spec fn close_word() -> Seq<char> {
    seq![')']
}

/// The word that opens a group.
pub open spec fn open_word() -> Seq<char> {
    seq!['(']
}

/// The words of a group from position `from` on: the words before the
/// closing word, or all of them where the group is not closed.
pub open spec fn group_words(words: Seq<Seq<char>>, from: int) -> Seq<Seq<char>>
    decreases words.len() - from,
{
    if from < 0 || from >= words.len() || words[from] == close_word() {
        Seq::empty()
    } else {
        seq![words[from]] + group_words(words, from + 1)
    }
}

/// The position after a group that goes on at `from`: after its closing
/// word, or after the last word where the group is not closed.
pub open spec fn after_group(words: Seq<Seq<char>>, from: int) -> int
    decreases words.len() - from,
{
    if from < 0 || from >= words.len() {
        from
    } else if words[from] == close_word() {
        from + 1
    } else {
        after_group(words, from + 1)
    }
}

/// The interfaces that start at word `pos`: nothing where no word is left,
/// the words of a group up to its closing word, or the one word.
pub open spec fn ifmatch_words(words: Seq<Seq<char>>, pos: int) -> Seq<Seq<char>> {
    if !(0 <= pos < words.len()) {
        Seq::empty()
    } else if words[pos] == open_word() {
        group_words(words, pos + 1)
    } else {
        seq![words[pos]]
    }
}

/// The position after the interfaces that start at word `pos`.
pub open spec fn after_ifmatch(words: Seq<Seq<char>>, pos: int) -> int {
    if !(0 <= pos < words.len()) {
        pos
    } else if words[pos] == open_word() {
        after_group(words, pos + 1)
    } else {
        pos + 1
    }
}

/// Takes the words of a group, from the cursor to the closing word, which
/// is taken too, or to the last word. The words before the closing word are
/// added to `ret`.
pub fn parse_ifmatch_group(words: &Vec<String>, pos: &mut usize, ret: &mut Vec<String>)
    ensures
        final(ret).deep_view() == old(ret).deep_view() + group_words(
            words.deep_view(),
            *old(pos) as int,
        ),
        *final(pos) == after_group(words.deep_view(), *old(pos) as int),
{
    let ghost w = words.deep_view();
    let ghost start = *pos as int;
    proof {
        reveal_strlit(")");
        assert(")"@ =~= close_word());
    }
    while *pos < words.len()
        invariant
            w == words.deep_view(),
            w.len() == words.len(),
            ")"@ == close_word(),
            start == *old(pos),
            start <= *pos,
            after_group(w, start) == after_group(w, *pos as int),
            old(ret).deep_view() + group_words(w, start) == ret.deep_view() + group_words(
                w,
                *pos as int,
            ),
        decreases words.len() - *pos,
    {
        assert(w[*pos as int] == words[*pos as int]@);
        let word = &words[*pos];
        *pos = *pos + 1;
        if same_text(word.as_str(), ")") {
            assert(ret.deep_view() + Seq::<Seq<char>>::empty() =~= ret.deep_view());
            return ;
        }
        let ghost before = ret.deep_view();
        ret.push(word.clone());
        proof {
            assert(ret.deep_view() =~= before.push(word@));
            assert(ret.deep_view() + group_words(w, *pos as int) =~= before + (seq![word@]
                + group_words(w, *pos as int)));
        }
    }
    assert(ret.deep_view() + Seq::<Seq<char>>::empty() =~= ret.deep_view());
}

/// Takes the interfaces at the cursor: one word, or a group of words in
/// parentheses.
pub fn parse_ifmatch(words: &Vec<String>, pos: &mut usize) -> (r: Vec<String>)
    ensures
        r.deep_view() == ifmatch_words(words.deep_view(), *old(pos) as int),
        *final(pos) == after_ifmatch(words.deep_view(), *old(pos) as int),
{
    let ghost w = words.deep_view();
    let mut ret: Vec<String> = Vec::new();
    assert(ret.deep_view() =~= Seq::<Seq<char>>::empty());
    assert(w.len() == words.len());
    if *pos < words.len() {
        proof {
            reveal_strlit("(");
            assert("("@ =~= open_word());
        }
        assert(w[*pos as int] == words[*pos as int]@);
        let word = &words[*pos];
        *pos = *pos + 1;
        if same_text(word.as_str(), "(") {
            parse_ifmatch_group(words, pos, &mut ret);
            assert(ret.deep_view() =~= ifmatch_words(w, *old(pos) as int));
        } else {
            ret.push(word.clone());
            assert(ret.deep_view() =~= seq![word@]);
        }
    }
    ret
}

/// What one expression names: its interfaces.
#[derive(Debug)]
pub struct CounterExpr {
    pub ifmatch: Vec<String>,
}

/// Takes one expression at the cursor.
pub fn parse_ctrex(words: &Vec<String>, pos: &mut usize) -> (r: CounterExpr)
    ensures
        r.ifmatch.deep_view() == ifmatch_words(words.deep_view(), *old(pos) as int),
        *final(pos) == after_ifmatch(words.deep_view(), *old(pos) as int),
{
    CounterExpr { ifmatch: parse_ifmatch(words, pos) }
}

/// The words of a list, each followed by a space.
pub open spec fn spaced(words: Seq<Seq<char>>) -> Seq<char>
    decreases words.len(),
{
    if words.len() == 0 {
        Seq::empty()
    } else {
        spaced(words.drop_last()) + words.last() + seq![' ']
    }
}

/// The line that describes an expression: the namespace and a colon, or
/// `<>` where there is none, and the interfaces in parentheses.
pub open spec fn described(ns: Option<Seq<char>>, ifmatch: Seq<Seq<char>>) -> Seq<char> {
    (match ns {
        Some(ns) => ns + seq![':', ' '],
        None => seq!['<', '>'],
    }) + seq!['(', ' '] + spaced(ifmatch) + seq![')', ' ', '\n']
}

/// The line that describes an expression; see [`described`].
pub fn describe(ns: &Option<String>, ctrex: &CounterExpr) -> (r: String)
    ensures
        r@ == described(opt_text(*ns), ctrex.ifmatch.deep_view()),
{
    let ghost names = ctrex.ifmatch.deep_view();
    let mut s = String::new();
    match ns {
        Some(ns) => {
            s.append(ns.as_str());
            s.push(':');
            s.push(' ');
        },
        None => {
            s.push('<');
            s.push('>');
        },
    }
    s.push('(');
    s.push(' ');
    let ghost head = s@;
    let mut i: usize = 0;
    assert(names.take(0) =~= Seq::<Seq<char>>::empty());
    assert(s@ =~= head + spaced(names.take(0)));
    while i < ctrex.ifmatch.len()
        invariant
            i <= ctrex.ifmatch.len(),
            names == ctrex.ifmatch.deep_view(),
            s@ == head + spaced(names.take(i as int)),
        decreases ctrex.ifmatch.len() - i,
    {
        proof {
            assert(names.take(i + 1).drop_last() =~= names.take(i as int));
            assert(names.take(i + 1).last() == ctrex.ifmatch[i as int]@);
        }
        s.append(ctrex.ifmatch[i].as_str());
        s.push(' ');
        assert(s@ =~= head + spaced(names.take(i + 1)));
        i += 1;
    }
    assert(names.take(ctrex.ifmatch.len() as int) =~= names);
    s.push(')');
    s.push(' ');
    s.push('\n');
    assert(s@ =~= described(opt_text(*ns), names));
    s
}

/// Reads an optional namespace and one expression from the start of the
/// words, and describes what was read.
pub fn parse_expr(words: &Vec<String>) -> (r: String)
    ensures
        r@ == described(
            crate::grammar::ns_at(words.deep_view(), 0),
            ifmatch_words(
                words.deep_view(),
                if crate::grammar::ns_at(words.deep_view(), 0) is Some {
                    1
                } else {
                    0
                },
            ),
        ),
{
    let mut pos: usize = 0;
    let ns = parse_ns_opt(words, &mut pos);
    let ctrex = parse_ctrex(words, &mut pos);
    describe(&ns, &ctrex)
}

} // verus!
