//! The parser of the rule language. What each function returns is stated
//! by the function of the same name in [`crate::grammar`].

use crate::ct::{unit_units_ps, UBase, UFreq, UPfx, Unit, UnitChain, UnitChainView};
use crate::grammar;
use crate::grammar::{ParseFailure, PendingMatch};
use crate::filter::{copy_filters, CounterValueFilter};
use crate::pattern::glob_check;
use crate::rule::{
    name_match_views, name_matches_wf, rule_views, rules_wf, CounterNameMatch, CounterRule,
    CounterRuleView, EthtoolCounterRule, QdiscCounterRule, QdiscHandleMatch, QdiscHandlePartMatch,
};
use crate::text::{chars_of, same_text, string_of};
use vstd::prelude::*;
use vstd::string::*;

verus! {

/// Why a list of words could not be parsed.
#[derive(Debug)]
pub enum ParseError {
    /// A unit segment names a base that does not exist.
    UnknownUnit(char),
    /// A unit segment ends before its base.
    MissingUnit,
    /// A unit segment that starts with `d` goes on after its base.
    UnexpectedSuffix(String),
    /// A unit segment goes on after its base with something other than `ps`.
    UnknownSuffix(String),
    /// A unit chain sets a frequency twice.
    ManyFrequencies,
    /// A pattern does not compile; the message is the pattern compiler's.
    BadPattern(String),
    /// A rule does not start with an interface pattern.
    NoIfmatch,
    /// A unit stands where a counter pattern is expected.
    UnitBeforeCounter(String),
    /// The namespace of a rule is not a known one.
    UnknownNamespace(String),
}

impl View for ParseError {
    type V = ParseFailure;

    open spec fn view(&self) -> ParseFailure {
        match self {
            ParseError::UnknownUnit(c) => ParseFailure::UnknownUnit(*c),
            ParseError::MissingUnit => ParseFailure::MissingUnit,
            ParseError::UnexpectedSuffix(s) => ParseFailure::UnexpectedSuffix(s@),
            ParseError::UnknownSuffix(s) => ParseFailure::UnknownSuffix(s@),
            ParseError::ManyFrequencies => ParseFailure::ManyFrequencies,
            ParseError::BadPattern(s) => ParseFailure::BadPattern(s@),
            ParseError::NoIfmatch => ParseFailure::NoIfmatch,
            ParseError::UnitBeforeCounter(s) => ParseFailure::UnitBeforeCounter(s@),
            ParseError::UnknownNamespace(s) => ParseFailure::UnknownNamespace(s@),
        }
    }
}

/// The message that describes a failure.
pub open spec fn failure_text(failure: ParseFailure) -> Seq<char> {
    match failure {
        ParseFailure::UnknownUnit(c) => "Unknown unit, '"@.push(c).push('\''),
        ParseFailure::MissingUnit => "Missing unit"@,
        ParseFailure::UnexpectedSuffix(s) => "Unit suffix not expected: "@ + s,
        ParseFailure::UnknownSuffix(s) => "Unit suffix not understood: "@ + s,
        ParseFailure::ManyFrequencies => "Only one frequency allowed in a unit chain."@,
        ParseFailure::BadPattern(s) => s,
        ParseFailure::NoIfmatch => "Expected one or more @ifmatches"@,
        ParseFailure::UnitBeforeCounter(s) => "Unexpected unit before counter: "@ + s,
        ParseFailure::UnknownNamespace(s) => "Unknown namespace: "@ + s,
    }
}

impl ParseError {
    /// The message that describes the error.
    pub fn message(&self) -> (r: String)
        ensures
            r@ == failure_text(self@),
    {
        match self {
            ParseError::UnknownUnit(c) => {
                let mut s = String::from_str("Unknown unit, '");
                s.push(*c);
                s.push('\'');
                s
            },
            ParseError::MissingUnit => String::from_str("Missing unit"),
            ParseError::UnexpectedSuffix(rest) => {
                String::from_str("Unit suffix not expected: ").concat(rest.as_str())
            },
            ParseError::UnknownSuffix(rest) => {
                String::from_str("Unit suffix not understood: ").concat(rest.as_str())
            },
            ParseError::ManyFrequencies => {
                String::from_str("Only one frequency allowed in a unit chain.")
            },
            ParseError::BadPattern(msg) => msg.clone(),
            ParseError::NoIfmatch => String::from_str("Expected one or more @ifmatches"),
            ParseError::UnitBeforeCounter(word) => {
                String::from_str("Unexpected unit before counter: ").concat(word.as_str())
            },
            ParseError::UnknownNamespace(ns) => {
                String::from_str("Unknown namespace: ").concat(ns.as_str())
            },
        }
    }
}

/// A parser's result with the error seen as a [`ParseFailure`].
pub open spec fn outcome<T>(r: Result<T, ParseError>) -> Result<T, ParseFailure> {
    match r {
        Ok(t) => Ok(t),
        Err(e) => Err(e@),
    }
}

/// The text of a string that may be absent.
pub open spec fn opt_text(o: Option<String>) -> Option<Seq<char>> {
    match o {
        Some(s) => Some(s@),
        None => None,
    }
}

/// Whether a word selects a namespace: it ends in `:`.
pub fn is_ns(word: &String) -> (r: bool)
    ensures
        r == grammar::is_ns(word@),
{
    let cs = chars_of(word.as_str());
    cs.len() > 0 && cs[cs.len() - 1] == ':'
}

/// The namespace that the word at `pos` selects, if it selects one.
pub fn peek_ns(words: &Vec<String>, pos: usize) -> (r: Option<String>)
    ensures
        opt_text(r) == grammar::ns_at(words.deep_view(), pos as int),
{
    if pos < words.len() {
        assert(words.deep_view()[pos as int] == words[pos as int]@);
        let cs = chars_of(words[pos].as_str());
        if cs.len() > 0 && cs[cs.len() - 1] == ':' {
            let ns = string_of(&cs, 0, cs.len() - 1);
            assert(ns@ =~= words[pos as int]@.drop_last());
            return Some(ns);
        }
    }
    None
}

/// Takes the word at the cursor if it selects a namespace.
pub fn parse_ns_opt(words: &Vec<String>, pos: &mut usize) -> (r: Option<String>)
    ensures
        opt_text(r) == grammar::ns_at(words.deep_view(), *old(pos) as int),
        *final(pos) == if r is Some {
            *old(pos) + 1
        } else {
            *old(pos) as int
        },
{
    let ns = peek_ns(words, *pos);
    if ns.is_some() {
        assert(words.deep_view().len() == words.len());
        *pos = *pos + 1;
    }
    ns
}

/// Whether a word is an interface pattern: it starts with `@`.
pub fn is_ifmatch(word: &String) -> (r: bool)
    ensures
        r == grammar::is_ifmatch(word@),
{
    let cs = chars_of(word.as_str());
    cs.len() > 0 && cs[0] == '@'
}

/// Whether a word is a unit chain: it starts with `/`.
pub fn is_unit(word: &String) -> (r: bool)
    ensures
        r == grammar::is_unit(word@),
{
    let cs = chars_of(word.as_str());
    cs.len() > 0 && cs[0] == '/'
}

fn prefix_of(c: char) -> (r: Option<UPfx>)
    ensures
        r == grammar::prefix_of(c),
{
    match c {
        'G' => Some(UPfx::Giga),
        'M' => Some(UPfx::Mega),
        'k' | 'K' => Some(UPfx::Kilo),
        'm' => Some(UPfx::Milli),
        'u' => Some(UPfx::Micro),
        'n' => Some(UPfx::Nano),
        _ => None,
    }
}

fn base_of(c: char) -> (r: Option<UBase>)
    ensures
        r == grammar::base_of(c),
{
    match c {
        'p' => Some(UBase::Packets),
        's' => Some(UBase::Seconds),
        'B' => Some(UBase::Bytes),
        'b' => Some(UBase::Bits),
        '1' => Some(UBase::Units),
        _ => None,
    }
}

/// Reads a unit, an optional prefix and a base, at the cursor of a segment.
/// On success the cursor stands after the unit; on failure it is unchanged.
pub fn parse_unit_pfx(chars: &Vec<char>, pos: &mut usize) -> (r: Result<Unit, ParseError>)
    ensures
        match grammar::unit_pfx(chars@, *old(pos) as int) {
            Ok((unit, end)) => r == Ok::<Unit, ParseError>(unit) && *final(pos) == end,
            Err(e) => outcome(r) == Err::<Unit, ParseFailure>(e) && *final(pos) == *old(pos),
        },
{
    let mut at: usize = *pos;
    let mut prefix = UPfx::Plain;
    if at < chars.len() {
        match prefix_of(chars[at]) {
            Some(p) => {
                prefix = p;
                at = at + 1;
            },
            None => {},
        }
    }
    if at >= chars.len() {
        return Err(ParseError::MissingUnit);
    }
    match base_of(chars[at]) {
        Some(base) => {
            *pos = at + 1;
            Ok(Unit { prefix, base })
        },
        None => Err(ParseError::UnknownUnit(chars[at])),
    }
}

/// Reads one segment of a unit chain: a unit and the frequency that the
/// segment sets.
pub fn parse_unit_freq(s: &str) -> (r: Result<(Unit, UFreq), ParseError>)
    ensures
        outcome(r) == grammar::unit_freq(s@),
{
    let cs = chars_of(s);
    let n = cs.len();
    let delta = n > 0 && cs[0] == 'd';
    let mut pos: usize = if delta {
        1
    } else {
        0
    };
    let unit = match parse_unit_pfx(&cs, &mut pos) {
        Ok(unit) => unit,
        Err(e) => {
            return Err(e);
        },
    };
    let rest = string_of(&cs, pos, n);
    if pos == n {
        return Ok(
            (
                unit,
                if delta {
                    UFreq::Delta
                } else {
                    UFreq::AsIs
                },
            ),
        );
    }
    if delta {
        return Err(ParseError::UnexpectedSuffix(rest));
    }
    if n - pos == 2 && cs[pos] == 'p' && cs[pos + 1] == 's' {
        assert(rest@ =~= seq!['p', 's']);
        return Ok((unit, UFreq::PerSecond));
    }
    assert(rest@ != seq!['p', 's']) by {
        if rest@ == seq!['p', 's'] {
            assert(rest@.len() == 2);
            assert(rest@[0] == 'p' && rest@[1] == 's');
        }
    }
    Err(ParseError::UnknownSuffix(rest))
}

/// A parser's unit chain with the chain and the error seen as their
/// mathematical values.
pub open spec fn chain_outcome(r: Result<UnitChain, ParseError>) -> Result<
    UnitChainView,
    ParseFailure,
> {
    match r {
        Ok(chain) => Ok(chain@),
        Err(e) => Err(e@),
    }
}

fn find_slash(chars: &Vec<char>, from: usize) -> (r: usize)
    requires
        from <= chars.len(),
    ensures
        r == grammar::next_slash(chars@, from as int),
        from <= r <= chars.len(),
{
    let mut i: usize = from;
    while i < chars.len() && chars[i] != '/'
        invariant
            from <= i <= chars.len(),
            grammar::next_slash(chars@, from as int) == grammar::next_slash(chars@, i as int),
        decreases chars.len() - i,
    {
        i += 1;
    }
    i
}

/// There is always at least one piece.
proof fn lemma_segments_nonempty(s: Seq<char>, from: int)
    ensures
        grammar::segments(s, from).len() > 0,
{
}

/// Reads a unit chain: one unit for each piece after the first `/`.
pub fn parse_unit_chain(s: &str) -> (r: Result<UnitChain, ParseError>)
    ensures
        chain_outcome(r) == grammar::unit_chain(s@),
{
    let cs = chars_of(s);
    let n = cs.len();
    let mut units: Vec<Unit> = Vec::new();
    let mut freq = UFreq::AsIs;
    let first = find_slash(&cs, 0);
    if first >= n {
        assert(units@ =~= Seq::<Unit>::empty());
        return Ok(UnitChain { units, freq });
    }
    let mut start: usize = first + 1;
    let ghost segs = grammar::segments(cs@, start as int);
    let ghost mut i: int = 0;
    proof {
        lemma_segments_nonempty(cs@, start as int);
        assert(segs.skip(0) =~= segs);
        assert(units@ =~= Seq::<Unit>::empty());
    }
    loop
        invariant_except_break
            0 <= i < segs.len(),
            grammar::segments(cs@, start as int) == segs.skip(i),
        invariant
            n == cs.len(),
            start <= n,
            grammar::unit_chain(s@) == grammar::chain_of(segs, 0, Seq::empty(), UFreq::AsIs),
            grammar::chain_of(segs, 0, Seq::empty(), UFreq::AsIs) == grammar::chain_of(
                segs,
                i,
                units@,
                freq,
            ),
        ensures
            i == segs.len(),
        decreases n - start,
    {
        let cut = find_slash(&cs, start);
        let seg = string_of(&cs, start, cut);
        proof {
            if cut < n {
                grammar::lemma_next_slash(cs@, start as int);
            }
            assert(segs.skip(i)[0] == seg@);
            assert(segs[i] == seg@);
        }
        match parse_unit_freq(seg.as_str()) {
            Err(e) => {
                return Err(e);
            },
            Ok((unit, this_freq)) => {
                if this_freq != UFreq::AsIs {
                    if freq != UFreq::AsIs {
                        return Err(ParseError::ManyFrequencies);
                    }
                    freq = this_freq;
                }
                units.push(unit);
            },
        }
        proof {
            if cut < n {
                assert(segs.skip(i + 1) =~= grammar::segments(cs@, cut + 1)) by {
                    assert(segs.skip(i + 1) =~= segs.skip(i).skip(1));
                }
            } else {
                assert(segs.skip(i).len() == 1);
            }
            i = i + 1;
        }
        if cut >= n {
            break ;
        }
        start = cut + 1;
    }
    Ok(UnitChain { units, freq })
}

/// A parser's optional unit chain with the chain and the error seen as their
/// mathematical values.
pub open spec fn opt_chain_outcome(r: Result<Option<UnitChain>, ParseError>) -> Result<
    Option<UnitChainView>,
    ParseFailure,
> {
    match r {
        Ok(Some(chain)) => Ok(Some(chain@)),
        Ok(None) => Ok(None),
        Err(e) => Err(e@),
    }
}

/// The unit chain of the word at `pos`, if that word is a unit word.
pub fn peek_unit(words: &Vec<String>, pos: usize) -> (r: Result<Option<UnitChain>, ParseError>)
    ensures
        opt_chain_outcome(r) == grammar::unit_at(words.deep_view(), pos as int),
        r matches Ok(Some(chain)) ==> chain.wf(),
{
    if pos < words.len() {
        assert(words.deep_view()[pos as int] == words[pos as int]@);
        if is_unit(&words[pos]) {
            proof {
                grammar::lemma_unit_word_chain(words[pos as int]@);
            }
            return match parse_unit_chain(words[pos].as_str()) {
                Ok(chain) => Ok(Some(chain)),
                Err(e) => Err(e),
            };
        }
    }
    Ok(None)
}

/// Takes the word at the cursor if it is a unit word, and reads its chain.
/// The cursor moves only past a unit word that could be read.
pub fn parse_unit(words: &Vec<String>, pos: &mut usize) -> (r: Result<
    Option<UnitChain>,
    ParseError,
>)
    ensures
        opt_chain_outcome(r) == grammar::unit_at(words.deep_view(), *old(pos) as int),
        r matches Ok(Some(chain)) ==> chain.wf(),
        *final(pos) == if r matches Ok(Some(_)) {
            *old(pos) + 1
        } else {
            *old(pos) as int
        },
{
    let unit = peek_unit(words, *pos);
    match unit {
        Ok(Some(chain)) => {
            assert(words.deep_view().len() == words.len());
            *pos = *pos + 1;
            Ok(Some(chain))
        },
        Ok(None) => Ok(None),
        Err(e) => Err(e),
    }
}

fn is_hex(c: char) -> (r: bool)
    ensures
        r == grammar::is_hex(c),
{
    (c >= '0' && c <= '9') || (c >= 'a' && c <= 'f') || (c >= 'A' && c <= 'F')
}

fn hex_value(c: char) -> (r: u32)
    requires
        grammar::is_hex(c),
    ensures
        r == grammar::hex_value(c),
        r < 16,
{
    if c >= '0' && c <= '9' {
        c as u32 - '0' as u32
    } else if c >= 'a' && c <= 'f' {
        c as u32 - 'a' as u32 + 10
    } else {
        c as u32 - 'A' as u32 + 10
    }
}

fn find_non_hex(chars: &Vec<char>, from: usize) -> (r: usize)
    requires
        from <= chars.len(),
    ensures
        r == grammar::first_non_hex(chars@, from as int),
        from <= r <= chars.len(),
        forall|k: int| from <= k < r ==> grammar::is_hex(#[trigger] chars@[k]),
        r < chars.len() ==> !grammar::is_hex(chars@[r as int]),
{
    let mut i: usize = from;
    while i < chars.len() && is_hex(chars[i])
        invariant
            from <= i <= chars.len(),
            grammar::first_non_hex(chars@, from as int) == grammar::first_non_hex(
                chars@,
                i as int,
            ),
            forall|k: int| from <= k < i ==> grammar::is_hex(#[trigger] chars@[k]),
        decreases chars.len() - i,
    {
        i += 1;
    }
    i
}

/// The number that the hexadecimal digits `chars[from..to]` stand for, if it
/// fits in sixteen bits.
fn hex_to_u16(chars: &Vec<char>, from: usize, to: usize) -> (r: Option<u16>)
    requires
        from <= to <= chars.len(),
        grammar::all_hex(chars@.subrange(from as int, to as int)),
    ensures
        match r {
            Some(v) => v == grammar::hex_number(chars@.subrange(from as int, to as int)),
            None => grammar::hex_number(chars@.subrange(from as int, to as int)) > 0xffff,
        },
{
    let mut acc: u32 = 0;
    let mut over = false;
    let mut i: usize = from;
    assert(chars@.subrange(from as int, from as int) =~= Seq::<char>::empty());
    while i < to
        invariant
            from <= i <= to <= chars.len(),
            grammar::all_hex(chars@.subrange(from as int, to as int)),
            acc <= 0xffff,
            over ==> grammar::hex_number(chars@.subrange(from as int, i as int)) > 0xffff,
            !over ==> acc == grammar::hex_number(chars@.subrange(from as int, i as int)),
        decreases to - i,
    {
        proof {
            let whole = chars@.subrange(from as int, to as int);
            let next = chars@.subrange(from as int, i + 1);
            assert(whole[i - from] == chars@[i as int]);
            assert(next.drop_last() =~= chars@.subrange(from as int, i as int));
            assert(next.last() == chars@[i as int]);
        }
        let digit = hex_value(chars[i]);
        if !over {
            acc = acc * 16 + digit;
            if acc > 0xffff {
                over = true;
                acc = 0;
            }
        }
        i += 1;
    }
    if over {
        None
    } else {
        Some(acc as u16)
    }
}

fn is_all_hex(chars: &Vec<char>, from: usize, to: usize) -> (r: bool)
    requires
        from <= to <= chars.len(),
    ensures
        r == grammar::all_hex(chars@.subrange(from as int, to as int)),
{
    let mut i: usize = from;
    while i < to
        invariant
            from <= i <= to <= chars.len(),
            forall|k: int| from <= k < i ==> grammar::is_hex(#[trigger] chars@[k]),
        decreases to - i,
    {
        if !is_hex(chars[i]) {
            assert(chars@.subrange(from as int, to as int)[i - from] == chars@[i as int]);
            return false;
        }
        i += 1;
    }
    assert forall|k: int| 0 <= k < to - from implies grammar::is_hex(
        #[trigger] chars@.subrange(from as int, to as int)[k],
    ) by {
        assert(chars@.subrange(from as int, to as int)[k] == chars@[from + k]);
    }
    true
}

/// Reads a word as a handle pattern, if it is one.
pub fn parse_hnmatch_one(word: &String) -> (r: Option<QdiscHandleMatch>)
    ensures
        r == grammar::hnmatch_one(word@),
{
    let cs = chars_of(word.as_str());
    let n = cs.len();
    let colon = find_non_hex(&cs, 0);
    if colon == 0 || colon >= n || cs[colon] != ':' {
        return None;
    }
    let ghost major_text = cs@.subrange(0, colon as int);
    let ghost minor_text = cs@.subrange(colon + 1, n as int);
    let minor_empty = colon + 1 == n;
    let minor_star = n - colon == 2 && cs[colon + 1] == '*';
    proof {
        if minor_star {
            assert(minor_text =~= seq!['*']);
        } else if minor_text == seq!['*'] {
            assert(minor_text.len() == 1);
            assert(minor_text[0] == '*');
            assert(false);
        }
        assert forall|k: int| 0 <= k < major_text.len() implies grammar::is_hex(
            #[trigger] major_text[k],
        ) by {
            assert(major_text[k] == cs@[k]);
        }
    }
    let minor_hex = is_all_hex(&cs, colon + 1, n);
    if !(minor_empty || minor_star || minor_hex) {
        return None;
    }
    let major = match hex_to_u16(&cs, 0, colon) {
        Some(v) => v,
        None => {
            return None;
        },
    };
    if minor_empty {
        Some(
            QdiscHandleMatch {
                major: QdiscHandlePartMatch::Value(major),
                minor: QdiscHandlePartMatch::Omitted,
            },
        )
    } else if minor_star {
        Some(
            QdiscHandleMatch {
                major: QdiscHandlePartMatch::Value(major),
                minor: QdiscHandlePartMatch::Any,
            },
        )
    } else {
        match hex_to_u16(&cs, colon + 1, n) {
            Some(minor) => Some(
                QdiscHandleMatch {
                    major: QdiscHandlePartMatch::Value(major),
                    minor: QdiscHandlePartMatch::Value(minor),
                },
            ),
            None => None,
        }
    }
}

/// The handle pattern of the word at `pos`, if there is a word and it is a
/// handle pattern.
pub fn peek_hnmatch(words: &Vec<String>, pos: usize) -> (r: Option<QdiscHandleMatch>)
    ensures
        r == grammar::hnmatch_at(words.deep_view(), pos as int),
{
    if pos < words.len() {
        assert(words.deep_view()[pos as int] == words[pos as int]@);
        parse_hnmatch_one(&words[pos])
    } else {
        None
    }
}

/// Takes the word at the cursor if it is a handle pattern.
pub fn parse_hnmatch(words: &Vec<String>, pos: &mut usize) -> (r: Option<QdiscHandleMatch>)
    ensures
        r == grammar::hnmatch_at(words.deep_view(), *old(pos) as int),
        *final(pos) == if r is Some {
            *old(pos) + 1
        } else {
            *old(pos) as int
        },
        r is Some ==> *old(pos) < words.len(),
{
    let hn = peek_hnmatch(words, *pos);
    if hn.is_some() {
        assert(words.deep_view().len() == words.len());
        *pos = *pos + 1;
    }
    hn
}

/// Reads a word as a value filter, if it is the name of one.
pub fn parse_value_filter_one(word: &String) -> (r: Option<CounterValueFilter>)
    ensures
        r == grammar::value_filter_of(word@),
{
    proof {
        reveal_strlit("non0");
        assert("non0"@ =~= seq!['n', 'o', 'n', '0']);
    }
    if same_text(word.as_str(), "non0") {
        Some(CounterValueFilter::NonZero)
    } else {
        None
    }
}

/// The value filter of the word at `pos`, if there is a word and it is a
/// filter word.
pub fn peek_value_filter(words: &Vec<String>, pos: usize) -> (r: Option<CounterValueFilter>)
    ensures
        r == grammar::value_filter_at(words.deep_view(), pos as int),
{
    if pos < words.len() {
        assert(words.deep_view()[pos as int] == words[pos as int]@);
        parse_value_filter_one(&words[pos])
    } else {
        None
    }
}

/// Takes the word at the cursor if it is a value filter.
pub fn parse_value_filter(words: &Vec<String>, pos: &mut usize) -> (r: Option<CounterValueFilter>)
    ensures
        r == grammar::value_filter_at(words.deep_view(), *old(pos) as int),
        *final(pos) == if r is Some {
            *old(pos) + 1
        } else {
            *old(pos) as int
        },
        r is Some ==> *old(pos) < words.len(),
{
    let vf = peek_value_filter(words, *pos);
    if vf.is_some() {
        assert(words.deep_view().len() == words.len());
        *pos = *pos + 1;
    }
    vf
}

/// A parser's optional text with the text and the error seen as their
/// mathematical values.
pub open spec fn opt_text_outcome(r: Result<Option<String>, ParseError>) -> Result<
    Option<Seq<char>>,
    ParseFailure,
> {
    match r {
        Ok(o) => Ok(opt_text(o)),
        Err(e) => Err(e@),
    }
}

/// What the outcome of compiling a pattern means to the parser: the pattern
/// itself where it compiled, and otherwise the failure with the compiler's
/// message.
pub fn checked_pattern(pattern: String, check: Option<String>) -> (r: Result<String, ParseError>)
    ensures
        match check {
            Some(msg) => r matches Err(ParseError::BadPattern(m)) && m@ == msg@,
            None => r == Ok::<String, ParseError>(pattern),
        },
{
    match check {
        Some(msg) => Err(ParseError::BadPattern(msg)),
        None => Ok(pattern),
    }
}

/// The interface pattern of the word at `pos`, if that word is an interface
/// word.
pub fn peek_ifmatch(words: &Vec<String>, pos: usize) -> (r: Result<Option<String>, ParseError>)
    ensures
        opt_text_outcome(r) == grammar::ifmatch_at(words.deep_view(), pos as int),
{
    if pos < words.len() {
        assert(words.deep_view()[pos as int] == words[pos as int]@);
        let cs = chars_of(words[pos].as_str());
        if cs.len() > 0 && cs[0] == '@' {
            let pattern = string_of(&cs, 1, cs.len());
            let check = glob_check(pattern.as_str());
            return match checked_pattern(pattern, check) {
                Ok(pattern) => Ok(Some(pattern)),
                Err(e) => Err(e),
            };
        }
    }
    Ok(None)
}

/// Takes the word at the cursor if it is an interface pattern.
pub fn parse_ifmatch(words: &Vec<String>, pos: &mut usize) -> (r: Result<
    Option<String>,
    ParseError,
>)
    ensures
        opt_text_outcome(r) == grammar::ifmatch_at(words.deep_view(), *old(pos) as int),
        *final(pos) == if r matches Ok(Some(_)) {
            *old(pos) + 1
        } else {
            *old(pos) as int
        },
        r matches Ok(Some(_)) ==> *old(pos) < words.len(),
{
    let m = peek_ifmatch(words, *pos);
    match m {
        Ok(Some(pattern)) => {
            assert(words.deep_view().len() == words.len());
            *pos = *pos + 1;
            Ok(Some(pattern))
        },
        other => other,
    }
}

/// Reads the interface patterns of a rule: the run of interface words at
/// the cursor, of which there has to be at least one. On failure the cursor
/// is unchanged.
pub fn parse_ifmatches(words: &Vec<String>, pos: &mut usize) -> (r: Result<
    Vec<String>,
    ParseError,
>)
    ensures
        match grammar::ifmatches(words.deep_view(), *old(pos) as int) {
            Ok(patterns) => {
                &&& r matches Ok(v)
                &&& v.deep_view() == patterns
                &&& *final(pos) == *old(pos) + patterns.len()
                &&& *old(pos) < *final(pos) <= words.len()
            },
            Err(e) => {
                &&& r matches Err(err)
                &&& err@ == e
                &&& *final(pos) == *old(pos)
            },
        },
{
    let ghost w = words.deep_view();
    let start: usize = *pos;
    let mut p: usize = start;
    let mut acc: Vec<String> = Vec::new();
    proof {
        assert(acc.deep_view() =~= Seq::<Seq<char>>::empty());
        match grammar::ifmatch_run(w, start as int) {
            Ok(rest) => {
                assert(acc.deep_view() + rest =~= rest);
            },
            Err(e) => {},
        }
    }
    loop
        invariant
            w == words.deep_view(),
            start == *old(pos),
            *pos == *old(pos),
            p == start + acc.len(),
            acc.len() > 0 ==> p <= words.len(),
            match grammar::ifmatch_run(w, p as int) {
                Err(e) => grammar::ifmatch_run(w, start as int) == Err::<
                    Seq<Seq<char>>,
                    ParseFailure,
                >(e),
                Ok(rest) => grammar::ifmatch_run(w, start as int) == Ok::<
                    Seq<Seq<char>>,
                    ParseFailure,
                >(acc.deep_view() + rest),
            },
        ensures
            grammar::ifmatch_run(w, start as int) == Ok::<Seq<Seq<char>>, ParseFailure>(
                acc.deep_view(),
            ),
            p == start + acc.len(),
            acc.len() > 0 ==> p <= words.len(),
        decreases words.len() - acc.len(),
    {
        let ghost before = acc.deep_view();
        let ghost at = p as int;
        match parse_ifmatch(words, &mut p) {
            Err(e) => {
                return Err(e);
            },
            Ok(None) => {
                assert(acc.deep_view() + Seq::<Seq<char>>::empty() =~= acc.deep_view());
                break ;
            },
            Ok(Some(pattern)) => {
                acc.push(pattern);
                proof {
                    assert(acc.deep_view() =~= before.push(pattern@));
                    match grammar::ifmatch_run(w, at + 1) {
                        Ok(rest) => {
                            assert(acc.deep_view() + rest =~= before + (seq![pattern@] + rest));
                        },
                        Err(e) => {},
                    }
                }
            },
        }
    }
    if acc.len() == 0 {
        return Err(ParseError::NoIfmatch);
    }
    *pos = p;
    Ok(acc)
}

/// Reads the handle patterns of a rule: the run of handle patterns at the
/// cursor. Where there is none, the result is the one pattern that matches
/// every handle.
pub fn parse_hnmatches(words: &Vec<String>, pos: &mut usize) -> (r: Vec<QdiscHandleMatch>)
    ensures
        r@ == grammar::hnmatches_or_any(
            grammar::hnmatch_run(words.deep_view(), *old(pos) as int),
        ),
        *final(pos) == *old(pos) + grammar::hnmatch_run(
            words.deep_view(),
            *old(pos) as int,
        ).len(),
        *old(pos) <= words.len() ==> *final(pos) <= words.len(),
{
    let ghost w = words.deep_view();
    let start: usize = *pos;
    let mut acc: Vec<QdiscHandleMatch> = Vec::new();
    assert(acc@ + grammar::hnmatch_run(w, start as int) =~= grammar::hnmatch_run(w, start as int));
    loop
        invariant
            w == words.deep_view(),
            start == *old(pos),
            *pos == start + acc.len(),
            acc.len() > 0 ==> *pos <= words.len(),
            grammar::hnmatch_run(w, start as int) == acc@ + grammar::hnmatch_run(w, *pos as int),
        ensures
            grammar::hnmatch_run(w, start as int) == acc@,
            *pos == start + acc.len(),
            acc.len() > 0 ==> *pos <= words.len(),
        decreases words.len() - acc.len(),
    {
        let ghost before = acc@;
        let ghost at = *pos as int;
        match parse_hnmatch(words, pos) {
            None => {
                assert(acc@ + Seq::<QdiscHandleMatch>::empty() =~= acc@);
                break ;
            },
            Some(m) => {
                acc.push(m);
                proof {
                    assert(w.len() == words.len());
                    assert(acc@ + grammar::hnmatch_run(w, at + 1) =~= before + (seq![m]
                        + grammar::hnmatch_run(w, at + 1)));
                }
            },
        }
    }
    if acc.len() == 0 {
        acc.push(
            QdiscHandleMatch { major: QdiscHandlePartMatch::Any, minor: QdiscHandlePartMatch::Any },
        );
        assert(acc@ =~= seq![grammar::any_handle()]);
    }
    acc
}

/// Reads the run of value filters at the cursor.
pub fn parse_value_filters(words: &Vec<String>, pos: &mut usize) -> (r: Vec<CounterValueFilter>)
    ensures
        r@ == grammar::filter_run(words.deep_view(), *old(pos) as int),
        *final(pos) == *old(pos) + r.len(),
        *old(pos) <= words.len() ==> *final(pos) <= words.len(),
{
    let ghost w = words.deep_view();
    let start: usize = *pos;
    let mut acc: Vec<CounterValueFilter> = Vec::new();
    assert(acc@ + grammar::filter_run(w, start as int) =~= grammar::filter_run(w, start as int));
    loop
        invariant
            w == words.deep_view(),
            *pos == start + acc.len(),
            acc.len() > 0 ==> *pos <= words.len(),
            grammar::filter_run(w, start as int) == acc@ + grammar::filter_run(w, *pos as int),
        ensures
            grammar::filter_run(w, start as int) == acc@,
            *pos == start + acc.len(),
            acc.len() > 0 ==> *pos <= words.len(),
        decreases words.len() - acc.len(),
    {
        let ghost before = acc@;
        let ghost at = *pos as int;
        match parse_value_filter(words, pos) {
            None => {
                assert(acc@ + Seq::<CounterValueFilter>::empty() =~= acc@);
                break ;
            },
            Some(vf) => {
                acc.push(vf);
                proof {
                    assert(w.len() == words.len());
                    assert(acc@ + grammar::filter_run(w, at + 1) =~= before + (seq![vf]
                        + grammar::filter_run(w, at + 1)));
                }
            },
        }
    }
    acc
}

/// The counter patterns that have their unit, as the grammar sees them.
spec fn settled_view(done: Seq<CounterNameMatch>) -> Seq<PendingMatch> {
    Seq::new(
        done.len(),
        |i: int|
            PendingMatch {
                pat: done[i].pat@,
                vfilt: done[i].vfilt@,
                unit: Some(done[i].unit@),
            },
    )
}

/// The counter patterns that wait for a unit, as the grammar sees them once
/// `unit` is what they get.
spec fn waiting_view(
    waiting: Seq<(String, Vec<CounterValueFilter>)>,
    unit: Option<UnitChainView>,
) -> Seq<PendingMatch> {
    Seq::new(
        waiting.len(),
        |i: int| PendingMatch { pat: waiting[i].0@, vfilt: waiting[i].1@, unit },
    )
}

/// The unit that the counters before a run take over from it.
spec fn heir(rest: Seq<PendingMatch>) -> Option<UnitChainView> {
    if rest.len() > 0 {
        rest[0].unit
    } else {
        None
    }
}

/// Gives `unit` to the counter patterns that wait for one, and moves them
/// behind those that have theirs.
fn settle_waiting(
    done: &mut Vec<CounterNameMatch>,
    waiting: &Vec<(String, Vec<CounterValueFilter>)>,
    unit: &UnitChain,
)
    requires
        unit.wf(),
        name_matches_wf(old(done)@),
    ensures
        settled_view(final(done)@) == settled_view(old(done)@) + waiting_view(
            waiting@,
            Some(unit@),
        ),
        name_matches_wf(final(done)@),
{
    let mut i: usize = 0;
    assert(settled_view(done@) =~= settled_view(old(done)@) + waiting_view(
        waiting@.take(0),
        Some(unit@),
    ));
    while i < waiting.len()
        invariant
            i <= waiting.len(),
            unit.wf(),
            name_matches_wf(done@),
            settled_view(done@) == settled_view(old(done)@) + waiting_view(
                waiting@.take(i as int),
                Some(unit@),
            ),
        decreases waiting.len() - i,
    {
        let ghost before = done@;
        let entry = CounterNameMatch {
            pat: waiting[i].0.clone(),
            unit: unit.duplicate(),
            vfilt: copy_filters(&waiting[i].1),
        };
        done.push(entry);
        proof {
            assert(settled_view(done@) =~= settled_view(before).push(
                PendingMatch {
                    pat: waiting@[i as int].0@,
                    vfilt: waiting@[i as int].1@,
                    unit: Some(unit@),
                },
            ));
            assert(waiting_view(waiting@.take(i + 1), Some(unit@)) =~= waiting_view(
                waiting@.take(i as int),
                Some(unit@),
            ).push(
                PendingMatch {
                    pat: waiting@[i as int].0@,
                    vfilt: waiting@[i as int].1@,
                    unit: Some(unit@),
                },
            ));
            assert(settled_view(done@) =~= settled_view(old(done)@) + waiting_view(
                waiting@.take(i + 1),
                Some(unit@),
            ));
        }
        i += 1;
    }
    assert(waiting@.take(waiting.len() as int) =~= waiting@);
}

/// Reads the counter patterns of a rule, from the cursor to the end of the
/// rule. Each pattern may be followed by value filters and by a unit word; a
/// unit word also serves the patterns before it that have none yet. Patterns
/// left without a unit count plainly per second, and no pattern at all
/// stands for `*`. On failure the cursor is unchanged.
pub fn parse_ctmatches(words: &Vec<String>, pos: &mut usize) -> (r: Result<
    Vec<CounterNameMatch>,
    ParseError,
>)
    ensures
        match grammar::ctmatches(words.deep_view(), *old(pos) as int) {
            Ok((cts, end)) => {
                &&& r matches Ok(v)
                &&& name_match_views(v@) == cts
                &&& name_matches_wf(v@)
                &&& *final(pos) == end
                &&& *old(pos) <= *final(pos)
                &&& *old(pos) <= words.len() ==> *final(pos) <= words.len()
            },
            Err(e) => {
                &&& r matches Err(err)
                &&& err@ == e
                &&& *final(pos) == *old(pos)
            },
        },
{
    let ghost w = words.deep_view();
    let start: usize = *pos;
    let mut p: usize = start;
    let mut done: Vec<CounterNameMatch> = Vec::new();
    let mut waiting: Vec<(String, Vec<CounterValueFilter>)> = Vec::new();
    proof {
        match grammar::ctmatch_run(w, start as int) {
            Ok((rest, end)) => {
                assert(settled_view(done@) + waiting_view(waiting@, heir(rest)) + rest =~= rest);
            },
            Err(e) => {},
        }
    }
    loop
        invariant
            w == words.deep_view(),
            start == *old(pos),
            *pos == *old(pos),
            start <= p,
            start <= words.len() ==> p <= words.len(),
            name_matches_wf(done@),
            match grammar::ctmatch_run(w, p as int) {
                Err(e) => grammar::ctmatch_run(w, start as int) == Err::<
                    (Seq<PendingMatch>, int),
                    ParseFailure,
                >(e),
                Ok((rest, end)) => grammar::ctmatch_run(w, start as int) == Ok::<
                    (Seq<PendingMatch>, int),
                    ParseFailure,
                >((settled_view(done@) + waiting_view(waiting@, heir(rest)) + rest, end)),
            },
        ensures
            start <= p,
            start <= words.len() ==> p <= words.len(),
            name_matches_wf(done@),
            grammar::ctmatch_run(w, start as int) == Ok::<(Seq<PendingMatch>, int), ParseFailure>(
                (settled_view(done@) + waiting_view(waiting@, None), p as int),
            ),
        decreases words.len() - p,
    {
        assert(w.len() == words.len());
        if p >= words.len() {
            assert(settled_view(done@) + waiting_view(waiting@, None) + Seq::<
                PendingMatch,
            >::empty() =~= settled_view(done@) + waiting_view(waiting@, None));
            break ;
        }
        assert(w[p as int] == words[p as int]@);
        if is_ns(&words[p]) || is_ifmatch(&words[p]) {
            assert(settled_view(done@) + waiting_view(waiting@, None) + Seq::<
                PendingMatch,
            >::empty() =~= settled_view(done@) + waiting_view(waiting@, None));
            break ;
        }
        if is_unit(&words[p]) {
            return Err(ParseError::UnitBeforeCounter(words[p].clone()));
        }
        let check = glob_check(words[p].as_str());
        let pat = match checked_pattern(words[p].clone(), check) {
            Ok(pat) => pat,
            Err(e) => {
                return Err(e);
            },
        };
        let ghost at = p as int;
        let ghost before_done = done@;
        let ghost before_waiting = waiting@;
        p = p + 1;
        let vfilt = parse_value_filters(words, &mut p);
        let ghost after = p as int;
        match parse_unit(words, &mut p) {
            Err(e) => {
                return Err(e);
            },
            Ok(Some(unit)) => {
                let ghost own = PendingMatch { pat: pat@, vfilt: vfilt@, unit: Some(unit@) };
                settle_waiting(&mut done, &waiting, &unit);
                waiting = Vec::new();
                let ghost mid_done = done@;
                done.push(CounterNameMatch { pat, unit, vfilt });
                proof {
                    assert(settled_view(done@) =~= settled_view(mid_done).push(own));
                    match grammar::ctmatch_run(w, p as int) {
                        Ok((rest, end)) => {
                            assert(settled_view(done@) + waiting_view(waiting@, heir(rest)) + rest
                                =~= settled_view(before_done) + waiting_view(
                                before_waiting,
                                heir(seq![own] + rest),
                            ) + (seq![own] + rest));
                        },
                        Err(e) => {},
                    }
                }
            },
            Ok(None) => {
                waiting.push((pat, vfilt));
                proof {
                    match grammar::ctmatch_run(w, p as int) {
                        Ok((rest, end)) => {
                            let own = PendingMatch { pat: pat@, vfilt: vfilt@, unit: heir(rest) };
                            assert(waiting_view(waiting@, heir(rest)) =~= waiting_view(
                                before_waiting,
                                heir(rest),
                            ).push(own));
                            assert(settled_view(done@) + waiting_view(waiting@, heir(rest)) + rest
                                =~= settled_view(before_done) + waiting_view(
                                before_waiting,
                                heir(seq![own] + rest),
                            ) + (seq![own] + rest));
                        },
                        Err(e) => {},
                    }
                }
            },
        }
    }
    let ghost run = settled_view(done@) + waiting_view(waiting@, None);
    if done.len() == 0 && waiting.len() == 0 {
        proof {
            reveal_strlit("*");
            assert("*"@ =~= seq!['*']);
        }
        let all = CounterNameMatch {
            pat: String::from_str("*"),
            unit: unit_units_ps(),
            vfilt: Vec::new(),
        };
        done.push(all);
        assert(name_match_views(done@) =~= grammar::ctmatches_or_all(run));
    } else {
        let ghost before_done = done@;
        let default_unit = unit_units_ps();
        settle_waiting(&mut done, &waiting, &default_unit);
        proof {
            let last = settled_view(done@);
            assert(last == settled_view(before_done) + waiting_view(
                waiting@,
                Some(default_unit@),
            ));
            assert forall|i: int| 0 <= i < done@.len() implies name_match_views(done@)[i]
                == grammar::ctmatches_or_all(run)[i] by {
                assert(last[i].pat == done@[i].pat@);
                assert(last[i].unit == Some(done@[i].unit@));
                assert(last[i].vfilt == done@[i].vfilt@);
            }
            assert(name_match_views(done@) =~= grammar::ctmatches_or_all(run));
        }
    }
    *pos = p;
    Ok(done)
}

/// What a rule parser hands back, held against what the grammar says of the
/// same words: the rule, if words were left for one, and the cursor after it;
/// on failure the error, and the cursor unchanged.
pub open spec fn rule_parsed(
    spec_result: Result<Option<(CounterRuleView, int)>, ParseFailure>,
    r: Result<Option<CounterRule>, ParseError>,
    before: int,
    after: int,
    len: int,
) -> bool {
    match spec_result {
        Ok(None) => r matches Ok(None) && after == before,
        Ok(Some((rule, end))) => {
            &&& r matches Ok(Some(parsed))
            &&& parsed@ == rule
            &&& parsed.wf()
            &&& after == end
            &&& before < after <= len
        },
        Err(e) => {
            &&& r matches Err(err)
            &&& err@ == e
            &&& after == before
        },
    }
}

/// Reads one rule of the `ethtool` namespace at the cursor: interface
/// patterns, then counter patterns. Where no word is left there is no rule.
pub fn parse_ethtool_rule(words: &Vec<String>, pos: &mut usize) -> (r: Result<
    Option<CounterRule>,
    ParseError,
>)
    ensures
        rule_parsed(
            grammar::ethtool_rule(words.deep_view(), *old(pos) as int),
            r,
            *old(pos) as int,
            *final(pos) as int,
            words.len() as int,
        ),
{
    assert(words.deep_view().len() == words.len());
    if *pos >= words.len() {
        return Ok(None);
    }
    let mut p: usize = *pos;
    let ifmatches = match parse_ifmatches(words, &mut p) {
        Ok(v) => v,
        Err(e) => {
            return Err(e);
        },
    };
    let ctmatches = match parse_ctmatches(words, &mut p) {
        Ok(v) => v,
        Err(e) => {
            return Err(e);
        },
    };
    *pos = p;
    Ok(Some(CounterRule::Ethtool(EthtoolCounterRule { ifmatches, ctmatches })))
}

/// Reads one rule of the `qdisc` namespace at the cursor: interface
/// patterns, then handle patterns, then counter patterns. Where no word is
/// left there is no rule.
pub fn parse_qdisc_rule(words: &Vec<String>, pos: &mut usize) -> (r: Result<
    Option<CounterRule>,
    ParseError,
>)
    ensures
        rule_parsed(
            grammar::qdisc_rule(words.deep_view(), *old(pos) as int),
            r,
            *old(pos) as int,
            *final(pos) as int,
            words.len() as int,
        ),
{
    assert(words.deep_view().len() == words.len());
    if *pos >= words.len() {
        return Ok(None);
    }
    let mut p: usize = *pos;
    let ifmatches = match parse_ifmatches(words, &mut p) {
        Ok(v) => v,
        Err(e) => {
            return Err(e);
        },
    };
    let hnmatches = parse_hnmatches(words, &mut p);
    let ctmatches = match parse_ctmatches(words, &mut p) {
        Ok(v) => v,
        Err(e) => {
            return Err(e);
        },
    };
    *pos = p;
    Ok(Some(CounterRule::Qdisc(QdiscCounterRule { ifmatches, hnmatches, ctmatches })))
}

/// Reads one rule at the cursor: an optional namespace word, then the rule
/// of that namespace. A rule without a namespace word is an `ethtool` rule.
pub fn parse_rule(words: &Vec<String>, pos: &mut usize) -> (r: Result<
    Option<CounterRule>,
    ParseError,
>)
    ensures
        rule_parsed(
            grammar::rule_at(words.deep_view(), *old(pos) as int),
            r,
            *old(pos) as int,
            *final(pos) as int,
            words.len() as int,
        ),
{
    proof {
        reveal_strlit("ethtool");
        reveal_strlit("qdisc");
        assert("ethtool"@ =~= grammar::ns_ethtool());
        assert("qdisc"@ =~= grammar::ns_qdisc());
    }
    let mut p: usize = *pos;
    let ns = match parse_ns_opt(words, &mut p) {
        Some(ns) => ns,
        None => String::from_str("ethtool"),
    };
    let parsed = if same_text(ns.as_str(), "ethtool") {
        parse_ethtool_rule(words, &mut p)
    } else if same_text(ns.as_str(), "qdisc") {
        parse_qdisc_rule(words, &mut p)
    } else {
        Err(ParseError::UnknownNamespace(ns))
    };
    match parsed {
        Ok(Some(rule)) => {
            *pos = p;
            Ok(Some(rule))
        },
        other => other,
    }
}

/// Reads a list of words as an expression of the rule language: rule after
/// rule until the words are used up. Either every word is understood and the
/// rules come back in the order they were written, or the first failure
/// comes back and no rule does.
pub fn parse_expr(words: &Vec<String>) -> (r: Result<Vec<CounterRule>, ParseError>)
    ensures
        match grammar::expr(words.deep_view()) {
            Ok(rules) => {
                &&& r matches Ok(v)
                &&& rule_views(v@) == rules
                &&& rules_wf(v@)
            },
            Err(e) => r matches Err(err) && err@ == e,
        },
{
    let ghost w = words.deep_view();
    let mut ret: Vec<CounterRule> = Vec::new();
    let mut p: usize = 0;
    proof {
        match grammar::rules_from(w, 0) {
            Ok(rest) => {
                assert(rule_views(ret@) + rest =~= rest);
            },
            Err(e) => {},
        }
    }
    loop
        invariant
            w == words.deep_view(),
            p <= words.len(),
            rules_wf(ret@),
            match grammar::rules_from(w, p as int) {
                Err(e) => grammar::rules_from(w, 0) == Err::<Seq<CounterRuleView>, ParseFailure>(
                    e,
                ),
                Ok(rest) => grammar::rules_from(w, 0) == Ok::<Seq<CounterRuleView>, ParseFailure>(
                    rule_views(ret@) + rest,
                ),
            },
        ensures
            rules_wf(ret@),
            grammar::rules_from(w, 0) == Ok::<Seq<CounterRuleView>, ParseFailure>(
                rule_views(ret@),
            ),
        decreases words.len() - p,
    {
        let ghost before = ret@;
        match parse_rule(words, &mut p) {
            Err(e) => {
                return Err(e);
            },
            Ok(None) => {
                assert(rule_views(ret@) + Seq::<CounterRuleView>::empty() =~= rule_views(ret@));
                break ;
            },
            Ok(Some(rule)) => {
                let ghost rule_view = rule@;
                ret.push(rule);
                proof {
                    assert(w.len() == words.len());
                    assert(rule_views(ret@) =~= rule_views(before).push(rule_view));
                    match grammar::rules_from(w, p as int) {
                        Ok(rest) => {
                            assert(rule_views(ret@) + rest =~= rule_views(before) + (seq![
                                rule_view,
                            ] + rest));
                        },
                        Err(e) => {},
                    }
                }
            },
        }
    }
    Ok(ret)
}

} // verus!
