//! The rule language, as a function from a list of words to rules.
//!
//! ```text
//! expr        := rule*
//! rule        := namespace? ifmatch+ handlematch* ctmatch*
//! namespace   := WORD ':'
//! ifmatch     := '@' GLOB
//! handlematch := HEX ':' (HEX | '*')?
//! ctmatch     := GLOB valuefilter* unit?
//! valuefilter := 'non0'
//! unit        := ('/' 'd'? prefix? base 'ps'?)+
//! ```
//!
//! Everything here is specification: words are sequences of characters, and
//! each function says what the parser of the same name returns.

use crate::ct::{units_ps_chain, UBase, UFreq, UPfx, Unit, UnitChainView};
use crate::filter::CounterValueFilter;
use crate::pattern::glob_error;
use crate::rule::{CounterNameMatchView, CounterRuleView, QdiscHandleMatch, QdiscHandlePartMatch};
use vstd::prelude::*;

verus! {

/// Why a list of words is not an expression of the rule language.
pub enum ParseFailure {
    /// A unit segment names a base that does not exist.
    UnknownUnit(char),
    /// A unit segment ends before its base.
    MissingUnit,
    /// A unit segment that starts with `d` goes on after its base.
    UnexpectedSuffix(Seq<char>),
    /// A unit segment goes on after its base with something other than `ps`.
    UnknownSuffix(Seq<char>),
    /// A unit chain sets a frequency twice.
    ManyFrequencies,
    /// A pattern does not compile; the message is the pattern compiler's.
    BadPattern(Seq<char>),
    /// A rule does not start with an interface pattern.
    NoIfmatch,
    /// A unit stands where a counter pattern is expected.
    UnitBeforeCounter(Seq<char>),
    /// The namespace of a rule is not a known one.
    UnknownNamespace(Seq<char>),
}

/// A word that ends in `:` selects a namespace.
pub open spec fn is_ns(word: Seq<char>) -> bool {
    word.len() > 0 && word.last() == ':'
}

/// A word that starts with `@` is an interface pattern.
pub open spec fn is_ifmatch(word: Seq<char>) -> bool {
    word.len() > 0 && word[0] == '@'
}

/// A word that starts with `/` is a unit chain.
pub open spec fn is_unit(word: Seq<char>) -> bool {
    word.len() > 0 && word[0] == '/'
}

/// The word that is exactly `non0` is a value filter.
pub open spec fn value_filter_of(word: Seq<char>) -> Option<CounterValueFilter> {
    if word == seq!['n', 'o', 'n', '0'] {
        Some(CounterValueFilter::NonZero)
    } else {
        None
    }
}

/// The prefix that a character stands for in a unit segment.
pub open spec fn prefix_of(c: char) -> Option<UPfx> {
    if c == 'G' {
        Some(UPfx::Giga)
    } else if c == 'M' {
        Some(UPfx::Mega)
    } else if c == 'k' || c == 'K' {
        Some(UPfx::Kilo)
    } else if c == 'm' {
        Some(UPfx::Milli)
    } else if c == 'u' {
        Some(UPfx::Micro)
    } else if c == 'n' {
        Some(UPfx::Nano)
    } else {
        None
    }
}

/// The base that a character stands for in a unit segment.
pub open spec fn base_of(c: char) -> Option<UBase> {
    if c == 'p' {
        Some(UBase::Packets)
    } else if c == 's' {
        Some(UBase::Seconds)
    } else if c == 'B' {
        Some(UBase::Bytes)
    } else if c == 'b' {
        Some(UBase::Bits)
    } else if c == '1' {
        Some(UBase::Units)
    } else {
        None
    }
}

/// The unit at position `pos` of a segment, and the position after it. A
/// prefix character, where there is one, is always taken as a prefix; the
/// character after it must be a base.
pub open spec fn unit_pfx(s: Seq<char>, pos: int) -> Result<(Unit, int), ParseFailure> {
    let has_prefix = 0 <= pos < s.len() && prefix_of(s[pos]) is Some;
    let prefix = if has_prefix {
        prefix_of(s[pos])->0
    } else {
        UPfx::Plain
    };
    let at = if has_prefix {
        pos + 1
    } else {
        pos
    };
    if !(0 <= at < s.len()) {
        Err(ParseFailure::MissingUnit)
    } else {
        match base_of(s[at]) {
            Some(base) => Ok((Unit { prefix, base }, at + 1)),
            None => Err(ParseFailure::UnknownUnit(s[at])),
        }
    }
}

/// The unit and the frequency that one segment of a unit chain stands for:
/// `d` in front makes a delta, `ps` behind makes a rate, neither leaves the
/// sample as it is.
pub open spec fn unit_freq(s: Seq<char>) -> Result<(Unit, UFreq), ParseFailure> {
    let delta = s.len() > 0 && s[0] == 'd';
    let start: int = if delta {
        1
    } else {
        0
    };
    match unit_pfx(s, start) {
        Err(e) => Err(e),
        Ok((unit, end)) => {
            let rest = s.subrange(end, s.len() as int);
            if rest.len() == 0 {
                Ok(
                    (
                        unit,
                        if delta {
                            UFreq::Delta
                        } else {
                            UFreq::AsIs
                        },
                    ),
                )
            } else if delta {
                Err(ParseFailure::UnexpectedSuffix(rest))
            } else if rest == seq!['p', 's'] {
                Ok((unit, UFreq::PerSecond))
            } else {
                Err(ParseFailure::UnknownSuffix(rest))
            }
        },
    }
}

/// The position of the first `/` of `s` at or after `from`, or the length of
/// `s` where there is none.
pub open spec fn next_slash(s: Seq<char>, from: int) -> int
    decreases s.len() - from,
{
    if from < 0 || from >= s.len() {
        s.len() as int
    } else if s[from] == '/' {
        from
    } else {
        next_slash(s, from + 1)
    }
}

/// The first `/` at or after `from` is where [`next_slash`] says, and there
/// is none before it.
pub proof fn lemma_next_slash(s: Seq<char>, from: int)
    requires
        0 <= from <= s.len(),
    ensures
        from <= next_slash(s, from) <= s.len(),
        next_slash(s, from) < s.len() ==> s[next_slash(s, from)] == '/',
        forall|k: int| from <= k < next_slash(s, from) ==> s[k] != '/',
    decreases s.len() - from,
{
    if from < s.len() && s[from] != '/' {
        lemma_next_slash(s, from + 1);
    }
}

/// The pieces into which the `/` characters cut `s` from position `from` on.
/// There is always at least one piece; pieces may be empty.
pub open spec fn segments(s: Seq<char>, from: int) -> Seq<Seq<char>>
    decreases s.len() - from,
{
    if from < 0 || from > s.len() {
        seq![Seq::<char>::empty()]
    } else {
        let cut = next_slash(s, from);
        if cut >= s.len() {
            seq![s.subrange(from, s.len() as int)]
        } else {
            proof {
                lemma_next_slash(s, from);
            }
            seq![s.subrange(from, cut)] + segments(s, cut + 1)
        }
    }
}

/// The chain that the segments from position `i` on add to the units and the
/// frequency gathered so far. Each segment adds one unit; at most one of
/// them may set a frequency.
pub open spec fn chain_of(segs: Seq<Seq<char>>, i: int, units: Seq<Unit>, freq: UFreq) -> Result<
    UnitChainView,
    ParseFailure,
>
    decreases segs.len() - i,
{
    if i < 0 || i >= segs.len() {
        Ok(UnitChainView { units, freq })
    } else {
        match unit_freq(segs[i]) {
            Err(e) => Err(e),
            Ok((unit, this_freq)) => {
                if this_freq != UFreq::AsIs && freq != UFreq::AsIs {
                    Err(ParseFailure::ManyFrequencies)
                } else {
                    chain_of(
                        segs,
                        i + 1,
                        units.push(unit),
                        if this_freq != UFreq::AsIs {
                            this_freq
                        } else {
                            freq
                        },
                    )
                }
            },
        }
    }
}

/// The unit chain that a word stands for: one unit for each piece after the
/// first `/` of the word. A unit word starts with `/`, so that all of it is
/// read.
pub open spec fn unit_chain(word: Seq<char>) -> Result<UnitChainView, ParseFailure> {
    let first = next_slash(word, 0);
    if first >= word.len() {
        Ok(UnitChainView { units: Seq::empty(), freq: UFreq::AsIs })
    } else {
        chain_of(segments(word, first + 1), 0, Seq::empty(), UFreq::AsIs)
    }
}

/// The unit chain of the word at `pos`, if that word is a unit word.
pub open spec fn unit_at(words: Seq<Seq<char>>, pos: int) -> Result<
    Option<UnitChainView>,
    ParseFailure,
> {
    if 0 <= pos < words.len() && is_unit(words[pos]) {
        match unit_chain(words[pos]) {
            Ok(chain) => Ok(Some(chain)),
            Err(e) => Err(e),
        }
    } else {
        Ok(None)
    }
}

/// Whether a character is a hexadecimal digit.
pub open spec fn is_hex(c: char) -> bool {
    ('0' <= c && c <= '9') || ('a' <= c && c <= 'f') || ('A' <= c && c <= 'F')
}

/// The value of a hexadecimal digit.
pub open spec fn hex_value(c: char) -> int
    recommends
        is_hex(c),
{
    if '0' <= c && c <= '9' {
        c as int - '0' as int
    } else if 'a' <= c && c <= 'f' {
        c as int - 'a' as int + 10
    } else {
        c as int - 'A' as int + 10
    }
}

/// Whether every character of `s` is a hexadecimal digit.
pub open spec fn all_hex(s: Seq<char>) -> bool {
    forall|i: int| 0 <= i < s.len() ==> is_hex(#[trigger] s[i])
}

/// The number that a sequence of hexadecimal digits stands for.
pub open spec fn hex_number(s: Seq<char>) -> int
    decreases s.len(),
{
    if s.len() == 0 {
        0
    } else {
        hex_number(s.drop_last()) * 16 + hex_value(s.last())
    }
}

/// The position of the first character of `s` at or after `from` that is no
/// hexadecimal digit, or the length of `s` where there is none.
pub open spec fn first_non_hex(s: Seq<char>, from: int) -> int
    decreases s.len() - from,
{
    if from < 0 || from >= s.len() {
        s.len() as int
    } else if !is_hex(s[from]) {
        from
    } else {
        first_non_hex(s, from + 1)
    }
}

/// The major and minor texts of a word that has the shape of a handle
/// pattern: hexadecimal digits, a colon, and then nothing, `*`, or
/// hexadecimal digits.
pub open spec fn handle_parts(word: Seq<char>) -> Option<(Seq<char>, Seq<char>)> {
    let colon = first_non_hex(word, 0);
    if 0 < colon < word.len() && word[colon] == ':' {
        let minor = word.subrange(colon + 1, word.len() as int);
        if minor.len() == 0 || minor == seq!['*'] || all_hex(minor) {
            Some((word.subrange(0, colon), minor))
        } else {
            None
        }
    } else {
        None
    }
}

/// The handle pattern that a word stands for, if it is one: it has the
/// shape of a handle pattern, and each of its numbers fits in sixteen bits.
/// `M:` names the discipline with major `M`; `M:*` names the children of the
/// parent with major `M`; `M:m` names the children of the parent `M:m`.
pub open spec fn hnmatch_one(word: Seq<char>) -> Option<QdiscHandleMatch> {
    match handle_parts(word) {
        None => None,
        Some((major, minor)) => {
            if hex_number(major) > 0xffff {
                None
            } else if minor.len() == 0 {
                Some(
                    QdiscHandleMatch {
                        major: QdiscHandlePartMatch::Value(hex_number(major) as u16),
                        minor: QdiscHandlePartMatch::Omitted,
                    },
                )
            } else if minor == seq!['*'] {
                Some(
                    QdiscHandleMatch {
                        major: QdiscHandlePartMatch::Value(hex_number(major) as u16),
                        minor: QdiscHandlePartMatch::Any,
                    },
                )
            } else if hex_number(minor) > 0xffff {
                None
            } else {
                Some(
                    QdiscHandleMatch {
                        major: QdiscHandlePartMatch::Value(hex_number(major) as u16),
                        minor: QdiscHandlePartMatch::Value(hex_number(minor) as u16),
                    },
                )
            }
        },
    }
}

/// The interface pattern of the word at `pos`, if that word is an interface
/// word: the text after its `@`, which has to compile.
pub open spec fn ifmatch_at(words: Seq<Seq<char>>, pos: int) -> Result<
    Option<Seq<char>>,
    ParseFailure,
> {
    if 0 <= pos < words.len() && is_ifmatch(words[pos]) {
        let pattern = words[pos].subrange(1, words[pos].len() as int);
        match glob_error(pattern) {
            Some(msg) => Err(ParseFailure::BadPattern(msg)),
            None => Ok(Some(pattern)),
        }
    } else {
        Ok(None)
    }
}

/// The interface patterns that start at word `pos`: one for each word of the
/// run of interface words there.
pub open spec fn ifmatch_run(words: Seq<Seq<char>>, pos: int) -> Result<
    Seq<Seq<char>>,
    ParseFailure,
>
    decreases words.len() - pos,
{
    match ifmatch_at(words, pos) {
        Err(e) => Err(e),
        Ok(None) => Ok(Seq::empty()),
        Ok(Some(pattern)) => match ifmatch_run(words, pos + 1) {
            Err(e) => Err(e),
            Ok(rest) => Ok(seq![pattern] + rest),
        },
    }
}

/// The interface patterns of the rule that starts at word `pos`; there has
/// to be at least one.
pub open spec fn ifmatches(words: Seq<Seq<char>>, pos: int) -> Result<
    Seq<Seq<char>>,
    ParseFailure,
> {
    match ifmatch_run(words, pos) {
        Err(e) => Err(e),
        Ok(patterns) => if patterns.len() == 0 {
            Err(ParseFailure::NoIfmatch)
        } else {
            Ok(patterns)
        },
    }
}

/// The handle pattern of the word at `pos`, if there is a word and it is a
/// handle pattern.
pub open spec fn hnmatch_at(words: Seq<Seq<char>>, pos: int) -> Option<QdiscHandleMatch> {
    if 0 <= pos < words.len() {
        hnmatch_one(words[pos])
    } else {
        None
    }
}

/// The handle patterns that start at word `pos`: one for each word of the
/// run of handle patterns there.
pub open spec fn hnmatch_run(words: Seq<Seq<char>>, pos: int) -> Seq<QdiscHandleMatch>
    decreases words.len() - pos,
{
    match hnmatch_at(words, pos) {
        None => Seq::empty(),
        Some(first) => if pos < words.len() {
            seq![first] + hnmatch_run(words, pos + 1)
        } else {
            seq![first]
        },
    }
}

/// The pattern that matches every handle.
pub open spec fn any_handle() -> QdiscHandleMatch {
    QdiscHandleMatch { major: QdiscHandlePartMatch::Any, minor: QdiscHandlePartMatch::Any }
}

/// The handle patterns of a rule, given the run that was written: no
/// pattern at all stands for the one that matches every handle.
pub open spec fn hnmatches_or_any(run: Seq<QdiscHandleMatch>) -> Seq<QdiscHandleMatch> {
    if run.len() == 0 {
        seq![any_handle()]
    } else {
        run
    }
}

/// The value filter of the word at `pos`, if there is a word and it is a
/// filter word.
pub open spec fn value_filter_at(words: Seq<Seq<char>>, pos: int) -> Option<CounterValueFilter> {
    if 0 <= pos < words.len() {
        value_filter_of(words[pos])
    } else {
        None
    }
}

/// The value filters that start at word `pos`: one for each word of the run
/// of filter words there.
pub open spec fn filter_run(words: Seq<Seq<char>>, pos: int) -> Seq<CounterValueFilter>
    decreases words.len() - pos,
{
    match value_filter_at(words, pos) {
        Some(first) => if pos < words.len() {
            seq![first] + filter_run(words, pos + 1)
        } else {
            seq![first]
        },
        None => Seq::empty(),
    }
}

/// A run of value filters does not go past the last word.
pub proof fn lemma_filter_run_len(words: Seq<Seq<char>>, pos: int)
    requires
        0 <= pos <= words.len(),
    ensures
        pos + filter_run(words, pos).len() <= words.len(),
    decreases words.len() - pos,
{
    if value_filter_at(words, pos) is Some {
        lemma_filter_run_len(words, pos + 1);
    }
}

/// A counter pattern as it was written: its value filters and, where a unit
/// word was written for it or for a counter after it, that unit.
pub struct PendingMatch {
    pub pat: Seq<char>,
    pub vfilt: Seq<CounterValueFilter>,
    pub unit: Option<UnitChainView>,
}

/// Whether the counter patterns of a rule end at word `pos`: the words are
/// used up, or the next rule starts there.
pub open spec fn ends_rule(words: Seq<Seq<char>>, pos: int) -> bool {
    !(0 <= pos < words.len()) || is_ns(words[pos]) || is_ifmatch(words[pos])
}

/// The counter patterns that start at word `pos`, and the position of the
/// word after the last of them.
///
/// A counter pattern is followed by its value filters and then, possibly, by
/// a unit word. A counter without a unit word of its own takes the unit of
/// the nearest counter after it that has one.
pub open spec fn ctmatch_run(words: Seq<Seq<char>>, pos: int) -> Result<
    (Seq<PendingMatch>, int),
    ParseFailure,
>
    decreases words.len() - pos,
{
    if ends_rule(words, pos) {
        Ok((Seq::empty(), pos))
    } else if is_unit(words[pos]) {
        Err(ParseFailure::UnitBeforeCounter(words[pos]))
    } else if glob_error(words[pos]) is Some {
        Err(ParseFailure::BadPattern(glob_error(words[pos])->0))
    } else {
        let vfilt = filter_run(words, pos + 1);
        let after = pos + 1 + vfilt.len();
        proof {
            lemma_filter_run_len(words, pos + 1);
        }
        match unit_at(words, after) {
            Err(e) => Err(e),
            Ok(own) => {
                let next = if own is Some {
                    after + 1
                } else {
                    after
                };
                match ctmatch_run(words, next) {
                    Err(e) => Err(e),
                    Ok((rest, end)) => {
                        let unit = if own is Some {
                            own
                        } else if rest.len() > 0 {
                            rest[0].unit
                        } else {
                            None
                        };
                        Ok((seq![PendingMatch { pat: words[pos], vfilt, unit }] + rest, end))
                    },
                }
            },
        }
    }
}

/// A counter pattern with its final unit: the one it was given or took over,
/// or else a plain count per second.
pub open spec fn settle(pending: PendingMatch) -> CounterNameMatchView {
    CounterNameMatchView {
        pat: pending.pat,
        unit: match pending.unit {
            Some(chain) => chain,
            None => units_ps_chain(),
        },
        vfilt: pending.vfilt,
    }
}

/// The counter patterns of a rule, given the run that was written: no
/// pattern at all stands for `*`, which matches every counter.
pub open spec fn ctmatches_or_all(run: Seq<PendingMatch>) -> Seq<CounterNameMatchView> {
    if run.len() == 0 {
        seq![
            CounterNameMatchView { pat: seq!['*'], unit: units_ps_chain(), vfilt: Seq::empty() },
        ]
    } else {
        Seq::new(run.len(), |i: int| settle(run[i]))
    }
}

/// The counter patterns of the rule whose counter part starts at word `pos`,
/// and the position of the word after the rule.
pub open spec fn ctmatches(words: Seq<Seq<char>>, pos: int) -> Result<
    (Seq<CounterNameMatchView>, int),
    ParseFailure,
> {
    match ctmatch_run(words, pos) {
        Err(e) => Err(e),
        Ok((run, end)) => Ok((ctmatches_or_all(run), end)),
    }
}

/// The rule of the `ethtool` namespace that starts at word `pos`, and the
/// position of the word after it; `None` where no word is left.
pub open spec fn ethtool_rule(words: Seq<Seq<char>>, pos: int) -> Result<
    Option<(CounterRuleView, int)>,
    ParseFailure,
> {
    if !(0 <= pos < words.len()) {
        Ok(None)
    } else {
        match ifmatches(words, pos) {
            Err(e) => Err(e),
            Ok(ifs) => match ctmatches(words, pos + ifs.len()) {
                Err(e) => Err(e),
                Ok((cts, end)) => Ok(
                    Some((CounterRuleView::Ethtool { ifmatches: ifs, ctmatches: cts }, end)),
                ),
            },
        }
    }
}

/// The rule of the `qdisc` namespace that starts at word `pos`, and the
/// position of the word after it; `None` where no word is left.
pub open spec fn qdisc_rule(words: Seq<Seq<char>>, pos: int) -> Result<
    Option<(CounterRuleView, int)>,
    ParseFailure,
> {
    if !(0 <= pos < words.len()) {
        Ok(None)
    } else {
        match ifmatches(words, pos) {
            Err(e) => Err(e),
            Ok(ifs) => {
                let hns = hnmatch_run(words, pos + ifs.len());
                match ctmatches(words, pos + ifs.len() + hns.len()) {
                    Err(e) => Err(e),
                    Ok((cts, end)) => Ok(
                        Some(
                            (
                                CounterRuleView::Qdisc {
                                    ifmatches: ifs,
                                    hnmatches: hnmatches_or_any(hns),
                                    ctmatches: cts,
                                },
                                end,
                            ),
                        ),
                    ),
                }
            },
        }
    }
}

/// The namespace that the word at `pos` selects, if it selects one: the
/// word without its final colon.
pub open spec fn ns_at(words: Seq<Seq<char>>, pos: int) -> Option<Seq<char>> {
    if 0 <= pos < words.len() && is_ns(words[pos]) {
        Some(words[pos].drop_last())
    } else {
        None
    }
}

/// The name of the namespace of interface statistics, which is also the
/// namespace of a rule that names none.
pub open spec fn ns_ethtool() -> Seq<char> {
    seq!['e', 't', 'h', 't', 'o', 'o', 'l']
}

/// The name of the namespace of queueing disciplines.
pub open spec fn ns_qdisc() -> Seq<char> {
    seq!['q', 'd', 'i', 's', 'c']
}

/// The rule that starts at word `pos`, after its namespace word if it has
/// one, and the position of the word after the rule; `None` where no word is
/// left for the rule.
pub open spec fn rule_at(words: Seq<Seq<char>>, pos: int) -> Result<
    Option<(CounterRuleView, int)>,
    ParseFailure,
> {
    let ns = match ns_at(words, pos) {
        Some(ns) => ns,
        None => ns_ethtool(),
    };
    let start = if ns_at(words, pos) is Some {
        pos + 1
    } else {
        pos
    };
    if ns == ns_ethtool() {
        ethtool_rule(words, start)
    } else if ns == ns_qdisc() {
        qdisc_rule(words, start)
    } else {
        Err(ParseFailure::UnknownNamespace(ns))
    }
}

/// The rules that the words from position `pos` on stand for.
pub open spec fn rules_from(words: Seq<Seq<char>>, pos: int) -> Result<
    Seq<CounterRuleView>,
    ParseFailure,
>
    decreases words.len() - pos,
{
    match rule_at(words, pos) {
        Err(e) => Err(e),
        Ok(None) => Ok(Seq::empty()),
        Ok(Some((rule, end))) => {
            if pos < end <= words.len() {
                match rules_from(words, end) {
                    Err(e) => Err(e),
                    Ok(rest) => Ok(seq![rule] + rest),
                }
            } else {
                Ok(seq![rule])
            }
        },
    }
}

/// The rules that a list of words stands for.
pub open spec fn expr(words: Seq<Seq<char>>) -> Result<Seq<CounterRuleView>, ParseFailure> {
    rules_from(words, 0)
}

/// Whether a rule lacks nothing: it has an interface pattern and a counter
/// pattern, every counter pattern has a unit, and a rule on queueing
/// disciplines has a handle pattern.
pub open spec fn rule_complete(rule: CounterRuleView) -> bool {
    match rule {
        CounterRuleView::Ethtool { ifmatches, ctmatches } => {
            &&& ifmatches.len() > 0
            &&& ctmatches.len() > 0
            &&& forall|i: int|
                0 <= i < ctmatches.len() ==> (#[trigger] ctmatches[i]).unit.units.len() > 0
        },
        CounterRuleView::Qdisc { ifmatches, hnmatches, ctmatches } => {
            &&& ifmatches.len() > 0
            &&& hnmatches.len() > 0
            &&& ctmatches.len() > 0
            &&& forall|i: int|
                0 <= i < ctmatches.len() ==> (#[trigger] ctmatches[i]).unit.units.len() > 0
        },
    }
}

/// Every segment adds one unit to the chain.
pub proof fn lemma_chain_len(segs: Seq<Seq<char>>, i: int, units: Seq<Unit>, freq: UFreq)
    requires
        0 <= i <= segs.len(),
    ensures
        chain_of(segs, i, units, freq) matches Ok(chain) ==> chain.units.len() == units.len()
            + segs.len() - i,
    decreases segs.len() - i,
{
    if i < segs.len() {
        match unit_freq(segs[i]) {
            Err(e) => {},
            Ok((unit, this_freq)) => {
                if this_freq != UFreq::AsIs && freq != UFreq::AsIs {
                } else {
                    lemma_chain_len(
                        segs,
                        i + 1,
                        units.push(unit),
                        if this_freq != UFreq::AsIs {
                            this_freq
                        } else {
                            freq
                        },
                    );
                }
            },
        }
    }
}

/// The chain of a unit word has at least one unit.
pub proof fn lemma_unit_word_chain(word: Seq<char>)
    requires
        is_unit(word),
    ensures
        unit_chain(word) matches Ok(chain) ==> chain.units.len() > 0,
{
    assert(next_slash(word, 0) == 0);
    assert(segments(word, 1).len() > 0);
    lemma_chain_len(segments(word, 1), 0, Seq::empty(), UFreq::AsIs);
}

/// Every unit that a counter pattern of a run has or takes over has at
/// least one unit in its chain.
proof fn lemma_ctmatch_run_units(words: Seq<Seq<char>>, pos: int)
    ensures
        ctmatch_run(words, pos) matches Ok((run, end)) ==> forall|i: int|
            0 <= i < run.len() ==> ((#[trigger] run[i]).unit matches Some(chain)
                ==> chain.units.len() > 0),
    decreases words.len() - pos,
{
    if !ends_rule(words, pos) && !is_unit(words[pos]) && glob_error(words[pos]) is None {
        let vfilt = filter_run(words, pos + 1);
        let after = pos + 1 + vfilt.len();
        lemma_filter_run_len(words, pos + 1);
        match unit_at(words, after) {
            Err(e) => {},
            Ok(own) => {
                let next = if own is Some {
                    after + 1
                } else {
                    after
                };
                if own is Some {
                    lemma_unit_word_chain(words[after]);
                }
                lemma_ctmatch_run_units(words, next);
                match ctmatch_run(words, next) {
                    Err(e) => {},
                    Ok((rest, end)) => {
                        let run = ctmatch_run(words, pos)->Ok_0.0;
                        assert forall|i: int| 0 <= i < run.len() implies ((
                        #[trigger] run[i]).unit matches Some(chain) ==> chain.units.len() > 0) by {
                            if i > 0 {
                                assert(run[i] == rest[i - 1]);
                            }
                        }
                    },
                }
            },
        }
    }
}

proof fn lemma_ctmatches_complete(words: Seq<Seq<char>>, pos: int)
    ensures
        ctmatches(words, pos) matches Ok((cts, end)) ==> cts.len() > 0 && forall|i: int|
            0 <= i < cts.len() ==> (#[trigger] cts[i]).unit.units.len() > 0,
{
    lemma_ctmatch_run_units(words, pos);
}

proof fn lemma_rule_at_complete(words: Seq<Seq<char>>, pos: int)
    ensures
        rule_at(words, pos) matches Ok(Some((rule, end))) ==> rule_complete(rule),
{
    let start = if ns_at(words, pos) is Some {
        pos + 1
    } else {
        pos
    };
    match ifmatches(words, start) {
        Ok(ifs) => {
            lemma_ctmatches_complete(words, start + ifs.len());
            let hns = hnmatch_run(words, start + ifs.len());
            lemma_ctmatches_complete(words, start + ifs.len() + hns.len());
        },
        Err(e) => {},
    }
}

proof fn lemma_rules_from_complete(words: Seq<Seq<char>>, pos: int)
    ensures
        rules_from(words, pos) matches Ok(rules) ==> forall|i: int|
            0 <= i < rules.len() ==> rule_complete(#[trigger] rules[i]),
    decreases words.len() - pos,
{
    lemma_rule_at_complete(words, pos);
    match rule_at(words, pos) {
        Ok(Some((rule, end))) => {
            if pos < end <= words.len() {
                lemma_rules_from_complete(words, end);
                match rules_from(words, end) {
                    Ok(rest) => {
                        let rules = seq![rule] + rest;
                        assert forall|i: int| 0 <= i < rules.len() implies rule_complete(
                            #[trigger] rules[i],
                        ) by {
                            if i > 0 {
                                assert(rules[i] == rest[i - 1]);
                            }
                        }
                    },
                    Err(e) => {},
                }
            }
        },
        _ => {},
    }
}

/// No rule lacks a part. Every rule of an expression has at least one
/// interface pattern and at least one counter pattern, every counter
/// pattern has a unit chain with at least one unit, and every rule on
/// queueing disciplines has at least one handle pattern.
pub proof fn lemma_rules_complete(words: Seq<Seq<char>>)
    ensures
        expr(words) matches Ok(rules) ==> forall|i: int|
            0 <= i < rules.len() ==> rule_complete(#[trigger] rules[i]),
{
    lemma_rules_from_complete(words, 0);
}

} // verus!
