//! Counter rules: what a rule matches, and the samples it selects from what
//! a counter source reports.

use crate::ct::{UnitChain, UnitChainView};
use crate::ethtool_ss::{stat_views, IfStats};
use crate::filter::{copy_filters, CounterValueFilter};
use crate::key::{
    imm_views, imms_wf, CounterImm, CounterImmView, CounterKey, CounterKeyView, KeyHead,
};
use crate::netlink::{qdisc_stat_views, QdiscStat, QdiscStatView};
use crate::pattern::{any_matches, first_hit, matches_any, pattern_matches, pattern_test};
use vstd::prelude::*;
use vstd::string::*;

verus! {

/// One part, major or minor, of a pattern on queueing-discipline handles.
#[derive(Debug, Clone, Copy, PartialEq, Eq, Structural)]
pub enum QdiscHandlePartMatch {
    /// A wildcard.
    Any,
    /// The part was left out.
    Omitted,
    /// A particular value.
    Value(u16),
}

/// A pattern on queueing-discipline handles.
#[derive(Debug, Clone, Copy, PartialEq, Eq, Structural)]
pub struct QdiscHandleMatch {
    pub major: QdiscHandlePartMatch,
    pub minor: QdiscHandlePartMatch,
}

/// A pattern on counter names, with the unit chain and the value filters of
/// the counters it matches.
#[derive(Debug)]
pub struct CounterNameMatch {
    pub pat: String,
    pub unit: UnitChain,
    pub vfilt: Vec<CounterValueFilter>,
}

/// The mathematical value of a [`CounterNameMatch`].
pub struct CounterNameMatchView {
    pub pat: Seq<char>,
    pub unit: UnitChainView,
    pub vfilt: Seq<CounterValueFilter>,
}

impl View for CounterNameMatch {
    type V = CounterNameMatchView;

    open spec fn view(&self) -> CounterNameMatchView {
        CounterNameMatchView { pat: self.pat@, unit: self.unit@, vfilt: self.vfilt@ }
    }
}

impl CounterNameMatch {
    /// A name match is usable when its unit chain is.
    pub open spec fn wf(&self) -> bool {
        self.unit.wf()
    }
}

/// Whether every name match of a sequence is usable.
pub open spec fn name_matches_wf(s: Seq<CounterNameMatch>) -> bool {
    forall|i: int| 0 <= i < s.len() ==> (#[trigger] s[i]).wf()
}

/// The mathematical values of a sequence of name matches.
pub open spec fn name_match_views(s: Seq<CounterNameMatch>) -> Seq<CounterNameMatchView> {
    Seq::new(s.len(), |i: int| s[i]@)
}

/// A rule on the per-interface statistics of network devices.
#[derive(Debug)]
pub struct EthtoolCounterRule {
    pub ifmatches: Vec<String>,
    pub ctmatches: Vec<CounterNameMatch>,
}

/// A rule on the statistics of queueing disciplines.
#[derive(Debug)]
pub struct QdiscCounterRule {
    pub ifmatches: Vec<String>,
    pub hnmatches: Vec<QdiscHandleMatch>,
    pub ctmatches: Vec<CounterNameMatch>,
}

/// A compiled rule of one of the known namespaces.
#[derive(Debug)]
pub enum CounterRule {
    Ethtool(EthtoolCounterRule),
    Qdisc(QdiscCounterRule),
}

/// The mathematical value of a [`CounterRule`].
pub enum CounterRuleView {
    Ethtool { ifmatches: Seq<Seq<char>>, ctmatches: Seq<CounterNameMatchView> },
    Qdisc {
        ifmatches: Seq<Seq<char>>,
        hnmatches: Seq<QdiscHandleMatch>,
        ctmatches: Seq<CounterNameMatchView>,
    },
}

impl View for EthtoolCounterRule {
    type V = CounterRuleView;

    open spec fn view(&self) -> CounterRuleView {
        CounterRuleView::Ethtool {
            ifmatches: self.ifmatches.deep_view(),
            ctmatches: name_match_views(self.ctmatches@),
        }
    }
}

impl View for QdiscCounterRule {
    type V = CounterRuleView;

    open spec fn view(&self) -> CounterRuleView {
        CounterRuleView::Qdisc {
            ifmatches: self.ifmatches.deep_view(),
            hnmatches: self.hnmatches@,
            ctmatches: name_match_views(self.ctmatches@),
        }
    }
}

impl View for CounterRule {
    type V = CounterRuleView;

    open spec fn view(&self) -> CounterRuleView {
        match self {
            CounterRule::Ethtool(rule) => rule@,
            CounterRule::Qdisc(rule) => rule@,
        }
    }
}

impl CounterRule {
    /// A rule is usable when its name matches are.
    pub open spec fn wf(&self) -> bool {
        match self {
            CounterRule::Ethtool(rule) => name_matches_wf(rule.ctmatches@),
            CounterRule::Qdisc(rule) => name_matches_wf(rule.ctmatches@),
        }
    }
}

/// Whether every rule of a sequence is usable.
pub open spec fn rules_wf(s: Seq<CounterRule>) -> bool {
    forall|i: int| 0 <= i < s.len() ==> (#[trigger] s[i]).wf()
}

/// The mathematical values of a sequence of rules.
pub open spec fn rule_views(s: Seq<CounterRule>) -> Seq<CounterRuleView> {
    Seq::new(s.len(), |i: int| s[i]@)
}

/// The major part of a handle: its upper sixteen bits.
pub open spec fn major_of(handle: u32) -> u16 {
    (handle / 0x1_0000) as u16
}

/// The minor part of a handle: its lower sixteen bits.
pub open spec fn minor_of(handle: u32) -> u16 {
    (handle % 0x1_0000) as u16
}

impl QdiscHandleMatch {
    /// Whether the pattern matches a queueing discipline with this handle
    /// under this parent.
    ///
    /// With the minor left out, the pattern's major is held against the
    /// discipline's own major. With any minor, it is held against the
    /// parent's major. With a minor given, that has to be the parent's minor,
    /// and the pattern's major is held against the parent's major. A major
    /// that is not a value agrees with every major.
    pub open spec fn accepts(self, handle: u32, parent: u32) -> bool {
        let minor_agrees = match self.minor {
            QdiscHandlePartMatch::Value(minor) => minor == minor_of(parent),
            _ => true,
        };
        let held_against = match self.minor {
            QdiscHandlePartMatch::Omitted => major_of(handle),
            _ => major_of(parent),
        };
        let major_agrees = match self.major {
            QdiscHandlePartMatch::Value(major) => major == held_against,
            _ => true,
        };
        minor_agrees && major_agrees
    }

    /// Whether the pattern matches a queueing discipline with this handle
    /// under this parent.
    pub fn matches(&self, handle: u32, parent: u32) -> (r: bool)
        ensures
            r == self.accepts(handle, parent),
    {
        let hnmajor: u16 = (handle / 0x1_0000) as u16;
        let pnmajor: u16 = (parent / 0x1_0000) as u16;
        let pnminor: u16 = (parent % 0x1_0000) as u16;
        let match_major = match self.minor {
            QdiscHandlePartMatch::Omitted => hnmajor,
            QdiscHandlePartMatch::Any => pnmajor,
            QdiscHandlePartMatch::Value(minor) => {
                if minor != pnminor {
                    return false;
                }
                pnmajor
            },
        };
        match self.major {
            QdiscHandlePartMatch::Any => true,
            QdiscHandlePartMatch::Omitted => true,
            QdiscHandlePartMatch::Value(major) => major == match_major,
        }
    }
}

/// Whether at least one of the patterns matches a queueing discipline with
/// this handle under this parent.
pub open spec fn any_accepts(patterns: Seq<QdiscHandleMatch>, handle: u32, parent: u32) -> bool {
    exists|i: int| 0 <= i < patterns.len() && (#[trigger] patterns[i]).accepts(handle, parent)
}

/// Whether at least one of the patterns matches a queueing discipline with
/// this handle under this parent.
pub fn handles_match(patterns: &Vec<QdiscHandleMatch>, handle: u32, parent: u32) -> (r: bool)
    ensures
        r == any_accepts(patterns@, handle, parent),
{
    let mut i: usize = 0;
    while i < patterns.len()
        invariant
            i <= patterns.len(),
            forall|k: int| 0 <= k < i ==> !(#[trigger] patterns@[k]).accepts(handle, parent),
        decreases patterns.len() - i,
    {
        if patterns[i].matches(handle, parent) {
            return true;
        }
        i += 1;
    }
    false
}

/// A pattern `M:` matches exactly the disciplines whose own major is `M`; a
/// pattern `M:*` matches exactly those whose parent's major is `M`; a
/// pattern `M:m` matches exactly those whose parent is `M:m`.
pub proof fn lemma_handle_patterns(major: u16, minor: u16, handle: u32, parent: u32)
    ensures
        (QdiscHandleMatch {
            major: QdiscHandlePartMatch::Value(major),
            minor: QdiscHandlePartMatch::Omitted,
        }).accepts(handle, parent) <==> major_of(handle) == major,
        (QdiscHandleMatch {
            major: QdiscHandlePartMatch::Value(major),
            minor: QdiscHandlePartMatch::Any,
        }).accepts(handle, parent) <==> major_of(parent) == major,
        (QdiscHandleMatch {
            major: QdiscHandlePartMatch::Value(major),
            minor: QdiscHandlePartMatch::Value(minor),
        }).accepts(handle, parent) <==> parent == major * 0x1_0000 + minor,
{
}

/// The first of the name matches, from position `from` on, whose pattern
/// matches `name`.
pub open spec fn first_match(cts: Seq<CounterNameMatchView>, from: int, name: Seq<char>) -> Option<
    CounterNameMatchView,
>
    decreases cts.len() - from,
{
    if from < 0 || from >= cts.len() {
        None
    } else if pattern_matches(cts[from].pat, name) {
        Some(cts[from])
    } else {
        first_match(cts, from + 1, name)
    }
}

/// Where the first hit among the name matches from `from` on stands, there
/// the first match is.
proof fn lemma_first_match_at(cts: Seq<CounterNameMatchView>, from: int, name: Seq<char>, at: int)
    requires
        0 <= from <= at < cts.len(),
        pattern_matches(cts[at].pat, name),
        forall|k: int| from <= k < at ==> !pattern_matches((#[trigger] cts[k]).pat, name),
    ensures
        first_match(cts, from, name) == Some(cts[at]),
    decreases at - from,
{
    if from < at {
        lemma_first_match_at(cts, from + 1, name, at);
    }
}

/// Where no name match from `from` on is a hit, there is no first match.
proof fn lemma_first_match_none(cts: Seq<CounterNameMatchView>, from: int, name: Seq<char>)
    requires
        0 <= from,
        forall|k: int| from <= k < cts.len() ==> !pattern_matches((#[trigger] cts[k]).pat, name),
    ensures
        first_match(cts, from, name) is None,
    decreases cts.len() - from,
{
    if from < cts.len() {
        lemma_first_match_none(cts, from + 1, name);
    }
}

/// The position of the first of the name matches whose pattern matches
/// `name`.
pub fn find_match(cts: &Vec<CounterNameMatch>, name: &str) -> (r: Option<usize>)
    ensures
        match r {
            Some(i) => i < cts.len() && first_match(name_match_views(cts@), 0, name@) == Some(
                cts[i as int]@,
            ),
            None => first_match(name_match_views(cts@), 0, name@) is None,
        },
{
    let ghost views = name_match_views(cts@);
    let mut found: Vec<bool> = Vec::new();
    let mut i: usize = 0;
    while i < cts.len()
        invariant
            i <= cts.len(),
            found.len() == i,
            views == name_match_views(cts@),
            forall|k: int|
                0 <= k < i ==> #[trigger] found[k] == pattern_matches(views[k].pat, name@),
        decreases cts.len() - i,
    {
        assert(views[i as int] == cts[i as int]@);
        found.push(pattern_test(cts[i].pat.as_str(), name));
        i += 1;
    }
    let r = first_hit(&found);
    proof {
        assert forall|k: int| 0 <= k < views.len() implies found[k] == pattern_matches(
            (#[trigger] views[k]).pat,
            name@,
        ) by {}
        match r {
            Some(at) => {
                lemma_first_match_at(views, 0, name@, at as int);
            },
            None => {
                lemma_first_match_none(views, 0, name@);
            },
        }
    }
    r
}

/// The lower-case hexadecimal digit of a number under sixteen.
pub open spec fn hex_digit(d: int) -> char {
    if d == 0 {
        '0'
    } else if d == 1 {
        '1'
    } else if d == 2 {
        '2'
    } else if d == 3 {
        '3'
    } else if d == 4 {
        '4'
    } else if d == 5 {
        '5'
    } else if d == 6 {
        '6'
    } else if d == 7 {
        '7'
    } else if d == 8 {
        '8'
    } else if d == 9 {
        '9'
    } else if d == 10 {
        'a'
    } else if d == 11 {
        'b'
    } else if d == 12 {
        'c'
    } else if d == 13 {
        'd'
    } else if d == 14 {
        'e'
    } else {
        'f'
    }
}

/// A number in lower-case hexadecimal digits, without leading zeros.
pub open spec fn hex_text(n: nat) -> Seq<char>
    decreases n,
{
    if n < 16 {
        seq![hex_digit(n as int)]
    } else {
        hex_text(n / 16).push(hex_digit((n % 16) as int))
    }
}

fn digit_char(d: u16) -> (c: char)
    requires
        d < 16,
    ensures
        c == hex_digit(d as int),
{
    if d == 0 {
        '0'
    } else if d == 1 {
        '1'
    } else if d == 2 {
        '2'
    } else if d == 3 {
        '3'
    } else if d == 4 {
        '4'
    } else if d == 5 {
        '5'
    } else if d == 6 {
        '6'
    } else if d == 7 {
        '7'
    } else if d == 8 {
        '8'
    } else if d == 9 {
        '9'
    } else if d == 10 {
        'a'
    } else if d == 11 {
        'b'
    } else if d == 12 {
        'c'
    } else if d == 13 {
        'd'
    } else if d == 14 {
        'e'
    } else {
        'f'
    }
}

/// Appends a number in lower-case hexadecimal digits, without leading
/// zeros.
pub fn push_hex(s: &mut String, v: u16)
    ensures
        final(s)@ == old(s)@ + hex_text(v as nat),
    decreases v,
{
    if v >= 16 {
        push_hex(s, v / 16);
        let ghost mid = s@;
        s.push(digit_char(v % 16));
        assert(s@ =~= old(s)@ + hex_text((v / 16) as nat).push(hex_digit((v % 16) as int)));
    } else {
        s.push(digit_char(v));
        assert(s@ =~= old(s)@ + seq![hex_digit(v as int)]);
    }
}

/// The text of the parent dimension of a queueing discipline: the parent's
/// major and minor in hexadecimal, with a colon between them.
pub open spec fn parent_text(parent: u32) -> Seq<char> {
    hex_text(major_of(parent) as nat).push(':') + hex_text(minor_of(parent) as nat)
}

/// The text of the handle dimension of a queueing discipline: its own major
/// in hexadecimal and a colon, and behind them its minor, where that is not
/// zero.
pub open spec fn handle_text(handle: u32) -> Seq<char> {
    hex_text(major_of(handle) as nat).push(':') + (if minor_of(handle) == 0 {
        Seq::empty()
    } else {
        hex_text(minor_of(handle) as nat)
    })
}

/// A number in hexadecimal has at least one digit, and no digit is a colon.
proof fn lemma_hex_text_shape(n: nat)
    ensures
        hex_text(n).len() >= 1,
        n >= 16 ==> hex_text(n).len() >= 2,
        forall|i: int| 0 <= i < hex_text(n).len() ==> #[trigger] hex_text(n)[i] != ':',
    decreases n,
{
    if n >= 16 {
        lemma_hex_text_shape(n / 16);
    }
}

/// Two numbers with the same hexadecimal text are the same number.
proof fn lemma_hex_text_injective(a: nat, b: nat)
    requires
        hex_text(a) == hex_text(b),
    ensures
        a == b,
    decreases a,
{
    lemma_hex_text_shape(a);
    lemma_hex_text_shape(b);
    if a >= 16 {
        let x = hex_text(a / 16);
        let y = hex_text(b / 16);
        assert(b >= 16);
        assert(hex_text(a).drop_last() =~= x);
        assert(hex_text(b).drop_last() =~= y);
        assert(hex_text(a).last() == hex_digit((a % 16) as int));
        assert(hex_text(b).last() == hex_digit((b % 16) as int));
        lemma_hex_text_injective(a / 16, b / 16);
    } else {
        assert(b < 16);
        assert(hex_text(a)[0] == hex_digit(a as int));
        assert(hex_text(b)[0] == hex_digit(b as int));
    }
}

/// Two texts made of a number, a colon and something behind it agree only
/// where the numbers and what stands behind them agree.
proof fn lemma_colon_split(a: nat, x: Seq<char>, b: nat, y: Seq<char>)
    requires
        hex_text(a).push(':') + x == hex_text(b).push(':') + y,
    ensures
        a == b,
        x == y,
{
    let s = hex_text(a).push(':') + x;
    let t = hex_text(b).push(':') + y;
    let m = hex_text(a).len() as int;
    let n = hex_text(b).len() as int;
    lemma_hex_text_shape(a);
    lemma_hex_text_shape(b);
    assert(s[m] == ':');
    assert(t[n] == ':');
    if m < n {
        assert(t[m] == hex_text(b)[m]);
        assert(false);
    }
    if n < m {
        assert(s[n] == hex_text(a)[n]);
        assert(false);
    }
    assert(hex_text(a) =~= hex_text(b)) by {
        assert forall|i: int| 0 <= i < m implies hex_text(a)[i] == hex_text(b)[i] by {
            assert(s[i] == hex_text(a)[i]);
            assert(t[i] == hex_text(b)[i]);
        }
    }
    lemma_hex_text_injective(a, b);
    assert(x =~= y) by {
        assert(s.len() == m + 1 + x.len());
        assert(t.len() == n + 1 + y.len());
        assert forall|i: int| 0 <= i < x.len() implies x[i] == y[i] by {
            assert(s[m + 1 + i] == x[i]);
            assert(t[n + 1 + i] == y[i]);
        }
    }
}

/// Two parents with the same text are the same parent, and two handles with
/// the same text are the same handle.
pub proof fn lemma_handle_texts(a: u32, b: u32)
    ensures
        parent_text(a) == parent_text(b) ==> a == b,
        handle_text(a) == handle_text(b) ==> a == b,
{
    if parent_text(a) == parent_text(b) {
        lemma_colon_split(
            major_of(a) as nat,
            hex_text(minor_of(a) as nat),
            major_of(b) as nat,
            hex_text(minor_of(b) as nat),
        );
        lemma_hex_text_injective(minor_of(a) as nat, minor_of(b) as nat);
    }
    if handle_text(a) == handle_text(b) {
        let x = if minor_of(a) == 0 {
            Seq::<char>::empty()
        } else {
            hex_text(minor_of(a) as nat)
        };
        let y = if minor_of(b) == 0 {
            Seq::<char>::empty()
        } else {
            hex_text(minor_of(b) as nat)
        };
        lemma_colon_split(major_of(a) as nat, x, major_of(b) as nat, y);
        lemma_hex_text_shape(minor_of(a) as nat);
        lemma_hex_text_shape(minor_of(b) as nat);
        if minor_of(a) != 0 && minor_of(b) != 0 {
            lemma_hex_text_injective(minor_of(a) as nat, minor_of(b) as nat);
        }
    }
}

/// The key of a statistic of an interface.
pub open spec fn ethtool_key(ifname: Seq<char>, name: Seq<char>) -> CounterKeyView {
    CounterKeyView {
        ctns: "ethtool"@,
        key: seq![(KeyHead::Ifname, ifname), (KeyHead::Name, name)],
    }
}

/// The key of a statistic of a queueing discipline.
pub open spec fn qdisc_key(
    ifname: Seq<char>,
    kind: Seq<char>,
    handle: u32,
    parent: u32,
    name: Seq<char>,
) -> CounterKeyView {
    CounterKeyView {
        ctns: "qdisc"@,
        key: seq![
            (KeyHead::Ifname, ifname),
            (KeyHead::Parent, parent_text(parent)),
            (KeyHead::Handle, handle_text(handle)),
            (KeyHead::Kind, kind),
            (KeyHead::Name, name),
        ],
    }
}

/// One key for one counter. Two statistics of queueing disciplines have the
/// same key exactly when they agree in interface, kind, handle, parent and
/// name.
pub proof fn lemma_qdisc_key(
    ifname: Seq<char>,
    kind: Seq<char>,
    handle: u32,
    parent: u32,
    name: Seq<char>,
    ifname2: Seq<char>,
    kind2: Seq<char>,
    handle2: u32,
    parent2: u32,
    name2: Seq<char>,
)
    ensures
        qdisc_key(ifname, kind, handle, parent, name) == qdisc_key(
            ifname2,
            kind2,
            handle2,
            parent2,
            name2,
        ) <==> ifname == ifname2 && kind == kind2 && handle == handle2 && parent == parent2
            && name == name2,
{
    let k = qdisc_key(ifname, kind, handle, parent, name);
    let k2 = qdisc_key(ifname2, kind2, handle2, parent2, name2);
    if k == k2 {
        assert(k.key[0] == k2.key[0]);
        assert(k.key[1] == k2.key[1]);
        assert(k.key[2] == k2.key[2]);
        assert(k.key[3] == k2.key[3]);
        assert(k.key[4] == k2.key[4]);
        lemma_handle_texts(parent, parent2);
        lemma_handle_texts(handle, handle2);
    }
}

/// Two statistics of interfaces have the same key exactly when they agree
/// in interface and name.
pub proof fn lemma_ethtool_key(
    ifname: Seq<char>,
    name: Seq<char>,
    ifname2: Seq<char>,
    name2: Seq<char>,
)
    ensures
        ethtool_key(ifname, name) == ethtool_key(ifname2, name2) <==> ifname == ifname2 && name
            == name2,
{
    let k = ethtool_key(ifname, name);
    let k2 = ethtool_key(ifname2, name2);
    if k == k2 {
        assert(k.key[0] == k2.key[0]);
        assert(k.key[1] == k2.key[1]);
    }
}

/// The sample that a key and a value make under the first name match that
/// takes the counter's name, if one does.
pub open spec fn sample_of(
    cts: Seq<CounterNameMatchView>,
    key: CounterKeyView,
    name: Seq<char>,
    value: u64,
) -> Option<CounterImmView> {
    match first_match(cts, 0, name) {
        Some(ct) => Some(CounterImmView { key, value, unit: ct.unit, filter: ct.vfilt }),
        None => None,
    }
}

/// What a sample that may be absent adds to a list.
pub open spec fn maybe<T>(o: Option<T>) -> Seq<T> {
    match o {
        Some(t) => seq![t],
        None => Seq::empty(),
    }
}

/// The samples that the statistics of one interface give under the name
/// matches of a rule: for each statistic in order, the sample under the
/// first name match that takes its name.
pub open spec fn ethtool_if_samples(
    cts: Seq<CounterNameMatchView>,
    ifname: Seq<char>,
    stats: Seq<(Seq<char>, u64)>,
) -> Seq<CounterImmView>
    decreases stats.len(),
{
    if stats.len() == 0 {
        Seq::empty()
    } else {
        ethtool_if_samples(cts, ifname, stats.drop_last()) + maybe(
            sample_of(cts, ethtool_key(ifname, stats.last().0), stats.last().0, stats.last().1),
        )
    }
}

/// The mathematical value of the statistics of one interface.
pub open spec fn if_stats_view(iface: IfStats) -> (Seq<char>, Seq<(Seq<char>, u64)>) {
    (iface.ifname@, stat_views(iface.stats@))
}

/// The mathematical values of the statistics of a sequence of interfaces.
pub open spec fn if_stats_views(ifaces: Seq<IfStats>) -> Seq<(Seq<char>, Seq<(Seq<char>, u64)>)> {
    Seq::new(ifaces.len(), |i: int| if_stats_view(ifaces[i]))
}

/// The samples that a rule on interface statistics selects: interface by
/// interface in the order given, from those interfaces whose name one of the
/// rule's interface patterns matches.
pub open spec fn ethtool_samples(
    ifmatches: Seq<Seq<char>>,
    cts: Seq<CounterNameMatchView>,
    ifaces: Seq<(Seq<char>, Seq<(Seq<char>, u64)>)>,
) -> Seq<CounterImmView>
    decreases ifaces.len(),
{
    if ifaces.len() == 0 {
        Seq::empty()
    } else {
        ethtool_samples(ifmatches, cts, ifaces.drop_last()) + (if any_matches(
            ifmatches,
            ifaces.last().0,
        ) {
            ethtool_if_samples(cts, ifaces.last().0, ifaces.last().1)
        } else {
            Seq::empty()
        })
    }
}

/// The sample that a rule on queueing disciplines selects from one
/// statistic: the interface name has to match one of the interface patterns,
/// the handle one of the handle patterns, and the counter name one of the
/// name matches, of which the first counts.
pub open spec fn qdisc_sample(
    ifmatches: Seq<Seq<char>>,
    hnmatches: Seq<QdiscHandleMatch>,
    cts: Seq<CounterNameMatchView>,
    stat: QdiscStatView,
) -> Option<CounterImmView> {
    if any_matches(ifmatches, stat.ifname) && any_accepts(hnmatches, stat.handle, stat.parent) {
        sample_of(
            cts,
            qdisc_key(stat.ifname, stat.kind, stat.handle, stat.parent, stat.name),
            stat.name,
            stat.value,
        )
    } else {
        None
    }
}

/// The samples that a rule on queueing disciplines selects from a list of
/// statistics, in the order of the list.
pub open spec fn qdisc_samples(
    ifmatches: Seq<Seq<char>>,
    hnmatches: Seq<QdiscHandleMatch>,
    cts: Seq<CounterNameMatchView>,
    stats: Seq<QdiscStatView>,
) -> Seq<CounterImmView>
    decreases stats.len(),
{
    if stats.len() == 0 {
        Seq::empty()
    } else {
        qdisc_samples(ifmatches, hnmatches, cts, stats.drop_last()) + maybe(
            qdisc_sample(ifmatches, hnmatches, cts, stats.last()),
        )
    }
}

/// The samples that a rule selects from what the counter sources report.
pub open spec fn rule_samples(
    rule: CounterRuleView,
    ifaces: Seq<(Seq<char>, Seq<(Seq<char>, u64)>)>,
    qdiscs: Seq<QdiscStatView>,
) -> Seq<CounterImmView> {
    match rule {
        CounterRuleView::Ethtool { ifmatches, ctmatches } => ethtool_samples(
            ifmatches,
            ctmatches,
            ifaces,
        ),
        CounterRuleView::Qdisc { ifmatches, hnmatches, ctmatches } => qdisc_samples(
            ifmatches,
            hnmatches,
            ctmatches,
            qdiscs,
        ),
    }
}

fn ethtool_counter_key(ifname: &String, name: &String) -> (r: CounterKey)
    ensures
        r@ == ethtool_key(ifname@, name@),
        r.wf(),
{
    let mut key: Vec<(KeyHead, String)> = Vec::new();
    key.push((KeyHead::Ifname, ifname.clone()));
    key.push((KeyHead::Name, name.clone()));
    let r = CounterKey { ctns: "ethtool", key };
    assert(r@.key =~= ethtool_key(ifname@, name@).key);
    r
}

fn qdisc_counter_key(stat: &QdiscStat) -> (r: CounterKey)
    ensures
        r@ == qdisc_key(stat.ifname@, stat.kind@, stat.handle, stat.parent, stat.name@),
        r.wf(),
{
    let hnmajor: u16 = (stat.handle / 0x1_0000) as u16;
    let hnminor: u16 = (stat.handle % 0x1_0000) as u16;
    let pnmajor: u16 = (stat.parent / 0x1_0000) as u16;
    let pnminor: u16 = (stat.parent % 0x1_0000) as u16;
    let mut parent = String::new();
    push_hex(&mut parent, pnmajor);
    parent.push(':');
    push_hex(&mut parent, pnminor);
    let mut handle = String::new();
    push_hex(&mut handle, hnmajor);
    handle.push(':');
    if hnminor != 0 {
        push_hex(&mut handle, hnminor);
    }
    assert(parent@ =~= parent_text(stat.parent));
    assert(handle@ =~= handle_text(stat.handle));
    let mut key: Vec<(KeyHead, String)> = Vec::new();
    key.push((KeyHead::Ifname, stat.ifname.clone()));
    key.push((KeyHead::Parent, parent));
    key.push((KeyHead::Handle, handle));
    key.push((KeyHead::Kind, stat.kind.clone()));
    key.push((KeyHead::Name, stat.name.clone()));
    let r = CounterKey { ctns: "qdisc", key };
    assert(r@.key =~= qdisc_key(
        stat.ifname@,
        stat.kind@,
        stat.handle,
        stat.parent,
        stat.name@,
    ).key);
    r
}

/// Appends the sample that `key` and `value` make under the first name
/// match that takes `name`, if one does.
fn push_sample(
    cts: &Vec<CounterNameMatch>,
    key: CounterKey,
    name: &String,
    value: u64,
    ret: &mut Vec<CounterImm>,
)
    requires
        key.wf(),
    ensures
        imm_views(final(ret)@) == imm_views(old(ret)@) + maybe(
            sample_of(name_match_views(cts@), key@, name@, value),
        ),
        name_matches_wf(cts@) && imms_wf(old(ret)@) ==> imms_wf(final(ret)@),
{
    match find_match(cts, name.as_str()) {
        Some(i) => {
            let imm = CounterImm {
                key,
                value,
                unit: cts[i].unit.duplicate(),
                filter: copy_filters(&cts[i].vfilt),
            };
            ret.push(imm);
            assert(imm_views(ret@) =~= imm_views(old(ret)@) + seq![imm@]);
        },
        None => {
            assert(imm_views(ret@) =~= imm_views(old(ret)@) + Seq::<CounterImmView>::empty());
        },
    }
}

impl EthtoolCounterRule {
    /// Whether the rule asks for the statistics of the interface `ifname`.
    pub fn wants(&self, ifname: &str) -> (r: bool)
        ensures
            r == any_matches(self.ifmatches.deep_view(), ifname@),
    {
        matches_any(&self.ifmatches, ifname)
    }

    /// Appends the samples of one interface that the rule's name matches
    /// select.
    fn if_counters(&self, iface: &IfStats, ret: &mut Vec<CounterImm>)
        ensures
            imm_views(final(ret)@) == imm_views(old(ret)@) + ethtool_if_samples(
                name_match_views(self.ctmatches@),
                iface.ifname@,
                stat_views(iface.stats@),
            ),
            name_matches_wf(self.ctmatches@) && imms_wf(old(ret)@) ==> imms_wf(final(ret)@),
    {
        let ghost cts = name_match_views(self.ctmatches@);
        let ghost stats = stat_views(iface.stats@);
        let mut j: usize = 0;
        assert(imm_views(ret@) + ethtool_if_samples(cts, iface.ifname@, stats.take(0))
            =~= imm_views(ret@));
        while j < iface.stats.len()
            invariant
                j <= iface.stats.len(),
                cts == name_match_views(self.ctmatches@),
                stats == stat_views(iface.stats@),
                imm_views(ret@) == imm_views(old(ret)@) + ethtool_if_samples(
                    cts,
                    iface.ifname@,
                    stats.take(j as int),
                ),
                name_matches_wf(self.ctmatches@) && imms_wf(old(ret)@) ==> imms_wf(ret@),
            decreases iface.stats.len() - j,
        {
            let stat = &iface.stats[j];
            let key = ethtool_counter_key(&iface.ifname, &stat.name);
            proof {
                assert(stats.take(j + 1).drop_last() =~= stats.take(j as int));
                assert(stats.take(j + 1).last() == (stat.name@, stat.value));
            }
            push_sample(&self.ctmatches, key, &stat.name, stat.value, ret);
            j += 1;
        }
        assert(stats.take(iface.stats.len() as int) =~= stats);
    }

    /// The samples that the rule selects from the statistics of a list of
    /// interfaces; see [`ethtool_samples`].
    pub fn counters(&self, ifaces: &Vec<IfStats>) -> (r: Vec<CounterImm>)
        ensures
            imm_views(r@) == ethtool_samples(
                self.ifmatches.deep_view(),
                name_match_views(self.ctmatches@),
                if_stats_views(ifaces@),
            ),
            name_matches_wf(self.ctmatches@) ==> imms_wf(r@),
    {
        let ghost ifm = self.ifmatches.deep_view();
        let ghost cts = name_match_views(self.ctmatches@);
        let ghost all = if_stats_views(ifaces@);
        let mut ret: Vec<CounterImm> = Vec::new();
        let mut i: usize = 0;
        assert(imm_views(ret@) =~= ethtool_samples(ifm, cts, all.take(0)));
        while i < ifaces.len()
            invariant
                i <= ifaces.len(),
                ifm == self.ifmatches.deep_view(),
                cts == name_match_views(self.ctmatches@),
                all == if_stats_views(ifaces@),
                imm_views(ret@) == ethtool_samples(ifm, cts, all.take(i as int)),
                name_matches_wf(self.ctmatches@) ==> imms_wf(ret@),
            decreases ifaces.len() - i,
        {
            proof {
                assert(all.take(i + 1).drop_last() =~= all.take(i as int));
                assert(all.take(i + 1).last() == if_stats_view(ifaces@[i as int]));
            }
            if self.wants(ifaces[i].ifname.as_str()) {
                self.if_counters(&ifaces[i], &mut ret);
            } else {
                assert(imm_views(ret@) + Seq::<CounterImmView>::empty() =~= imm_views(ret@));
            }
            i += 1;
        }
        assert(all.take(ifaces.len() as int) =~= all);
        ret
    }
}

impl QdiscCounterRule {
    /// The samples that the rule selects from a list of statistics of
    /// queueing disciplines; see [`qdisc_samples`].
    pub fn counters(&self, qdiscs: &Vec<QdiscStat>) -> (r: Vec<CounterImm>)
        ensures
            imm_views(r@) == qdisc_samples(
                self.ifmatches.deep_view(),
                self.hnmatches@,
                name_match_views(self.ctmatches@),
                qdisc_stat_views(qdiscs@),
            ),
            name_matches_wf(self.ctmatches@) ==> imms_wf(r@),
    {
        let ghost ifm = self.ifmatches.deep_view();
        let ghost cts = name_match_views(self.ctmatches@);
        let ghost all = qdisc_stat_views(qdiscs@);
        let mut ret: Vec<CounterImm> = Vec::new();
        let mut i: usize = 0;
        assert(imm_views(ret@) =~= qdisc_samples(ifm, self.hnmatches@, cts, all.take(0)));
        while i < qdiscs.len()
            invariant
                i <= qdiscs.len(),
                ifm == self.ifmatches.deep_view(),
                cts == name_match_views(self.ctmatches@),
                all == qdisc_stat_views(qdiscs@),
                imm_views(ret@) == qdisc_samples(ifm, self.hnmatches@, cts, all.take(i as int)),
                name_matches_wf(self.ctmatches@) ==> imms_wf(ret@),
            decreases qdiscs.len() - i,
        {
            let stat = &qdiscs[i];
            proof {
                assert(all.take(i + 1).drop_last() =~= all.take(i as int));
                assert(all.take(i + 1).last() == qdiscs@[i as int]@);
            }
            if matches_any(&self.ifmatches, stat.ifname.as_str()) && handles_match(
                &self.hnmatches,
                stat.handle,
                stat.parent,
            ) {
                let key = qdisc_counter_key(stat);
                push_sample(&self.ctmatches, key, &stat.name, stat.value, &mut ret);
            } else {
                assert(imm_views(ret@) + Seq::<CounterImmView>::empty() =~= imm_views(ret@));
            }
            i += 1;
        }
        assert(all.take(qdiscs.len() as int) =~= all);
        ret
    }
}

impl CounterRule {
    /// The samples that the rule selects from what the counter sources
    /// report: a rule on interface statistics reads `ifaces`, a rule on
    /// queueing disciplines reads `qdiscs`.
    pub fn select(&self, ifaces: &Vec<IfStats>, qdiscs: &Vec<QdiscStat>) -> (r: Vec<CounterImm>)
        ensures
            imm_views(r@) == rule_samples(
                self@,
                if_stats_views(ifaces@),
                qdisc_stat_views(qdiscs@),
            ),
            self.wf() ==> imms_wf(r@),
    {
        match self {
            CounterRule::Ethtool(rule) => rule.counters(ifaces),
            CounterRule::Qdisc(rule) => rule.counters(qdiscs),
        }
    }
}

/// What was read of the interfaces, or the message of the failure to read
/// them, seen as mathematical values.
pub open spec fn ifaces_outcome(r: Result<Vec<IfStats>, String>) -> Result<
    Seq<(Seq<char>, Seq<(Seq<char>, u64)>)>,
    Seq<char>,
> {
    match r {
        Ok(ifaces) => Ok(if_stats_views(ifaces@)),
        Err(msg) => Err(msg@),
    }
}

/// What was read of the queueing disciplines, or the message of the failure
/// to read them, seen as mathematical values.
pub open spec fn qdiscs_outcome(r: Result<Vec<QdiscStat>, String>) -> Result<
    Seq<QdiscStatView>,
    Seq<char>,
> {
    match r {
        Ok(qdiscs) => Ok(qdisc_stat_views(qdiscs@)),
        Err(msg) => Err(msg@),
    }
}

/// What a rule gives where its counter source may have failed: the samples
/// that it selects from what was read, or the message of the failure of the
/// source that it reads. The failure of the other source does not touch it.
pub open spec fn rule_outcome(
    rule: CounterRuleView,
    ifaces: Result<Seq<(Seq<char>, Seq<(Seq<char>, u64)>)>, Seq<char>>,
    qdiscs: Result<Seq<QdiscStatView>, Seq<char>>,
) -> Result<Seq<CounterImmView>, Seq<char>> {
    match rule {
        CounterRuleView::Ethtool { ifmatches, ctmatches } => match ifaces {
            Ok(read) => Ok(ethtool_samples(ifmatches, ctmatches, read)),
            Err(msg) => Err(msg),
        },
        CounterRuleView::Qdisc { ifmatches, hnmatches, ctmatches } => match qdiscs {
            Ok(read) => Ok(qdisc_samples(ifmatches, hnmatches, ctmatches, read)),
            Err(msg) => Err(msg),
        },
    }
}

/// Samples or a message, seen as mathematical values.
pub open spec fn samples_outcome(r: Result<Vec<CounterImm>, String>) -> Result<
    Seq<CounterImmView>,
    Seq<char>,
> {
    match r {
        Ok(imms) => Ok(imm_views(imms@)),
        Err(msg) => Err(msg@),
    }
}

impl CounterRule {
    /// The samples of the rule in this cycle, from what its counter source
    /// handed over: the samples that it selects from what was read, or the
    /// message of the failure of the source; see [`rule_outcome`].
    pub fn counters(
        &self,
        ifaces: &Result<Vec<IfStats>, String>,
        qdiscs: &Result<Vec<QdiscStat>, String>,
    ) -> (r: Result<Vec<CounterImm>, String>)
        ensures
            samples_outcome(r) == rule_outcome(
                self@,
                ifaces_outcome(*ifaces),
                qdiscs_outcome(*qdiscs),
            ),
            r matches Ok(imms) ==> (self.wf() ==> imms_wf(imms@)),
    {
        match self {
            CounterRule::Ethtool(rule) => match ifaces {
                Ok(read) => Ok(rule.counters(read)),
                Err(msg) => Err(msg.clone()),
            },
            CounterRule::Qdisc(rule) => match qdiscs {
                Ok(read) => Ok(rule.counters(read)),
                Err(msg) => Err(msg.clone()),
            },
        }
    }
}

} // verus!
