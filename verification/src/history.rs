//! The rolling state of the counters that have been seen, and what one
//! polling cycle does to it.

use crate::ct::{
    chain_fits, convert, display_unit, scale_fits, scaled, UFreq, Unit, UnitChain, UnitChainView,
};
use crate::ethtool_ss::IfStats;
use crate::filter::{
    all_keep, apply_filters, copy_filters, some_nonzero, CounterValueFilter, NonZeroCounterFilter,
};
use crate::key::{imm_views, imms_wf, CounterImm, CounterImmView, CounterKey, CounterKeyView};
use crate::netlink::{qdisc_stat_views, QdiscStat, QdiscStatView};
use crate::rule::{
    if_stats_views, ifaces_outcome, qdiscs_outcome, rule_outcome, rule_samples, rule_views,
    rules_wf, CounterRule, CounterRuleView,
};
use crate::value::{
    fits, fixed_div, fixed_from_u64, fixed_mul_int, fixed_sub, one, trunc_div, Value,
};
use vstd::arithmetic::div_mod::lemma_div_multiples_vanish_quotient;
use vstd::prelude::*;

verus! {

/// What is kept of one counter from cycle to cycle.
#[derive(Debug)]
pub struct CounterHistory {
    pub key: CounterKey,
    /// Past samples, the oldest first.
    pub history: Vec<u64>,
    /// The sample of this cycle.
    pub curr: Option<u64>,
    /// The sample of the cycle before.
    pub prev: Option<u64>,
    /// The sample at the first sighting.
    pub base: u64,
    /// The number of cycles since the first sighting.
    pub age: u32,
    pub unit: UnitChain,
    pub filter: Vec<CounterValueFilter>,
}

/// The mathematical value of a [`CounterHistory`].
pub struct CounterHistoryView {
    pub key: CounterKeyView,
    pub history: Seq<u64>,
    pub curr: Option<u64>,
    pub prev: Option<u64>,
    pub base: u64,
    pub age: nat,
    pub unit: UnitChainView,
    pub filter: Seq<CounterValueFilter>,
}

impl View for CounterHistory {
    type V = CounterHistoryView;

    open spec fn view(&self) -> CounterHistoryView {
        CounterHistoryView {
            key: self.key@,
            history: self.history@,
            curr: self.curr,
            prev: self.prev,
            base: self.base,
            age: self.age as nat,
            unit: self.unit@,
            filter: self.filter@,
        }
    }
}

impl CounterHistoryView {
    /// An entry is usable when its key names no head twice and its unit
    /// chain has a unit.
    pub open spec fn wf(self) -> bool {
        self.key.wf() && self.unit.units.len() > 0
    }

    /// The entry at the start of the next cycle: one cycle older, the sample
    /// of the cycle before moved into the past samples, the oldest past
    /// sample dropped once the entry is older than `depth` cycles, and this
    /// cycle's sample become that of the cycle before.
    pub open spec fn aged(self, depth: nat) -> CounterHistoryView {
        let age = self.age + 1;
        let pushed = match self.prev {
            Some(prev) => self.history.push(prev),
            None => self.history,
        };
        let trimmed = if pushed.len() > 0 && age > depth {
            pushed.drop_first()
        } else {
            pushed
        };
        CounterHistoryView { age, history: trimmed, prev: self.curr, curr: None, ..self }
    }

    /// Whether nothing is left of the counter: no past sample and none from
    /// the cycle before.
    pub open spec fn stale(self) -> bool {
        self.history.len() == 0 && self.prev is None
    }

    /// The entry once `value` has been observed in this cycle.
    pub open spec fn observed(self, value: u64) -> CounterHistoryView {
        CounterHistoryView { curr: Some(value), ..self }
    }

    /// The entry of a counter at its first sighting.
    pub open spec fn first_seen(imm: CounterImmView) -> CounterHistoryView {
        CounterHistoryView {
            key: imm.key,
            history: Seq::empty(),
            curr: Some(imm.value),
            prev: None,
            base: imm.value,
            age: 0,
            unit: imm.unit,
            filter: imm.filter,
        }
    }
}

impl CounterHistory {
    /// An entry is usable when its key names no head twice and its unit
    /// chain has a unit.
    pub open spec fn wf(&self) -> bool {
        self@.wf()
    }

    /// The entry of a counter at its first sighting.
    pub fn new(imm: &CounterImm) -> (r: CounterHistory)
        ensures
            r@ == CounterHistoryView::first_seen(imm@),
            imm.wf() ==> r.wf(),
    {
        CounterHistory {
            key: imm.key.duplicate(),
            history: Vec::new(),
            curr: Some(imm.value),
            prev: None,
            base: imm.value,
            age: 0,
            unit: imm.unit.duplicate(),
            filter: copy_filters(&imm.filter),
        }
    }

    /// Moves the entry to the start of the next cycle; see
    /// [`CounterHistoryView::aged`].
    pub fn tick(&mut self, history_depth: u32)
        requires
            old(self).age < u32::MAX,
        ensures
            final(self)@ == old(self)@.aged(history_depth as nat),
            final(self).wf() == old(self).wf(),
    {
        self.age = self.age + 1;
        match self.prev {
            Some(prev) => {
                self.history.push(prev);
            },
            None => {},
        }
        if self.history.len() > 0 && self.age > history_depth {
            self.history.remove(0);
            assert(self.history@ =~= old(self)@.aged(history_depth as nat).history);
        }
        self.prev = self.curr;
        self.curr = None;
    }

    /// Whether the entry is usable.
    pub fn is_wf(&self) -> (r: bool)
        ensures
            r == self.wf(),
    {
        self.key.is_wf() && self.unit.units.len() > 0
    }

    /// Whether nothing is left of the counter.
    pub fn is_stale(&self) -> (r: bool)
        ensures
            r == self@.stale(),
    {
        self.history.len() == 0 && self.prev.is_none()
    }
}

/// The mathematical values of a sequence of entries.
pub open spec fn history_views(s: Seq<CounterHistory>) -> Seq<CounterHistoryView> {
    Seq::new(s.len(), |i: int| s[i]@)
}

/// Whether every entry of a sequence is usable.
pub open spec fn histories_wf(s: Seq<CounterHistory>) -> bool {
    forall|i: int| 0 <= i < s.len() ==> (#[trigger] s[i]).wf()
}

/// Whether every entry of a sequence can grow one cycle older.
pub open spec fn can_age(s: Seq<CounterHistory>) -> bool {
    forall|i: int| 0 <= i < s.len() ==> (#[trigger] s[i]).age < u32::MAX
}

/// Every entry at the start of the next cycle.
pub open spec fn aged_all(s: Seq<CounterHistoryView>, depth: nat) -> Seq<CounterHistoryView> {
    Seq::new(s.len(), |i: int| s[i].aged(depth))
}

/// The entries of which something is left, in their order.
pub open spec fn surviving(s: Seq<CounterHistoryView>) -> Seq<CounterHistoryView>
    decreases s.len(),
{
    if s.len() == 0 {
        Seq::empty()
    } else if s.last().stale() {
        surviving(s.drop_last())
    } else {
        surviving(s.drop_last()).push(s.last())
    }
}

/// The position of the first entry with the key `key`.
pub open spec fn key_position(s: Seq<CounterHistoryView>, from: int, key: CounterKeyView) -> Option<
    int,
>
    decreases s.len() - from,
{
    if from < 0 || from >= s.len() {
        None
    } else if s[from].key == key {
        Some(from)
    } else {
        key_position(s, from + 1, key)
    }
}

/// The entries once one sample has been taken in: the first entry with the
/// sample's key has it as this cycle's sample, or, where there is none, an
/// entry for a counter at its first sighting follows the others.
pub open spec fn taken_in(s: Seq<CounterHistoryView>, imm: CounterImmView) -> Seq<
    CounterHistoryView,
> {
    match key_position(s, 0, imm.key) {
        Some(at) => s.update(at, s[at].observed(imm.value)),
        None => s.push(CounterHistoryView::first_seen(imm)),
    }
}

/// The entries once the samples from position `from` on have been taken in,
/// one after the other.
pub open spec fn merged(s: Seq<CounterHistoryView>, imms: Seq<CounterImmView>, from: int) -> Seq<
    CounterHistoryView,
>
    decreases imms.len() - from,
{
    if from < 0 || from >= imms.len() {
        s
    } else {
        merged(taken_in(s, imms[from]), imms, from + 1)
    }
}

/// Step one of a cycle: moves every entry to the start of the next cycle.
pub fn age_and_trim(state: &mut Vec<CounterHistory>, history_depth: u32)
    requires
        can_age(old(state)@),
    ensures
        history_views(final(state)@) == aged_all(
            history_views(old(state)@),
            history_depth as nat,
        ),
        histories_wf(old(state)@) ==> histories_wf(final(state)@),
{
    let mut i: usize = 0;
    while i < state.len()
        invariant
            i <= state.len(),
            state.len() == old(state).len(),
            forall|k: int|
                0 <= k < i ==> (#[trigger] state@[k])@ == old(state)@[k]@.aged(
                    history_depth as nat,
                ),
            forall|k: int| i <= k < state.len() ==> #[trigger] state@[k] == old(state)@[k],
            can_age(old(state)@),
            histories_wf(old(state)@) ==> histories_wf(state@),
        decreases state.len() - i,
    {
        let ghost before = state@;
        assert(before[i as int] == old(state)@[i as int]);
        state[i].tick(history_depth);
        assert forall|k: int| 0 <= k < i + 1 implies (#[trigger] state@[k])@ == old(
            state,
        )@[k]@.aged(history_depth as nat) by {
            if k < i {
                assert(state@[k] == before[k]);
            }
        }
        assert forall|k: int| i + 1 <= k < state.len() implies #[trigger] state@[k] == old(
            state,
        )@[k] by {
            assert(state@[k] == before[k]);
        }
        assert(histories_wf(old(state)@) ==> histories_wf(state@)) by {
            if histories_wf(old(state)@) {
                assert forall|k: int| 0 <= k < state.len() implies (#[trigger] state@[k]).wf() by {
                    if k != i {
                        assert(state@[k] == before[k]);
                        assert(before[k].wf());
                    } else {
                        assert(before[i as int].wf());
                    }
                }
            }
        }
        i += 1;
    }
    assert(history_views(state@) =~= aged_all(history_views(old(state)@), history_depth as nat));
}

/// Step two of a cycle: drops the entries of which nothing is left.
pub fn evict(state: &mut Vec<CounterHistory>)
    ensures
        history_views(final(state)@) == surviving(history_views(old(state)@)),
        histories_wf(old(state)@) ==> histories_wf(final(state)@),
{
    let ghost orig = history_views(old(state)@);
    let ghost mut k: int = 0;
    let mut i: usize = 0;
    proof {
        assert(orig.take(0) =~= Seq::<CounterHistoryView>::empty());
        assert(history_views(state@) =~= surviving(orig.take(0)) + orig.skip(0));
    }
    while i < state.len()
        invariant
            i <= state.len(),
            0 <= k <= orig.len(),
            state.len() - i == orig.len() - k,
            history_views(state@) == surviving(orig.take(k)) + orig.skip(k),
            surviving(orig.take(k)).len() == i,
            histories_wf(old(state)@) ==> histories_wf(state@),
        decreases state.len() - i,
    {
        let ghost before = state@;
        proof {
            assert(orig.take(k + 1).drop_last() =~= orig.take(k));
            assert(orig.take(k + 1).last() == orig[k]);
            assert(history_views(before)[i as int] == orig.skip(k)[0]);
        }
        if state[i].is_stale() {
            state.remove(i);
            proof {
                let ghost kept = surviving(orig.take(k + 1)) + orig.skip(k + 1);
                assert(history_views(state@) =~= kept) by {
                    assert forall|j: int| 0 <= j < state@.len() implies history_views(
                        state@,
                    )[j] == kept[j] by {
                        if j < i {
                            assert(state@[j] == before[j]);
                            assert(history_views(before)[j] == surviving(orig.take(k))[j]);
                        } else {
                            assert(state@[j] == before[j + 1]);
                            assert(history_views(before)[j + 1] == orig.skip(k)[j + 1 - i]);
                        }
                    }
                }
                assert(histories_wf(old(state)@) ==> histories_wf(state@)) by {
                    if histories_wf(old(state)@) {
                        assert forall|j: int| 0 <= j < state@.len() implies (
                        #[trigger] state@[j]).wf() by {
                            if j < i {
                                assert(state@[j] == before[j]);
                                assert(before[j].wf());
                            } else {
                                assert(state@[j] == before[j + 1]);
                                assert(before[j + 1].wf());
                            }
                        }
                    }
                }
            }
        } else {
            proof {
                let ghost kept = surviving(orig.take(k + 1)) + orig.skip(k + 1);
                assert(history_views(state@) =~= kept) by {
                    assert forall|j: int| 0 <= j < state@.len() implies history_views(
                        state@,
                    )[j] == kept[j] by {
                        if j < i {
                            assert(history_views(before)[j] == surviving(orig.take(k))[j]);
                        } else {
                            assert(history_views(before)[j] == orig.skip(k)[j - i]);
                        }
                    }
                }
            }
            i += 1;
        }
        proof {
            k = k + 1;
        }
    }
    proof {
        assert(orig.take(k) =~= orig);
        assert(surviving(orig) + orig.skip(k) =~= surviving(orig));
    }
}

/// Takes one sample in: the first entry with the sample's key gets it as
/// this cycle's sample; where there is none, an entry for a counter at its
/// first sighting is added behind the others.
pub fn take_in(state: &mut Vec<CounterHistory>, imm: &CounterImm)
    ensures
        history_views(final(state)@) == taken_in(history_views(old(state)@), imm@),
        histories_wf(old(state)@) && imm.wf() ==> histories_wf(final(state)@),
{
    let ghost views = history_views(state@);
    let mut i: usize = 0;
    while i < state.len()
        invariant
            i <= state.len(),
            state@ == old(state)@,
            views == history_views(state@),
            key_position(views, 0, imm@.key) == key_position(views, i as int, imm@.key),
        decreases state.len() - i,
    {
        assert(views[i as int] == state@[i as int]@);
        if state[i].key.same(&imm.key) {
            let ghost before = state@;
            state[i].curr = Some(imm.value);
            proof {
                assert(history_views(state@) =~= views.update(
                    i as int,
                    views[i as int].observed(imm.value),
                )) by {
                    assert forall|j: int| 0 <= j < state@.len() implies history_views(state@)[j]
                        == views.update(i as int, views[i as int].observed(imm.value))[j] by {
                        if j != i {
                            assert(state@[j] == before[j]);
                            assert(views[j] == before[j]@);
                        }
                    }
                }
                assert(histories_wf(old(state)@) ==> histories_wf(state@)) by {
                    if histories_wf(old(state)@) {
                        assert forall|j: int| 0 <= j < state@.len() implies (
                        #[trigger] state@[j]).wf() by {
                            assert(before[j].wf());
                            if j != i {
                                assert(state@[j] == before[j]);
                            }
                        }
                    }
                }
            }
            return ;
        }
        i += 1;
    }
    let ghost before = state@;
    state.push(CounterHistory::new(imm));
    proof {
        assert(history_views(state@) =~= views.push(CounterHistoryView::first_seen(imm@)));
        assert(histories_wf(old(state)@) && imm.wf() ==> histories_wf(state@)) by {
            if histories_wf(old(state)@) && imm.wf() {
                assert forall|j: int| 0 <= j < state@.len() implies (#[trigger] state@[j]).wf() by {
                    if j < before.len() {
                        assert(state@[j] == before[j]);
                        assert(before[j].wf());
                    }
                }
            }
        }
    }
}

/// Step three of a cycle, for the samples of one rule: takes them in, one
/// after the other.
pub fn merge(state: &mut Vec<CounterHistory>, imms: &Vec<CounterImm>)
    ensures
        history_views(final(state)@) == merged(history_views(old(state)@), imm_views(imms@), 0),
        histories_wf(old(state)@) && imms_wf(imms@) ==> histories_wf(final(state)@),
{
    let mut i: usize = 0;
    while i < imms.len()
        invariant
            i <= imms.len(),
            merged(history_views(old(state)@), imm_views(imms@), 0) == merged(
                history_views(state@),
                imm_views(imms@),
                i as int,
            ),
            histories_wf(old(state)@) && imms_wf(imms@) ==> histories_wf(state@),
        decreases imms.len() - i,
    {
        assert(imm_views(imms@)[i as int] == imms@[i as int]@);
        assert(imms_wf(imms@) ==> imms@[i as int].wf());
        take_in(state, &imms[i]);
        i += 1;
    }
}

/// The cadence of the polling: the length of a cycle and the window of the
/// average.
#[derive(Clone, Copy, Debug, PartialEq, Eq, Structural)]
pub struct Timing {
    /// The length of one cycle, in milliseconds.
    pub cycle_ms: u32,
    /// The window of the average, in seconds.
    pub avg_s: u32,
}

impl Timing {
    /// The number of past samples kept for each counter: as many cycles as
    /// fit into the window of the average.
    pub open spec fn depth(self) -> nat
        recommends
            self.cycle_ms > 0,
    {
        (1000 * self.avg_s / (self.cycle_ms as int)) as nat
    }

    /// A timing is usable when the cycle has a length, the history depth
    /// can be computed, and at least two cycles fit into the window.
    pub open spec fn wf(self) -> bool {
        &&& self.cycle_ms > 0
        &&& 1000 * self.avg_s <= u32::MAX
        &&& self.depth() >= 2
    }

    /// A timing with these lengths, if it is a usable one.
    pub fn new(cycle_ms: u32, avg_s: u32) -> (r: Option<Timing>)
        ensures
            r == if (Timing { cycle_ms, avg_s }).wf() {
                Some(Timing { cycle_ms, avg_s })
            } else {
                None
            },
    {
        if cycle_ms == 0 || avg_s > u32::MAX / 1000 {
            return None;
        }
        if 1000 * avg_s / cycle_ms < 2 {
            return None;
        }
        Some(Timing { cycle_ms, avg_s })
    }

    /// The number of past samples kept for each counter.
    pub fn history_depth(&self) -> (r: u32)
        requires
            self.wf(),
        ensures
            r == self.depth(),
            r >= 2,
    {
        1000 * self.avg_s / self.cycle_ms
    }
}

/// The raw bits of a whole number as a fixed-point value.
pub open spec fn raw(v: int) -> int {
    v * one()
}

/// The raw bits of the value that an entry shows, before its unit chain is
/// applied.
///
/// As it is: this cycle's sample. As a delta: this cycle's sample less the
/// first one. Per second: the change since the cycle before, times a
/// thousand, divided by the length of the cycle in milliseconds and rounded
/// toward zero. There is no value without a sample of this cycle, nor a rate
/// without one of the cycle before.
pub open spec fn spot(h: CounterHistoryView, timing: Timing) -> Option<int> {
    match h.unit.freq {
        UFreq::AsIs => match h.curr {
            Some(curr) => Some(raw(curr as int)),
            None => None,
        },
        UFreq::Delta => match h.curr {
            Some(curr) => Some(raw(curr - h.base)),
            None => None,
        },
        UFreq::PerSecond => match (h.prev, h.curr) {
            (Some(prev), Some(curr)) => Some(
                trunc_div(raw(curr - prev) * 1000, timing.cycle_ms as int),
            ),
            _ => None,
        },
    }
}

/// The raw bits of the average that an entry shows, before its unit chain is
/// applied: for a rate, the change since the oldest past sample divided by
/// the window in seconds and rounded toward zero. There is no average until
/// the past samples number one less than the history depth, nor without a
/// sample of this cycle.
pub open spec fn mean(h: CounterHistoryView, timing: Timing) -> Option<int> {
    if h.unit.freq == UFreq::PerSecond && h.history.len() + 1 >= timing.depth() && h.history.len()
        > 0 {
        match h.curr {
            Some(curr) => Some(trunc_div(raw(curr - h.history[0]), timing.avg_s as int)),
            None => None,
        }
    } else {
        None
    }
}

/// Raw bits, if there are any, as a value.
pub open spec fn as_value(bits: Option<int>) -> Option<Value> {
    match bits {
        Some(b) => Some(Value { bits: b as i128 }),
        None => None,
    }
}

/// Whether the value and the average of an entry can be computed without
/// leaving the range of a fixed-point value: the thousandfold of a change
/// fits, and so does every step of the unit chain.
pub open spec fn derivable(h: CounterHistoryView, timing: Timing) -> bool {
    &&& (h.unit.freq == UFreq::PerSecond && h.prev is Some && h.curr is Some ==> fits(
        raw(h.curr->0 - h.prev->0) * 1000,
    ))
    &&& scale_fits(h.unit.units, as_value(spot(h, timing)))
    &&& scale_fits(h.unit.units, as_value(mean(h, timing)))
}

/// One counter as it is to be shown in this cycle.
#[derive(Debug)]
pub struct CounterLine {
    pub key: CounterKey,
    pub value: Option<Value>,
    pub avg: Option<Value>,
    pub freq: UFreq,
    pub unit: Unit,
    pub filter: Vec<CounterValueFilter>,
}

/// The mathematical value of a [`CounterLine`].
pub struct CounterLineView {
    pub key: CounterKeyView,
    pub value: Option<Value>,
    pub avg: Option<Value>,
    pub freq: UFreq,
    pub unit: Unit,
    pub filter: Seq<CounterValueFilter>,
}

impl View for CounterLine {
    type V = CounterLineView;

    open spec fn view(&self) -> CounterLineView {
        CounterLineView {
            key: self.key@,
            value: self.value,
            avg: self.avg,
            freq: self.freq,
            unit: self.unit,
            filter: self.filter@,
        }
    }
}

/// The line that an entry gives: its value and its average with the unit
/// chain applied, and the unit in which they are shown.
pub open spec fn line_of(h: CounterHistoryView, timing: Timing) -> CounterLineView {
    CounterLineView {
        key: h.key,
        value: scaled(h.unit.units, as_value(spot(h, timing))),
        avg: scaled(h.unit.units, as_value(mean(h, timing))),
        freq: h.unit.freq,
        unit: display_unit(h.unit.units),
        filter: h.filter,
    }
}

/// A common factor of dividend and divisor leaves the rounded quotient as
/// it is.
proof fn lemma_trunc_div_cancel(a: int, b: int, k: int)
    requires
        b > 0,
        k > 0,
    ensures
        b * k > 0,
        trunc_div(a * k, b * k) == trunc_div(a, b),
{
    assert(b * k > 0) by (nonlinear_arith)
        requires
            b > 0,
            k > 0,
    ;
    assert(k * b == b * k) by (nonlinear_arith);
    if a >= 0 {
        assert(a * k >= 0) by (nonlinear_arith)
            requires
                a >= 0,
                k > 0,
        ;
        assert(k * a == a * k) by (nonlinear_arith);
        lemma_div_multiples_vanish_quotient(k, a, b);
    } else {
        assert(a * k < 0) by (nonlinear_arith)
            requires
                a < 0,
                k > 0,
        ;
        assert(-(a * k) == k * (-a)) by (nonlinear_arith);
        lemma_div_multiples_vanish_quotient(k, -a, b);
    }
}

/// A quotient rounded toward zero is no further from zero than the
/// dividend.
proof fn lemma_trunc_div_bound(a: int, b: int)
    requires
        b > 0,
    ensures
        a >= 0 ==> 0 <= trunc_div(a, b) <= a,
        a <= 0 ==> a <= trunc_div(a, b) <= 0,
{
    if a >= 0 {
        assert(0 <= a / b <= a) by (nonlinear_arith)
            requires
                a >= 0,
                b > 0,
        ;
    } else {
        assert(0 <= (-a) / b <= -a) by (nonlinear_arith)
            requires
                -a >= 0,
                b > 0,
        ;
    }
}

fn spot_value(entry: &CounterHistory, timing: Timing) -> (r: Option<Value>)
    requires
        timing.wf(),
        entry@.unit.freq == UFreq::PerSecond && entry.prev is Some && entry.curr is Some ==> fits(
            raw(entry.curr->0 - entry.prev->0) * 1000,
        ),
    ensures
        r == as_value(spot(entry@, timing)),
{
    match entry.unit.freq {
        UFreq::AsIs => match entry.curr {
            Some(curr) => Some(fixed_from_u64(curr)),
            None => None,
        },
        UFreq::Delta => match entry.curr {
            Some(curr) => {
                assert(raw(curr - entry.base) == curr * one() - entry.base * one())
                    by (nonlinear_arith);
                Some(fixed_sub(fixed_from_u64(curr), fixed_from_u64(entry.base)))
            },
            None => None,
        },
        UFreq::PerSecond => match (entry.prev, entry.curr) {
            (Some(prev), Some(curr)) => {
                assert(raw(curr - prev) == curr * one() - prev * one()) by (nonlinear_arith);
                let change = fixed_sub(fixed_from_u64(curr), fixed_from_u64(prev));
                let thousandfold = fixed_mul_int(change, 1000);
                let period = fixed_from_u64(timing.cycle_ms as u64);
                proof {
                    lemma_trunc_div_cancel(
                        thousandfold.bits as int,
                        timing.cycle_ms as int,
                        one(),
                    );
                    lemma_trunc_div_bound(thousandfold.bits as int, timing.cycle_ms as int);
                }
                Some(fixed_div(thousandfold, period))
            },
            _ => None,
        },
    }
}

fn mean_value(entry: &CounterHistory, timing: Timing) -> (r: Option<Value>)
    requires
        timing.wf(),
    ensures
        r == as_value(mean(entry@, timing)),
{
    let depth = timing.history_depth();
    if entry.unit.freq == UFreq::PerSecond && entry.history.len() >= (depth - 1) as usize {
        match entry.curr {
            Some(curr) => {
                let oldest = entry.history[0];
                assert(raw(curr - oldest) == curr * one() - oldest * one()) by (nonlinear_arith);
                let change = fixed_sub(fixed_from_u64(curr), fixed_from_u64(oldest));
                let window = fixed_from_u64(timing.avg_s as u64);
                proof {
                    assert(timing.avg_s > 0);
                    lemma_trunc_div_cancel(change.bits as int, timing.avg_s as int, one());
                    lemma_trunc_div_bound(change.bits as int, timing.avg_s as int);
                }
                Some(fixed_div(change, window))
            },
            None => None,
        }
    } else {
        None
    }
}

/// Step four of a cycle, for one entry: its value and its average, with the
/// unit chain applied; see [`line_of`].
pub fn derive_line(entry: &CounterHistory, timing: Timing) -> (r: CounterLine)
    requires
        timing.wf(),
        entry.wf(),
        derivable(entry@, timing),
    ensures
        r@ == line_of(entry@, timing),
{
    let value = spot_value(entry, timing);
    let avg = mean_value(entry, timing);
    let (value, avg, unit) = convert(&entry.unit, value, avg);
    CounterLine {
        key: entry.key.duplicate(),
        value,
        avg,
        freq: entry.unit.freq,
        unit,
        filter: copy_filters(&entry.filter),
    }
}

/// The raw bits of the number one.
const ONE: i128 = 0x8000_0000_0000_0000;

/// Whether the value and the average of an entry can be computed without
/// leaving the range of a fixed-point value.
pub fn can_derive(entry: &CounterHistory, timing: Timing) -> (r: bool)
    requires
        timing.wf(),
    ensures
        r == derivable(entry@, timing),
{
    let spot_ok = match entry.unit.freq {
        UFreq::AsIs => match entry.curr {
            Some(curr) => chain_fits(&entry.unit, (curr as i128) * ONE),
            None => true,
        },
        UFreq::Delta => match entry.curr {
            Some(curr) => chain_fits(&entry.unit,
                ((curr as i128) - (entry.base as i128)) * ONE,
            ),
            None => true,
        },
        UFreq::PerSecond => match (entry.prev, entry.curr) {
            (Some(prev), Some(curr)) => {
                let change: i128 = ((curr as i128) - (prev as i128)) * ONE;
                if change > i128::MAX / 1000 || change < -(i128::MAX / 1000) {
                    false
                } else {
                    chain_fits(&entry.unit, (change * 1000) / (timing.cycle_ms as i128))
                }
            },
            _ => true,
        },
    };
    let depth = timing.history_depth();
    let mean_ok = if entry.unit.freq == UFreq::PerSecond && entry.history.len() >= (depth
        - 1) as usize {
        match entry.curr {
            Some(curr) => {
                let change: i128 = ((curr as i128) - (entry.history[0] as i128)) * ONE;
                proof {
                    lemma_trunc_div_bound(change as int, timing.avg_s as int);
                }
                chain_fits(&entry.unit, change / (timing.avg_s as i128))
            },
            None => true,
        }
    } else {
        true
    };
    spot_ok && mean_ok
}

/// Whether every entry of a sequence can be derived.
pub open spec fn all_derivable(s: Seq<CounterHistory>, timing: Timing) -> bool {
    forall|i: int| 0 <= i < s.len() ==> derivable((#[trigger] s[i])@, timing)
}

/// Whether a line is shown: every filter of the line keeps it, and so does
/// the filter on lines without anything but zero, where that one is on.
pub open spec fn shown(line: CounterLineView, non0: bool) -> bool {
    all_keep(line.filter, line.value, line.avg) && (non0 ==> some_nonzero(line.value, line.avg))
}

/// The lines that the entries give and the filters keep, in the order of
/// the entries.
pub open spec fn shown_lines(s: Seq<CounterHistoryView>, timing: Timing, non0: bool) -> Seq<
    CounterLineView,
>
    decreases s.len(),
{
    if s.len() == 0 {
        Seq::empty()
    } else if shown(line_of(s.last(), timing), non0) {
        shown_lines(s.drop_last(), timing, non0).push(line_of(s.last(), timing))
    } else {
        shown_lines(s.drop_last(), timing, non0)
    }
}

/// The mathematical values of a sequence of lines.
pub open spec fn line_views(s: Seq<CounterLine>) -> Seq<CounterLineView> {
    Seq::new(s.len(), |i: int| s[i]@)
}

/// Step five of a cycle, for one line: whether the filters keep it.
pub fn is_shown(line: &CounterLine, non0: bool) -> (r: bool)
    ensures
        r == shown(line@, non0),
{
    if !apply_filters(&line.filter, &line.value, &line.avg) {
        return false;
    }
    if non0 {
        (NonZeroCounterFilter {}).do_filter(&line.value, &line.avg)
    } else {
        true
    }
}

/// Steps four and five of a cycle: the lines to show, one for each entry
/// that the filters keep, in the order of the entries.
pub fn lines(state: &Vec<CounterHistory>, timing: Timing, non0: bool) -> (r: Vec<CounterLine>)
    requires
        timing.wf(),
        histories_wf(state@),
        all_derivable(state@, timing),
    ensures
        line_views(r@) == shown_lines(history_views(state@), timing, non0),
{
    let ghost views = history_views(state@);
    let mut ret: Vec<CounterLine> = Vec::new();
    let mut i: usize = 0;
    assert(line_views(ret@) =~= shown_lines(views.take(0), timing, non0));
    while i < state.len()
        invariant
            i <= state.len(),
            timing.wf(),
            histories_wf(state@),
            all_derivable(state@, timing),
            views == history_views(state@),
            line_views(ret@) == shown_lines(views.take(i as int), timing, non0),
        decreases state.len() - i,
    {
        proof {
            assert(views.take(i + 1).drop_last() =~= views.take(i as int));
            assert(views.take(i + 1).last() == state@[i as int]@);
            assert(state@[i as int].wf());
        }
        let line = derive_line(&state[i], timing);
        if is_shown(&line, non0) {
            let ghost before = ret@;
            let ghost line_view = line@;
            ret.push(line);
            assert(line_views(ret@) =~= line_views(before).push(line_view));
        }
        i += 1;
    }
    assert(views.take(state.len() as int) =~= views);
    ret
}

/// The entries once the samples of the rules from position `from` on have
/// been taken in, rule after rule.
pub open spec fn polled(
    s: Seq<CounterHistoryView>,
    rules: Seq<CounterRuleView>,
    ifaces: Seq<(Seq<char>, Seq<(Seq<char>, u64)>)>,
    qdiscs: Seq<QdiscStatView>,
    from: int,
) -> Seq<CounterHistoryView>
    decreases rules.len() - from,
{
    if from < 0 || from >= rules.len() {
        s
    } else {
        polled(
            merged(s, rule_samples(rules[from], ifaces, qdiscs), 0),
            rules,
            ifaces,
            qdiscs,
            from + 1,
        )
    }
}

/// Step three of a cycle: takes in what each rule selects from what the
/// counter sources report, rule after rule.
pub fn poll(
    state: &mut Vec<CounterHistory>,
    rules: &Vec<CounterRule>,
    ifaces: &Vec<IfStats>,
    qdiscs: &Vec<QdiscStat>,
)
    ensures
        history_views(final(state)@) == polled(
            history_views(old(state)@),
            rule_views(rules@),
            if_stats_views(ifaces@),
            qdisc_stat_views(qdiscs@),
            0,
        ),
        histories_wf(old(state)@) && rules_wf(rules@) ==> histories_wf(final(state)@),
{
    let ghost rv = rule_views(rules@);
    let ghost iv = if_stats_views(ifaces@);
    let ghost qv = qdisc_stat_views(qdiscs@);
    let mut i: usize = 0;
    while i < rules.len()
        invariant
            i <= rules.len(),
            rv == rule_views(rules@),
            iv == if_stats_views(ifaces@),
            qv == qdisc_stat_views(qdiscs@),
            polled(history_views(old(state)@), rv, iv, qv, 0) == polled(
                history_views(state@),
                rv,
                iv,
                qv,
                i as int,
            ),
            histories_wf(old(state)@) && rules_wf(rules@) ==> histories_wf(state@),
        decreases rules.len() - i,
    {
        assert(rv[i as int] == rules@[i as int]@);
        assert(rules_wf(rules@) ==> rules@[i as int].wf());
        let imms = rules[i].select(ifaces, qdiscs);
        merge(state, &imms);
        i += 1;
    }
}

/// The entries after steps one to three of a cycle: aged, the stale ones
/// dropped, and what the rules select taken in.
pub open spec fn cycled(
    s: Seq<CounterHistoryView>,
    depth: nat,
    rules: Seq<CounterRuleView>,
    ifaces: Seq<(Seq<char>, Seq<(Seq<char>, u64)>)>,
    qdiscs: Seq<QdiscStatView>,
) -> Seq<CounterHistoryView> {
    polled(surviving(aged_all(s, depth)), rules, ifaces, qdiscs, 0)
}

/// Steps one to three of a cycle: ages the entries, drops the stale ones,
/// and takes in what the rules select from what the counter sources report.
pub fn cycle(
    state: &mut Vec<CounterHistory>,
    timing: Timing,
    rules: &Vec<CounterRule>,
    ifaces: &Vec<IfStats>,
    qdiscs: &Vec<QdiscStat>,
)
    requires
        timing.wf(),
        can_age(old(state)@),
    ensures
        history_views(final(state)@) == cycled(
            history_views(old(state)@),
            timing.depth(),
            rule_views(rules@),
            if_stats_views(ifaces@),
            qdisc_stat_views(qdiscs@),
        ),
        histories_wf(old(state)@) && rules_wf(rules@) ==> histories_wf(final(state)@),
{
    age_and_trim(state, timing.history_depth());
    evict(state);
    poll(state, rules, ifaces, qdiscs);
}

/// The entries once the rules from position `from` on have been polled,
/// where a counter source may have failed: rule after rule, up to the first
/// rule whose source failed, and the message of that failure.
pub open spec fn polled_until(
    s: Seq<CounterHistoryView>,
    rules: Seq<CounterRuleView>,
    ifaces: Result<Seq<(Seq<char>, Seq<(Seq<char>, u64)>)>, Seq<char>>,
    qdiscs: Result<Seq<QdiscStatView>, Seq<char>>,
    from: int,
) -> (Seq<CounterHistoryView>, Option<Seq<char>>)
    decreases rules.len() - from,
{
    if from < 0 || from >= rules.len() {
        (s, None)
    } else {
        match rule_outcome(rules[from], ifaces, qdiscs) {
            Err(msg) => (s, Some(msg)),
            Ok(samples) => polled_until(merged(s, samples, 0), rules, ifaces, qdiscs, from + 1),
        }
    }
}

/// The message of a failure, if there was one, seen as a mathematical
/// value.
pub open spec fn failure_of(r: Result<(), String>) -> Option<Seq<char>> {
    match r {
        Ok(_) => None,
        Err(msg) => Some(msg@),
    }
}

/// Step three of a cycle, where a counter source may have failed: takes in
/// what each rule selects, rule after rule, and stops at the first rule
/// whose source failed, with the message of the failure.
pub fn try_poll(
    state: &mut Vec<CounterHistory>,
    rules: &Vec<CounterRule>,
    ifaces: &Result<Vec<IfStats>, String>,
    qdiscs: &Result<Vec<QdiscStat>, String>,
) -> (r: Result<(), String>)
    ensures
        (history_views(final(state)@), failure_of(r)) == polled_until(
            history_views(old(state)@),
            rule_views(rules@),
            ifaces_outcome(*ifaces),
            qdiscs_outcome(*qdiscs),
            0,
        ),
        histories_wf(old(state)@) && rules_wf(rules@) ==> histories_wf(final(state)@),
{
    let ghost rv = rule_views(rules@);
    let ghost iv = ifaces_outcome(*ifaces);
    let ghost qv = qdiscs_outcome(*qdiscs);
    let mut i: usize = 0;
    while i < rules.len()
        invariant
            i <= rules.len(),
            rv == rule_views(rules@),
            iv == ifaces_outcome(*ifaces),
            qv == qdiscs_outcome(*qdiscs),
            polled_until(history_views(old(state)@), rv, iv, qv, 0) == polled_until(
                history_views(state@),
                rv,
                iv,
                qv,
                i as int,
            ),
            histories_wf(old(state)@) && rules_wf(rules@) ==> histories_wf(state@),
        decreases rules.len() - i,
    {
        assert(rv[i as int] == rules@[i as int]@);
        assert(rules_wf(rules@) ==> rules@[i as int].wf());
        match rules[i].counters(ifaces, qdiscs) {
            Ok(imms) => {
                merge(state, &imms);
            },
            Err(msg) => {
                return Err(msg);
            },
        }
        i += 1;
    }
    Ok(())
}

/// Where both counter sources were read, polling with their outcomes is
/// polling with what was read, and nothing fails.
pub proof fn lemma_polled_until_read(
    s: Seq<CounterHistoryView>,
    rules: Seq<CounterRuleView>,
    ifaces: Seq<(Seq<char>, Seq<(Seq<char>, u64)>)>,
    qdiscs: Seq<QdiscStatView>,
    from: int,
)
    ensures
        polled_until(s, rules, Ok(ifaces), Ok(qdiscs), from) == (
            polled(s, rules, ifaces, qdiscs, from),
            None::<Seq<char>>,
        ),
    decreases rules.len() - from,
{
    if 0 <= from < rules.len() {
        lemma_polled_until_read(
            merged(s, rule_samples(rules[from], ifaces, qdiscs), 0),
            rules,
            ifaces,
            qdiscs,
            from + 1,
        );
    }
}

/// Steps one to three of a cycle, where a counter source may have failed:
/// ages the entries, drops the stale ones, and polls the rules up to the
/// first whose source failed.
pub fn try_cycle(
    state: &mut Vec<CounterHistory>,
    timing: Timing,
    rules: &Vec<CounterRule>,
    ifaces: &Result<Vec<IfStats>, String>,
    qdiscs: &Result<Vec<QdiscStat>, String>,
) -> (r: Result<(), String>)
    requires
        timing.wf(),
        can_age(old(state)@),
    ensures
        (history_views(final(state)@), failure_of(r)) == polled_until(
            surviving(aged_all(history_views(old(state)@), timing.depth())),
            rule_views(rules@),
            ifaces_outcome(*ifaces),
            qdiscs_outcome(*qdiscs),
            0,
        ),
        histories_wf(old(state)@) && rules_wf(rules@) ==> histories_wf(final(state)@),
{
    age_and_trim(state, timing.history_depth());
    evict(state);
    try_poll(state, rules, ifaces, qdiscs)
}

/// Whether every entry can grow one cycle older.
pub fn ages_fit(state: &Vec<CounterHistory>) -> (r: bool)
    ensures
        r == can_age(state@),
{
    let mut i: usize = 0;
    while i < state.len()
        invariant
            i <= state.len(),
            forall|k: int| 0 <= k < i ==> (#[trigger] state@[k]).age < u32::MAX,
        decreases state.len() - i,
    {
        if state[i].age == u32::MAX {
            return false;
        }
        i += 1;
    }
    true
}

/// Whether every entry is usable.
pub fn all_wf(state: &Vec<CounterHistory>) -> (r: bool)
    ensures
        r == histories_wf(state@),
{
    let mut i: usize = 0;
    while i < state.len()
        invariant
            i <= state.len(),
            forall|k: int| 0 <= k < i ==> (#[trigger] state@[k]).wf(),
        decreases state.len() - i,
    {
        if !state[i].is_wf() {
            return false;
        }
        i += 1;
    }
    true
}

/// Whether every entry can be derived.
pub fn all_can_derive(state: &Vec<CounterHistory>, timing: Timing) -> (r: bool)
    requires
        timing.wf(),
    ensures
        r == all_derivable(state@, timing),
{
    let mut i: usize = 0;
    while i < state.len()
        invariant
            i <= state.len(),
            timing.wf(),
            forall|k: int| 0 <= k < i ==> derivable((#[trigger] state@[k])@, timing),
        decreases state.len() - i,
    {
        if !can_derive(&state[i], timing) {
            return false;
        }
        i += 1;
    }
    true
}

/// An entry after it has been seen again in each of a number of cycles, with
/// the given samples.
pub open spec fn seen_again(
    h: CounterHistoryView,
    depth: nat,
    values: Seq<u64>,
) -> CounterHistoryView
    decreases values.len(),
{
    if values.len() == 0 {
        h
    } else {
        seen_again(h, depth, values.drop_last()).aged(depth).observed(values.last())
    }
}

/// An entry at the start of a cycle, after a number of cycles in which it
/// has not been seen.
pub open spec fn unseen(h: CounterHistoryView, depth: nat, cycles: nat) -> CounterHistoryView
    decreases cycles,
{
    if cycles == 0 {
        h
    } else {
        unseen(h, depth, (cycles - 1) as nat).aged(depth)
    }
}

proof fn lemma_seen_again(imm: CounterImmView, depth: nat, values: Seq<u64>)
    requires
        values.len() <= depth,
    ensures
        ({
            let h = seen_again(CounterHistoryView::first_seen(imm), depth, values);
            &&& h.age == values.len()
            &&& h.curr is Some
            &&& (values.len() == 0 ==> h.prev is None && h.history.len() == 0)
            &&& (values.len() > 0 ==> h.prev is Some && h.history.len() == values.len() - 1)
        }),
    decreases values.len(),
{
    if values.len() > 0 {
        lemma_seen_again(imm, depth, values.drop_last());
    }
}

proof fn lemma_unseen(imm: CounterImmView, depth: nat, values: Seq<u64>, cycles: nat)
    requires
        depth >= 1,
        values.len() == depth,
        1 <= cycles <= depth + 1,
    ensures
        ({
            let h = unseen(
                seen_again(CounterHistoryView::first_seen(imm), depth, values),
                depth,
                cycles,
            );
            &&& h.age == depth + cycles
            &&& h.curr is None
            &&& (cycles == 1 ==> h.prev is Some && h.history.len() == depth - 1)
            &&& (cycles >= 2 ==> h.prev is None && h.history.len() == depth + 1 - cycles)
        }),
    decreases cycles,
{
    lemma_seen_again(imm, depth, values);
    if cycles > 1 {
        lemma_unseen(imm, depth, values, (cycles - 1) as nat);
    } else {
        assert(unseen(
            seen_again(CounterHistoryView::first_seen(imm), depth, values),
            depth,
            0,
        ) == seen_again(CounterHistoryView::first_seen(imm), depth, values));
    }
}

/// How long a counter that is gone stays. A counter that was seen in
/// `depth + 1` cycles in a row, from its first sighting on, and is not seen
/// after that, is still kept at the start of each of the next `depth`
/// cycles, and is stale, and so dropped, at the start of the one after them.
pub proof fn lemma_eviction(imm: CounterImmView, depth: nat, values: Seq<u64>)
    requires
        depth >= 1,
        values.len() == depth,
    ensures
        forall|cycles: nat|
            1 <= cycles <= depth ==> !(#[trigger] unseen(
                seen_again(CounterHistoryView::first_seen(imm), depth, values),
                depth,
                cycles,
            )).stale(),
        unseen(
            seen_again(CounterHistoryView::first_seen(imm), depth, values),
            depth,
            depth + 1,
        ).stale(),
{
    assert forall|cycles: nat| 1 <= cycles <= depth implies !(#[trigger] unseen(
        seen_again(CounterHistoryView::first_seen(imm), depth, values),
        depth,
        cycles,
    )).stale() by {
        lemma_unseen(imm, depth, values, cycles);
    }
    lemma_unseen(imm, depth, values, depth + 1);
}

/// With a history depth of one, a counter that was seen in two cycles in a
/// row and is not seen after that is dropped exactly two cycles after its
/// last sighting: it is kept at the start of the first, and stale at the
/// start of the second.
pub proof fn lemma_eviction_after_two(imm: CounterImmView, values: Seq<u64>)
    requires
        values.len() == 1,
    ensures
        !unseen(seen_again(CounterHistoryView::first_seen(imm), 1, values), 1, 1).stale(),
        unseen(seen_again(CounterHistoryView::first_seen(imm), 1, values), 1, 2).stale(),
{
    lemma_eviction(imm, 1, values);
}

/// Whether no two entries have the same key.
pub open spec fn keys_distinct(s: Seq<CounterHistoryView>) -> bool {
    forall|i: int, j: int| 0 <= i < j < s.len() ==> s[i].key != s[j].key
}

/// Every entry that survives is one of the entries, and the survivors keep
/// their order.
proof fn lemma_surviving_from(s: Seq<CounterHistoryView>)
    ensures
        forall|i: int|
            0 <= i < surviving(s).len() ==> exists|j: int|
                i <= j < s.len() && #[trigger] surviving(s)[i] == s[j],
        surviving(s).len() <= s.len(),
    decreases s.len(),
{
    if s.len() > 0 {
        let front = s.drop_last();
        lemma_surviving_from(front);
        assert forall|i: int| 0 <= i < surviving(s).len() implies exists|j: int|
            i <= j < s.len() && #[trigger] surviving(s)[i] == s[j] by {
            if i < surviving(front).len() {
                let j = choose|j: int| i <= j < front.len() && surviving(front)[i] == front[j];
                assert(surviving(s)[i] == s[j]);
            } else {
                assert(surviving(s)[i] == s[s.len() - 1]);
            }
        }
    }
}

proof fn lemma_surviving_distinct(s: Seq<CounterHistoryView>)
    requires
        keys_distinct(s),
    ensures
        keys_distinct(surviving(s)),
    decreases s.len(),
{
    if s.len() > 0 {
        let front = s.drop_last();
        assert(keys_distinct(front)) by {
            assert forall|i: int, j: int| 0 <= i < j < front.len() implies front[i].key
                != front[j].key by {
                assert(front[i] == s[i] && front[j] == s[j]);
            }
        }
        lemma_surviving_distinct(front);
        lemma_surviving_from(front);
        if !s.last().stale() {
            let kept = surviving(s);
            assert forall|i: int, j: int| 0 <= i < j < kept.len() implies kept[i].key
                != kept[j].key by {
                if j < kept.len() - 1 {
                    assert(kept[i] == surviving(front)[i] && kept[j] == surviving(front)[j]);
                } else {
                    let k = choose|k: int| i <= k < front.len() && surviving(front)[i] == front[k];
                    assert(kept[i] == s[k]);
                    assert(kept[j] == s[s.len() - 1]);
                }
            }
        }
    }
}

proof fn lemma_key_position(s: Seq<CounterHistoryView>, from: int, key: CounterKeyView)
    requires
        0 <= from,
    ensures
        match key_position(s, from, key) {
            Some(at) => from <= at < s.len() && s[at].key == key,
            None => forall|k: int| from <= k < s.len() ==> s[k].key != key,
        },
    decreases s.len() - from,
{
    if from < s.len() && s[from].key != key {
        lemma_key_position(s, from + 1, key);
    }
}

proof fn lemma_taken_in_distinct(s: Seq<CounterHistoryView>, imm: CounterImmView)
    requires
        keys_distinct(s),
    ensures
        keys_distinct(taken_in(s, imm)),
{
    lemma_key_position(s, 0, imm.key);
}

proof fn lemma_merged_distinct(s: Seq<CounterHistoryView>, imms: Seq<CounterImmView>, from: int)
    requires
        keys_distinct(s),
    ensures
        keys_distinct(merged(s, imms, from)),
    decreases imms.len() - from,
{
    if 0 <= from < imms.len() {
        lemma_taken_in_distinct(s, imms[from]);
        lemma_merged_distinct(taken_in(s, imms[from]), imms, from + 1);
    }
}

proof fn lemma_polled_distinct(
    s: Seq<CounterHistoryView>,
    rules: Seq<CounterRuleView>,
    ifaces: Seq<(Seq<char>, Seq<(Seq<char>, u64)>)>,
    qdiscs: Seq<QdiscStatView>,
    from: int,
)
    requires
        keys_distinct(s),
    ensures
        keys_distinct(polled(s, rules, ifaces, qdiscs, from)),
    decreases rules.len() - from,
{
    if 0 <= from < rules.len() {
        let samples = rule_samples(rules[from], ifaces, qdiscs);
        lemma_merged_distinct(s, samples, 0);
        lemma_polled_distinct(merged(s, samples, 0), rules, ifaces, qdiscs, from + 1);
    }
}

/// One entry for each counter. Where no two entries have the same key, a
/// cycle leaves it so: aging changes no key, dropping entries makes no two
/// alike, and a sample is given to the entry that has its key, or, where
/// there is none, to a new one.
pub proof fn lemma_one_entry_per_key(
    s: Seq<CounterHistoryView>,
    depth: nat,
    rules: Seq<CounterRuleView>,
    ifaces: Seq<(Seq<char>, Seq<(Seq<char>, u64)>)>,
    qdiscs: Seq<QdiscStatView>,
)
    requires
        keys_distinct(s),
    ensures
        keys_distinct(cycled(s, depth, rules, ifaces, qdiscs)),
{
    let aged = aged_all(s, depth);
    assert(keys_distinct(aged)) by {
        assert forall|i: int, j: int| 0 <= i < j < aged.len() implies aged[i].key
            != aged[j].key by {
            assert(aged[i].key == s[i].key && aged[j].key == s[j].key);
        }
    }
    lemma_surviving_distinct(aged);
    lemma_polled_distinct(surviving(aged), rules, ifaces, qdiscs, 0);
}

} // verus!
