//! Units, unit chains and the conversion of counter values between bases.

use crate::value::{
    decimal_text, fits, fixed_abs, fixed_div_int, fixed_mul_int, fixed_to_decimal, magnitude, one,
    trunc_div, Value,
};
use vstd::prelude::*;
use vstd::string::*;

verus! {

/// What a counter counts.
#[derive(Clone, Copy, PartialEq, Eq, Debug, Structural)]
pub enum UBase {
    Units,
    Packets,
    Seconds,
    Bits,
    Bytes,
}

impl UBase {
    /// The character that stands for the base in a displayed unit.
    pub open spec fn glyph(self) -> char {
        match self {
            UBase::Units => '1',
            UBase::Packets => 'p',
            UBase::Seconds => 's',
            UBase::Bits => 'b',
            UBase::Bytes => 'B',
        }
    }

    /// The character that stands for the base in a displayed unit.
    pub fn symbol(self) -> (c: char)
        ensures
            c == self.glyph(),
    {
        match self {
            UBase::Units => '1',
            UBase::Packets => 'p',
            UBase::Seconds => 's',
            UBase::Bits => 'b',
            UBase::Bytes => 'B',
        }
    }

    /// The base's glyph as a one-character string.
    pub fn to_string(&self) -> (s: String)
        ensures
            s@ == seq![self.glyph()],
    {
        let mut s = String::new();
        s.push(self.symbol());
        assert(s@ =~= seq![self.glyph()]);
        s
    }
}

/// A decimal scaling prefix. The order of the variants is the scaling ladder:
/// each prefix is a thousand times the one before it.
#[derive(Clone, Copy, PartialEq, Eq, Debug, Structural)]
pub enum UPfx {
    Nano,
    Micro,
    Milli,
    Plain,
    Kilo,
    Mega,
    Giga,
    Tera,
    Peta,
    Exa,
}

/// The number of prefixes on the ladder.
pub const LADDER_LEN: usize = 10;

impl UPfx {
    /// The position of the prefix on the ladder, from `Nano` at 0 to `Exa`
    /// at 9.
    pub open spec fn index(self) -> int {
        match self {
            UPfx::Nano => 0,
            UPfx::Micro => 1,
            UPfx::Milli => 2,
            UPfx::Plain => 3,
            UPfx::Kilo => 4,
            UPfx::Mega => 5,
            UPfx::Giga => 6,
            UPfx::Tera => 7,
            UPfx::Peta => 8,
            UPfx::Exa => 9,
        }
    }

    /// The prefix at a position of the ladder.
    pub open spec fn at(pos: int) -> UPfx
        recommends
            0 <= pos < 10,
    {
        if pos == 0 {
            UPfx::Nano
        } else if pos == 1 {
            UPfx::Micro
        } else if pos == 2 {
            UPfx::Milli
        } else if pos == 3 {
            UPfx::Plain
        } else if pos == 4 {
            UPfx::Kilo
        } else if pos == 5 {
            UPfx::Mega
        } else if pos == 6 {
            UPfx::Giga
        } else if pos == 7 {
            UPfx::Tera
        } else if pos == 8 {
            UPfx::Peta
        } else {
            UPfx::Exa
        }
    }

    /// The character that stands for the prefix in a displayed unit.
    pub open spec fn glyph(self) -> char {
        match self {
            UPfx::Nano => 'n',
            UPfx::Micro => 'u',
            UPfx::Milli => 'm',
            UPfx::Plain => ' ',
            UPfx::Kilo => 'K',
            UPfx::Mega => 'M',
            UPfx::Giga => 'G',
            UPfx::Tera => 'T',
            UPfx::Peta => 'P',
            UPfx::Exa => 'E',
        }
    }

    /// The position of the prefix on the ladder.
    pub fn position(self) -> (pos: usize)
        ensures
            pos == self.index(),
            pos < LADDER_LEN,
            UPfx::at(pos as int) == self,
    {
        match self {
            UPfx::Nano => 0,
            UPfx::Micro => 1,
            UPfx::Milli => 2,
            UPfx::Plain => 3,
            UPfx::Kilo => 4,
            UPfx::Mega => 5,
            UPfx::Giga => 6,
            UPfx::Tera => 7,
            UPfx::Peta => 8,
            UPfx::Exa => 9,
        }
    }

    /// The prefix at a position of the ladder.
    pub fn from_position(pos: usize) -> (p: UPfx)
        requires
            pos < LADDER_LEN,
        ensures
            p == UPfx::at(pos as int),
            p.index() == pos,
    {
        if pos == 0 {
            UPfx::Nano
        } else if pos == 1 {
            UPfx::Micro
        } else if pos == 2 {
            UPfx::Milli
        } else if pos == 3 {
            UPfx::Plain
        } else if pos == 4 {
            UPfx::Kilo
        } else if pos == 5 {
            UPfx::Mega
        } else if pos == 6 {
            UPfx::Giga
        } else if pos == 7 {
            UPfx::Tera
        } else if pos == 8 {
            UPfx::Peta
        } else {
            UPfx::Exa
        }
    }

    /// The character that stands for the prefix in a displayed unit.
    pub fn symbol(self) -> (c: char)
        ensures
            c == self.glyph(),
    {
        match self {
            UPfx::Nano => 'n',
            UPfx::Micro => 'u',
            UPfx::Milli => 'm',
            UPfx::Plain => ' ',
            UPfx::Kilo => 'K',
            UPfx::Mega => 'M',
            UPfx::Giga => 'G',
            UPfx::Tera => 'T',
            UPfx::Peta => 'P',
            UPfx::Exa => 'E',
        }
    }
}

/// A base with a scaling prefix.
#[derive(Clone, Copy, PartialEq, Eq, Debug, Structural)]
pub struct Unit {
    pub prefix: UPfx,
    pub base: UBase,
}

/// How a sequence of raw samples becomes a displayed quantity.
#[derive(Clone, Copy, PartialEq, Eq, Debug, Structural)]
pub enum UFreq {
    /// The latest sample as it is.
    AsIs,
    /// The latest sample less the first one seen.
    Delta,
    /// The change of the sample per second.
    PerSecond,
}

/// A sequence of units, read left to right as conversions from one base to
/// the next, and one frequency.
#[derive(Clone, Debug)]
pub struct UnitChain {
    pub units: Vec<Unit>,
    pub freq: UFreq,
}

/// The mathematical value of a [`UnitChain`].
pub struct UnitChainView {
    pub units: Seq<Unit>,
    pub freq: UFreq,
}

impl View for UnitChain {
    type V = UnitChainView;

    open spec fn view(&self) -> UnitChainView {
        UnitChainView { units: self.units@, freq: self.freq }
    }
}

impl UnitChain {
    /// A chain is usable when it has at least one unit.
    pub open spec fn wf(&self) -> bool {
        self.units@.len() > 0
    }

    /// A copy of the chain.
    pub fn duplicate(&self) -> (r: UnitChain)
        ensures
            r@ == self@,
    {
        let mut units: Vec<Unit> = Vec::new();
        let mut i: usize = 0;
        while i < self.units.len()
            invariant
                i <= self.units.len(),
                units@ == self.units@.take(i as int),
            decreases self.units.len() - i,
        {
            units.push(self.units[i]);
            assert(units@ =~= self.units@.take(i + 1));
            i += 1;
        }
        assert(units@ =~= self.units@);
        UnitChain { units, freq: self.freq }
    }
}

/// The chain of a plain count shown per second.
pub open spec fn units_ps_chain() -> UnitChainView {
    UnitChainView {
        units: seq![Unit { prefix: UPfx::Plain, base: UBase::Units }],
        freq: UFreq::PerSecond,
    }
}

/// The chain of a number of bytes shown as it is.
pub open spec fn bytes_chain() -> UnitChainView {
    UnitChainView {
        units: seq![Unit { prefix: UPfx::Plain, base: UBase::Bytes }],
        freq: UFreq::AsIs,
    }
}

/// The chain of a number of bytes shown as bits per second.
pub open spec fn bytes_bits_ps_chain() -> UnitChainView {
    UnitChainView {
        units: seq![
            Unit { prefix: UPfx::Plain, base: UBase::Bytes },
            Unit { prefix: UPfx::Plain, base: UBase::Bits },
        ],
        freq: UFreq::PerSecond,
    }
}

/// The chain of a number of packets shown per second.
pub open spec fn packets_ps_chain() -> UnitChainView {
    UnitChainView {
        units: seq![Unit { prefix: UPfx::Plain, base: UBase::Packets }],
        freq: UFreq::PerSecond,
    }
}

/// The chain of a plain count shown per second.
pub fn unit_units_ps() -> (r: UnitChain)
    ensures
        r@ == units_ps_chain(),
{
    let mut units: Vec<Unit> = Vec::new();
    units.push(Unit { prefix: UPfx::Plain, base: UBase::Units });
    assert(units@ =~= units_ps_chain().units);
    UnitChain { units, freq: UFreq::PerSecond }
}

/// The chain of a number of bytes shown as it is.
pub fn unit_bytes() -> (r: UnitChain)
    ensures
        r@ == bytes_chain(),
{
    let mut units: Vec<Unit> = Vec::new();
    units.push(Unit { prefix: UPfx::Plain, base: UBase::Bytes });
    assert(units@ =~= bytes_chain().units);
    UnitChain { units, freq: UFreq::AsIs }
}

/// The chain of a number of bytes shown as bits per second.
pub fn unit_bytes_bits_ps() -> (r: UnitChain)
    ensures
        r@ == bytes_bits_ps_chain(),
{
    let mut units: Vec<Unit> = Vec::new();
    units.push(Unit { prefix: UPfx::Plain, base: UBase::Bytes });
    units.push(Unit { prefix: UPfx::Plain, base: UBase::Bits });
    assert(units@ =~= bytes_bits_ps_chain().units);
    UnitChain { units, freq: UFreq::PerSecond }
}

/// The chain of a number of packets shown per second.
pub fn unit_packets_ps() -> (r: UnitChain)
    ensures
        r@ == packets_ps_chain(),
{
    let mut units: Vec<Unit> = Vec::new();
    units.push(Unit { prefix: UPfx::Plain, base: UBase::Packets });
    assert(units@ =~= packets_ps_chain().units);
    UnitChain { units, freq: UFreq::PerSecond }
}

/// What one step of a chain, from base `from` to base `to`, does to the raw
/// bits of a value: bytes to bits multiply by eight, bits to bytes divide by
/// eight and round toward zero, and every other step changes nothing.
pub open spec fn scale_step(from: UBase, to: UBase, bits: int) -> int {
    if from == UBase::Bytes && to == UBase::Bits {
        bits * 8
    } else if from == UBase::Bits && to == UBase::Bytes {
        trunc_div(bits, 8)
    } else {
        bits
    }
}

/// The raw bits after the steps of `units` from position `i` on.
pub open spec fn scale_from(units: Seq<Unit>, i: int, bits: int) -> int
    decreases units.len() - i,
{
    if 0 <= i && i + 1 < units.len() {
        scale_from(units, i + 1, scale_step(units[i].base, units[i + 1].base, bits))
    } else {
        bits
    }
}

/// Whether the raw bits stay in range through the steps of `units` from
/// position `i` on.
pub open spec fn scale_fits_from(units: Seq<Unit>, i: int, bits: int) -> bool
    decreases units.len() - i,
{
    if 0 <= i && i + 1 < units.len() {
        let next = scale_step(units[i].base, units[i + 1].base, bits);
        fits(next) && scale_fits_from(units, i + 1, next)
    } else {
        true
    }
}

/// The raw bits of a value after all the steps of a chain.
pub open spec fn scale_chain(units: Seq<Unit>, bits: int) -> int {
    scale_from(units, 0, bits)
}

/// Whether a value stays in range through all the steps of a chain.
pub open spec fn scale_fits(units: Seq<Unit>, value: Option<Value>) -> bool {
    match value {
        Some(v) => scale_fits_from(units, 0, v.bits as int),
        None => true,
    }
}

/// A value, if there is one, after all the steps of a chain.
pub open spec fn scaled(units: Seq<Unit>, value: Option<Value>) -> Option<Value> {
    match value {
        Some(v) => Some(Value { bits: scale_chain(units, v.bits as int) as i128 }),
        None => None,
    }
}

/// The unit in which a chain's result is shown: the prefix of the first unit
/// and the base of the last.
pub open spec fn display_unit(units: Seq<Unit>) -> Unit
    recommends
        units.len() > 0,
{
    Unit { prefix: units[0].prefix, base: units[units.len() - 1].base }
}

fn scale_one(from: UBase, to: UBase, value: Option<Value>) -> (r: Option<Value>)
    requires
        value matches Some(v) ==> fits(scale_step(from, to, v.bits as int)),
    ensures
        r == match value {
            Some(v) => Some(Value { bits: scale_step(from, to, v.bits as int) as i128 }),
            None => None,
        },
{
    match value {
        None => None,
        Some(v) => {
            match (from, to) {
                (UBase::Bytes, UBase::Bits) => Some(fixed_mul_int(v, 8)),
                (UBase::Bits, UBase::Bytes) => Some(fixed_div_int(v, 8)),
                _ => Some(v),
            }
        },
    }
}

/// Whether raw bits stay in range through all the steps of a chain.
pub fn chain_fits(uchain: &UnitChain, bits: i128) -> (r: bool)
    ensures
        r == scale_fits_from(uchain@.units, 0, bits as int),
{
    let n = uchain.units.len();
    let mut v: i128 = bits;
    let mut i: usize = 0;
    while i + 1 < n
        invariant
            n == uchain.units.len(),
            i < n || i == 0,
            scale_fits_from(uchain@.units, 0, bits as int) == scale_fits_from(
                uchain@.units,
                i as int,
                v as int,
            ),
        decreases n - i,
    {
        match (uchain.units[i].base, uchain.units[i + 1].base) {
            (UBase::Bytes, UBase::Bits) => {
                if v > i128::MAX / 8 || v < i128::MIN / 8 {
                    return false;
                }
                v = v * 8;
            },
            (UBase::Bits, UBase::Bytes) => {
                v = v / 8;
            },
            _ => {},
        }
        i += 1;
    }
    true
}

/// Whether a chain can be applied to a value and to an average: it has a
/// unit, and both stay in range through all its steps.
pub fn can_convert(uchain: &UnitChain, value: &Option<Value>, avg: &Option<Value>) -> (r: bool)
    ensures
        r == (uchain.wf() && scale_fits(uchain@.units, *value) && scale_fits(
            uchain@.units,
            *avg,
        )),
{
    if uchain.units.len() == 0 {
        return false;
    }
    let value_fits = match value {
        Some(v) => chain_fits(uchain, v.bits),
        None => true,
    };
    let avg_fits = match avg {
        Some(a) => chain_fits(uchain, a.bits),
        None => true,
    };
    value_fits && avg_fits
}

/// Applies a unit chain to a value and to an average.
///
/// The chain is walked pair by pair; see [`scale_step`] for what each pair
/// does. An absent value stays absent. The third result is the unit to show.
pub fn convert(uchain: &UnitChain, value: Option<Value>, avg: Option<Value>) -> (r: (
    Option<Value>,
    Option<Value>,
    Unit,
))
    requires
        uchain.wf(),
        scale_fits(uchain@.units, value),
        scale_fits(uchain@.units, avg),
    ensures
        r.0 == scaled(uchain@.units, value),
        r.1 == scaled(uchain@.units, avg),
        r.2 == display_unit(uchain@.units),
{
    let n = uchain.units.len();
    let mut ret_value = value;
    let mut ret_avg = avg;
    let mut i: usize = 0;
    while i + 1 < n
        invariant
            n == uchain.units@.len(),
            n > 0,
            i < n,
            value is Some <==> ret_value is Some,
            avg is Some <==> ret_avg is Some,
            value matches Some(v) ==> {
                &&& scale_fits_from(uchain.units@, i as int, ret_value->0.bits as int)
                &&& scale_chain(uchain.units@, v.bits as int) == scale_from(
                    uchain.units@,
                    i as int,
                    ret_value->0.bits as int,
                )
            },
            avg matches Some(v) ==> {
                &&& scale_fits_from(uchain.units@, i as int, ret_avg->0.bits as int)
                &&& scale_chain(uchain.units@, v.bits as int) == scale_from(
                    uchain.units@,
                    i as int,
                    ret_avg->0.bits as int,
                )
            },
        decreases n - i,
    {
        let from = uchain.units[i].base;
        let to = uchain.units[i + 1].base;
        ret_value = scale_one(from, to, ret_value);
        ret_avg = scale_one(from, to, ret_avg);
        i += 1;
    }
    (ret_value, ret_avg, Unit { prefix: uchain.units[0].prefix, base: uchain.units[n - 1].base })
}

/// The raw bits of the whole number 1100, from which a value moves up one
/// prefix.
pub const LADDER_LIMIT: i128 = 1100 * 0x8000_0000_0000_0000;

/// Whether a value at ladder position `pos` moves up one prefix: its
/// absolute value is at least 1100 and there is a higher prefix.
pub open spec fn climbs(bits: int, pos: int) -> bool {
    magnitude(bits) >= 1100 * one() && 0 <= pos && pos + 1 < 10
}

/// How many prefixes a value that starts at ladder position `pos` moves up.
pub open spec fn ladder_steps(bits: int, pos: int) -> nat
    decreases 10 - pos,
{
    if climbs(bits, pos) {
        1 + ladder_steps(trunc_div(bits, 1000), pos + 1)
    } else {
        0
    }
}

/// The raw bits of a value after `n` divisions by a thousand, each rounded
/// toward zero.
pub open spec fn shrink(bits: int, n: nat) -> int
    decreases n,
{
    if n == 0 {
        bits
    } else {
        shrink(trunc_div(bits, 1000), (n - 1) as nat)
    }
}

/// The raw bits of a value that starts at ladder position `pos`, once it has
/// moved up as far as it goes.
pub open spec fn ladder_value(bits: int, pos: int) -> int {
    shrink(bits, ladder_steps(bits, pos))
}

/// The text of a value in human units.
///
/// The value moves up the ladder from `base`. If it did not move and
/// decimals are not asked for, it is written with no decimals and four
/// spaces before the prefix glyph; otherwise with two decimals and one space.
pub open spec fn humanize_text(
    bits: int,
    base: UPfx,
    lead: Seq<char>,
    unit: Seq<char>,
    always_decimal: bool,
) -> Seq<char> {
    let steps = ladder_steps(bits, base.index());
    let trivial = steps == 0 && !always_decimal;
    let places: nat = if trivial {
        0
    } else {
        2
    };
    compose_text(
        lead,
        decimal_text(ladder_value(bits, base.index()), places),
        trivial,
        UPfx::at(base.index() + steps).glyph(),
        unit,
    )
}

/// The parts of a humanized value put together: the lead, the magnitude, four
/// spaces for a trivial value and one otherwise, the prefix glyph, the unit.
pub open spec fn compose_text(
    lead: Seq<char>,
    magnitude: Seq<char>,
    trivial: bool,
    glyph: char,
    unit: Seq<char>,
) -> Seq<char> {
    if trivial {
        lead + magnitude + seq![' ', ' ', ' ', ' '] + seq![glyph] + unit
    } else {
        lead + magnitude + seq![' '] + seq![glyph] + unit
    }
}

/// Dividing by a thousand does not take a value out of range.
proof fn lemma_thousandth_fits(bits: int)
    requires
        i128::MIN < bits <= i128::MAX,
    ensures
        i128::MIN < trunc_div(bits, 1000) <= i128::MAX,
        magnitude(trunc_div(bits, 1000)) <= magnitude(bits),
{
}

/// Moves a value up the ladder: while its absolute value is at least 1100
/// and a higher prefix exists, it is divided by a thousand and takes the next
/// prefix. Returns the value and the ladder position it ends at.
pub fn rescale(value: Value, base: UPfx) -> (r: (Value, usize))
    requires
        value.bits > i128::MIN,
    ensures
        r.0.bits == ladder_value(value.bits as int, base.index()),
        r.1 == base.index() + ladder_steps(value.bits as int, base.index()),
        r.1 < LADDER_LEN,
{
    let mut v = value;
    let mut pos: usize = base.position();
    while fixed_abs(v).bits >= LADDER_LIMIT && pos + 1 < LADDER_LEN
        invariant
            v.bits > i128::MIN,
            pos < LADDER_LEN,
            base.index() <= pos,
            ladder_steps(value.bits as int, base.index()) == (pos - base.index())
                + ladder_steps(v.bits as int, pos as int),
            ladder_value(value.bits as int, base.index()) == ladder_value(
                v.bits as int,
                pos as int,
            ),
        decreases LADDER_LEN - pos,
    {
        proof {
            lemma_thousandth_fits(v.bits as int);
            lemma_shrink_unfold(v.bits as int, ladder_steps(v.bits as int, pos as int));
        }
        v = fixed_div_int(v, 1000);
        pos += 1;
    }
    (v, pos)
}

/// One division more is one division first.
proof fn lemma_shrink_unfold(bits: int, n: nat)
    requires
        n > 0,
    ensures
        shrink(bits, n) == shrink(trunc_div(bits, 1000), (n - 1) as nat),
{
}

/// Puts the parts of a humanized value together; see [`compose_text`].
pub fn compose(lead: &str, magnitude: &str, trivial: bool, glyph: char, unit: &str) -> (r: String)
    ensures
        r@ == compose_text(lead@, magnitude@, trivial, glyph, unit@),
{
    let mut s = String::from_str(lead);
    s.append(magnitude);
    if trivial {
        s.push(' ');
        s.push(' ');
        s.push(' ');
        s.push(' ');
    } else {
        s.push(' ');
    }
    s.push(glyph);
    s.append(unit);
    assert(s@ =~= compose_text(lead@, magnitude@, trivial, glyph, unit@));
    s
}

/// Writes a value in human units: scaled up the prefix ladder from `base`,
/// with `unit_prefix_str` before the number and `unit_str` after the prefix
/// glyph. See [`humanize_text`].
pub fn humanize(
    value: Value,
    base: UPfx,
    unit_prefix_str: &str,
    unit_str: &String,
    always_decimal: bool,
) -> (r: String)
    requires
        value.bits > i128::MIN,
    ensures
        r@ == humanize_text(value.bits as int, base, unit_prefix_str@, unit_str@, always_decimal),
{
    let (scaled, pos) = rescale(value, base);
    let trivial = !always_decimal && pos == base.position();
    let places: usize = if trivial {
        0
    } else {
        2
    };
    let magnitude = fixed_to_decimal(scaled, places);
    compose(
        unit_prefix_str,
        magnitude.as_str(),
        trivial,
        UPfx::from_position(pos).symbol(),
        unit_str.as_str(),
    )
}

proof fn lemma_ladder_from(bits: int, pos: int)
    requires
        0 <= pos <= 9,
    ensures
        pos + ladder_steps(bits, pos) <= 9,
        forall|j: nat|
            j < ladder_steps(bits, pos) ==> magnitude(#[trigger] shrink(bits, j)) >= 1100 * one(),
        magnitude(ladder_value(bits, pos)) < 1100 * one() || pos + ladder_steps(bits, pos) == 9,
    decreases 10 - pos,
{
    if climbs(bits, pos) {
        let next = trunc_div(bits, 1000);
        lemma_ladder_from(next, pos + 1);
        assert forall|j: nat| j < ladder_steps(bits, pos) implies magnitude(
            #[trigger] shrink(bits, j),
        ) >= 1100 * one() by {
            if j > 0 {
                assert(shrink(bits, j) == shrink(next, (j - 1) as nat));
            }
        }
        assert(ladder_value(bits, pos) == ladder_value(next, pos + 1));
    }
}

/// The unit ladder. A value that starts at the prefix `base` ends at a prefix
/// that is not lower. Each step up is taken from an absolute value of at
/// least 1100, and divides the value by a thousand. Where the value stops,
/// its absolute value is under 1100, unless it stands at the top of the
/// ladder.
pub proof fn lemma_ladder(bits: int, base: UPfx)
    ensures
        base.index() <= base.index() + ladder_steps(bits, base.index()) <= UPfx::Exa.index(),
        forall|j: nat|
            j < ladder_steps(bits, base.index()) ==> magnitude(#[trigger] shrink(bits, j)) >= 1100
                * one(),
        ladder_value(bits, base.index()) == shrink(bits, ladder_steps(bits, base.index())),
        magnitude(ladder_value(bits, base.index())) < 1100 * one() || UPfx::at(
            base.index() + ladder_steps(bits, base.index()),
        ) == UPfx::Exa,
{
    lemma_ladder_from(bits, base.index());
}

/// Bytes to bits and back again. Where a value can be converted from bytes
/// to bits at all, converting the result from bits to bytes gives the value
/// back: the multiplication by eight is exact, and so is the division that
/// undoes it.
pub proof fn lemma_bytes_bits_bytes(value: Option<Value>, there: Seq<Unit>, back: Seq<Unit>)
    requires
        there.len() == 2,
        there[0].base == UBase::Bytes,
        there[1].base == UBase::Bits,
        back.len() == 2,
        back[0].base == UBase::Bits,
        back[1].base == UBase::Bytes,
        scale_fits(there, value),
    ensures
        scale_fits(back, scaled(there, value)),
        scaled(back, scaled(there, value)) == value,
{
    reveal_with_fuel(scale_from, 3);
    reveal_with_fuel(scale_fits_from, 3);
}

/// Bits to bytes and back again. Converting from bits to bytes rounds toward
/// zero, so the way back gives the value again exactly when its raw bits are
/// a multiple of eight.
pub proof fn lemma_bits_bytes_bits(value: Value, there: Seq<Unit>, back: Seq<Unit>)
    requires
        there.len() == 2,
        there[0].base == UBase::Bits,
        there[1].base == UBase::Bytes,
        back.len() == 2,
        back[0].base == UBase::Bytes,
        back[1].base == UBase::Bits,
    ensures
        scale_fits(there, Some(value)),
        scale_fits(back, scaled(there, Some(value))),
        scaled(back, scaled(there, Some(value))) == Some(value) <==> value.bits % 8 == 0,
{
    reveal_with_fuel(scale_from, 3);
    reveal_with_fuel(scale_fits_from, 3);
}

} // verus!
