//! What is handed to a renderer: rows of texts, and the widths of their
//! columns.

use crate::ct::{humanize, humanize_text, UBase, UFreq, Unit};
use crate::history::{CounterLine, CounterLineView};
use crate::key::{all_heads, all_heads_seq, KeyHead};
use crate::value::Value;
use vstd::prelude::*;
use vstd::string::*;
use vstd::utf8::encode_utf8;

verus! {

/// What follows the prefix glyph of a displayed value: the glyph of the
/// base, and `ps` for a rate or two spaces otherwise.
pub open spec fn unit_suffix_text(base: UBase, freq: UFreq) -> Seq<char> {
    if freq == UFreq::PerSecond {
        seq![base.glyph(), 'p', 's']
    } else {
        seq![base.glyph(), ' ', ' ']
    }
}

/// What stands before the number of a displayed value: the delta sign for a
/// delta, a space otherwise.
pub open spec fn freq_lead_text(freq: UFreq) -> Seq<char> {
    if freq == UFreq::Delta {
        seq!['\u{394}']
    } else {
        seq![' ']
    }
}

/// What is shown in place of a value that is not there.
pub open spec fn absent_text() -> Seq<char> {
    seq!['-', ' ', ' ', ' ', ' ', ' ']
}

/// The text of a value in a row: the value in human units, or the
/// placeholder where there is none.
pub open spec fn cell_text(
    value: Option<Value>,
    unit: Unit,
    freq: UFreq,
    always_decimal: bool,
) -> Seq<char> {
    match value {
        Some(v) => humanize_text(
            v.bits as int,
            unit.prefix,
            freq_lead_text(freq),
            unit_suffix_text(unit.base, freq),
            always_decimal,
        ),
        None => absent_text(),
    }
}

/// What follows the prefix glyph of a displayed value.
pub fn unit_suffix(base: UBase, freq: UFreq) -> (r: String)
    ensures
        r@ == unit_suffix_text(base, freq),
{
    let mut s = String::new();
    s.push(base.symbol());
    match freq {
        UFreq::PerSecond => {
            s.push('p');
            s.push('s');
        },
        _ => {
            s.push(' ');
            s.push(' ');
        },
    }
    assert(s@ =~= unit_suffix_text(base, freq));
    s
}

/// What stands before the number of a displayed value.
pub fn freq_lead(freq: UFreq) -> (r: String)
    ensures
        r@ == freq_lead_text(freq),
{
    let mut s = String::new();
    match freq {
        UFreq::Delta => {
            s.push('\u{394}');
        },
        _ => {
            s.push(' ');
        },
    }
    assert(s@ =~= freq_lead_text(freq));
    s
}

/// The text of a value in a row.
pub fn cell(value: &Option<Value>, unit: Unit, freq: UFreq, always_decimal: bool) -> (r: String)
    requires
        value matches Some(v) ==> v.bits > i128::MIN,
    ensures
        r@ == cell_text(*value, unit, freq, always_decimal),
{
    match value {
        Some(v) => {
            let lead = freq_lead(freq);
            let suffix = unit_suffix(unit.base, freq);
            humanize(*v, unit.prefix, lead.as_str(), &suffix, always_decimal)
        },
        None => {
            let mut s = String::new();
            s.push('-');
            s.push(' ');
            s.push(' ');
            s.push(' ');
            s.push(' ');
            s.push(' ');
            assert(s@ =~= absent_text());
            s
        },
    }
}

/// One row for the renderer: the dimensions of the counter, and the texts of
/// its value and of its average.
#[derive(Debug)]
pub struct Row {
    pub key: Vec<(KeyHead, String)>,
    pub value: String,
    pub avg: String,
}

/// The mathematical value of a [`Row`].
pub struct RowView {
    pub key: Seq<(KeyHead, Seq<char>)>,
    pub value: Seq<char>,
    pub avg: Seq<char>,
}

impl View for Row {
    type V = RowView;

    open spec fn view(&self) -> RowView {
        RowView {
            key: Seq::new(self.key@.len(), |i: int| (self.key@[i].0, self.key@[i].1@)),
            value: self.value@,
            avg: self.avg@,
        }
    }
}

/// The row of a line: its dimensions, its value without decimals where it
/// needs none, and its average always with decimals.
pub open spec fn row_of(line: CounterLineView) -> RowView {
    RowView {
        key: line.key.key,
        value: cell_text(line.value, line.unit, line.freq, false),
        avg: cell_text(line.avg, line.unit, line.freq, true),
    }
}

/// Whether a line can be written down: neither its value nor its average is
/// the least fixed-point value, which has no absolute value.
pub open spec fn renderable(line: CounterLineView) -> bool {
    &&& line.value matches Some(v) ==> v.bits > i128::MIN
    &&& line.avg matches Some(a) ==> a.bits > i128::MIN
}

/// Whether a line can be written down.
pub fn can_render(line: &CounterLine) -> (r: bool)
    ensures
        r == renderable(line@),
{
    let value_ok = match line.value {
        Some(v) => v.bits > i128::MIN,
        None => true,
    };
    let avg_ok = match line.avg {
        Some(a) => a.bits > i128::MIN,
        None => true,
    };
    value_ok && avg_ok
}

/// The row of a line; see [`row_of`].
pub fn render_row(line: &CounterLine) -> (r: Row)
    requires
        renderable(line@),
    ensures
        r@ == row_of(line@),
{
    let key = line.key.duplicate();
    let value = cell(&line.value, line.unit, line.freq, false);
    let avg = cell(&line.avg, line.unit, line.freq, true);
    let r = Row { key: key.key, value, avg };
    assert(r@.key =~= line@.key.key);
    r
}

/// The number of bytes that a text takes in memory, as the machine counts
/// them.
pub open spec fn byte_len(text: Seq<char>) -> nat {
    (encode_utf8(text).len() as usize) as nat
}

/// The larger of two numbers.
pub open spec fn larger(a: nat, b: nat) -> nat {
    if a >= b {
        a
    } else {
        b
    }
}

/// The width of the column of `head` once one more dimension is taken in: a
/// dimension of another head changes nothing; one of this head makes the
/// column at least as wide as its value and as the column's header.
pub open spec fn widened(
    width: Option<nat>,
    head: KeyHead,
    dimension: (KeyHead, Seq<char>),
) -> Option<nat> {
    if dimension.0 == head {
        Some(
            larger(
                byte_len(dimension.1),
                match width {
                    Some(w) => w,
                    None => byte_len(head.head_text()),
                },
            ),
        )
    } else {
        width
    }
}

/// The width of the column of `head` once the dimensions of a key from
/// position `from` on are taken in.
pub open spec fn key_width(
    width: Option<nat>,
    head: KeyHead,
    key: Seq<(KeyHead, Seq<char>)>,
    from: int,
) -> Option<nat>
    decreases key.len() - from,
{
    if from < 0 || from >= key.len() {
        width
    } else {
        key_width(widened(width, head, key[from]), head, key, from + 1)
    }
}

/// The width of the column of `head` once the keys from position `from` on
/// are taken in. A head that no key has gets no column.
pub open spec fn column_width(
    width: Option<nat>,
    head: KeyHead,
    keys: Seq<Seq<(KeyHead, Seq<char>)>>,
    from: int,
) -> Option<nat>
    decreases keys.len() - from,
{
    if from < 0 || from >= keys.len() {
        width
    } else {
        column_width(key_width(width, head, keys[from], 0), head, keys, from + 1)
    }
}

/// The columns of a table of keys, from position `from` of the display order
/// on: each head that some key has, with the width of its column.
pub open spec fn columns_from(keys: Seq<Seq<(KeyHead, Seq<char>)>>, from: int) -> Seq<
    (KeyHead, nat),
>
    decreases 5 - from,
{
    if from < 0 || from >= 5 {
        Seq::empty()
    } else {
        (match column_width(None, all_heads_seq()[from], keys, 0) {
            Some(width) => seq![(all_heads_seq()[from], width)],
            None => Seq::empty(),
        }) + columns_from(keys, from + 1)
    }
}

/// The keys of a sequence of rows.
pub open spec fn row_keys(rows: Seq<Row>) -> Seq<Seq<(KeyHead, Seq<char>)>> {
    Seq::new(rows.len(), |i: int| rows[i]@.key)
}

/// The heads and widths of a sequence of columns.
pub open spec fn column_views(s: Seq<(KeyHead, usize)>) -> Seq<(KeyHead, nat)> {
    Seq::new(s.len(), |i: int| (s[i].0, s[i].1 as nat))
}

/// The width as a mathematical number, where there is one.
pub open spec fn width_view(width: Option<usize>) -> Option<nat> {
    match width {
        Some(w) => Some(w as nat),
        None => None,
    }
}

fn width_in_key(start: Option<usize>, head: KeyHead, row: &Row) -> (r: Option<usize>)
    ensures
        width_view(r) == key_width(width_view(start), head, row@.key, 0),
{
    let ghost key = row@.key;
    let mut width = start;
    let mut i: usize = 0;
    while i < row.key.len()
        invariant
            i <= row.key.len(),
            key == row@.key,
            key_width(width_view(width), head, key, i as int) == key_width(
                width_view(start),
                head,
                key,
                0,
            ),
        decreases row.key.len() - i,
    {
        assert(key[i as int] == (row.key@[i as int].0, row.key@[i as int].1@));
        if row.key[i].0 == head {
            let len = row.key[i].1.as_str().len();
            let before = match width {
                Some(w) => w,
                None => head.column_head().len(),
            };
            width = Some(
                if len >= before {
                    len
                } else {
                    before
                },
            );
        }
        i += 1;
    }
    width
}

fn width_of(rows: &Vec<Row>, head: KeyHead) -> (r: Option<usize>)
    ensures
        width_view(r) == column_width(None, head, row_keys(rows@), 0),
{
    let ghost keys = row_keys(rows@);
    let mut width: Option<usize> = None;
    let mut i: usize = 0;
    while i < rows.len()
        invariant
            i <= rows.len(),
            keys == row_keys(rows@),
            column_width(width_view(width), head, keys, i as int) == column_width(
                None,
                head,
                keys,
                0,
            ),
        decreases rows.len() - i,
    {
        assert(keys[i as int] == rows@[i as int]@.key);
        width = width_in_key(width, head, &rows[i]);
        i += 1;
    }
    width
}

/// The columns of the table of the rows, in display order: each head that
/// some row has, with the width of its column in bytes.
pub fn column_widths(rows: &Vec<Row>) -> (r: Vec<(KeyHead, usize)>)
    ensures
        column_views(r@) == columns_from(row_keys(rows@), 0),
{
    let ghost keys = row_keys(rows@);
    let heads = all_heads();
    let mut ret: Vec<(KeyHead, usize)> = Vec::new();
    let mut i: usize = 5;
    assert(column_views(ret@) =~= columns_from(keys, 5));
    while i > 0
        invariant
            i <= 5,
            heads@ == all_heads_seq(),
            keys == row_keys(rows@),
            column_views(ret@) == columns_from(keys, i as int),
        decreases i,
    {
        i -= 1;
        let ghost before = ret@;
        match width_of(rows, heads[i]) {
            Some(width) => {
                ret.insert(0, (heads[i], width));
                assert(column_views(ret@) =~= seq![(heads@[i as int], width as nat)] + column_views(
                    before,
                ));
            },
            None => {
                assert(column_views(ret@) =~= Seq::<(KeyHead, nat)>::empty() + column_views(
                    before,
                ));
            },
        }
    }
    ret
}

} // verus!
