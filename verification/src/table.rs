//! The table as lines of text: one column for each dimension, then the
//! value and the average.

use crate::key::KeyHead;
use crate::render::{Row, RowView};
use crate::text::same_text;
use vstd::prelude::*;
use vstd::string::*;

verus! {

/// The width of the columns of the value and of the average.
pub const VALUE_WIDTH: usize = 14;

/// A run of spaces.
pub open spec fn spaces(len: nat) -> Seq<char> {
    Seq::new(len, |i: int| ' ')
}

/// A text made at least `width` characters long by spaces behind it.
pub open spec fn padded_end(text: Seq<char>, width: nat) -> Seq<char> {
    if text.len() >= width {
        text
    } else {
        text + spaces((width - text.len()) as nat)
    }
}

/// A text made at least `width` characters long by spaces before it.
pub open spec fn padded_start(text: Seq<char>, width: nat) -> Seq<char> {
    if text.len() >= width {
        text
    } else {
        spaces((width - text.len()) as nat) + text
    }
}

fn push_spaces(s: &mut String, len: usize)
    ensures
        final(s)@ == old(s)@ + spaces(len as nat),
{
    let mut i: usize = 0;
    assert(s@ =~= old(s)@ + spaces(0));
    while i < len
        invariant
            i <= len,
            s@ == old(s)@ + spaces(i as nat),
        decreases len - i,
    {
        s.push(' ');
        assert(s@ =~= old(s)@ + spaces((i + 1) as nat));
        i += 1;
    }
}

/// Appends a text and then spaces, up to `width` characters.
pub fn push_padded_end(s: &mut String, text: &str, width: usize)
    ensures
        final(s)@ == old(s)@ + padded_end(text@, width as nat),
{
    let len = text.unicode_len();
    s.append(text);
    if len < width {
        push_spaces(s, width - len);
        assert(s@ =~= old(s)@ + padded_end(text@, width as nat));
    }
}

/// Appends spaces, up to `width` characters with the text, and then the
/// text.
pub fn push_padded_start(s: &mut String, text: &str, width: usize)
    ensures
        final(s)@ == old(s)@ + padded_start(text@, width as nat),
{
    let len = text.unicode_len();
    if len < width {
        push_spaces(s, width - len);
    }
    s.append(text);
    assert(s@ =~= old(s)@ + padded_start(text@, width as nat));
}

/// What stands in a column where the key has no dimension of its head.
pub open spec fn unused_text() -> Seq<char> {
    seq!['-']
}

/// The value of the first dimension with the head `head` among those of a
/// key from position `from` on, or the placeholder where there is none.
pub open spec fn dimension_of(key: Seq<(KeyHead, Seq<char>)>, head: KeyHead, from: int) -> Seq<char>
    decreases key.len() - from,
{
    if from < 0 || from >= key.len() {
        unused_text()
    } else if key[from].0 == head {
        key[from].1
    } else {
        dimension_of(key, head, from + 1)
    }
}

/// The dimensions of a key, seen as their mathematical values.
pub open spec fn key_view(key: Seq<(KeyHead, String)>) -> Seq<(KeyHead, Seq<char>)> {
    Seq::new(key.len(), |i: int| (key[i].0, key[i].1@))
}

/// The value that a key has in the column of `head`.
pub fn dimension(key: &Vec<(KeyHead, String)>, head: KeyHead) -> (r: String)
    ensures
        r@ == dimension_of(key_view(key@), head, 0),
{
    let ghost view = key_view(key@);
    let mut i: usize = 0;
    while i < key.len()
        invariant
            i <= key.len(),
            view == key_view(key@),
            dimension_of(view, head, 0) == dimension_of(view, head, i as int),
        decreases key.len() - i,
    {
        assert(view[i as int] == (key@[i as int].0, key@[i as int].1@));
        if key[i].0 == head {
            return key[i].1.clone();
        }
        i += 1;
    }
    let mut unused = String::new();
    unused.push('-');
    assert(unused@ =~= unused_text());
    unused
}

/// Whether a value is left blank in its column: it stands in a row of
/// values, the column of its head leaves repeated values blank, and the row
/// before had the same value there.
pub open spec fn repeated(
    text: Seq<char>,
    last: Option<Seq<char>>,
    head: KeyHead,
    is_value: bool,
) -> bool {
    is_value && head.suppresses_dups() && last == Some(text)
}

/// What the column of `head` remembers after a row: the value of a row of
/// values, where the column leaves repeated values blank.
pub open spec fn remembered(
    text: Seq<char>,
    last: Option<Seq<char>>,
    head: KeyHead,
    is_value: bool,
) -> Option<Seq<char>> {
    if is_value && head.suppresses_dups() {
        Some(text)
    } else {
        last
    }
}

/// The text of one column of a line: a separator where the head draws one,
/// a space, the value or nothing where it is repeated, spaces up to the
/// width of the column, and a space.
pub open spec fn column_text(
    head: KeyHead,
    width: nat,
    text: Seq<char>,
    last: Option<Seq<char>>,
    is_value: bool,
) -> Seq<char> {
    (if head.separates() {
        seq!['|']
    } else {
        Seq::empty()
    }) + seq![' '] + padded_end(
        if repeated(text, last, head, is_value) {
            Seq::empty()
        } else {
            text
        },
        width,
    ) + seq![' ']
}

/// The text of the columns of a line from position `from` on.
pub open spec fn columns_text(
    columns: Seq<(KeyHead, usize)>,
    key: Seq<(KeyHead, Seq<char>)>,
    lasts: Seq<Option<Seq<char>>>,
    is_value: bool,
    from: int,
) -> Seq<char>
    decreases columns.len() - from,
{
    if from < 0 || from >= columns.len() {
        Seq::empty()
    } else {
        column_text(
            columns[from].0,
            columns[from].1 as nat,
            dimension_of(key, columns[from].0, 0),
            lasts[from],
            is_value,
        ) + columns_text(columns, key, lasts, is_value, from + 1)
    }
}

/// The end of a line: the value and the average, each in a column of its
/// own and moved to the right.
pub open spec fn tail_text(value: Seq<char>, avg: Seq<char>) -> Seq<char> {
    seq!['|', ' '] + padded_start(value, VALUE_WIDTH as nat) + seq![' ', '|', ' '] + padded_start(
        avg,
        VALUE_WIDTH as nat,
    ) + seq![' ', '|']
}

/// The text of a line of the table.
pub open spec fn line_text(
    columns: Seq<(KeyHead, usize)>,
    key: Seq<(KeyHead, Seq<char>)>,
    value: Seq<char>,
    avg: Seq<char>,
    lasts: Seq<Option<Seq<char>>>,
    is_value: bool,
) -> Seq<char> {
    columns_text(columns, key, lasts, is_value, 0) + tail_text(value, avg)
}

/// What the columns remember after a line.
pub open spec fn lasts_after(
    columns: Seq<(KeyHead, usize)>,
    key: Seq<(KeyHead, Seq<char>)>,
    lasts: Seq<Option<Seq<char>>>,
    is_value: bool,
) -> Seq<Option<Seq<char>>> {
    Seq::new(
        columns.len(),
        |i: int| remembered(dimension_of(key, columns[i].0, 0), lasts[i], columns[i].0, is_value),
    )
}

/// What the columns remember, seen as mathematical values.
pub open spec fn lasts_view(lasts: Seq<Option<String>>) -> Seq<Option<Seq<char>>> {
    Seq::new(
        lasts.len(),
        |i: int|
            match lasts[i] {
                Some(text) => Some(text@),
                None => None,
            },
    )
}

/// Writes one line of the table, and lets the columns remember what they
/// showed; see [`line_text`] and [`lasts_after`].
pub fn line_out(
    columns: &Vec<(KeyHead, usize)>,
    key: &Vec<(KeyHead, String)>,
    value: &str,
    avg: &str,
    is_value: bool,
    lasts: &mut Vec<Option<String>>,
) -> (r: String)
    requires
        old(lasts).len() == columns.len(),
    ensures
        r@ == line_text(columns@, key_view(key@), value@, avg@, lasts_view(old(lasts)@), is_value),
        final(lasts).len() == old(lasts).len(),
        lasts_view(final(lasts)@) == lasts_after(
            columns@,
            key_view(key@),
            lasts_view(old(lasts)@),
            is_value,
        ),
{
    let ghost dims = key_view(key@);
    let ghost before = lasts_view(lasts@);
    let mut s = String::new();
    let mut i: usize = 0;
    assert(s@ + columns_text(columns@, dims, before, is_value, 0) =~= columns_text(
        columns@,
        dims,
        before,
        is_value,
        0,
    ));
    while i < columns.len()
        invariant
            i <= columns.len(),
            lasts.len() == columns.len(),
            dims == key_view(key@),
            before == lasts_view(old(lasts)@),
            s@ + columns_text(columns@, dims, before, is_value, i as int) == columns_text(
                columns@,
                dims,
                before,
                is_value,
                0,
            ),
            forall|k: int| i <= k < lasts.len() ==> lasts_view(lasts@)[k] == before[k],
            forall|k: int|
                0 <= k < i ==> lasts_view(lasts@)[k] == remembered(
                    dimension_of(dims, columns@[k].0, 0),
                    before[k],
                    columns@[k].0,
                    is_value,
                ),
        decreases columns.len() - i,
    {
        let head = columns[i].0;
        let width = columns[i].1;
        let text = dimension(key, head);
        let ghost start = s@;
        let ghost old_lasts = lasts_view(lasts@);
        assert(old_lasts[i as int] == before[i as int]);
        let suppress = is_value && head.suppress_dups();
        let same = match &lasts[i] {
            Some(last) => same_text(last.as_str(), text.as_str()),
            None => false,
        };
        assert(same == (before[i as int] == Some(text@)));
        if head.separate() {
            s.push('|');
        }
        s.push(' ');
        if suppress && same {
            push_padded_end(&mut s, "", width);
            proof {
                reveal_strlit("");
                assert(""@ =~= Seq::<char>::empty());
            }
        } else {
            push_padded_end(&mut s, text.as_str(), width);
        }
        s.push(' ');
        assert(s@ =~= start + column_text(head, width as nat, text@, before[i as int], is_value));
        if suppress {
            lasts.set(i, Some(text));
        }
        proof {
            assert forall|k: int| i + 1 <= k < lasts.len() implies lasts_view(lasts@)[k]
                == before[k] by {
                assert(lasts_view(lasts@)[k] == old_lasts[k]);
            }
            assert forall|k: int| 0 <= k < i + 1 implies lasts_view(lasts@)[k] == remembered(
                dimension_of(dims, columns@[k].0, 0),
                before[k],
                columns@[k].0,
                is_value,
            ) by {
                if k < i {
                    assert(lasts_view(lasts@)[k] == old_lasts[k]);
                }
            }
            assert(s@ + columns_text(columns@, dims, before, is_value, i + 1) =~= start
                + columns_text(columns@, dims, before, is_value, i as int));
        }
        i += 1;
    }
    let ghost cols = s@;
    s.push('|');
    s.push(' ');
    push_padded_start(&mut s, value, VALUE_WIDTH);
    s.push(' ');
    s.push('|');
    s.push(' ');
    push_padded_start(&mut s, avg, VALUE_WIDTH);
    s.push(' ');
    s.push('|');
    proof {
        assert(cols + Seq::<char>::empty() =~= cols);
        assert(s@ =~= cols + tail_text(value@, avg@));
        assert(lasts_view(lasts@) =~= lasts_after(columns@, dims, before, is_value));
    }
    s
}

/// The head of the column of the values.
pub open spec fn value_head() -> Seq<char> {
    seq!['v', 'a', 'l', 'u', 'e']
}

/// The dimensions of the line of headers: for each column, its header.
pub open spec fn header_key(columns: Seq<(KeyHead, usize)>) -> Seq<(KeyHead, Seq<char>)> {
    Seq::new(columns.len(), |i: int| (columns[i].0, columns[i].0.head_text()))
}

/// Columns that remember nothing.
pub open spec fn no_lasts(len: nat) -> Seq<Option<Seq<char>>> {
    Seq::new(len, |i: int| None)
}

/// The mathematical values of a sequence of rows.
pub open spec fn row_views(rows: Seq<Row>) -> Seq<RowView> {
    Seq::new(rows.len(), |i: int| rows[i]@)
}

/// The lines of the rows from position `from` on, where the columns
/// remember `lasts` of the rows before.
pub open spec fn row_lines(
    columns: Seq<(KeyHead, usize)>,
    rows: Seq<RowView>,
    lasts: Seq<Option<Seq<char>>>,
    from: int,
) -> Seq<Seq<char>>
    decreases rows.len() - from,
{
    if from < 0 || from >= rows.len() {
        Seq::empty()
    } else {
        seq![
            line_text(columns, rows[from].key, rows[from].value, rows[from].avg, lasts, true),
        ] + row_lines(columns, rows, lasts_after(columns, rows[from].key, lasts, true), from + 1)
    }
}

/// The lines of a table: the line of headers, and one line for each row.
/// In a column that leaves repeated values blank, a value is shown only
/// where the row before had another one.
pub open spec fn table_text(
    columns: Seq<(KeyHead, usize)>,
    rows: Seq<RowView>,
    avg_head: Seq<char>,
) -> Seq<Seq<char>> {
    seq![
        line_text(
            columns,
            header_key(columns),
            value_head(),
            avg_head,
            no_lasts(columns.len()),
            false,
        ),
    ] + row_lines(columns, rows, no_lasts(columns.len()), 0)
}

/// Writes the lines of a table; see [`table_text`].
pub fn table_lines(columns: &Vec<(KeyHead, usize)>, rows: &Vec<Row>, avg_head: &str) -> (r: Vec<
    String,
>)
    ensures
        r.deep_view() == table_text(columns@, row_views(rows@), avg_head@),
{
    let ghost views = row_views(rows@);
    let mut lasts: Vec<Option<String>> = Vec::new();
    let mut headers: Vec<(KeyHead, String)> = Vec::new();
    let mut c: usize = 0;
    while c < columns.len()
        invariant
            c <= columns.len(),
            lasts.len() == c,
            headers.len() == c,
            forall|k: int| 0 <= k < c ==> (#[trigger] lasts@[k]) is None,
            forall|k: int|
                0 <= k < c ==> (#[trigger] headers@[k]).0 == columns@[k].0 && headers@[k].1@
                    == columns@[k].0.head_text(),
        decreases columns.len() - c,
    {
        lasts.push(None);
        headers.push((columns[c].0, String::from_str(columns[c].0.column_head())));
        c += 1;
    }
    proof {
        reveal_strlit("value");
        assert("value"@ =~= value_head());
        assert(key_view(headers@) =~= header_key(columns@));
        assert(lasts_view(lasts@) =~= no_lasts(columns@.len()));
    }
    let mut lines: Vec<String> = Vec::new();
    lines.push(line_out(columns, &headers, "value", avg_head, false, &mut lasts));
    proof {
        assert(lasts_view(lasts@) =~= no_lasts(columns@.len()));
        assert(lines.deep_view() =~= seq![
            line_text(
                columns@,
                header_key(columns@),
                value_head(),
                avg_head@,
                no_lasts(columns@.len()),
                false,
            ),
        ]);
    }
    let mut i: usize = 0;
    while i < rows.len()
        invariant
            i <= rows.len(),
            lasts.len() == columns.len(),
            views == row_views(rows@),
            lines.deep_view() + row_lines(columns@, views, lasts_view(lasts@), i as int)
                == table_text(columns@, views, avg_head@),
        decreases rows.len() - i,
    {
        let ghost before = lines.deep_view();
        let ghost old_lasts = lasts_view(lasts@);
        assert(views[i as int] == rows@[i as int]@);
        assert(key_view(rows@[i as int].key@) =~= rows@[i as int]@.key);
        let line = line_out(
            columns,
            &rows[i].key,
            rows[i].value.as_str(),
            rows[i].avg.as_str(),
            true,
            &mut lasts,
        );
        let ghost text = line@;
        lines.push(line);
        proof {
            assert(lines.deep_view() =~= before.push(text));
            assert(lines.deep_view() + row_lines(columns@, views, lasts_view(lasts@), i + 1)
                =~= before + row_lines(columns@, views, old_lasts, i as int));
        }
        i += 1;
    }
    assert(lines.deep_view() + Seq::<Seq<char>>::empty() =~= lines.deep_view());
    lines
}

} // verus!
