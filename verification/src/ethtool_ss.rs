//! The per-interface statistics of a network device: how they lie in the
//! buffers that the kernel fills, and what they look like once they have
//! been read.

use crate::text::{lossy_text, utf8_lossy};
use crate::wire::{put_u32, put_u64, read_u32, read_u64, word, word_bytes, WireError};
use vstd::prelude::*;
use vstd::slice::slice_subrange;

verus! {

/// One named statistic of an interface.
#[derive(Debug)]
pub struct Stat {
    pub name: String,
    pub value: u64,
}

/// The statistics of one interface.
#[derive(Debug)]
pub struct IfStats {
    pub ifname: String,
    pub stats: Vec<Stat>,
}

/// The statistics that a list of names and a list of values stand for: the
/// first name with the first value and so on, as far as both lists go.
pub open spec fn paired(names: Seq<String>, values: Seq<u64>) -> Seq<(Seq<char>, u64)> {
    Seq::new(
        if names.len() <= values.len() {
            names.len()
        } else {
            values.len()
        },
        |i: int| (names[i]@, values[i]),
    )
}

/// The names and values of a sequence of statistics.
pub open spec fn stat_views(stats: Seq<Stat>) -> Seq<(Seq<char>, u64)> {
    Seq::new(stats.len(), |i: int| (stats[i].name@, stats[i].value))
}

/// Pairs the names of an interface's statistics with their values, in
/// order. Names or values left over have no partner and are dropped.
pub fn pair_stats(names: Vec<String>, values: Vec<u64>) -> (r: Vec<Stat>)
    ensures
        stat_views(r@) == paired(names@, values@),
{
    let n = if names.len() <= values.len() {
        names.len()
    } else {
        values.len()
    };
    let mut r: Vec<Stat> = Vec::new();
    let mut i: usize = 0;
    while i < n
        invariant
            i <= n,
            n <= names.len(),
            n <= values.len(),
            r.len() == i,
            forall|k: int|
                0 <= k < i ==> (#[trigger] r@[k]).name@ == names@[k]@ && r@[k].value == values@[k],
        decreases n - i,
    {
        r.push(Stat { name: names[i].clone(), value: values[i] });
        i += 1;
    }
    assert(stat_views(r@) =~= paired(names@, values@));
    r
}

/// The length of one name in a buffer of names.
pub const ETH_GSTRING_LEN: usize = 32;

/// The length of what stands before the names in a buffer of names.
pub const GSTRINGS_HEADER: usize = 12;

/// The length of what stands before the values in a buffer of values.
pub const STATS_HEADER: usize = 8;

/// Where the number of statistics stands in the answer to the question how
/// many there are.
pub const SSET_LENGTH_AT: usize = 16;

/// The command that asks how many statistics there are.
pub const ETHTOOL_GSSET_INFO: u32 = 0x37;

/// The command that asks for the names of the statistics.
pub const ETHTOOL_GSTRINGS: u32 = 0x1b;

/// The command that asks for the values of the statistics.
pub const ETHTOOL_GSTATS: u32 = 0x1d;

/// The number of the set of strings that names the statistics.
pub const ETH_SS_STATS: u32 = 1;

/// A run of zero bytes.
pub open spec fn zeros(len: nat) -> Seq<u8> {
    Seq::new(len, |i: int| 0u8)
}

/// Appends a run of zero bytes.
fn put_zeros(buf: &mut Vec<u8>, len: u64)
    ensures
        final(buf)@ == old(buf)@ + zeros(len as nat),
{
    let mut i: u64 = 0;
    assert(buf@ =~= old(buf)@ + zeros(0));
    while i < len
        invariant
            i <= len,
            buf@ == old(buf)@ + zeros(i as nat),
        decreases len - i,
    {
        buf.push(0);
        assert(buf@ =~= old(buf)@ + zeros((i + 1) as nat));
        i += 1;
    }
}

/// The question how many statistics there are: the command, a reserved
/// word, the mask that selects the set of the statistics, and room for the
/// answer.
pub open spec fn sset_info_bytes(big_endian: bool) -> Seq<u8> {
    word_bytes(ETHTOOL_GSSET_INFO as nat, 4, big_endian) + word_bytes(0, 4, big_endian)
        + word_bytes(2, 8, big_endian) + zeros(8)
}

/// The buffer that asks how many statistics there are; see
/// [`sset_info_bytes`].
pub fn sset_info_request(big_endian: bool) -> (r: Vec<u8>)
    ensures
        r@ == sset_info_bytes(big_endian),
{
    let mut buf: Vec<u8> = Vec::new();
    put_u32(&mut buf, ETHTOOL_GSSET_INFO, big_endian);
    put_u32(&mut buf, 0, big_endian);
    put_u64(&mut buf, 2, big_endian);
    put_zeros(&mut buf, 8);
    assert(buf@ =~= sset_info_bytes(big_endian));
    buf
}

/// The question for the names of `len` statistics: the command, the number
/// of the set, the number of names, and room for the names.
pub open spec fn gstrings_bytes(len: u32, big_endian: bool) -> Seq<u8> {
    word_bytes(ETHTOOL_GSTRINGS as nat, 4, big_endian) + word_bytes(
        ETH_SS_STATS as nat,
        4,
        big_endian,
    ) + word_bytes(len as nat, 4, big_endian) + zeros((ETH_GSTRING_LEN * len) as nat)
}

/// The buffer that asks for the names of `len` statistics; see
/// [`gstrings_bytes`].
pub fn gstrings_request(len: u32, big_endian: bool) -> (r: Vec<u8>)
    ensures
        r@ == gstrings_bytes(len, big_endian),
{
    let mut buf: Vec<u8> = Vec::new();
    put_u32(&mut buf, ETHTOOL_GSTRINGS, big_endian);
    put_u32(&mut buf, ETH_SS_STATS, big_endian);
    put_u32(&mut buf, len, big_endian);
    put_zeros(&mut buf, 32 * (len as u64));
    assert(buf@ =~= gstrings_bytes(len, big_endian));
    buf
}

/// The question for the values of `len` statistics: the command, the number
/// of values, and room for the values.
pub open spec fn gstats_bytes(len: u32, big_endian: bool) -> Seq<u8> {
    word_bytes(ETHTOOL_GSTATS as nat, 4, big_endian) + word_bytes(len as nat, 4, big_endian)
        + zeros((8 * len) as nat)
}

/// The buffer that asks for the values of `len` statistics; see
/// [`gstats_bytes`].
pub fn gstats_request(len: u32, big_endian: bool) -> (r: Vec<u8>)
    ensures
        r@ == gstats_bytes(len, big_endian),
{
    let mut buf: Vec<u8> = Vec::new();
    put_u32(&mut buf, ETHTOOL_GSTATS, big_endian);
    put_u32(&mut buf, len, big_endian);
    put_zeros(&mut buf, 8 * (len as u64));
    assert(buf@ =~= gstats_bytes(len, big_endian));
    buf
}

/// The number of statistics in the answer to the question how many there
/// are: the word of four bytes at its place.
pub fn stats_len(buf: &Vec<u8>, big_endian: bool) -> (r: Result<u32, WireError>)
    ensures
        r == if buf.len() < SSET_LENGTH_AT + 4 {
            Err::<u32, WireError>(WireError::Short)
        } else {
            Ok::<u32, WireError>(word(buf@, SSET_LENGTH_AT as int, 4, big_endian) as u32)
        },
{
    if buf.len() < SSET_LENGTH_AT + 4 {
        return Err(WireError::Short);
    }
    Ok(read_u32(buf, SSET_LENGTH_AT, big_endian))
}

/// The position of the first zero byte at or after `from`, or the number
/// of bytes where there is none.
pub open spec fn next_zero(bytes: Seq<u8>, from: int) -> int
    decreases bytes.len() - from,
{
    if from < 0 || from >= bytes.len() {
        bytes.len() as int
    } else if bytes[from] == 0 {
        from
    } else {
        next_zero(bytes, from + 1)
    }
}

fn find_zero(bytes: &Vec<u8>, from: usize) -> (r: usize)
    requires
        from <= bytes.len(),
    ensures
        r == next_zero(bytes@, from as int),
        from <= r <= bytes.len(),
{
    let mut i: usize = from;
    while i < bytes.len() && bytes[i] != 0
        invariant
            from <= i <= bytes.len(),
            next_zero(bytes@, from as int) == next_zero(bytes@, i as int),
        decreases bytes.len() - i,
    {
        i += 1;
    }
    i
}

/// The name number `index` in a buffer of names: the text from the start of
/// its place to the first zero byte.
pub open spec fn name_at(buf: Seq<u8>, index: int) -> Seq<char> {
    let start = GSTRINGS_HEADER + ETH_GSTRING_LEN * index;
    lossy_text(buf.subrange(start, next_zero(buf, start)))
}

/// The value number `index` in a buffer of values: the word of eight bytes
/// at its place.
pub open spec fn value_at(buf: Seq<u8>, index: int, big_endian: bool) -> u64 {
    word(buf, STATS_HEADER + 8 * index, 8, big_endian) as u64
}

/// The first `len` names of a buffer of names.
pub open spec fn names_in(buf: Seq<u8>, len: nat) -> Seq<Seq<char>> {
    Seq::new(len, |i: int| name_at(buf, i))
}

/// The first `len` values of a buffer of values.
pub open spec fn values_in(buf: Seq<u8>, len: nat, big_endian: bool) -> Seq<u64> {
    Seq::new(len, |i: int| value_at(buf, i, big_endian))
}

/// Reads `len` names from a buffer of names; the buffer has to hold them.
pub fn stat_names(buf: &Vec<u8>, len: u32) -> (r: Result<Vec<String>, WireError>)
    ensures
        match r {
            Ok(names) => GSTRINGS_HEADER + ETH_GSTRING_LEN * len <= buf.len()
                && names.deep_view() == names_in(buf@, len as nat),
            Err(e) => GSTRINGS_HEADER + ETH_GSTRING_LEN * len > buf.len() && e == WireError::Short,
        },
{
    if buf.len() < GSTRINGS_HEADER || (buf.len() - GSTRINGS_HEADER) / ETH_GSTRING_LEN
        < len as usize {
        return Err(WireError::Short);
    }
    let mut names: Vec<String> = Vec::new();
    let mut i: u32 = 0;
    while i < len
        invariant
            i <= len,
            GSTRINGS_HEADER + ETH_GSTRING_LEN * len <= buf.len(),
            names.len() == i,
            forall|k: int| 0 <= k < i ==> (#[trigger] names@[k])@ == name_at(buf@, k),
        decreases len - i,
    {
        let start: usize = GSTRINGS_HEADER + ETH_GSTRING_LEN * (i as usize);
        let end = find_zero(buf, start);
        names.push(utf8_lossy(slice_subrange(buf.as_slice(), start, end)));
        i += 1;
    }
    assert(names.deep_view() =~= names_in(buf@, len as nat));
    Ok(names)
}

/// Reads `len` values from a buffer of values; the buffer has to hold them.
pub fn stat_values(buf: &Vec<u8>, len: u32, big_endian: bool) -> (r: Result<Vec<u64>, WireError>)
    ensures
        match r {
            Ok(values) => STATS_HEADER + 8 * len <= buf.len() && values@ == values_in(
                buf@,
                len as nat,
                big_endian,
            ),
            Err(e) => STATS_HEADER + 8 * len > buf.len() && e == WireError::Short,
        },
{
    if buf.len() < STATS_HEADER || (buf.len() - STATS_HEADER) / 8 < len as usize {
        return Err(WireError::Short);
    }
    let mut values: Vec<u64> = Vec::new();
    let mut i: u32 = 0;
    while i < len
        invariant
            i <= len,
            STATS_HEADER + 8 * len <= buf.len(),
            values.len() == i,
            forall|k: int| 0 <= k < i ==> #[trigger] values@[k] == value_at(buf@, k, big_endian),
        decreases len - i,
    {
        let at: usize = STATS_HEADER + 8 * (i as usize);
        values.push(read_u64(buf, at, big_endian));
        i += 1;
    }
    assert(values@ =~= values_in(buf@, len as nat, big_endian));
    Ok(values)
}

/// The statistics in a buffer of names and a buffer of values: the first
/// `len` names, each with the value at the same place.
pub open spec fn stats_in(names: Seq<u8>, values: Seq<u8>, len: nat, big_endian: bool) -> Seq<
    (Seq<char>, u64),
> {
    Seq::new(len, |i: int| (name_at(names, i), value_at(values, i, big_endian)))
}

/// Reads the statistics of an interface from the buffer of their names and
/// the buffer of their values; both have to hold `len` of them.
pub fn stats_for(names: &Vec<u8>, values: &Vec<u8>, len: u32, big_endian: bool) -> (r: Result<
    Vec<Stat>,
    WireError,
>)
    ensures
        match r {
            Ok(stats) => {
                &&& GSTRINGS_HEADER + ETH_GSTRING_LEN * len <= names.len()
                &&& STATS_HEADER + 8 * len <= values.len()
                &&& stat_views(stats@) == stats_in(names@, values@, len as nat, big_endian)
            },
            Err(e) => {
                &&& GSTRINGS_HEADER + ETH_GSTRING_LEN * len > names.len() || STATS_HEADER + 8
                    * len > values.len()
                &&& e == WireError::Short
            },
        },
{
    let statnames = match stat_names(names, len) {
        Ok(statnames) => statnames,
        Err(e) => {
            return Err(e);
        },
    };
    let statvalues = match stat_values(values, len, big_endian) {
        Ok(statvalues) => statvalues,
        Err(e) => {
            return Err(e);
        },
    };
    let ghost name_texts = statnames.deep_view();
    let ghost name_seq = statnames@;
    let ghost value_seq = statvalues@;
    assert(name_texts.len() == name_seq.len());
    assert(name_seq.len() == len);
    assert(value_seq.len() == len);
    let stats = pair_stats(statnames, statvalues);
    assert(stat_views(stats@) =~= stats_in(names@, values@, len as nat, big_endian)) by {
        assert forall|k: int| 0 <= k < len implies stat_views(stats@)[k] == stats_in(
            names@,
            values@,
            len as nat,
            big_endian,
        )[k] by {
            assert(name_texts[k] == name_seq[k]@);
            assert(paired(name_seq, value_seq)[k] == (name_seq[k]@, value_seq[k]));
        }
    }
    Ok(stats)
}

} // verus!
