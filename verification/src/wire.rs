//! Numbers and records as they lie in the messages of the kernel: words of
//! four or eight bytes in the byte order of the machine, one after the
//! other.

use crate::netlink::RtnlLinkStats;
use vstd::arithmetic::div_mod::{lemma_mod_breakdown, lemma_small_mod};
use vstd::prelude::*;

verus! {

/// The number that `len` bytes from position `at` on stand for, the least
/// significant byte first.
pub open spec fn word_le(bytes: Seq<u8>, at: int, len: nat) -> nat
    decreases len,
{
    if len == 0 {
        0
    } else {
        bytes[at] as nat + 256 * word_le(bytes, at + 1, (len - 1) as nat)
    }
}

/// The number that `len` bytes from position `at` on stand for, the most
/// significant byte first.
pub open spec fn word_be(bytes: Seq<u8>, at: int, len: nat) -> nat
    decreases len,
{
    if len == 0 {
        0
    } else {
        word_be(bytes, at, (len - 1) as nat) * 256 + bytes[at + len - 1] as nat
    }
}

/// The number that `len` bytes from position `at` on stand for, in the
/// given byte order.
pub open spec fn word(bytes: Seq<u8>, at: int, len: nat, big_endian: bool) -> nat {
    if big_endian {
        word_be(bytes, at, len)
    } else {
        word_le(bytes, at, len)
    }
}

/// The number of values that `len` bytes can take.
pub open spec fn radix(len: nat) -> nat
    decreases len,
{
    if len == 0 {
        1
    } else {
        256 * radix((len - 1) as nat)
    }
}

/// A word of `len` bytes is less than the number of values they can take.
pub proof fn lemma_word_bound(bytes: Seq<u8>, at: int, len: nat, big_endian: bool)
    ensures
        word(bytes, at, len, big_endian) < radix(len),
    decreases len,
{
    if len > 0 {
        if big_endian {
            lemma_word_bound(bytes, at, (len - 1) as nat, big_endian);
        } else {
            lemma_word_bound(bytes, at + 1, (len - 1) as nat, big_endian);
        }
    }
}

/// Reads the word of `len` bytes at position `at`, in the given byte order.
pub fn read_word(bytes: &Vec<u8>, at: usize, len: usize, big_endian: bool) -> (r: u64)
    requires
        len <= 8,
        at + len <= bytes.len(),
    ensures
        r == word(bytes@, at as int, len as nat, big_endian),
{
    proof {
        reveal_with_fuel(radix, 9);
    }
    let mut acc: u64 = 0;
    if big_endian {
        let mut i: usize = 0;
        while i < len
            invariant
                i <= len <= 8,
                at + len <= bytes.len(),
                acc == word_be(bytes@, at as int, i as nat),
            decreases len - i,
        {
            proof {
                reveal_with_fuel(radix, 9);
                lemma_word_bound(bytes@, at as int, i as nat, true);
            }
            acc = acc * 256 + bytes[at + i] as u64;
            i += 1;
        }
    } else {
        let mut i: usize = len;
        while i > 0
            invariant
                i <= len <= 8,
                at + len <= bytes.len(),
                acc == word_le(bytes@, at + i, (len - i) as nat),
            decreases i,
        {
            proof {
                reveal_with_fuel(radix, 9);
                lemma_word_bound(bytes@, at + i, (len - i) as nat, false);
            }
            i -= 1;
            acc = bytes[at + i] as u64 + 256 * acc;
        }
    }
    acc
}

/// Reads the word of four bytes at position `at`.
pub fn read_u32(bytes: &Vec<u8>, at: usize, big_endian: bool) -> (r: u32)
    requires
        at + 4 <= bytes.len(),
    ensures
        r == word(bytes@, at as int, 4, big_endian),
{
    proof {
        reveal_with_fuel(radix, 5);
        lemma_word_bound(bytes@, at as int, 4, big_endian);
    }
    read_word(bytes, at, 4, big_endian) as u32
}

/// Reads the word of eight bytes at position `at`.
pub fn read_u64(bytes: &Vec<u8>, at: usize, big_endian: bool) -> (r: u64)
    requires
        at + 8 <= bytes.len(),
    ensures
        r == word(bytes@, at as int, 8, big_endian),
{
    read_word(bytes, at, 8, big_endian)
}

/// The `len` bytes that stand for a number, the least significant first. A
/// number that is too large loses what does not fit.
pub open spec fn word_bytes_le(value: nat, len: nat) -> Seq<u8>
    decreases len,
{
    if len == 0 {
        Seq::empty()
    } else {
        seq![(value % 256) as u8] + word_bytes_le(value / 256, (len - 1) as nat)
    }
}

/// The `len` bytes that stand for a number, the most significant first. A
/// number that is too large loses what does not fit.
pub open spec fn word_bytes_be(value: nat, len: nat) -> Seq<u8>
    decreases len,
{
    if len == 0 {
        Seq::empty()
    } else {
        word_bytes_be(value / 256, (len - 1) as nat).push((value % 256) as u8)
    }
}

/// The `len` bytes that stand for a number, in the given byte order.
pub open spec fn word_bytes(value: nat, len: nat, big_endian: bool) -> Seq<u8> {
    if big_endian {
        word_bytes_be(value, len)
    } else {
        word_bytes_le(value, len)
    }
}

/// A word of `len` bytes is `len` bytes long.
pub proof fn lemma_word_bytes_len(value: nat, len: nat, big_endian: bool)
    ensures
        word_bytes(value, len, big_endian).len() == len,
    decreases len,
{
    if len > 0 {
        lemma_word_bytes_len(value / 256, (len - 1) as nat, big_endian);
    }
}

/// A word read from a sequence of bytes does not depend on what stands
/// before the sequence.
pub proof fn lemma_word_shift(a: Seq<u8>, b: Seq<u8>, at: int, len: nat, big_endian: bool)
    requires
        0 <= at,
        at + len <= b.len(),
    ensures
        word(a + b, a.len() + at, len, big_endian) == word(b, at, len, big_endian),
    decreases len,
{
    if len > 0 {
        if big_endian {
            lemma_word_shift(a, b, at, (len - 1) as nat, big_endian);
            assert((a + b)[a.len() + at + len - 1] == b[at + len - 1]);
        } else {
            lemma_word_shift(a, b, at + 1, (len - 1) as nat, big_endian);
            assert((a + b)[a.len() + at] == b[at]);
        }
    }
}

/// A word read from a sequence of bytes does not depend on what stands
/// behind the sequence.
pub proof fn lemma_word_prefix(a: Seq<u8>, b: Seq<u8>, at: int, len: nat, big_endian: bool)
    requires
        0 <= at,
        at + len <= a.len(),
    ensures
        word(a + b, at, len, big_endian) == word(a, at, len, big_endian),
    decreases len,
{
    if len > 0 {
        if big_endian {
            lemma_word_prefix(a, b, at, (len - 1) as nat, big_endian);
            assert((a + b)[at + len - 1] == a[at + len - 1]);
        } else {
            lemma_word_prefix(a, b, at + 1, (len - 1) as nat, big_endian);
            assert((a + b)[at] == a[at]);
        }
    }
}

/// The number of values of `len` bytes is not zero.
pub proof fn lemma_radix_positive(len: nat)
    ensures
        radix(len) > 0,
    decreases len,
{
    if len > 0 {
        lemma_radix_positive((len - 1) as nat);
    }
}

/// Writing a number and reading it again gives the number, less what did
/// not fit into the bytes.
pub proof fn lemma_word_of_bytes(value: nat, len: nat, big_endian: bool)
    ensures
        word(word_bytes(value, len, big_endian), 0, len, big_endian) == value % radix(len),
    decreases len,
{
    if len > 0 {
        let rest_len = (len - 1) as nat;
        let rest = word_bytes(value / 256, rest_len, big_endian);
        lemma_word_of_bytes(value / 256, rest_len, big_endian);
        lemma_word_bytes_len(value / 256, rest_len, big_endian);
        lemma_radix_positive(rest_len);
        lemma_mod_breakdown(value as int, 256, radix(rest_len) as int);
        if big_endian {
            let all = rest.push((value % 256) as u8);
            assert(all =~= rest + seq![(value % 256) as u8]);
            lemma_word_prefix(rest, seq![(value % 256) as u8], 0, rest_len, true);
            assert(all[len - 1] == (value % 256) as u8);
        } else {
            let first = seq![(value % 256) as u8];
            lemma_word_shift(first, rest, 0, rest_len, false);
            assert((first + rest)[0] == (value % 256) as u8);
        }
    }
}

/// Appends the `len` bytes that stand for a number, in the given byte
/// order.
pub fn put_word(buf: &mut Vec<u8>, value: u64, len: usize, big_endian: bool)
    ensures
        final(buf)@ == old(buf)@ + word_bytes(value as nat, len as nat, big_endian),
    decreases len,
{
    if len == 0 {
        assert(buf@ =~= old(buf)@ + Seq::<u8>::empty());
    } else if big_endian {
        put_word(buf, value / 256, len - 1, big_endian);
        buf.push((value % 256) as u8);
        assert(buf@ =~= old(buf)@ + word_bytes((value / 256) as nat, (len - 1) as nat, true).push(
            (value % 256) as u8,
        ));
    } else {
        buf.push((value % 256) as u8);
        put_word(buf, value / 256, len - 1, big_endian);
        assert(buf@ =~= old(buf)@ + (seq![(value % 256) as u8] + word_bytes(
            (value / 256) as nat,
            (len - 1) as nat,
            false,
        )));
    }
}

/// Appends a word of four bytes.
pub fn put_u32(buf: &mut Vec<u8>, value: u32, big_endian: bool)
    ensures
        final(buf)@ == old(buf)@ + word_bytes(value as nat, 4, big_endian),
{
    put_word(buf, value as u64, 4, big_endian);
}

/// Appends a word of eight bytes.
pub fn put_u64(buf: &mut Vec<u8>, value: u64, big_endian: bool)
    ensures
        final(buf)@ == old(buf)@ + word_bytes(value as nat, 8, big_endian),
{
    put_word(buf, value, 8, big_endian);
}

/// Why a record could not be read.
#[derive(Debug, Clone, Copy, PartialEq, Eq, Structural)]
pub enum WireError {
    /// The bytes end before the record does.
    Short,
    /// The padding of a record is not zero.
    Padding,
    /// A name is not valid text.
    Text,
}

impl WireError {
    /// The message that describes the error.
    pub fn message(&self) -> (r: String)
        ensures
            r@ == match self {
                WireError::Short => "unexpected end of record"@,
                WireError::Padding => "record expects zero padding at its end"@,
                WireError::Text => "name is not valid text"@,
            },
    {
        match self {
            WireError::Short => String::from_str("unexpected end of record"),
            WireError::Padding => String::from_str("record expects zero padding at its end"),
            WireError::Text => String::from_str("name is not valid text"),
        }
    }
}

/// The basic statistics of a queueing discipline.
#[derive(Debug, Clone, Copy, PartialEq, Eq, Structural)]
pub struct GnetStatsBasic {
    pub bytes: u64,
    pub packets: u32,
}

/// The queue statistics of a queueing discipline.
#[derive(Debug, Clone, Copy, PartialEq, Eq, Structural)]
pub struct GnetStatsQueue {
    pub qlen: u32,
    pub backlog: u32,
    pub drops: u32,
    pub requeues: u32,
    pub overlimits: u32,
}

/// The rate estimates of a queueing discipline.
#[derive(Debug, Clone, Copy, PartialEq, Eq, Structural)]
pub struct GnetStatsRateEst {
    pub bps: u64,
    pub pps: u64,
}

/// The statistics that random early detection reports of its own.
#[derive(Debug, Clone, Copy, PartialEq, Eq, Structural)]
pub struct TcRedXstats {
    /// Early drops.
    pub early: u32,
    /// Drops due to queue limits.
    pub pdrop: u32,
    /// Other drops.
    pub other: u32,
    /// Marked packets.
    pub marked: u32,
}

/// The basic statistics in a payload: the bytes in a word of eight, the
/// packets in a word of four, and four bytes of padding that are zero.
pub open spec fn basic_in(payload: Seq<u8>, big_endian: bool) -> Result<GnetStatsBasic, WireError> {
    if payload.len() < 16 {
        Err(WireError::Short)
    } else if word(payload, 12, 4, big_endian) != 0 {
        Err(WireError::Padding)
    } else {
        Ok(
            GnetStatsBasic {
                bytes: word(payload, 0, 8, big_endian) as u64,
                packets: word(payload, 8, 4, big_endian) as u32,
            },
        )
    }
}

/// Reads the basic statistics of a queueing discipline; see [`basic_in`].
pub fn decode_basic(payload: &Vec<u8>, big_endian: bool) -> (r: Result<GnetStatsBasic, WireError>)
    ensures
        r == basic_in(payload@, big_endian),
{
    if payload.len() < 16 {
        return Err(WireError::Short);
    }
    let bytes = read_u64(payload, 0, big_endian);
    let packets = read_u32(payload, 8, big_endian);
    let pad = read_u32(payload, 12, big_endian);
    if pad != 0 {
        return Err(WireError::Padding);
    }
    Ok(GnetStatsBasic { bytes, packets })
}

/// The queue statistics in a payload: five words of four bytes.
pub open spec fn queue_in(payload: Seq<u8>, big_endian: bool) -> Result<GnetStatsQueue, WireError> {
    if payload.len() < 20 {
        Err(WireError::Short)
    } else {
        Ok(
            GnetStatsQueue {
                qlen: word(payload, 0, 4, big_endian) as u32,
                backlog: word(payload, 4, 4, big_endian) as u32,
                drops: word(payload, 8, 4, big_endian) as u32,
                requeues: word(payload, 12, 4, big_endian) as u32,
                overlimits: word(payload, 16, 4, big_endian) as u32,
            },
        )
    }
}

/// Reads the queue statistics of a queueing discipline; see [`queue_in`].
pub fn decode_queue(payload: &Vec<u8>, big_endian: bool) -> (r: Result<GnetStatsQueue, WireError>)
    ensures
        r == queue_in(payload@, big_endian),
{
    if payload.len() < 20 {
        return Err(WireError::Short);
    }
    Ok(
        GnetStatsQueue {
            qlen: read_u32(payload, 0, big_endian),
            backlog: read_u32(payload, 4, big_endian),
            drops: read_u32(payload, 8, big_endian),
            requeues: read_u32(payload, 12, big_endian),
            overlimits: read_u32(payload, 16, big_endian),
        },
    )
}

/// The rate estimates in a payload: two words of `width` bytes, bytes per
/// second and packets per second.
pub open spec fn rate_est_in(payload: Seq<u8>, width: nat, big_endian: bool) -> Result<
    GnetStatsRateEst,
    WireError,
> {
    if payload.len() < 2 * width {
        Err(WireError::Short)
    } else {
        Ok(
            GnetStatsRateEst {
                bps: word(payload, 0, width, big_endian) as u64,
                pps: word(payload, width as int, width, big_endian) as u64,
            },
        )
    }
}

/// Reads the rate estimates of a queueing discipline, in words of four
/// bytes where `wide` is false and of eight where it is true; see
/// [`rate_est_in`].
pub fn decode_rate_est(payload: &Vec<u8>, wide: bool, big_endian: bool) -> (r: Result<
    GnetStatsRateEst,
    WireError,
>)
    ensures
        r == rate_est_in(
            payload@,
            if wide {
                8
            } else {
                4
            },
            big_endian,
        ),
{
    let width: usize = if wide {
        8
    } else {
        4
    };
    if payload.len() < 2 * width {
        return Err(WireError::Short);
    }
    Ok(
        GnetStatsRateEst {
            bps: read_word(payload, 0, width, big_endian),
            pps: read_word(payload, width, width, big_endian),
        },
    )
}

/// The statistics of random early detection in a payload: four words of
/// four bytes.
pub open spec fn red_in(payload: Seq<u8>, big_endian: bool) -> Result<TcRedXstats, WireError> {
    if payload.len() < 16 {
        Err(WireError::Short)
    } else {
        Ok(
            TcRedXstats {
                early: word(payload, 0, 4, big_endian) as u32,
                pdrop: word(payload, 4, 4, big_endian) as u32,
                other: word(payload, 8, 4, big_endian) as u32,
                marked: word(payload, 12, 4, big_endian) as u32,
            },
        )
    }
}

/// Reads the statistics of random early detection; see [`red_in`].
pub fn decode_red(payload: &Vec<u8>, big_endian: bool) -> (r: Result<TcRedXstats, WireError>)
    ensures
        r == red_in(payload@, big_endian),
{
    if payload.len() < 16 {
        return Err(WireError::Short);
    }
    Ok(
        TcRedXstats {
            early: read_u32(payload, 0, big_endian),
            pdrop: read_u32(payload, 4, big_endian),
            other: read_u32(payload, 8, big_endian),
            marked: read_u32(payload, 12, big_endian),
        },
    )
}

/// The counter number `index` of a link in a payload of words of `width`
/// bytes.
pub open spec fn link_counter(payload: Seq<u8>, index: int, width: nat, big_endian: bool) -> u64 {
    word(payload, index * width, width, big_endian) as u64
}

/// The counters of a link in a payload: twenty-four words of `width` bytes.
pub open spec fn link_stats_in(payload: Seq<u8>, width: nat, big_endian: bool) -> Result<
    RtnlLinkStats,
    WireError,
> {
    if payload.len() < 24 * width {
        Err(WireError::Short)
    } else {
        Ok(
            RtnlLinkStats {
                rx_packets: link_counter(payload, 0, width, big_endian),
                tx_packets: link_counter(payload, 1, width, big_endian),
                rx_bytes: link_counter(payload, 2, width, big_endian),
                tx_bytes: link_counter(payload, 3, width, big_endian),
                rx_errors: link_counter(payload, 4, width, big_endian),
                tx_errors: link_counter(payload, 5, width, big_endian),
                rx_dropped: link_counter(payload, 6, width, big_endian),
                tx_dropped: link_counter(payload, 7, width, big_endian),
                multicast: link_counter(payload, 8, width, big_endian),
                collisions: link_counter(payload, 9, width, big_endian),
                rx_length_errors: link_counter(payload, 10, width, big_endian),
                rx_over_errors: link_counter(payload, 11, width, big_endian),
                rx_crc_errors: link_counter(payload, 12, width, big_endian),
                rx_frame_errors: link_counter(payload, 13, width, big_endian),
                rx_fifo_errors: link_counter(payload, 14, width, big_endian),
                rx_missed_errors: link_counter(payload, 15, width, big_endian),
                tx_aborted_errors: link_counter(payload, 16, width, big_endian),
                tx_carrier_errors: link_counter(payload, 17, width, big_endian),
                tx_fifo_errors: link_counter(payload, 18, width, big_endian),
                tx_heartbeat_errors: link_counter(payload, 19, width, big_endian),
                tx_window_errors: link_counter(payload, 20, width, big_endian),
                rx_compressed: link_counter(payload, 21, width, big_endian),
                tx_compressed: link_counter(payload, 22, width, big_endian),
                rx_nohandler: link_counter(payload, 23, width, big_endian),
            },
        )
    }
}

fn read_link_counter(payload: &Vec<u8>, index: usize, width: usize, big_endian: bool) -> (r: u64)
    requires
        index < 24,
        width == 4 || width == 8,
        24 * width <= payload.len(),
    ensures
        r == link_counter(payload@, index as int, width as nat, big_endian),
{
    read_word(payload, index * width, width, big_endian)
}

/// Reads the counters of a link, in words of four bytes where `wide` is
/// false and of eight where it is true; see [`link_stats_in`].
pub fn decode_link_stats(payload: &Vec<u8>, wide: bool, big_endian: bool) -> (r: Result<
    RtnlLinkStats,
    WireError,
>)
    ensures
        r == link_stats_in(
            payload@,
            if wide {
                8
            } else {
                4
            },
            big_endian,
        ),
{
    let width: usize = if wide {
        8
    } else {
        4
    };
    if payload.len() < 24 * width {
        return Err(WireError::Short);
    }
    Ok(
        RtnlLinkStats {
            rx_packets: read_link_counter(payload, 0, width, big_endian),
            tx_packets: read_link_counter(payload, 1, width, big_endian),
            rx_bytes: read_link_counter(payload, 2, width, big_endian),
            tx_bytes: read_link_counter(payload, 3, width, big_endian),
            rx_errors: read_link_counter(payload, 4, width, big_endian),
            tx_errors: read_link_counter(payload, 5, width, big_endian),
            rx_dropped: read_link_counter(payload, 6, width, big_endian),
            tx_dropped: read_link_counter(payload, 7, width, big_endian),
            multicast: read_link_counter(payload, 8, width, big_endian),
            collisions: read_link_counter(payload, 9, width, big_endian),
            rx_length_errors: read_link_counter(payload, 10, width, big_endian),
            rx_over_errors: read_link_counter(payload, 11, width, big_endian),
            rx_crc_errors: read_link_counter(payload, 12, width, big_endian),
            rx_frame_errors: read_link_counter(payload, 13, width, big_endian),
            rx_fifo_errors: read_link_counter(payload, 14, width, big_endian),
            rx_missed_errors: read_link_counter(payload, 15, width, big_endian),
            tx_aborted_errors: read_link_counter(payload, 16, width, big_endian),
            tx_carrier_errors: read_link_counter(payload, 17, width, big_endian),
            tx_fifo_errors: read_link_counter(payload, 18, width, big_endian),
            tx_heartbeat_errors: read_link_counter(payload, 19, width, big_endian),
            tx_window_errors: read_link_counter(payload, 20, width, big_endian),
            rx_compressed: read_link_counter(payload, 21, width, big_endian),
            tx_compressed: read_link_counter(payload, 22, width, big_endian),
            rx_nohandler: read_link_counter(payload, 23, width, big_endian),
        },
    )
}

/// The number of bytes of the basic statistics of a queueing discipline.
pub const BASIC_SIZE: usize = 16;

/// The number of bytes of the queue statistics of a queueing discipline.
pub const QUEUE_SIZE: usize = 20;

/// The number of bytes of the statistics of random early detection.
pub const RED_SIZE: usize = 16;

/// The number of bytes of the rate estimates of a queueing discipline, in
/// words of four bytes where `wide` is false and of eight where it is true.
pub fn rate_est_size(wide: bool) -> (r: usize)
    ensures
        r == if wide {
            16int
        } else {
            8int
        },
{
    if wide {
        16
    } else {
        8
    }
}

/// The number of bytes of the counters of a link, in words of four bytes
/// where `wide` is false and of eight where it is true.
pub fn link_stats_size(wide: bool) -> (r: usize)
    ensures
        r == if wide {
            192int
        } else {
            96int
        },
{
    if wide {
        192
    } else {
        96
    }
}

/// The bytes of the basic statistics of a queueing discipline.
pub open spec fn basic_bytes(stats: GnetStatsBasic, big_endian: bool) -> Seq<u8> {
    word_bytes(stats.bytes as nat, 8, big_endian) + word_bytes(stats.packets as nat, 4, big_endian)
        + word_bytes(0, 4, big_endian)
}

/// Writes the basic statistics of a queueing discipline.
pub fn encode_basic(stats: &GnetStatsBasic, big_endian: bool) -> (r: Vec<u8>)
    ensures
        r@ == basic_bytes(*stats, big_endian),
        r.len() == BASIC_SIZE,
{
    let mut buf: Vec<u8> = Vec::new();
    put_u64(&mut buf, stats.bytes, big_endian);
    put_u32(&mut buf, stats.packets, big_endian);
    put_u32(&mut buf, 0, big_endian);
    proof {
        lemma_word_bytes_len(stats.bytes as nat, 8, big_endian);
        lemma_word_bytes_len(stats.packets as nat, 4, big_endian);
        lemma_word_bytes_len(0, 4, big_endian);
        assert(buf@ =~= basic_bytes(*stats, big_endian));
    }
    buf
}

/// The words that follow one another in a sequence of bytes are read back
/// one by one: the second of two.
proof fn lemma_second_word(a: Seq<u8>, value: nat, len: nat, c: Seq<u8>, big_endian: bool)
    ensures
        word(a + word_bytes(value, len, big_endian) + c, a.len() as int, len, big_endian) == value
            % radix(len),
        (a + word_bytes(value, len, big_endian) + c).len() == a.len() + len + c.len(),
{
    let b = word_bytes(value, len, big_endian);
    lemma_word_bytes_len(value, len, big_endian);
    lemma_word_of_bytes(value, len, big_endian);
    lemma_word_prefix(a + b, c, a.len() as int, len, big_endian);
    lemma_word_shift(a, b, 0, len, big_endian);
}

/// Basic statistics that are written are read back as they were.
pub proof fn lemma_basic_round_trip(stats: GnetStatsBasic, big_endian: bool)
    ensures
        basic_in(basic_bytes(stats, big_endian), big_endian) == Ok::<GnetStatsBasic, WireError>(
            stats,
        ),
{
    reveal_with_fuel(radix, 9);
    let a = word_bytes(stats.bytes as nat, 8, big_endian);
    let b = word_bytes(stats.packets as nat, 4, big_endian);
    let c = word_bytes(0, 4, big_endian);
    let none = Seq::<u8>::empty();
    let all = basic_bytes(stats, big_endian);
    lemma_word_bytes_len(stats.bytes as nat, 8, big_endian);
    lemma_word_bytes_len(stats.packets as nat, 4, big_endian);
    lemma_word_bytes_len(0, 4, big_endian);
    assert(radix(8) == 0x1_0000_0000_0000_0000);
    assert(radix(4) == 0x1_0000_0000);
    assert(none + a + (b + c) =~= all);
    lemma_second_word(none, stats.bytes as nat, 8, b + c, big_endian);
    assert(word(all, 0, 8, big_endian) == stats.bytes);
    assert(a + b + c =~= all);
    lemma_second_word(a, stats.packets as nat, 4, c, big_endian);
    assert(word(all, 8, 4, big_endian) == stats.packets);
    assert(a + b + c + none =~= all);
    lemma_second_word(a + b, 0, 4, none, big_endian);
    assert(word(all, 12, 4, big_endian) == 0);
    assert(all.len() == 16);
}

/// The bytes of the queue statistics of a queueing discipline.
pub open spec fn queue_bytes(stats: GnetStatsQueue, big_endian: bool) -> Seq<u8> {
    word_bytes(stats.qlen as nat, 4, big_endian) + word_bytes(stats.backlog as nat, 4, big_endian)
        + word_bytes(stats.drops as nat, 4, big_endian) + word_bytes(
        stats.requeues as nat,
        4,
        big_endian,
    ) + word_bytes(stats.overlimits as nat, 4, big_endian)
}

/// Writes the queue statistics of a queueing discipline.
pub fn encode_queue(stats: &GnetStatsQueue, big_endian: bool) -> (r: Vec<u8>)
    ensures
        r@ == queue_bytes(*stats, big_endian),
        r.len() == QUEUE_SIZE,
{
    let mut buf: Vec<u8> = Vec::new();
    put_u32(&mut buf, stats.qlen, big_endian);
    put_u32(&mut buf, stats.backlog, big_endian);
    put_u32(&mut buf, stats.drops, big_endian);
    put_u32(&mut buf, stats.requeues, big_endian);
    put_u32(&mut buf, stats.overlimits, big_endian);
    proof {
        lemma_word_bytes_len(stats.qlen as nat, 4, big_endian);
        lemma_word_bytes_len(stats.backlog as nat, 4, big_endian);
        lemma_word_bytes_len(stats.drops as nat, 4, big_endian);
        lemma_word_bytes_len(stats.requeues as nat, 4, big_endian);
        lemma_word_bytes_len(stats.overlimits as nat, 4, big_endian);
        assert(buf@ =~= queue_bytes(*stats, big_endian));
    }
    buf
}

/// Queue statistics that are written are read back as they were.
pub proof fn lemma_queue_round_trip(stats: GnetStatsQueue, big_endian: bool)
    ensures
        queue_in(queue_bytes(stats, big_endian), big_endian) == Ok::<GnetStatsQueue, WireError>(
            stats,
        ),
{
    reveal_with_fuel(radix, 5);
    let a = word_bytes(stats.qlen as nat, 4, big_endian);
    let b = word_bytes(stats.backlog as nat, 4, big_endian);
    let c = word_bytes(stats.drops as nat, 4, big_endian);
    let d = word_bytes(stats.requeues as nat, 4, big_endian);
    let e = word_bytes(stats.overlimits as nat, 4, big_endian);
    let none = Seq::<u8>::empty();
    let all = queue_bytes(stats, big_endian);
    lemma_word_bytes_len(stats.qlen as nat, 4, big_endian);
    lemma_word_bytes_len(stats.backlog as nat, 4, big_endian);
    lemma_word_bytes_len(stats.drops as nat, 4, big_endian);
    lemma_word_bytes_len(stats.requeues as nat, 4, big_endian);
    lemma_word_bytes_len(stats.overlimits as nat, 4, big_endian);
    assert(radix(4) == 0x1_0000_0000);
    assert(none + a + (b + c + d + e) =~= all);
    lemma_second_word(none, stats.qlen as nat, 4, b + c + d + e, big_endian);
    assert(word(all, 0, 4, big_endian) == stats.qlen);
    assert(a + b + (c + d + e) =~= all);
    lemma_second_word(a, stats.backlog as nat, 4, c + d + e, big_endian);
    assert(word(all, 4, 4, big_endian) == stats.backlog);
    assert(a + b + c + (d + e) =~= all);
    lemma_second_word(a + b, stats.drops as nat, 4, d + e, big_endian);
    assert(word(all, 8, 4, big_endian) == stats.drops);
    assert(a + b + c + d + e =~= all);
    lemma_second_word(a + b + c, stats.requeues as nat, 4, e, big_endian);
    assert(word(all, 12, 4, big_endian) == stats.requeues);
    assert(a + b + c + d + e + none =~= all);
    lemma_second_word(a + b + c + d, stats.overlimits as nat, 4, none, big_endian);
    assert(word(all, 16, 4, big_endian) == stats.overlimits);
    assert(all.len() == 20);
}

/// The bytes of the rate estimates of a queueing discipline, in words of
/// `width` bytes.
pub open spec fn rate_est_bytes(stats: GnetStatsRateEst, width: nat, big_endian: bool) -> Seq<u8> {
    word_bytes(stats.bps as nat, width, big_endian) + word_bytes(
        stats.pps as nat,
        width,
        big_endian,
    )
}

/// Writes the rate estimates of a queueing discipline, in words of four
/// bytes where `wide` is false and of eight where it is true. In words of
/// four bytes an estimate loses what does not fit.
pub fn encode_rate_est(stats: &GnetStatsRateEst, wide: bool, big_endian: bool) -> (r: Vec<u8>)
    ensures
        r@ == rate_est_bytes(
            *stats,
            if wide {
                8
            } else {
                4
            },
            big_endian,
        ),
        r.len() == if wide {
            16int
        } else {
            8int
        },
{
    let width: usize = if wide {
        8
    } else {
        4
    };
    let mut buf: Vec<u8> = Vec::new();
    put_word(&mut buf, stats.bps, width, big_endian);
    put_word(&mut buf, stats.pps, width, big_endian);
    proof {
        lemma_word_bytes_len(stats.bps as nat, width as nat, big_endian);
        lemma_word_bytes_len(stats.pps as nat, width as nat, big_endian);
        assert(buf@ =~= rate_est_bytes(*stats, width as nat, big_endian));
    }
    buf
}

/// Rate estimates that are written in words wide enough for them are read
/// back as they were.
pub proof fn lemma_rate_est_round_trip(stats: GnetStatsRateEst, width: nat, big_endian: bool)
    requires
        width == 4 || width == 8,
        stats.bps < radix(width),
        stats.pps < radix(width),
    ensures
        rate_est_in(rate_est_bytes(stats, width, big_endian), width, big_endian) == Ok::<
            GnetStatsRateEst,
            WireError,
        >(stats),
{
    let a = word_bytes(stats.bps as nat, width, big_endian);
    let b = word_bytes(stats.pps as nat, width, big_endian);
    let none = Seq::<u8>::empty();
    let all = rate_est_bytes(stats, width, big_endian);
    lemma_small_mod(stats.bps as nat, radix(width));
    lemma_small_mod(stats.pps as nat, radix(width));
    lemma_word_bytes_len(stats.bps as nat, width, big_endian);
    lemma_word_bytes_len(stats.pps as nat, width, big_endian);
    assert(none + a + b =~= all);
    lemma_second_word(none, stats.bps as nat, width, b, big_endian);
    assert(word(all, 0, width, big_endian) == stats.bps);
    assert(a + b + none =~= all);
    lemma_second_word(a, stats.pps as nat, width, none, big_endian);
    assert(word(all, width as int, width, big_endian) == stats.pps);
    assert(all.len() == 2 * width);
}

/// The bytes of the statistics of random early detection.
pub open spec fn red_bytes(stats: TcRedXstats, big_endian: bool) -> Seq<u8> {
    word_bytes(stats.early as nat, 4, big_endian) + word_bytes(stats.pdrop as nat, 4, big_endian)
        + word_bytes(stats.other as nat, 4, big_endian) + word_bytes(
        stats.marked as nat,
        4,
        big_endian,
    )
}

/// Writes the statistics of random early detection.
pub fn encode_red(stats: &TcRedXstats, big_endian: bool) -> (r: Vec<u8>)
    ensures
        r@ == red_bytes(*stats, big_endian),
        r.len() == RED_SIZE,
{
    let mut buf: Vec<u8> = Vec::new();
    put_u32(&mut buf, stats.early, big_endian);
    put_u32(&mut buf, stats.pdrop, big_endian);
    put_u32(&mut buf, stats.other, big_endian);
    put_u32(&mut buf, stats.marked, big_endian);
    proof {
        lemma_word_bytes_len(stats.early as nat, 4, big_endian);
        lemma_word_bytes_len(stats.pdrop as nat, 4, big_endian);
        lemma_word_bytes_len(stats.other as nat, 4, big_endian);
        lemma_word_bytes_len(stats.marked as nat, 4, big_endian);
        assert(buf@ =~= red_bytes(*stats, big_endian));
    }
    buf
}

/// Statistics of random early detection that are written are read back as
/// they were.
pub proof fn lemma_red_round_trip(stats: TcRedXstats, big_endian: bool)
    ensures
        red_in(red_bytes(stats, big_endian), big_endian) == Ok::<TcRedXstats, WireError>(stats),
{
    reveal_with_fuel(radix, 5);
    let a = word_bytes(stats.early as nat, 4, big_endian);
    let b = word_bytes(stats.pdrop as nat, 4, big_endian);
    let c = word_bytes(stats.other as nat, 4, big_endian);
    let d = word_bytes(stats.marked as nat, 4, big_endian);
    let none = Seq::<u8>::empty();
    let all = red_bytes(stats, big_endian);
    lemma_word_bytes_len(stats.early as nat, 4, big_endian);
    lemma_word_bytes_len(stats.pdrop as nat, 4, big_endian);
    lemma_word_bytes_len(stats.other as nat, 4, big_endian);
    lemma_word_bytes_len(stats.marked as nat, 4, big_endian);
    assert(radix(4) == 0x1_0000_0000);
    assert(none + a + (b + c + d) =~= all);
    lemma_second_word(none, stats.early as nat, 4, b + c + d, big_endian);
    assert(word(all, 0, 4, big_endian) == stats.early);
    assert(a + b + (c + d) =~= all);
    lemma_second_word(a, stats.pdrop as nat, 4, c + d, big_endian);
    assert(word(all, 4, 4, big_endian) == stats.pdrop);
    assert(a + b + c + d =~= all);
    lemma_second_word(a + b, stats.other as nat, 4, d, big_endian);
    assert(word(all, 8, 4, big_endian) == stats.other);
    assert(a + b + c + d + none =~= all);
    lemma_second_word(a + b + c, stats.marked as nat, 4, none, big_endian);
    assert(word(all, 12, 4, big_endian) == stats.marked);
    assert(all.len() == 16);
}

/// The bytes of a list of numbers, each in a word of `width` bytes.
pub open spec fn words_bytes(values: Seq<nat>, width: nat, big_endian: bool) -> Seq<u8>
    decreases values.len(),
{
    if values.len() == 0 {
        Seq::empty()
    } else {
        words_bytes(values.drop_last(), width, big_endian) + word_bytes(
            values.last(),
            width,
            big_endian,
        )
    }
}

/// The words of a list of numbers are read back one by one, each less what
/// did not fit into its bytes.
pub proof fn lemma_words_bytes(values: Seq<nat>, width: nat, big_endian: bool, index: int)
    requires
        0 <= index < values.len(),
    ensures
        words_bytes(values, width, big_endian).len() == values.len() * width,
        word(words_bytes(values, width, big_endian), index * width, width, big_endian)
            == values[index] % radix(width),
    decreases values.len(),
{
    let before = words_bytes(values.drop_last(), width, big_endian);
    let last = word_bytes(values.last(), width, big_endian);
    lemma_word_bytes_len(values.last(), width, big_endian);
    lemma_words_bytes_len(values.drop_last(), width, big_endian);
    assert(values.len() * width == (values.len() - 1) * width + width) by (nonlinear_arith);
    if index == values.len() - 1 {
        lemma_word_of_bytes(values.last(), width, big_endian);
        lemma_word_shift(before, last, 0, width, big_endian);
    } else {
        lemma_words_bytes(values.drop_last(), width, big_endian, index);
        assert(index * width + width <= (values.len() - 1) * width) by (nonlinear_arith)
            requires
                0 <= index < values.len() - 1,
        ;
        lemma_word_prefix(before, last, index * width, width, big_endian);
    }
}

/// The bytes of a list of numbers are as many as the words are long.
pub proof fn lemma_words_bytes_len(values: Seq<nat>, width: nat, big_endian: bool)
    ensures
        words_bytes(values, width, big_endian).len() == values.len() * width,
    decreases values.len(),
{
    if values.len() > 0 {
        lemma_words_bytes_len(values.drop_last(), width, big_endian);
        lemma_word_bytes_len(values.last(), width, big_endian);
        assert(values.len() * width == (values.len() - 1) * width + width) by (nonlinear_arith);
    } else {
        assert(values.len() * width == 0) by (nonlinear_arith)
            requires
                values.len() == 0,
        ;
    }
}

/// The counters of a link, in their order.
pub open spec fn link_values(stats: RtnlLinkStats) -> Seq<nat> {
    seq![
        stats.rx_packets as nat,
        stats.tx_packets as nat,
        stats.rx_bytes as nat,
        stats.tx_bytes as nat,
        stats.rx_errors as nat,
        stats.tx_errors as nat,
        stats.rx_dropped as nat,
        stats.tx_dropped as nat,
        stats.multicast as nat,
        stats.collisions as nat,
        stats.rx_length_errors as nat,
        stats.rx_over_errors as nat,
        stats.rx_crc_errors as nat,
        stats.rx_frame_errors as nat,
        stats.rx_fifo_errors as nat,
        stats.rx_missed_errors as nat,
        stats.tx_aborted_errors as nat,
        stats.tx_carrier_errors as nat,
        stats.tx_fifo_errors as nat,
        stats.tx_heartbeat_errors as nat,
        stats.tx_window_errors as nat,
        stats.rx_compressed as nat,
        stats.tx_compressed as nat,
        stats.rx_nohandler as nat,
    ]
}

/// The bytes of the counters of a link, in words of `width` bytes.
pub open spec fn link_stats_bytes(stats: RtnlLinkStats, width: nat, big_endian: bool) -> Seq<u8> {
    words_bytes(link_values(stats), width, big_endian)
}

/// Writes the counters of a link, in words of four bytes where `wide` is
/// false and of eight where it is true. In words of four bytes a counter
/// loses what does not fit.
pub fn encode_link_stats(stats: &RtnlLinkStats, wide: bool, big_endian: bool) -> (r: Vec<u8>)
    ensures
        r@ == link_stats_bytes(
            *stats,
            if wide {
                8
            } else {
                4
            },
            big_endian,
        ),
        r.len() == if wide {
            192int
        } else {
            96int
        },
{
    let width: usize = if wide {
        8
    } else {
        4
    };
    let mut buf: Vec<u8> = Vec::new();
    assert(link_values(*stats).take(0) =~= Seq::<nat>::empty());
    assert(buf@ =~= words_bytes(link_values(*stats).take(0), width as nat, big_endian));
    put_word(&mut buf, stats.rx_packets, width, big_endian);
    assert(buf@ =~= words_bytes(link_values(*stats).take(1), width as nat, big_endian)) by {
        assert(link_values(*stats).take(1).drop_last() =~= link_values(*stats).take(0));
    }
    put_word(&mut buf, stats.tx_packets, width, big_endian);
    assert(buf@ =~= words_bytes(link_values(*stats).take(2), width as nat, big_endian)) by {
        assert(link_values(*stats).take(2).drop_last() =~= link_values(*stats).take(1));
    }
    put_word(&mut buf, stats.rx_bytes, width, big_endian);
    assert(buf@ =~= words_bytes(link_values(*stats).take(3), width as nat, big_endian)) by {
        assert(link_values(*stats).take(3).drop_last() =~= link_values(*stats).take(2));
    }
    put_word(&mut buf, stats.tx_bytes, width, big_endian);
    assert(buf@ =~= words_bytes(link_values(*stats).take(4), width as nat, big_endian)) by {
        assert(link_values(*stats).take(4).drop_last() =~= link_values(*stats).take(3));
    }
    put_word(&mut buf, stats.rx_errors, width, big_endian);
    assert(buf@ =~= words_bytes(link_values(*stats).take(5), width as nat, big_endian)) by {
        assert(link_values(*stats).take(5).drop_last() =~= link_values(*stats).take(4));
    }
    put_word(&mut buf, stats.tx_errors, width, big_endian);
    assert(buf@ =~= words_bytes(link_values(*stats).take(6), width as nat, big_endian)) by {
        assert(link_values(*stats).take(6).drop_last() =~= link_values(*stats).take(5));
    }
    put_word(&mut buf, stats.rx_dropped, width, big_endian);
    assert(buf@ =~= words_bytes(link_values(*stats).take(7), width as nat, big_endian)) by {
        assert(link_values(*stats).take(7).drop_last() =~= link_values(*stats).take(6));
    }
    put_word(&mut buf, stats.tx_dropped, width, big_endian);
    assert(buf@ =~= words_bytes(link_values(*stats).take(8), width as nat, big_endian)) by {
        assert(link_values(*stats).take(8).drop_last() =~= link_values(*stats).take(7));
    }
    put_word(&mut buf, stats.multicast, width, big_endian);
    assert(buf@ =~= words_bytes(link_values(*stats).take(9), width as nat, big_endian)) by {
        assert(link_values(*stats).take(9).drop_last() =~= link_values(*stats).take(8));
    }
    put_word(&mut buf, stats.collisions, width, big_endian);
    assert(buf@ =~= words_bytes(link_values(*stats).take(10), width as nat, big_endian)) by {
        assert(link_values(*stats).take(10).drop_last() =~= link_values(*stats).take(9));
    }
    put_word(&mut buf, stats.rx_length_errors, width, big_endian);
    assert(buf@ =~= words_bytes(link_values(*stats).take(11), width as nat, big_endian)) by {
        assert(link_values(*stats).take(11).drop_last() =~= link_values(*stats).take(10));
    }
    put_word(&mut buf, stats.rx_over_errors, width, big_endian);
    assert(buf@ =~= words_bytes(link_values(*stats).take(12), width as nat, big_endian)) by {
        assert(link_values(*stats).take(12).drop_last() =~= link_values(*stats).take(11));
    }
    put_word(&mut buf, stats.rx_crc_errors, width, big_endian);
    assert(buf@ =~= words_bytes(link_values(*stats).take(13), width as nat, big_endian)) by {
        assert(link_values(*stats).take(13).drop_last() =~= link_values(*stats).take(12));
    }
    put_word(&mut buf, stats.rx_frame_errors, width, big_endian);
    assert(buf@ =~= words_bytes(link_values(*stats).take(14), width as nat, big_endian)) by {
        assert(link_values(*stats).take(14).drop_last() =~= link_values(*stats).take(13));
    }
    put_word(&mut buf, stats.rx_fifo_errors, width, big_endian);
    assert(buf@ =~= words_bytes(link_values(*stats).take(15), width as nat, big_endian)) by {
        assert(link_values(*stats).take(15).drop_last() =~= link_values(*stats).take(14));
    }
    put_word(&mut buf, stats.rx_missed_errors, width, big_endian);
    assert(buf@ =~= words_bytes(link_values(*stats).take(16), width as nat, big_endian)) by {
        assert(link_values(*stats).take(16).drop_last() =~= link_values(*stats).take(15));
    }
    put_word(&mut buf, stats.tx_aborted_errors, width, big_endian);
    assert(buf@ =~= words_bytes(link_values(*stats).take(17), width as nat, big_endian)) by {
        assert(link_values(*stats).take(17).drop_last() =~= link_values(*stats).take(16));
    }
    put_word(&mut buf, stats.tx_carrier_errors, width, big_endian);
    assert(buf@ =~= words_bytes(link_values(*stats).take(18), width as nat, big_endian)) by {
        assert(link_values(*stats).take(18).drop_last() =~= link_values(*stats).take(17));
    }
    put_word(&mut buf, stats.tx_fifo_errors, width, big_endian);
    assert(buf@ =~= words_bytes(link_values(*stats).take(19), width as nat, big_endian)) by {
        assert(link_values(*stats).take(19).drop_last() =~= link_values(*stats).take(18));
    }
    put_word(&mut buf, stats.tx_heartbeat_errors, width, big_endian);
    assert(buf@ =~= words_bytes(link_values(*stats).take(20), width as nat, big_endian)) by {
        assert(link_values(*stats).take(20).drop_last() =~= link_values(*stats).take(19));
    }
    put_word(&mut buf, stats.tx_window_errors, width, big_endian);
    assert(buf@ =~= words_bytes(link_values(*stats).take(21), width as nat, big_endian)) by {
        assert(link_values(*stats).take(21).drop_last() =~= link_values(*stats).take(20));
    }
    put_word(&mut buf, stats.rx_compressed, width, big_endian);
    assert(buf@ =~= words_bytes(link_values(*stats).take(22), width as nat, big_endian)) by {
        assert(link_values(*stats).take(22).drop_last() =~= link_values(*stats).take(21));
    }
    put_word(&mut buf, stats.tx_compressed, width, big_endian);
    assert(buf@ =~= words_bytes(link_values(*stats).take(23), width as nat, big_endian)) by {
        assert(link_values(*stats).take(23).drop_last() =~= link_values(*stats).take(22));
    }
    put_word(&mut buf, stats.rx_nohandler, width, big_endian);
    assert(buf@ =~= words_bytes(link_values(*stats).take(24), width as nat, big_endian)) by {
        assert(link_values(*stats).take(24).drop_last() =~= link_values(*stats).take(23));
    }
    proof {
        assert(link_values(*stats).take(24) =~= link_values(*stats));
        lemma_words_bytes_len(link_values(*stats), width as nat, big_endian);
    }
    buf
}

/// Counters of a link that are written in words of eight bytes are read
/// back as they were.
pub proof fn lemma_link_stats_round_trip(stats: RtnlLinkStats, big_endian: bool)
    ensures
        link_stats_in(link_stats_bytes(stats, 8, big_endian), 8, big_endian) == Ok::<
            RtnlLinkStats,
            WireError,
        >(stats),
{
    reveal_with_fuel(radix, 9);
    assert(radix(8) == 0x1_0000_0000_0000_0000);
    let values = link_values(stats);
    let bytes = link_stats_bytes(stats, 8, big_endian);
    lemma_words_bytes_len(values, 8, big_endian);
    lemma_words_bytes(values, 8, big_endian, 0);
    assert(link_counter(bytes, 0, 8, big_endian) == stats.rx_packets);
    lemma_words_bytes(values, 8, big_endian, 1);
    assert(link_counter(bytes, 1, 8, big_endian) == stats.tx_packets);
    lemma_words_bytes(values, 8, big_endian, 2);
    assert(link_counter(bytes, 2, 8, big_endian) == stats.rx_bytes);
    lemma_words_bytes(values, 8, big_endian, 3);
    assert(link_counter(bytes, 3, 8, big_endian) == stats.tx_bytes);
    lemma_words_bytes(values, 8, big_endian, 4);
    assert(link_counter(bytes, 4, 8, big_endian) == stats.rx_errors);
    lemma_words_bytes(values, 8, big_endian, 5);
    assert(link_counter(bytes, 5, 8, big_endian) == stats.tx_errors);
    lemma_words_bytes(values, 8, big_endian, 6);
    assert(link_counter(bytes, 6, 8, big_endian) == stats.rx_dropped);
    lemma_words_bytes(values, 8, big_endian, 7);
    assert(link_counter(bytes, 7, 8, big_endian) == stats.tx_dropped);
    lemma_words_bytes(values, 8, big_endian, 8);
    assert(link_counter(bytes, 8, 8, big_endian) == stats.multicast);
    lemma_words_bytes(values, 8, big_endian, 9);
    assert(link_counter(bytes, 9, 8, big_endian) == stats.collisions);
    lemma_words_bytes(values, 8, big_endian, 10);
    assert(link_counter(bytes, 10, 8, big_endian) == stats.rx_length_errors);
    lemma_words_bytes(values, 8, big_endian, 11);
    assert(link_counter(bytes, 11, 8, big_endian) == stats.rx_over_errors);
    lemma_words_bytes(values, 8, big_endian, 12);
    assert(link_counter(bytes, 12, 8, big_endian) == stats.rx_crc_errors);
    lemma_words_bytes(values, 8, big_endian, 13);
    assert(link_counter(bytes, 13, 8, big_endian) == stats.rx_frame_errors);
    lemma_words_bytes(values, 8, big_endian, 14);
    assert(link_counter(bytes, 14, 8, big_endian) == stats.rx_fifo_errors);
    lemma_words_bytes(values, 8, big_endian, 15);
    assert(link_counter(bytes, 15, 8, big_endian) == stats.rx_missed_errors);
    lemma_words_bytes(values, 8, big_endian, 16);
    assert(link_counter(bytes, 16, 8, big_endian) == stats.tx_aborted_errors);
    lemma_words_bytes(values, 8, big_endian, 17);
    assert(link_counter(bytes, 17, 8, big_endian) == stats.tx_carrier_errors);
    lemma_words_bytes(values, 8, big_endian, 18);
    assert(link_counter(bytes, 18, 8, big_endian) == stats.tx_fifo_errors);
    lemma_words_bytes(values, 8, big_endian, 19);
    assert(link_counter(bytes, 19, 8, big_endian) == stats.tx_heartbeat_errors);
    lemma_words_bytes(values, 8, big_endian, 20);
    assert(link_counter(bytes, 20, 8, big_endian) == stats.tx_window_errors);
    lemma_words_bytes(values, 8, big_endian, 21);
    assert(link_counter(bytes, 21, 8, big_endian) == stats.rx_compressed);
    lemma_words_bytes(values, 8, big_endian, 22);
    assert(link_counter(bytes, 22, 8, big_endian) == stats.tx_compressed);
    lemma_words_bytes(values, 8, big_endian, 23);
    assert(link_counter(bytes, 23, 8, big_endian) == stats.rx_nohandler);
}

} // verus!
