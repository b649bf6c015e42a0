//! Counter rules, units and rolling samples for a live view of network
//! interface counters.
//!
//! A list of words is parsed into rules ([`parse_expr`]). Each polling cycle
//! the rules select samples from what the counter sources report
//! ([`CounterRule::counters`]), the samples are merged into the rolling state
//! of the counters ([`cycle`]), and each counter's value and average are
//! derived, converted along its unit chain and written in human units
//! ([`lines`], [`render_row`]).
//!
//! What the counter sources report is read from the bytes that the kernel
//! hands out: the statistics of an interface from the buffers of an ioctl
//! ([`stats_for`]), links and queueing disciplines from the attributes of
//! routing messages ([`get_linkinfo`], [`qdiscs`]).

pub mod ct;
pub mod ethtool_ss;
pub mod expr;
pub mod filter;
pub mod grammar;
pub mod history;
pub mod key;
pub mod netlink;
pub mod parse;
pub mod pattern;
pub mod render;
pub mod rtnl;
pub mod rule;
pub mod table;
pub mod text;
pub mod value;
pub mod wire;

pub use crate::ct::{
    can_convert, compose, convert, humanize, rescale, unit_bytes, unit_bytes_bits_ps,
    unit_packets_ps, unit_units_ps, UBase, UFreq, UPfx, Unit, UnitChain,
};
pub use crate::ethtool_ss::{pair_stats, stats_for, IfStats, Stat};
pub use crate::filter::{apply_filters, CounterValueFilter, NonZeroCounterFilter};
pub use crate::history::{
    age_and_trim, ages_fit, all_can_derive, all_wf, can_derive, cycle, derive_line, evict,
    is_shown, lines, merge, poll, take_in, try_cycle, try_poll, CounterHistory, CounterLine,
    Timing,
};
pub use crate::key::{all_heads, CounterImm, CounterKey, KeyHead, ALL_HEADS};
pub use crate::netlink::{get_link_stats, ifindex_map, ifnames, LinkStat, QdiscStat};
pub use crate::parse::{parse_expr, ParseError};
pub use crate::render::{
    can_render, cell, column_widths, freq_lead, render_row, unit_suffix, Row,
};
pub use crate::rtnl::{get_linkinfo, qdiscs};
pub use crate::rule::{
    CounterNameMatch, CounterRule, EthtoolCounterRule, QdiscCounterRule, QdiscHandleMatch,
    QdiscHandlePartMatch,
};
pub use crate::value::Value;
