//! What the statistics of links and of queueing disciplines look like once
//! they have been read, and the named counters that they are made into.

use crate::ct::{
    bytes_bits_ps_chain, bytes_chain, packets_ps_chain, unit_bytes, unit_bytes_bits_ps,
    unit_packets_ps, UnitChain, UnitChainView,
};
use crate::text::same_text;
use std::collections::HashMap;
use vstd::prelude::*;
use vstd::string::*;

verus! {

broadcast use vstd::std_specs::hash::group_hash_axioms;

/// The counters of a link.
#[derive(Debug, Clone, Copy, PartialEq, Eq, Structural)]
pub struct RtnlLinkStats {
    pub rx_packets: u64,
    pub tx_packets: u64,
    pub rx_bytes: u64,
    pub tx_bytes: u64,
    pub rx_errors: u64,
    pub tx_errors: u64,
    pub rx_dropped: u64,
    pub tx_dropped: u64,
    pub multicast: u64,
    pub collisions: u64,
    pub rx_length_errors: u64,
    pub rx_over_errors: u64,
    pub rx_crc_errors: u64,
    pub rx_frame_errors: u64,
    pub rx_fifo_errors: u64,
    pub rx_missed_errors: u64,
    pub tx_aborted_errors: u64,
    pub tx_carrier_errors: u64,
    pub tx_fifo_errors: u64,
    pub tx_heartbeat_errors: u64,
    pub tx_window_errors: u64,
    pub rx_compressed: u64,
    pub tx_compressed: u64,
    pub rx_nohandler: u64,
}

/// What is known of one link: its index, its name, and its counters if it
/// reported any.
#[derive(Debug)]
pub struct LinkInfo {
    pub index: i32,
    pub ifname: String,
    pub stats: Option<RtnlLinkStats>,
}

/// The mathematical value of a [`LinkInfo`].
pub struct LinkInfoView {
    pub index: i32,
    pub ifname: Seq<char>,
    pub stats: Option<RtnlLinkStats>,
}

impl View for LinkInfo {
    type V = LinkInfoView;

    open spec fn view(&self) -> LinkInfoView {
        LinkInfoView { index: self.index, ifname: self.ifname@, stats: self.stats }
    }
}

/// One named statistic of a link.
#[derive(Debug)]
pub struct LinkStat {
    pub ifname: String,
    pub name: String,
    pub value: u64,
    pub default_unit: UnitChain,
}

/// The mathematical value of a [`LinkStat`].
pub struct LinkStatView {
    pub ifname: Seq<char>,
    pub name: Seq<char>,
    pub value: u64,
    pub default_unit: UnitChainView,
}

impl View for LinkStat {
    type V = LinkStatView;

    open spec fn view(&self) -> LinkStatView {
        LinkStatView {
            ifname: self.ifname@,
            name: self.name@,
            value: self.value,
            default_unit: self.default_unit@,
        }
    }
}

/// The mathematical values of a sequence of link statistics.
pub open spec fn link_stat_views(s: Seq<LinkStat>) -> Seq<LinkStatView> {
    Seq::new(s.len(), |i: int| s[i]@)
}

/// The names of the links, in order.
pub open spec fn names_of(links: Seq<LinkInfo>) -> Seq<Seq<char>> {
    Seq::new(links.len(), |i: int| links[i].ifname@)
}

/// The names of the links, in order.
pub fn ifnames(links: &Vec<LinkInfo>) -> (r: Vec<String>)
    ensures
        r.deep_view() == names_of(links@),
{
    let mut r: Vec<String> = Vec::new();
    let mut i: usize = 0;
    while i < links.len()
        invariant
            i <= links.len(),
            r.len() == i,
            forall|k: int| 0 <= k < i ==> (#[trigger] r@[k])@ == links@[k].ifname@,
        decreases links.len() - i,
    {
        r.push(links[i].ifname.clone());
        i += 1;
    }
    assert(r.deep_view() =~= names_of(links@));
    r
}

/// The name that each link index stands for. Where an index occurs more
/// than once, the last link with it counts.
pub open spec fn index_names(links: Seq<LinkInfo>) -> Map<i32, Seq<char>>
    decreases links.len(),
{
    if links.len() == 0 {
        Map::empty()
    } else {
        index_names(links.drop_last()).insert(links.last().index, links.last().ifname@)
    }
}

/// The names in a map from link indices to names.
pub open spec fn map_names(m: Map<i32, String>) -> Map<i32, Seq<char>> {
    Map::new(|k: i32| m.contains_key(k), |k: i32| m[k]@)
}

/// The map from link indices to link names.
pub fn ifindex_map(links: &Vec<LinkInfo>) -> (r: HashMap<i32, String>)
    ensures
        map_names(r@) == index_names(links@),
{
    let mut r: HashMap<i32, String> = HashMap::new();
    let mut i: usize = 0;
    assert(links@.take(0) =~= Seq::<LinkInfo>::empty());
    assert(map_names(r@) =~= index_names(links@.take(0)));
    while i < links.len()
        invariant
            i <= links.len(),
            map_names(r@) == index_names(links@.take(i as int)),
        decreases links.len() - i,
    {
        let ghost before = r@;
        r.insert(links[i].index, links[i].ifname.clone());
        proof {
            assert(links@.take(i + 1).drop_last() =~= links@.take(i as int));
            assert(links@.take(i + 1).last() == links@[i as int]);
            assert(map_names(r@) =~= map_names(before).insert(
                links@[i as int].index,
                links@[i as int].ifname@,
            ));
        }
        i += 1;
    }
    assert(links@.take(links.len() as int) =~= links@);
    r
}

/// The named statistics that the counters of a link are made into: name,
/// value and default unit of each, in the order of the counters. Bytes are
/// shown as bits per second, everything else as packets per second.
pub open spec fn link_rows(stats: RtnlLinkStats) -> Seq<(Seq<char>, u64, UnitChainView)> {
    seq![
        ("rx_packets"@, stats.rx_packets, packets_ps_chain()),
        ("tx_packets"@, stats.tx_packets, packets_ps_chain()),
        ("rx_bytes"@, stats.rx_bytes, bytes_bits_ps_chain()),
        ("tx_bytes"@, stats.tx_bytes, bytes_bits_ps_chain()),
        ("rx_errors"@, stats.rx_errors, packets_ps_chain()),
        ("tx_errors"@, stats.tx_errors, packets_ps_chain()),
        ("rx_dropped"@, stats.rx_dropped, packets_ps_chain()),
        ("tx_dropped"@, stats.tx_dropped, packets_ps_chain()),
        ("multicast"@, stats.multicast, packets_ps_chain()),
        ("collisions"@, stats.collisions, packets_ps_chain()),
        ("rx_length_errors"@, stats.rx_length_errors, packets_ps_chain()),
        ("rx_over_errors"@, stats.rx_over_errors, packets_ps_chain()),
        ("rx_crc_errors"@, stats.rx_crc_errors, packets_ps_chain()),
        ("rx_frame_errors"@, stats.rx_frame_errors, packets_ps_chain()),
        ("rx_fifo_errors"@, stats.rx_fifo_errors, packets_ps_chain()),
        ("rx_missed_errors"@, stats.rx_missed_errors, packets_ps_chain()),
        ("tx_aborted_errors"@, stats.tx_aborted_errors, packets_ps_chain()),
        ("tx_carrier_errors"@, stats.tx_carrier_errors, packets_ps_chain()),
        ("tx_fifo_errors"@, stats.tx_fifo_errors, packets_ps_chain()),
        ("tx_heartbeat_errors"@, stats.tx_heartbeat_errors, packets_ps_chain()),
        ("tx_window_errors"@, stats.tx_window_errors, packets_ps_chain()),
        ("rx_compressed"@, stats.rx_compressed, packets_ps_chain()),
        ("tx_compressed"@, stats.tx_compressed, packets_ps_chain()),
        ("rx_nohandler"@, stats.rx_nohandler, packets_ps_chain()),
    ]
}

/// The named statistics of a link with the name `ifname`.
pub open spec fn link_stats_of(ifname: Seq<char>, stats: RtnlLinkStats) -> Seq<LinkStatView> {
    Seq::new(
        link_rows(stats).len(),
        |i: int|
            LinkStatView {
                ifname,
                name: link_rows(stats)[i].0,
                value: link_rows(stats)[i].1,
                default_unit: link_rows(stats)[i].2,
            },
    )
}

fn push_link_stat(
    ret: &mut Vec<LinkStat>,
    ifname: &String,
    name: &str,
    value: u64,
    default_unit: UnitChain,
)
    ensures
        link_stat_views(final(ret)@) == link_stat_views(old(ret)@).push(
            LinkStatView { ifname: ifname@, name: name@, value, default_unit: default_unit@ },
        ),
{
    ret.push(
        LinkStat { ifname: ifname.clone(), name: String::from_str(name), value, default_unit },
    );
    assert(link_stat_views(ret@) =~= link_stat_views(old(ret)@).push(
        LinkStatView { ifname: ifname@, name: name@, value, default_unit: default_unit@ },
    ));
}

/// The named statistics of one link; see [`link_rows`].
pub fn link_stats(ifname: &String, stats: &RtnlLinkStats) -> (r: Vec<LinkStat>)
    ensures
        link_stat_views(r@) == link_stats_of(ifname@, *stats),
{
    let mut ret: Vec<LinkStat> = Vec::new();
    assert(link_stat_views(ret@) =~= Seq::<LinkStatView>::empty());
    push_link_stat(&mut ret, ifname, "rx_packets", stats.rx_packets, unit_packets_ps());
    push_link_stat(&mut ret, ifname, "tx_packets", stats.tx_packets, unit_packets_ps());
    push_link_stat(&mut ret, ifname, "rx_bytes", stats.rx_bytes, unit_bytes_bits_ps());
    push_link_stat(&mut ret, ifname, "tx_bytes", stats.tx_bytes, unit_bytes_bits_ps());
    push_link_stat(&mut ret, ifname, "rx_errors", stats.rx_errors, unit_packets_ps());
    push_link_stat(&mut ret, ifname, "tx_errors", stats.tx_errors, unit_packets_ps());
    push_link_stat(&mut ret, ifname, "rx_dropped", stats.rx_dropped, unit_packets_ps());
    push_link_stat(&mut ret, ifname, "tx_dropped", stats.tx_dropped, unit_packets_ps());
    push_link_stat(&mut ret, ifname, "multicast", stats.multicast, unit_packets_ps());
    push_link_stat(&mut ret, ifname, "collisions", stats.collisions, unit_packets_ps());
    push_link_stat(&mut ret, ifname, "rx_length_errors", stats.rx_length_errors, unit_packets_ps());
    push_link_stat(&mut ret, ifname, "rx_over_errors", stats.rx_over_errors, unit_packets_ps());
    push_link_stat(&mut ret, ifname, "rx_crc_errors", stats.rx_crc_errors, unit_packets_ps());
    push_link_stat(&mut ret, ifname, "rx_frame_errors", stats.rx_frame_errors, unit_packets_ps());
    push_link_stat(&mut ret, ifname, "rx_fifo_errors", stats.rx_fifo_errors, unit_packets_ps());
    push_link_stat(&mut ret, ifname, "rx_missed_errors", stats.rx_missed_errors, unit_packets_ps());
    push_link_stat(
        &mut ret,
        ifname,
        "tx_aborted_errors",
        stats.tx_aborted_errors,
        unit_packets_ps(),
    );
    push_link_stat(
        &mut ret,
        ifname,
        "tx_carrier_errors",
        stats.tx_carrier_errors,
        unit_packets_ps(),
    );
    push_link_stat(&mut ret, ifname, "tx_fifo_errors", stats.tx_fifo_errors, unit_packets_ps());
    push_link_stat(
        &mut ret,
        ifname,
        "tx_heartbeat_errors",
        stats.tx_heartbeat_errors,
        unit_packets_ps(),
    );
    push_link_stat(&mut ret, ifname, "tx_window_errors", stats.tx_window_errors, unit_packets_ps());
    push_link_stat(&mut ret, ifname, "rx_compressed", stats.rx_compressed, unit_packets_ps());
    push_link_stat(&mut ret, ifname, "tx_compressed", stats.tx_compressed, unit_packets_ps());
    push_link_stat(&mut ret, ifname, "rx_nohandler", stats.rx_nohandler, unit_packets_ps());
    assert(link_stat_views(ret@) =~= link_stats_of(ifname@, *stats));
    ret
}

/// The named statistics of the links that reported counters, link after
/// link.
pub open spec fn all_link_stats(links: Seq<LinkInfo>) -> Seq<LinkStatView>
    decreases links.len(),
{
    if links.len() == 0 {
        Seq::empty()
    } else {
        all_link_stats(links.drop_last()) + (match links.last().stats {
            Some(stats) => link_stats_of(links.last().ifname@, stats),
            None => Seq::empty(),
        })
    }
}

/// The named statistics of the links that reported counters, link after
/// link.
pub fn get_link_stats(links: &Vec<LinkInfo>) -> (r: Vec<LinkStat>)
    ensures
        link_stat_views(r@) == all_link_stats(links@),
{
    let mut ret: Vec<LinkStat> = Vec::new();
    let mut i: usize = 0;
    assert(links@.take(0) =~= Seq::<LinkInfo>::empty());
    assert(link_stat_views(ret@) =~= all_link_stats(links@.take(0)));
    while i < links.len()
        invariant
            i <= links.len(),
            link_stat_views(ret@) == all_link_stats(links@.take(i as int)),
        decreases links.len() - i,
    {
        proof {
            assert(links@.take(i + 1).drop_last() =~= links@.take(i as int));
            assert(links@.take(i + 1).last() == links@[i as int]);
        }
        match &links[i].stats {
            Some(stats) => {
                let ghost before = ret@;
                let mut more = link_stats(&links[i].ifname, stats);
                let ghost added = more@;
                ret.append(&mut more);
                assert(link_stat_views(ret@) =~= link_stat_views(before) + link_stat_views(added));
            },
            None => {
                assert(link_stat_views(ret@) + Seq::<LinkStatView>::empty() =~= link_stat_views(
                    ret@,
                ));
            },
        }
        i += 1;
    }
    assert(links@.take(links.len() as int) =~= links@);
    ret
}

/// One named statistic of a queueing discipline.
#[derive(Debug)]
pub struct QdiscStat {
    pub ifname: String,
    pub kind: String,
    pub handle: u32,
    pub parent: u32,
    pub name: String,
    pub value: u64,
    pub default_unit: UnitChain,
}

/// The mathematical value of a [`QdiscStat`].
pub struct QdiscStatView {
    pub ifname: Seq<char>,
    pub kind: Seq<char>,
    pub handle: u32,
    pub parent: u32,
    pub name: Seq<char>,
    pub value: u64,
    pub default_unit: UnitChainView,
}

impl View for QdiscStat {
    type V = QdiscStatView;

    open spec fn view(&self) -> QdiscStatView {
        QdiscStatView {
            ifname: self.ifname@,
            kind: self.kind@,
            handle: self.handle,
            parent: self.parent,
            name: self.name@,
            value: self.value,
            default_unit: self.default_unit@,
        }
    }
}

/// The mathematical values of a sequence of statistics of queueing
/// disciplines.
pub open spec fn qdisc_stat_views(stats: Seq<QdiscStat>) -> Seq<QdiscStatView> {
    Seq::new(stats.len(), |i: int| stats[i]@)
}

/// The statistics gathered of one queueing discipline while its report is
/// read.
#[derive(Debug)]
pub struct QdiscStatsAux {
    pub stats: Vec<QdiscStat>,
    pub ifname: String,
    pub handle: u32,
    pub parent: u32,
}

/// The mathematical value of a [`QdiscStatsAux`].
pub struct QdiscStatsAuxView {
    pub stats: Seq<QdiscStatView>,
    pub ifname: Seq<char>,
    pub handle: u32,
    pub parent: u32,
}

impl View for QdiscStatsAux {
    type V = QdiscStatsAuxView;

    open spec fn view(&self) -> QdiscStatsAuxView {
        QdiscStatsAuxView {
            stats: qdisc_stat_views(self.stats@),
            ifname: self.ifname@,
            handle: self.handle,
            parent: self.parent,
        }
    }
}

impl QdiscStatsAuxView {
    /// The gathered statistics with one more: the counter `name` of the
    /// discipline's kind `kind`.
    pub open spec fn with(
        self,
        kind: Seq<char>,
        name: Seq<char>,
        value: u64,
        default_unit: UnitChainView,
    ) -> QdiscStatsAuxView {
        QdiscStatsAuxView {
            stats: self.stats.push(
                QdiscStatView {
                    ifname: self.ifname,
                    kind,
                    handle: self.handle,
                    parent: self.parent,
                    name,
                    value,
                    default_unit,
                },
            ),
            ..self
        }
    }
}

/// A kind of queueing discipline that reports statistics of its own.
#[derive(Debug, Clone, Copy, PartialEq, Eq, Structural)]
pub enum QdiscApp {
    /// Random early detection.
    Red,
}

/// The kind of queueing discipline with statistics of its own that has the
/// name `kind`, if there is one.
pub fn app_parser_for(kind: &str) -> (r: Option<QdiscApp>)
    ensures
        r == if kind@ == "red"@ {
            Some(QdiscApp::Red)
        } else {
            None
        },
{
    if same_text(kind, "red") {
        Some(QdiscApp::Red)
    } else {
        None
    }
}

impl QdiscStatsAux {
    /// Nothing gathered yet of the discipline `handle` under `parent` on the
    /// interface `ifname`.
    pub fn new(ifname: &str, handle: u32, parent: u32) -> (r: QdiscStatsAux)
        ensures
            r@ == (QdiscStatsAuxView { stats: Seq::empty(), ifname: ifname@, handle, parent }),
    {
        let r = QdiscStatsAux {
            stats: Vec::new(),
            ifname: String::from_str(ifname),
            handle,
            parent,
        };
        assert(r@.stats =~= Seq::<QdiscStatView>::empty());
        r
    }

    /// Adds one counter of the discipline.
    pub fn push_counter(&mut self, kind: &String, name: &str, value: u64, default_unit: UnitChain)
        ensures
            final(self)@ == old(self)@.with(kind@, name@, value, default_unit@),
    {
        self.stats.push(
            QdiscStat {
                ifname: self.ifname.clone(),
                kind: kind.clone(),
                handle: self.handle,
                parent: self.parent,
                name: String::from_str(name),
                value,
                default_unit,
            },
        );
        assert(self@.stats =~= old(self)@.with(kind@, name@, value, default_unit@).stats);
    }

    /// Adds the basic counters of the discipline: bytes, shown as bits per
    /// second, and packets.
    pub fn push_basic(&mut self, kind: &String, bytes: u64, packets: u32)
        ensures
            final(self)@ == old(self)@.with(kind@, "bytes"@, bytes, bytes_bits_ps_chain()).with(
                kind@,
                "packets"@,
                packets as u64,
                packets_ps_chain(),
            ),
    {
        self.push_counter(kind, "bytes", bytes, unit_bytes_bits_ps());
        self.push_counter(kind, "packets", packets as u64, unit_packets_ps());
    }

    /// Adds the queue counters of the discipline: the queue length and the
    /// backlog in bytes, and the drops, requeues and overlimits in packets
    /// per second.
    pub fn push_queue(
        &mut self,
        kind: &String,
        qlen: u32,
        backlog: u32,
        drops: u32,
        requeues: u32,
        overlimits: u32,
    )
        ensures
            final(self)@ == old(self)@.with(kind@, "qlen"@, qlen as u64, bytes_chain()).with(
                kind@,
                "backlog"@,
                backlog as u64,
                bytes_chain(),
            ).with(kind@, "drops"@, drops as u64, packets_ps_chain()).with(
                kind@,
                "requeues"@,
                requeues as u64,
                packets_ps_chain(),
            ).with(kind@, "overlimits"@, overlimits as u64, packets_ps_chain()),
    {
        self.push_counter(kind, "qlen", qlen as u64, unit_bytes());
        self.push_counter(kind, "backlog", backlog as u64, unit_bytes());
        self.push_counter(kind, "drops", drops as u64, unit_packets_ps());
        self.push_counter(kind, "requeues", requeues as u64, unit_packets_ps());
        self.push_counter(kind, "overlimits", overlimits as u64, unit_packets_ps());
    }

    /// Adds the rate estimates of the discipline: bytes per second, shown as
    /// bits per second, and packets per second.
    pub fn push_rate_est(&mut self, kind: &String, bps: u64, pps: u64)
        ensures
            final(self)@ == old(self)@.with(kind@, "bps"@, bps, bytes_bits_ps_chain()).with(
                kind@,
                "pps"@,
                pps,
                packets_ps_chain(),
            ),
    {
        self.push_counter(kind, "bps", bps, unit_bytes_bits_ps());
        self.push_counter(kind, "pps", pps, unit_packets_ps());
    }

    /// Adds the counters that random early detection reports of its own:
    /// early drops, drops at the queue limit, other drops, and marked
    /// packets.
    pub fn push_red(&mut self, kind: &String, early: u32, pdrop: u32, other: u32, marked: u32)
        ensures
            final(self)@ == old(self)@.with(kind@, "early"@, early as u64, packets_ps_chain()).with(
                kind@,
                "pdrop"@,
                pdrop as u64,
                packets_ps_chain(),
            ).with(kind@, "other"@, other as u64, packets_ps_chain()).with(
                kind@,
                "marked"@,
                marked as u64,
                packets_ps_chain(),
            ),
    {
        self.push_counter(kind, "early", early as u64, unit_packets_ps());
        self.push_counter(kind, "pdrop", pdrop as u64, unit_packets_ps());
        self.push_counter(kind, "other", other as u64, unit_packets_ps());
        self.push_counter(kind, "marked", marked as u64, unit_packets_ps());
    }
}

} // verus!
