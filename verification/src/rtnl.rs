//! What the attributes of a routing message say of a link or of a queueing
//! discipline.
//!
//! A message is read into attributes elsewhere: each attribute has a type
//! and a payload of bytes. Here the payloads are read, and the counters
//! that they hold are gathered.

use crate::ct::{bytes_bits_ps_chain, bytes_chain, packets_ps_chain};
use crate::netlink::{
    app_parser_for, ifindex_map, index_names, map_names, qdisc_stat_views, LinkInfo, LinkInfoView,
    QdiscApp, QdiscStat, QdiscStatView, QdiscStatsAux, QdiscStatsAuxView, RtnlLinkStats,
};
use crate::text::{chars_of, lossy_text, string_of, utf8_lossy, utf8_text};
use crate::wire::{
    basic_in, decode_basic, decode_link_stats, decode_queue, decode_rate_est, decode_red,
    link_stats_in, queue_in, rate_est_in, red_in, WireError,
};
use std::collections::HashMap;
use vstd::prelude::*;
use vstd::slice::slice_subrange;
use vstd::string::*;
use vstd::utf8::{decode_utf8, valid_utf8};

verus! {

broadcast use vstd::std_specs::hash::group_hash_axioms;

/// The type of the attribute that holds the name of a link.
pub const IFLA_IFNAME: u16 = 3;

/// The type of the attribute that holds the counters of a link in words of
/// four bytes.
pub const IFLA_STATS: u16 = 7;

/// The type of the attribute that holds the counters of a link in words of
/// eight bytes.
pub const IFLA_STATS64: u16 = 23;

/// The type of the attribute that holds the kind of a queueing discipline.
pub const TCA_KIND: u16 = 1;

/// The type of the attribute in which the statistics of a queueing
/// discipline are nested.
pub const TCA_STATS2: u16 = 7;

/// The type of the nested attribute that holds the basic statistics.
pub const TCA_STATS_BASIC: u16 = 1;

/// The type of the nested attribute that holds the rate estimates in words
/// of four bytes.
pub const TCA_STATS_RATE_EST: u16 = 2;

/// The type of the nested attribute that holds the queue statistics.
pub const TCA_STATS_QUEUE: u16 = 3;

/// The type of the nested attribute that holds the statistics of the
/// discipline's own kind.
pub const TCA_STATS_APP: u16 = 4;

/// The type of the nested attribute that holds the rate estimates in words
/// of eight bytes.
pub const TCA_STATS_RATE_EST64: u16 = 5;

/// One attribute: its type and its payload.
#[derive(Debug)]
pub struct Attr {
    pub kind: u16,
    pub payload: Vec<u8>,
}

/// The mathematical values of a sequence of attributes.
pub open spec fn attr_views(attrs: Seq<Attr>) -> Seq<(u16, Seq<u8>)> {
    Seq::new(attrs.len(), |i: int| (attrs[i].kind, attrs[i].payload@))
}

/// One attribute of a queueing discipline: its type, its payload, and the
/// attributes nested in the payload where it is the statistics attribute.
#[derive(Debug)]
pub struct QdiscAttr {
    pub kind: u16,
    pub payload: Vec<u8>,
    pub nested: Vec<Attr>,
}

/// The mathematical value of a [`QdiscAttr`].
pub struct QdiscAttrView {
    pub kind: u16,
    pub payload: Seq<u8>,
    pub nested: Seq<(u16, Seq<u8>)>,
}

impl View for QdiscAttr {
    type V = QdiscAttrView;

    open spec fn view(&self) -> QdiscAttrView {
        QdiscAttrView {
            kind: self.kind,
            payload: self.payload@,
            nested: attr_views(self.nested@),
        }
    }
}

/// The mathematical values of a sequence of attributes of a queueing
/// discipline.
pub open spec fn qdisc_attr_views(attrs: Seq<QdiscAttr>) -> Seq<QdiscAttrView> {
    Seq::new(attrs.len(), |i: int| attrs[i]@)
}

/// What has been seen of a link while its attributes are read.
pub struct LinkSeen {
    pub ifname: Option<Seq<char>>,
    pub stats: Option<RtnlLinkStats>,
}

/// What has been seen of a link once one more attribute is read. The name
/// attribute holds the name and a final zero byte; the two statistics
/// attributes hold the counters in words of four and of eight bytes; other
/// attributes are passed over.
pub open spec fn link_attr(seen: LinkSeen, kind: u16, payload: Seq<u8>, big_endian: bool) -> Result<
    LinkSeen,
    WireError,
> {
    if kind == IFLA_IFNAME {
        if payload.len() == 0 {
            Err(WireError::Short)
        } else {
            Ok(LinkSeen { ifname: Some(lossy_text(payload.drop_last())), ..seen })
        }
    } else if kind == IFLA_STATS64 || kind == IFLA_STATS {
        match link_stats_in(
            payload,
            if kind == IFLA_STATS64 {
                8
            } else {
                4
            },
            big_endian,
        ) {
            Ok(stats) => Ok(LinkSeen { stats: Some(stats), ..seen }),
            Err(e) => Err(e),
        }
    } else {
        Ok(seen)
    }
}

/// What has been seen of a link once the attributes from position `from` on
/// are read, one after the other.
pub open spec fn link_attrs_from(
    seen: LinkSeen,
    attrs: Seq<(u16, Seq<u8>)>,
    from: int,
    big_endian: bool,
) -> Result<LinkSeen, WireError>
    decreases attrs.len() - from,
{
    if from < 0 || from >= attrs.len() {
        Ok(seen)
    } else {
        match link_attr(seen, attrs[from].0, attrs[from].1, big_endian) {
            Ok(next) => link_attrs_from(next, attrs, from + 1, big_endian),
            Err(e) => Err(e),
        }
    }
}

/// What the attributes of a link message say of the link with the index
/// `index`: its name and its counters, where they name it at all.
pub open spec fn link_info_in(index: i32, attrs: Seq<(u16, Seq<u8>)>, big_endian: bool) -> Result<
    Option<LinkInfoView>,
    WireError,
> {
    match link_attrs_from(LinkSeen { ifname: None, stats: None }, attrs, 0, big_endian) {
        Ok(seen) => Ok(
            match seen.ifname {
                Some(ifname) => Some(LinkInfoView { index, ifname, stats: seen.stats }),
                None => None,
            },
        ),
        Err(e) => Err(e),
    }
}

/// A link or nothing, and the error, seen as their mathematical values.
pub open spec fn link_outcome(r: Result<Option<LinkInfo>, WireError>) -> Result<
    Option<LinkInfoView>,
    WireError,
> {
    match r {
        Ok(Some(info)) => Ok(Some(info@)),
        Ok(None) => Ok(None),
        Err(e) => Err(e),
    }
}

/// Reads the attributes of a link message; see [`link_info_in`].
pub fn ifla_link_info(index: i32, attrs: &Vec<Attr>, big_endian: bool) -> (r: Result<
    Option<LinkInfo>,
    WireError,
>)
    ensures
        link_outcome(r) == link_info_in(index, attr_views(attrs@), big_endian),
{
    let ghost views = attr_views(attrs@);
    let ghost start = LinkSeen { ifname: None, stats: None };
    let mut ifname: Option<String> = None;
    let mut stats: Option<RtnlLinkStats> = None;
    let mut i: usize = 0;
    while i < attrs.len()
        invariant
            i <= attrs.len(),
            views == attr_views(attrs@),
            start == (LinkSeen { ifname: None, stats: None }),
            link_attrs_from(start, views, 0, big_endian) == link_attrs_from(
                LinkSeen {
                    ifname: match ifname {
                        Some(name) => Some(name@),
                        None => None,
                    },
                    stats,
                },
                views,
                i as int,
                big_endian,
            ),
        decreases attrs.len() - i,
    {
        let attr = &attrs[i];
        assert(views[i as int] == (attr.kind, attr.payload@));
        if attr.kind == IFLA_IFNAME {
            if attr.payload.len() == 0 {
                return Err(WireError::Short);
            }
            let name = slice_subrange(attr.payload.as_slice(), 0, attr.payload.len() - 1);
            assert(name@ =~= attr.payload@.drop_last());
            ifname = Some(utf8_lossy(name));
        } else if attr.kind == IFLA_STATS64 || attr.kind == IFLA_STATS {
            match decode_link_stats(&attr.payload, attr.kind == IFLA_STATS64, big_endian) {
                Ok(decoded) => {
                    stats = Some(decoded);
                },
                Err(e) => {
                    return Err(e);
                },
            }
        }
        i += 1;
    }
    match ifname {
        Some(ifname) => Ok(Some(LinkInfo { index, ifname, stats })),
        None => Ok(None),
    }
}

/// The kind that the payload of a kind attribute names: its text without
/// the final character, which is a zero.
pub open spec fn kind_text(payload: Seq<u8>) -> Seq<char> {
    let text = decode_utf8(payload);
    if text.len() > 0 {
        text.drop_last()
    } else {
        text
    }
}

/// The statistics gathered once one more nested attribute is read: basic
/// statistics, rate estimates, queue statistics, or those of the
/// discipline's own kind, where that kind has any; other attributes are
/// passed over.
pub open spec fn stats2_attr(
    aux: QdiscStatsAuxView,
    kind: Seq<char>,
    code: u16,
    payload: Seq<u8>,
    big_endian: bool,
) -> Result<QdiscStatsAuxView, WireError> {
    if code == TCA_STATS_BASIC {
        match basic_in(payload, big_endian) {
            Ok(s) => Ok(
                aux.with(kind, "bytes"@, s.bytes, bytes_bits_ps_chain()).with(
                    kind,
                    "packets"@,
                    s.packets as u64,
                    packets_ps_chain(),
                ),
            ),
            Err(e) => Err(e),
        }
    } else if code == TCA_STATS_QUEUE {
        match queue_in(payload, big_endian) {
            Ok(s) => Ok(
                aux.with(kind, "qlen"@, s.qlen as u64, bytes_chain()).with(
                    kind,
                    "backlog"@,
                    s.backlog as u64,
                    bytes_chain(),
                ).with(kind, "drops"@, s.drops as u64, packets_ps_chain()).with(
                    kind,
                    "requeues"@,
                    s.requeues as u64,
                    packets_ps_chain(),
                ).with(kind, "overlimits"@, s.overlimits as u64, packets_ps_chain()),
            ),
            Err(e) => Err(e),
        }
    } else if code == TCA_STATS_RATE_EST || code == TCA_STATS_RATE_EST64 {
        match rate_est_in(
            payload,
            if code == TCA_STATS_RATE_EST64 {
                8
            } else {
                4
            },
            big_endian,
        ) {
            Ok(s) => Ok(
                aux.with(kind, "bps"@, s.bps, bytes_bits_ps_chain()).with(
                    kind,
                    "pps"@,
                    s.pps,
                    packets_ps_chain(),
                ),
            ),
            Err(e) => Err(e),
        }
    } else if code == TCA_STATS_APP && kind == "red"@ {
        match red_in(payload, big_endian) {
            Ok(s) => Ok(
                aux.with(kind, "early"@, s.early as u64, packets_ps_chain()).with(
                    kind,
                    "pdrop"@,
                    s.pdrop as u64,
                    packets_ps_chain(),
                ).with(kind, "other"@, s.other as u64, packets_ps_chain()).with(
                    kind,
                    "marked"@,
                    s.marked as u64,
                    packets_ps_chain(),
                ),
            ),
            Err(e) => Err(e),
        }
    } else {
        Ok(aux)
    }
}

/// The statistics gathered once the nested attributes from position `from`
/// on are read, one after the other.
pub open spec fn stats2_from(
    aux: QdiscStatsAuxView,
    kind: Seq<char>,
    attrs: Seq<(u16, Seq<u8>)>,
    from: int,
    big_endian: bool,
) -> Result<QdiscStatsAuxView, WireError>
    decreases attrs.len() - from,
{
    if from < 0 || from >= attrs.len() {
        Ok(aux)
    } else {
        match stats2_attr(aux, kind, attrs[from].0, attrs[from].1, big_endian) {
            Ok(next) => stats2_from(next, kind, attrs, from + 1, big_endian),
            Err(e) => Err(e),
        }
    }
}

/// What has been seen of a queueing discipline while its attributes are
/// read: its kind, and the statistics gathered.
pub struct QdiscSeen {
    pub kind: Seq<char>,
    pub aux: QdiscStatsAuxView,
}

/// What has been seen of a queueing discipline once one more attribute is
/// read. The kind attribute names the kind, which has to be valid text; the
/// statistics attribute adds what is nested in it, under the kind that is
/// known by then; other attributes are passed over.
pub open spec fn qdisc_attr(seen: QdiscSeen, attr: QdiscAttrView, big_endian: bool) -> Result<
    QdiscSeen,
    WireError,
> {
    if attr.kind == TCA_KIND {
        if valid_utf8(attr.payload) {
            Ok(QdiscSeen { kind: kind_text(attr.payload), ..seen })
        } else {
            Err(WireError::Text)
        }
    } else if attr.kind == TCA_STATS2 {
        match stats2_from(seen.aux, seen.kind, attr.nested, 0, big_endian) {
            Ok(aux) => Ok(QdiscSeen { aux, ..seen }),
            Err(e) => Err(e),
        }
    } else {
        Ok(seen)
    }
}

/// What has been seen of a queueing discipline once the attributes from
/// position `from` on are read, one after the other.
pub open spec fn qdisc_attrs_from(
    seen: QdiscSeen,
    attrs: Seq<QdiscAttrView>,
    from: int,
    big_endian: bool,
) -> Result<QdiscSeen, WireError>
    decreases attrs.len() - from,
{
    if from < 0 || from >= attrs.len() {
        Ok(seen)
    } else {
        match qdisc_attr(seen, attrs[from], big_endian) {
            Ok(next) => qdisc_attrs_from(next, attrs, from + 1, big_endian),
            Err(e) => Err(e),
        }
    }
}

/// The statistics that the attributes of a message say of the queueing
/// discipline `handle` under `parent` on the interface `ifname`.
pub open spec fn qdisc_stats_in(
    ifname: Seq<char>,
    handle: u32,
    parent: u32,
    attrs: Seq<QdiscAttrView>,
    big_endian: bool,
) -> Result<Seq<QdiscStatView>, WireError> {
    match qdisc_attrs_from(
        QdiscSeen {
            kind: Seq::empty(),
            aux: QdiscStatsAuxView { stats: Seq::empty(), ifname, handle, parent },
        },
        attrs,
        0,
        big_endian,
    ) {
        Ok(seen) => Ok(seen.aux.stats),
        Err(e) => Err(e),
    }
}

/// Statistics or an error, seen as their mathematical values.
pub open spec fn stats_outcome(r: Result<Vec<QdiscStat>, WireError>) -> Result<
    Seq<QdiscStatView>,
    WireError,
> {
    match r {
        Ok(stats) => Ok(qdisc_stat_views(stats@)),
        Err(e) => Err(e),
    }
}

/// Gathered statistics or an error, seen as their mathematical values.
pub open spec fn aux_outcome(r: Result<QdiscStatsAux, WireError>) -> Result<
    QdiscStatsAuxView,
    WireError,
> {
    match r {
        Ok(aux) => Ok(aux@),
        Err(e) => Err(e),
    }
}

/// Reads one nested statistics attribute into the gathered statistics; see
/// [`stats2_attr`].
pub fn read_stats2(
    gathered: QdiscStatsAux,
    kind: &String,
    attr: &Attr,
    big_endian: bool,
) -> (r: Result<QdiscStatsAux, WireError>)
    ensures
        aux_outcome(r) == stats2_attr(gathered@, kind@, attr.kind, attr.payload@, big_endian),
{
    let mut aux = gathered;
    if attr.kind == TCA_STATS_BASIC {
        match decode_basic(&attr.payload, big_endian) {
            Ok(s) => {
                aux.push_basic(kind, s.bytes, s.packets);
            },
            Err(e) => {
                return Err(e);
            },
        }
    } else if attr.kind == TCA_STATS_QUEUE {
        match decode_queue(&attr.payload, big_endian) {
            Ok(s) => {
                aux.push_queue(kind, s.qlen, s.backlog, s.drops, s.requeues, s.overlimits);
            },
            Err(e) => {
                return Err(e);
            },
        }
    } else if attr.kind == TCA_STATS_RATE_EST || attr.kind == TCA_STATS_RATE_EST64 {
        match decode_rate_est(&attr.payload, attr.kind == TCA_STATS_RATE_EST64, big_endian) {
            Ok(s) => {
                aux.push_rate_est(kind, s.bps, s.pps);
            },
            Err(e) => {
                return Err(e);
            },
        }
    } else if attr.kind == TCA_STATS_APP {
        match app_parser_for(kind.as_str()) {
            Some(QdiscApp::Red) => {
                match decode_red(&attr.payload, big_endian) {
                    Ok(s) => {
                        aux.push_red(kind, s.early, s.pdrop, s.other, s.marked);
                    },
                    Err(e) => {
                        return Err(e);
                    },
                }
            },
            None => {},
        }
    }
    Ok(aux)
}

/// Reads the nested statistics attributes into the gathered statistics, one
/// after the other; see [`stats2_from`].
pub fn read_stats2_all(
    gathered: QdiscStatsAux,
    kind: &String,
    nested: &Vec<Attr>,
    big_endian: bool,
) -> (r: Result<QdiscStatsAux, WireError>)
    ensures
        aux_outcome(r) == stats2_from(gathered@, kind@, attr_views(nested@), 0, big_endian),
{
    let ghost views = attr_views(nested@);
    let ghost start = gathered@;
    let mut aux = gathered;
    let mut j: usize = 0;
    while j < nested.len()
        invariant
            j <= nested.len(),
            views == attr_views(nested@),
            start == gathered@,
            stats2_from(start, kind@, views, 0, big_endian) == stats2_from(
                aux@,
                kind@,
                views,
                j as int,
                big_endian,
            ),
        decreases nested.len() - j,
    {
        assert(views[j as int] == (nested[j as int].kind, nested[j as int].payload@));
        match read_stats2(aux, kind, &nested[j], big_endian) {
            Ok(next) => {
                aux = next;
            },
            Err(e) => {
                return Err(e);
            },
        }
        j += 1;
    }
    Ok(aux)
}

/// Reads the kind of a queueing discipline from the payload of its kind
/// attribute.
pub fn read_kind(payload: &Vec<u8>) -> (r: Result<String, WireError>)
    ensures
        match r {
            Ok(kind) => valid_utf8(payload@) && kind@ == kind_text(payload@),
            Err(e) => !valid_utf8(payload@) && e == WireError::Text,
        },
{
    match utf8_text(payload.as_slice()) {
        Some(text) => {
            let chars = chars_of(text.as_str());
            if chars.len() > 0 {
                let kind = string_of(&chars, 0, chars.len() - 1);
                assert(kind@ =~= text@.drop_last());
                Ok(kind)
            } else {
                Ok(text)
            }
        },
        None => Err(WireError::Text),
    }
}

/// Reads the attributes of the message of one queueing discipline; see
/// [`qdisc_stats_in`].
pub fn qdisc_stats(
    ifname: &str,
    handle: u32,
    parent: u32,
    attrs: &Vec<QdiscAttr>,
    big_endian: bool,
) -> (r: Result<Vec<QdiscStat>, WireError>)
    ensures
        stats_outcome(r) == qdisc_stats_in(
            ifname@,
            handle,
            parent,
            qdisc_attr_views(attrs@),
            big_endian,
        ),
{
    let ghost views = qdisc_attr_views(attrs@);
    let mut aux = QdiscStatsAux::new(ifname, handle, parent);
    let mut kind = String::new();
    let ghost start = QdiscSeen { kind: kind@, aux: aux@ };
    let mut i: usize = 0;
    while i < attrs.len()
        invariant
            i <= attrs.len(),
            views == qdisc_attr_views(attrs@),
            start == (QdiscSeen {
                kind: Seq::empty(),
                aux: QdiscStatsAuxView { stats: Seq::empty(), ifname: ifname@, handle, parent },
            }),
            qdisc_attrs_from(start, views, 0, big_endian) == qdisc_attrs_from(
                QdiscSeen { kind: kind@, aux: aux@ },
                views,
                i as int,
                big_endian,
            ),
        decreases attrs.len() - i,
    {
        let attr = &attrs[i];
        assert(views[i as int] == attr@);
        if attr.kind == TCA_KIND {
            match read_kind(&attr.payload) {
                Ok(text) => {
                    kind = text;
                },
                Err(e) => {
                    return Err(e);
                },
            }
        } else if attr.kind == TCA_STATS2 {
            match read_stats2_all(aux, &kind, &attr.nested, big_endian) {
                Ok(next) => {
                    aux = next;
                },
                Err(e) => {
                    return Err(e);
                },
            }
        }
        i += 1;
    }
    Ok(aux.stats)
}

/// One link message: the index of the link, and its attributes.
#[derive(Debug)]
pub struct LinkMsg {
    pub index: i32,
    pub attrs: Vec<Attr>,
}

/// The mathematical values of a sequence of link messages.
pub open spec fn link_msg_views(msgs: Seq<LinkMsg>) -> Seq<(i32, Seq<(u16, Seq<u8>)>)> {
    Seq::new(msgs.len(), |i: int| (msgs[i].index, attr_views(msgs[i].attrs@)))
}

/// The mathematical values of a sequence of links.
pub open spec fn link_views(links: Seq<LinkInfo>) -> Seq<LinkInfoView> {
    Seq::new(links.len(), |i: int| links[i]@)
}

/// What a link that may be absent adds to a list.
pub open spec fn maybe_link(o: Option<LinkInfoView>) -> Seq<LinkInfoView> {
    match o {
        Some(info) => seq![info],
        None => Seq::empty(),
    }
}

/// The links that the messages from position `from` on name, in the order
/// of the messages; the first message that cannot be read is an error.
pub open spec fn links_from(
    msgs: Seq<(i32, Seq<(u16, Seq<u8>)>)>,
    from: int,
    big_endian: bool,
) -> Result<Seq<LinkInfoView>, WireError>
    decreases msgs.len() - from,
{
    if from < 0 || from >= msgs.len() {
        Ok(Seq::empty())
    } else {
        match link_info_in(msgs[from].0, msgs[from].1, big_endian) {
            Err(e) => Err(e),
            Ok(first) => match links_from(msgs, from + 1, big_endian) {
                Err(e) => Err(e),
                Ok(rest) => Ok(maybe_link(first) + rest),
            },
        }
    }
}

/// Links or an error, seen as their mathematical values.
pub open spec fn links_outcome(r: Result<Vec<LinkInfo>, WireError>) -> Result<
    Seq<LinkInfoView>,
    WireError,
> {
    match r {
        Ok(links) => Ok(link_views(links@)),
        Err(e) => Err(e),
    }
}

/// The links that a list of link messages names; see [`links_from`].
pub fn get_linkinfo(msgs: &Vec<LinkMsg>, big_endian: bool) -> (r: Result<Vec<LinkInfo>, WireError>)
    ensures
        links_outcome(r) == links_from(link_msg_views(msgs@), 0, big_endian),
{
    let ghost views = link_msg_views(msgs@);
    let mut ret: Vec<LinkInfo> = Vec::new();
    let mut i: usize = 0;
    proof {
        match links_from(views, 0, big_endian) {
            Ok(rest) => {
                assert(link_views(ret@) + rest =~= rest);
            },
            Err(e) => {},
        }
    }
    while i < msgs.len()
        invariant
            i <= msgs.len(),
            views == link_msg_views(msgs@),
            match links_from(views, i as int, big_endian) {
                Err(e) => links_from(views, 0, big_endian) == Err::<Seq<LinkInfoView>, WireError>(
                    e,
                ),
                Ok(rest) => links_from(views, 0, big_endian) == Ok::<
                    Seq<LinkInfoView>,
                    WireError,
                >(link_views(ret@) + rest),
            },
        decreases msgs.len() - i,
    {
        assert(views[i as int] == (msgs[i as int].index, attr_views(msgs[i as int].attrs@)));
        let ghost before = ret@;
        match ifla_link_info(msgs[i].index, &msgs[i].attrs, big_endian) {
            Err(e) => {
                return Err(e);
            },
            Ok(Some(info)) => {
                let ghost info_view = info@;
                ret.push(info);
                proof {
                    assert(link_views(ret@) =~= link_views(before).push(info_view));
                    match links_from(views, i + 1, big_endian) {
                        Ok(rest) => {
                            assert(link_views(ret@) + rest =~= link_views(before) + (seq![
                                info_view,
                            ] + rest));
                        },
                        Err(e) => {},
                    }
                }
            },
            Ok(None) => {
                proof {
                    match links_from(views, i + 1, big_endian) {
                        Ok(rest) => {
                            assert(link_views(ret@) + rest =~= link_views(before) + (Seq::<
                                LinkInfoView,
                            >::empty() + rest));
                        },
                        Err(e) => {},
                    }
                }
            },
        }
        i += 1;
    }
    assert(link_views(ret@) + Seq::<LinkInfoView>::empty() =~= link_views(ret@));
    Ok(ret)
}

/// One message of a queueing discipline: the index of its interface, its
/// handle, the handle of its parent, and its attributes.
#[derive(Debug)]
pub struct QdiscMsg {
    pub ifindex: i32,
    pub handle: u32,
    pub parent: u32,
    pub attrs: Vec<QdiscAttr>,
}

/// The mathematical value of a [`QdiscMsg`].
pub struct QdiscMsgView {
    pub ifindex: i32,
    pub handle: u32,
    pub parent: u32,
    pub attrs: Seq<QdiscAttrView>,
}

impl View for QdiscMsg {
    type V = QdiscMsgView;

    open spec fn view(&self) -> QdiscMsgView {
        QdiscMsgView {
            ifindex: self.ifindex,
            handle: self.handle,
            parent: self.parent,
            attrs: qdisc_attr_views(self.attrs@),
        }
    }
}

/// The mathematical values of a sequence of messages of queueing
/// disciplines.
pub open spec fn qdisc_msg_views(msgs: Seq<QdiscMsg>) -> Seq<QdiscMsgView> {
    Seq::new(msgs.len(), |i: int| msgs[i]@)
}

/// The statistics of the queueing discipline of one message, where the
/// index of its interface is a known one; a message of an unknown interface
/// gives no statistics.
pub open spec fn qdisc_message_in(
    names: Map<i32, Seq<char>>,
    msg: QdiscMsgView,
    big_endian: bool,
) -> Result<Seq<QdiscStatView>, WireError> {
    if names.contains_key(msg.ifindex) {
        qdisc_stats_in(names[msg.ifindex], msg.handle, msg.parent, msg.attrs, big_endian)
    } else {
        Ok(Seq::empty())
    }
}

/// Reads the statistics of the queueing discipline of one message; see
/// [`qdisc_message_in`].
pub fn qdisc_message(
    names: &HashMap<i32, String>,
    ifindex: i32,
    handle: u32,
    parent: u32,
    attrs: &Vec<QdiscAttr>,
    big_endian: bool,
) -> (r: Result<Vec<QdiscStat>, WireError>)
    ensures
        stats_outcome(r) == qdisc_message_in(
            map_names(names@),
            QdiscMsgView { ifindex, handle, parent, attrs: qdisc_attr_views(attrs@) },
            big_endian,
        ),
{
    match names.get(&ifindex) {
        Some(ifname) => qdisc_stats(ifname.as_str(), handle, parent, attrs, big_endian),
        None => {
            let none: Vec<QdiscStat> = Vec::new();
            assert(qdisc_stat_views(none@) =~= Seq::<QdiscStatView>::empty());
            Ok(none)
        },
    }
}

/// The statistics of the queueing disciplines of the messages from position
/// `from` on, message after message; the first message that cannot be read
/// is an error.
pub open spec fn qdiscs_from(
    names: Map<i32, Seq<char>>,
    msgs: Seq<QdiscMsgView>,
    from: int,
    big_endian: bool,
) -> Result<Seq<QdiscStatView>, WireError>
    decreases msgs.len() - from,
{
    if from < 0 || from >= msgs.len() {
        Ok(Seq::empty())
    } else {
        match qdisc_message_in(names, msgs[from], big_endian) {
            Err(e) => Err(e),
            Ok(first) => match qdiscs_from(names, msgs, from + 1, big_endian) {
                Err(e) => Err(e),
                Ok(rest) => Ok(first + rest),
            },
        }
    }
}

/// The statistics of the queueing disciplines on the given links that a
/// list of messages reports; see [`qdiscs_from`].
pub fn qdiscs(links: &Vec<LinkInfo>, msgs: &Vec<QdiscMsg>, big_endian: bool) -> (r: Result<
    Vec<QdiscStat>,
    WireError,
>)
    ensures
        stats_outcome(r) == qdiscs_from(
            index_names(links@),
            qdisc_msg_views(msgs@),
            0,
            big_endian,
        ),
{
    let names = ifindex_map(links);
    let ghost known = index_names(links@);
    let ghost views = qdisc_msg_views(msgs@);
    let mut ret: Vec<QdiscStat> = Vec::new();
    let mut i: usize = 0;
    proof {
        match qdiscs_from(known, views, 0, big_endian) {
            Ok(rest) => {
                assert(qdisc_stat_views(ret@) + rest =~= rest);
            },
            Err(e) => {},
        }
    }
    while i < msgs.len()
        invariant
            i <= msgs.len(),
            views == qdisc_msg_views(msgs@),
            known == index_names(links@),
            map_names(names@) == known,
            match qdiscs_from(known, views, i as int, big_endian) {
                Err(e) => qdiscs_from(known, views, 0, big_endian) == Err::<
                    Seq<QdiscStatView>,
                    WireError,
                >(e),
                Ok(rest) => qdiscs_from(known, views, 0, big_endian) == Ok::<
                    Seq<QdiscStatView>,
                    WireError,
                >(qdisc_stat_views(ret@) + rest),
            },
        decreases msgs.len() - i,
    {
        let msg = &msgs[i];
        assert(views[i as int] == msg@);
        let ghost before = ret@;
        match qdisc_message(&names, msg.ifindex, msg.handle, msg.parent, &msg.attrs, big_endian) {
            Err(e) => {
                return Err(e);
            },
            Ok(stats) => {
                let mut stats = stats;
                let ghost added = stats@;
                ret.append(&mut stats);
                proof {
                    assert(qdisc_stat_views(ret@) =~= qdisc_stat_views(before) + qdisc_stat_views(
                        added,
                    ));
                    match qdiscs_from(known, views, i + 1, big_endian) {
                        Ok(rest) => {
                            assert(qdisc_stat_views(ret@) + rest =~= qdisc_stat_views(before) + (
                            qdisc_stat_views(added) + rest));
                        },
                        Err(e) => {},
                    }
                }
            },
        }
        i += 1;
    }
    assert(qdisc_stat_views(ret@) + Seq::<QdiscStatView>::empty() =~= qdisc_stat_views(ret@));
    Ok(ret)
}

} // verus!
