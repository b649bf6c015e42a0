use stas::netlink::{
    app_parser_for, get_link_stats, ifindex_map, ifnames, link_stats, LinkInfo, QdiscApp,
    QdiscStatsAux, RtnlLinkStats,
};
use stas::{QdiscStat, UBase, UFreq, UnitChain};

fn counters() -> RtnlLinkStats {
    RtnlLinkStats {
        rx_packets: 1,
        tx_packets: 2,
        rx_bytes: 3,
        tx_bytes: 4,
        rx_errors: 5,
        tx_errors: 6,
        rx_dropped: 7,
        tx_dropped: 8,
        multicast: 9,
        collisions: 10,
        rx_length_errors: 11,
        rx_over_errors: 12,
        rx_crc_errors: 13,
        rx_frame_errors: 14,
        rx_fifo_errors: 15,
        rx_missed_errors: 16,
        tx_aborted_errors: 17,
        tx_carrier_errors: 18,
        tx_fifo_errors: 19,
        tx_heartbeat_errors: 20,
        tx_window_errors: 21,
        rx_compressed: 22,
        tx_compressed: 23,
        rx_nohandler: 24,
    }
}

fn link(index: i32, name: &str, stats: Option<RtnlLinkStats>) -> LinkInfo {
    LinkInfo { index, ifname: name.to_string(), stats }
}

fn bases(chain: &UnitChain) -> Vec<UBase> {
    chain.units.iter().map(|u| u.base).collect()
}

fn shape(stat: &QdiscStat) -> (&str, &str, u32, u32, &str, u64, Vec<UBase>, UFreq) {
    (
        stat.ifname.as_str(),
        stat.kind.as_str(),
        stat.handle,
        stat.parent,
        stat.name.as_str(),
        stat.value,
        bases(&stat.default_unit),
        stat.default_unit.freq,
    )
}

#[test]
fn link_counters_become_named_statistics() {
    let stats = link_stats(&"eth0".to_string(), &counters());
    let names: Vec<&str> = stats.iter().map(|s| s.name.as_str()).collect();
    assert_eq!(
        names,
        vec![
            "rx_packets",
            "tx_packets",
            "rx_bytes",
            "tx_bytes",
            "rx_errors",
            "tx_errors",
            "rx_dropped",
            "tx_dropped",
            "multicast",
            "collisions",
            "rx_length_errors",
            "rx_over_errors",
            "rx_crc_errors",
            "rx_frame_errors",
            "rx_fifo_errors",
            "rx_missed_errors",
            "tx_aborted_errors",
            "tx_carrier_errors",
            "tx_fifo_errors",
            "tx_heartbeat_errors",
            "tx_window_errors",
            "rx_compressed",
            "tx_compressed",
            "rx_nohandler",
        ]
    );
    for (i, stat) in stats.iter().enumerate() {
        assert_eq!(stat.ifname, "eth0");
        assert_eq!(stat.value, i as u64 + 1);
        assert_eq!(stat.default_unit.freq, UFreq::PerSecond);
        if stat.name == "rx_bytes" || stat.name == "tx_bytes" {
            assert_eq!(bases(&stat.default_unit), vec![UBase::Bytes, UBase::Bits]);
        } else {
            assert_eq!(bases(&stat.default_unit), vec![UBase::Packets]);
        }
    }
}

#[test]
fn links_without_counters_give_no_statistics() {
    let links = vec![
        link(1, "lo", None),
        link(2, "eth0", Some(counters())),
        link(3, "eth1", None),
        link(4, "eth2", Some(counters())),
    ];
    let stats = get_link_stats(&links);
    assert_eq!(stats.len(), 48);
    assert!(stats[..24].iter().all(|s| s.ifname == "eth0"));
    assert!(stats[24..].iter().all(|s| s.ifname == "eth2"));
    assert_eq!(stats[24].name, "rx_packets");
    assert!(get_link_stats(&Vec::new()).is_empty());
}

#[test]
fn link_names_in_order() {
    let links = vec![link(7, "b", None), link(3, "a", None)];
    assert_eq!(ifnames(&links), vec!["b".to_string(), "a".to_string()]);
}

#[test]
fn link_index_map_keeps_the_last_name_of_an_index() {
    let links = vec![link(1, "lo", None), link(2, "eth0", None), link(1, "lo2", None)];
    let map = ifindex_map(&links);
    assert_eq!(map.len(), 2);
    assert_eq!(map.get(&1), Some(&"lo2".to_string()));
    assert_eq!(map.get(&2), Some(&"eth0".to_string()));
    assert_eq!(map.get(&3), None);
}

#[test]
fn only_red_has_statistics_of_its_own() {
    assert_eq!(app_parser_for("red"), Some(QdiscApp::Red));
    assert_eq!(app_parser_for("Red"), None);
    assert_eq!(app_parser_for("prio"), None);
    assert_eq!(app_parser_for(""), None);
}

#[test]
fn gathered_counters_carry_the_discipline() {
    let mut aux = QdiscStatsAux::new("eth0", 0x0010_0000, 0x0001_0002);
    assert!(aux.stats.is_empty());
    assert_eq!((aux.ifname.as_str(), aux.handle, aux.parent), ("eth0", 0x0010_0000, 0x0001_0002));
    let kind = "red".to_string();
    aux.push_basic(&kind, 1000, 10);
    aux.push_queue(&kind, 1, 2, 3, 4, 5);
    aux.push_rate_est(&kind, 6, 7);
    aux.push_red(&kind, 8, 9, 10, 11);
    let got: Vec<_> = aux.stats.iter().map(shape).collect();
    let bits = vec![UBase::Bytes, UBase::Bits];
    let bytes = vec![UBase::Bytes];
    let packets = vec![UBase::Packets];
    let row = |name: &'static str, value: u64, bases: &Vec<UBase>, freq: UFreq| {
        ("eth0", "red", 0x0010_0000u32, 0x0001_0002u32, name, value, bases.clone(), freq)
    };
    assert_eq!(
        got,
        vec![
            row("bytes", 1000, &bits, UFreq::PerSecond),
            row("packets", 10, &packets, UFreq::PerSecond),
            row("qlen", 1, &bytes, UFreq::AsIs),
            row("backlog", 2, &bytes, UFreq::AsIs),
            row("drops", 3, &packets, UFreq::PerSecond),
            row("requeues", 4, &packets, UFreq::PerSecond),
            row("overlimits", 5, &packets, UFreq::PerSecond),
            row("bps", 6, &bits, UFreq::PerSecond),
            row("pps", 7, &packets, UFreq::PerSecond),
            row("early", 8, &packets, UFreq::PerSecond),
            row("pdrop", 9, &packets, UFreq::PerSecond),
            row("other", 10, &packets, UFreq::PerSecond),
            row("marked", 11, &packets, UFreq::PerSecond),
        ]
    );
}

#[test]
fn push_counter_adds_one_statistic() {
    let mut aux = QdiscStatsAux::new("eth1", 5, 6);
    aux.push_counter(&"prio".to_string(), "x", 42, stas::unit_bytes());
    assert_eq!(aux.stats.len(), 1);
    assert_eq!(
        shape(&aux.stats[0]),
        ("eth1", "prio", 5, 6, "x", 42, vec![UBase::Bytes], UFreq::AsIs)
    );
}
