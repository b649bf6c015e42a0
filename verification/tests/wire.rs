use neli::Nl;
use neli::StreamReadBuffer;
use stas::ethtool_ss::{
    gstats_request, gstrings_request, sset_info_request, stat_names, stat_values, stats_len,
};
use stas::netlink::{LinkInfo, RtnlLinkStats};
use stas::rtnl::{
    ifla_link_info, qdisc_message, qdisc_stats, read_kind, read_stats2, Attr, LinkMsg, QdiscAttr,
    QdiscMsg, IFLA_IFNAME, IFLA_STATS, IFLA_STATS64, TCA_KIND, TCA_STATS2, TCA_STATS_APP,
    TCA_STATS_BASIC, TCA_STATS_QUEUE, TCA_STATS_RATE_EST, TCA_STATS_RATE_EST64,
};
use stas::netlink::QdiscStatsAux;
use stas::wire::{
    decode_basic, decode_link_stats, decode_queue, decode_rate_est, decode_red, encode_basic,
    encode_link_stats, encode_queue, encode_rate_est, encode_red, link_stats_size, put_u32,
    put_u64, put_word, rate_est_size, read_u32, read_u64, read_word, GnetStatsBasic,
    GnetStatsQueue, GnetStatsRateEst, TcRedXstats, WireError, BASIC_SIZE, QUEUE_SIZE, RED_SIZE,
};
use stas::{get_linkinfo, qdiscs, stats_for, UBase};

/// Whether this machine stores the most significant byte of a word first.
fn big() -> bool {
    u16::from_ne_bytes([0, 1]) == 1
}

fn words32(values: &[u32], big: bool) -> Vec<u8> {
    values
        .iter()
        .flat_map(|v| if big { v.to_be_bytes() } else { v.to_le_bytes() })
        .collect()
}

fn words64(values: &[u64], big: bool) -> Vec<u8> {
    values
        .iter()
        .flat_map(|v| if big { v.to_be_bytes() } else { v.to_le_bytes() })
        .collect()
}

#[test]
fn words_in_both_byte_orders() {
    let bytes = vec![1u8, 2, 3, 4, 5, 6, 7, 8, 9];
    assert_eq!(read_u32(&bytes, 0, false), 0x0403_0201);
    assert_eq!(read_u32(&bytes, 0, true), 0x0102_0304);
    assert_eq!(read_u32(&bytes, 5, false), 0x0908_0706);
    assert_eq!(read_u64(&bytes, 1, false), 0x0908_0706_0504_0302);
    assert_eq!(read_u64(&bytes, 1, true), 0x0203_0405_0607_0809);
    assert_eq!(read_word(&bytes, 2, 0, false), 0);
    assert_eq!(read_word(&bytes, 2, 1, true), 3);
    assert_eq!(read_word(&bytes, 2, 3, false), 0x05_0403);
    assert_eq!(read_word(&vec![0xff; 8], 0, 8, true), u64::MAX);
}

#[test]
fn words_as_the_netlink_reader_reads_them() {
    let bytes = vec![0x10u8, 0x32, 0x54, 0x76, 0x98, 0xba, 0xdc, 0xfe];
    let narrow = u32::deserialize(&mut StreamReadBuffer::new(&bytes)).unwrap();
    assert_eq!(read_u32(&bytes, 0, big()), narrow);
    let wide = u64::deserialize(&mut StreamReadBuffer::new(&bytes)).unwrap();
    assert_eq!(read_u64(&bytes, 0, big()), wide);
}

#[test]
fn basic_statistics() {
    for big in [false, true] {
        let mut payload = words64(&[123_456_789_012], big);
        payload.extend(words32(&[77, 0], big));
        assert_eq!(
            decode_basic(&payload, big),
            Ok(GnetStatsBasic { bytes: 123_456_789_012, packets: 77 })
        );
        payload.push(9);
        assert!(decode_basic(&payload, big).is_ok());
        payload.truncate(15);
        assert_eq!(decode_basic(&payload, big), Err(WireError::Short));
        let mut padded = words64(&[1], big);
        padded.extend(words32(&[2, 3], big));
        assert_eq!(decode_basic(&padded, big), Err(WireError::Padding));
    }
    assert_eq!(decode_basic(&Vec::new(), false), Err(WireError::Short));
}

#[test]
fn queue_statistics() {
    for big in [false, true] {
        let payload = words32(&[1, 2, 3, 4, 5], big);
        assert_eq!(
            decode_queue(&payload, big),
            Ok(GnetStatsQueue { qlen: 1, backlog: 2, drops: 3, requeues: 4, overlimits: 5 })
        );
        assert_eq!(decode_queue(&payload[..19].to_vec(), big), Err(WireError::Short));
    }
}

#[test]
fn rate_estimates() {
    for big in [false, true] {
        let narrow = words32(&[1000, 20], big);
        assert_eq!(
            decode_rate_est(&narrow, false, big),
            Ok(GnetStatsRateEst { bps: 1000, pps: 20 })
        );
        assert_eq!(decode_rate_est(&narrow, true, big), Err(WireError::Short));
        let wide = words64(&[1 << 40, 3], big);
        assert_eq!(
            decode_rate_est(&wide, true, big),
            Ok(GnetStatsRateEst { bps: 1 << 40, pps: 3 })
        );
        assert_eq!(decode_rate_est(&narrow[..7].to_vec(), false, big), Err(WireError::Short));
    }
}

#[test]
fn red_statistics() {
    for big in [false, true] {
        let payload = words32(&[1, 2, 3, 4], big);
        assert_eq!(
            decode_red(&payload, big),
            Ok(TcRedXstats { early: 1, pdrop: 2, other: 3, marked: 4 })
        );
        assert_eq!(decode_red(&payload[..15].to_vec(), big), Err(WireError::Short));
    }
}

#[test]
fn link_counters_narrow_and_wide() {
    for big in [false, true] {
        let narrow: Vec<u32> = (1..=24).collect();
        let stats = decode_link_stats(&words32(&narrow, big), false, big).unwrap();
        assert_eq!(stats.rx_packets, 1);
        assert_eq!(stats.tx_packets, 2);
        assert_eq!(stats.rx_bytes, 3);
        assert_eq!(stats.tx_bytes, 4);
        assert_eq!(stats.collisions, 10);
        assert_eq!(stats.tx_window_errors, 21);
        assert_eq!(stats.rx_nohandler, 24);
        let wide: Vec<u64> = (1..=24).map(|v| v << 33).collect();
        let stats = decode_link_stats(&words64(&wide, big), true, big).unwrap();
        assert_eq!(stats.rx_packets, 1 << 33);
        assert_eq!(stats.rx_errors, 5 << 33);
        assert_eq!(stats.rx_nohandler, 24 << 33);
        assert_eq!(
            decode_link_stats(&words32(&narrow, big), true, big),
            Err(WireError::Short)
        );
        assert_eq!(
            decode_link_stats(&words32(&narrow[..23], big), false, big),
            Err(WireError::Short)
        );
    }
}

#[test]
fn error_messages() {
    assert_eq!(WireError::Short.message(), "unexpected end of record");
    assert_eq!(WireError::Padding.message(), "record expects zero padding at its end");
    assert_eq!(WireError::Text.message(), "name is not valid text");
}

fn attr(kind: u16, payload: &[u8]) -> Attr {
    Attr { kind, payload: payload.to_vec() }
}

fn shape(info: &LinkInfo) -> (i32, &str, Option<u64>) {
    (info.index, info.ifname.as_str(), info.stats.map(|s| s.rx_packets))
}

#[test]
fn link_attributes() {
    let narrow: Vec<u32> = (1..=24).collect();
    let wide: Vec<u64> = (101..=124).collect();
    let attrs = vec![
        attr(IFLA_IFNAME, b"eth0\0"),
        attr(99, b"whatever"),
        attr(IFLA_STATS, &words32(&narrow, big())),
    ];
    let info = ifla_link_info(7, &attrs, big()).unwrap().unwrap();
    assert_eq!(shape(&info), (7, "eth0", Some(1)));

    let attrs = vec![
        attr(IFLA_STATS, &words32(&narrow, big())),
        attr(IFLA_STATS64, &words64(&wide, big())),
        attr(IFLA_IFNAME, b"a\0"),
        attr(IFLA_IFNAME, b"lo\0"),
    ];
    let info = ifla_link_info(1, &attrs, big()).unwrap().unwrap();
    assert_eq!(shape(&info), (1, "lo", Some(101)));

    let info = ifla_link_info(2, &vec![attr(IFLA_IFNAME, b"x\0")], big()).unwrap().unwrap();
    assert_eq!(shape(&info), (2, "x", None));
}

#[test]
fn a_link_without_a_name_is_no_link() {
    let narrow: Vec<u32> = (1..=24).collect();
    let attrs = vec![attr(IFLA_STATS, &words32(&narrow, big()))];
    assert!(ifla_link_info(7, &attrs, big()).unwrap().is_none());
    assert!(ifla_link_info(7, &Vec::new(), big()).unwrap().is_none());
}

#[test]
fn link_attributes_that_cannot_be_read() {
    assert_eq!(
        ifla_link_info(7, &vec![attr(IFLA_IFNAME, b"")], big()).unwrap_err(),
        WireError::Short
    );
    assert_eq!(
        ifla_link_info(7, &vec![attr(IFLA_IFNAME, b"a\0"), attr(IFLA_STATS64, &[0; 191])], big())
            .unwrap_err(),
        WireError::Short
    );
}

#[test]
fn a_name_that_is_not_valid_text_is_mended() {
    let info = ifla_link_info(3, &vec![attr(IFLA_IFNAME, b"e\xfft\0")], big()).unwrap().unwrap();
    assert_eq!(info.ifname, "e\u{fffd}t");
}

#[test]
fn links_of_a_list_of_messages() {
    let msgs = vec![
        LinkMsg { index: 1, attrs: vec![attr(IFLA_IFNAME, b"lo\0")] },
        LinkMsg { index: 2, attrs: vec![attr(50, b"")] },
        LinkMsg { index: 3, attrs: vec![attr(IFLA_IFNAME, b"eth0\0")] },
    ];
    let links = get_linkinfo(&msgs, big()).unwrap();
    let got: Vec<_> = links.iter().map(shape).collect();
    assert_eq!(got, vec![(1, "lo", None), (3, "eth0", None)]);

    let bad = vec![
        LinkMsg { index: 1, attrs: vec![attr(IFLA_IFNAME, b"lo\0")] },
        LinkMsg { index: 2, attrs: vec![attr(IFLA_STATS, &[1, 2, 3])] },
    ];
    assert_eq!(get_linkinfo(&bad, big()).unwrap_err(), WireError::Short);
    assert!(get_linkinfo(&Vec::new(), big()).unwrap().is_empty());
}

#[test]
fn kind_loses_its_final_zero() {
    assert_eq!(read_kind(&b"red\0".to_vec()).unwrap(), "red");
    assert_eq!(read_kind(&b"pfifo_fast\0".to_vec()).unwrap(), "pfifo_fast");
    assert_eq!(read_kind(&b"\0".to_vec()).unwrap(), "");
    assert_eq!(read_kind(&Vec::new()).unwrap(), "");
    assert_eq!(read_kind(&"r\u{e9}\0".as_bytes().to_vec()).unwrap(), "r\u{e9}");
    assert_eq!(read_kind(&b"r\xffd\0".to_vec()).unwrap_err(), WireError::Text);
}

fn qattr(kind: u16, payload: &[u8], nested: Vec<Attr>) -> QdiscAttr {
    QdiscAttr { kind, payload: payload.to_vec(), nested }
}

fn basic(bytes: u64, packets: u32) -> Vec<u8> {
    let mut payload = words64(&[bytes], big());
    payload.extend(words32(&[packets, 0], big()));
    payload
}

#[test]
fn discipline_statistics() {
    let attrs = vec![
        qattr(TCA_KIND, b"red\0", Vec::new()),
        qattr(
            TCA_STATS2,
            b"",
            vec![
                attr(TCA_STATS_BASIC, &basic(1000, 10)),
                attr(TCA_STATS_QUEUE, &words32(&[1, 2, 3, 4, 5], big())),
                attr(TCA_STATS_RATE_EST, &words32(&[6, 7], big())),
                attr(TCA_STATS_RATE_EST64, &words64(&[8, 9], big())),
                attr(TCA_STATS_APP, &words32(&[10, 11, 12, 13], big())),
                attr(77, b"?"),
            ],
        ),
        qattr(3, b"old statistics", Vec::new()),
    ];
    let stats = qdisc_stats("eth0", 0x0010_0000, 0x0001_0002, &attrs, big()).unwrap();
    let got: Vec<(&str, u64, UBase)> = stats
        .iter()
        .map(|s| (s.name.as_str(), s.value, s.default_unit.units[0].base))
        .collect();
    assert_eq!(
        got,
        vec![
            ("bytes", 1000, UBase::Bytes),
            ("packets", 10, UBase::Packets),
            ("qlen", 1, UBase::Bytes),
            ("backlog", 2, UBase::Bytes),
            ("drops", 3, UBase::Packets),
            ("requeues", 4, UBase::Packets),
            ("overlimits", 5, UBase::Packets),
            ("bps", 6, UBase::Bytes),
            ("pps", 7, UBase::Packets),
            ("bps", 8, UBase::Bytes),
            ("pps", 9, UBase::Packets),
            ("early", 10, UBase::Packets),
            ("pdrop", 11, UBase::Packets),
            ("other", 12, UBase::Packets),
            ("marked", 13, UBase::Packets),
        ]
    );
    for s in &stats {
        assert_eq!(
            (s.ifname.as_str(), s.kind.as_str(), s.handle, s.parent),
            ("eth0", "red", 0x0010_0000, 0x0001_0002)
        );
    }
}

#[test]
fn statistics_go_under_the_kind_known_by_then() {
    let attrs = vec![
        qattr(TCA_STATS2, b"", vec![attr(TCA_STATS_BASIC, &basic(1, 2))]),
        qattr(TCA_KIND, b"prio\0", Vec::new()),
        qattr(TCA_STATS2, b"", vec![attr(TCA_STATS_RATE_EST, &words32(&[3, 4], big()))]),
    ];
    let stats = qdisc_stats("eth0", 1, 2, &attrs, big()).unwrap();
    let got: Vec<(&str, &str)> =
        stats.iter().map(|s| (s.kind.as_str(), s.name.as_str())).collect();
    assert_eq!(got, vec![("", "bytes"), ("", "packets"), ("prio", "bps"), ("prio", "pps")]);
}

#[test]
fn only_red_reads_statistics_of_its_own() {
    let app = attr(TCA_STATS_APP, &[1, 2, 3]);
    let aux = QdiscStatsAux::new("eth0", 1, 2);
    let aux = read_stats2(aux, &"prio".to_string(), &app, big()).unwrap();
    assert!(aux.stats.is_empty());
    assert_eq!(read_stats2(aux, &"red".to_string(), &app, big()).unwrap_err(), WireError::Short);
}

#[test]
fn discipline_attributes_that_cannot_be_read() {
    let attrs = vec![qattr(TCA_KIND, b"\xff\0", Vec::new())];
    assert_eq!(qdisc_stats("eth0", 1, 2, &attrs, big()).unwrap_err(), WireError::Text);
    let attrs = vec![qattr(TCA_STATS2, b"", vec![attr(TCA_STATS_BASIC, &[0; 15])])];
    assert_eq!(qdisc_stats("eth0", 1, 2, &attrs, big()).unwrap_err(), WireError::Short);
    let mut padded = words64(&[1], big());
    padded.extend(words32(&[2, 3], big()));
    let attrs = vec![qattr(TCA_STATS2, b"", vec![attr(TCA_STATS_BASIC, &padded)])];
    assert_eq!(qdisc_stats("eth0", 1, 2, &attrs, big()).unwrap_err(), WireError::Padding);
}

fn link(index: i32, name: &str) -> LinkInfo {
    LinkInfo { index, ifname: name.to_string(), stats: None }
}

#[test]
fn messages_of_unknown_interfaces_are_passed_over() {
    let links = vec![link(1, "lo"), link(2, "eth0")];
    let stats2 = |bytes: u64| qattr(TCA_STATS2, b"", vec![attr(TCA_STATS_BASIC, &basic(bytes, 0))]);
    let msgs = vec![
        QdiscMsg { ifindex: 2, handle: 10, parent: 11, attrs: vec![stats2(100)] },
        QdiscMsg { ifindex: 5, handle: 20, parent: 21, attrs: vec![stats2(200)] },
        QdiscMsg { ifindex: 1, handle: 30, parent: 31, attrs: vec![stats2(300)] },
    ];
    let stats = qdiscs(&links, &msgs, big()).unwrap();
    let got: Vec<(&str, u32, &str, u64)> =
        stats.iter().map(|s| (s.ifname.as_str(), s.handle, s.name.as_str(), s.value)).collect();
    assert_eq!(
        got,
        vec![
            ("eth0", 10, "bytes", 100),
            ("eth0", 10, "packets", 0),
            ("lo", 30, "bytes", 300),
            ("lo", 30, "packets", 0),
        ]
    );
    let names = stas::ifindex_map(&links);
    assert!(qdisc_message(&names, 9, 1, 2, &vec![stats2(1)], big()).unwrap().is_empty());
    assert_eq!(qdisc_message(&names, 1, 1, 2, &vec![stats2(1)], big()).unwrap().len(), 2);
}

#[test]
fn a_message_that_cannot_be_read_stops_the_reading() {
    let links = vec![link(1, "lo")];
    let msgs = vec![
        QdiscMsg { ifindex: 1, handle: 1, parent: 2, attrs: Vec::new() },
        QdiscMsg {
            ifindex: 1,
            handle: 1,
            parent: 2,
            attrs: vec![qattr(TCA_KIND, b"\xc0", Vec::new())],
        },
    ];
    assert_eq!(qdiscs(&links, &msgs, big()).unwrap_err(), WireError::Text);
    let unknown = vec![QdiscMsg {
        ifindex: 4,
        handle: 1,
        parent: 2,
        attrs: vec![qattr(TCA_KIND, b"\xc0", Vec::new())],
    }];
    assert!(qdiscs(&links, &unknown, big()).unwrap().is_empty());
}

fn names_buffer(names: &[&[u8]]) -> Vec<u8> {
    let mut buf = vec![0u8; 12 + 32 * names.len()];
    for (i, name) in names.iter().enumerate() {
        buf[12 + 32 * i..12 + 32 * i + name.len()].copy_from_slice(name);
    }
    buf
}

fn values_buffer(values: &[u64], big: bool) -> Vec<u8> {
    let mut buf = vec![0u8; 8];
    buf.extend(words64(values, big));
    buf
}

#[test]
fn number_of_statistics() {
    let mut buf = vec![0u8; 24];
    buf[16..20].copy_from_slice(&words32(&[42], big()));
    assert_eq!(stats_len(&buf, big()), Ok(42));
    assert_eq!(stats_len(&buf[..19].to_vec(), big()), Err(WireError::Short));
    assert_eq!(stats_len(&buf[..20].to_vec(), big()), Ok(42));
}

#[test]
fn names_end_at_the_first_zero() {
    let buf = names_buffer(&[b"tx_bytes", b"rx_bytes", b""]);
    assert_eq!(
        stat_names(&buf, 3).unwrap(),
        vec!["tx_bytes".to_string(), "rx_bytes".to_string(), String::new()]
    );
    assert_eq!(stat_names(&buf, 2).unwrap().len(), 2);
    assert!(stat_names(&buf, 0).unwrap().is_empty());
    assert_eq!(stat_names(&buf, 4).unwrap_err(), WireError::Short);
    assert_eq!(stat_names(&vec![0; 11], 0).unwrap_err(), WireError::Short);
}

#[test]
fn a_name_without_a_zero_runs_on() {
    let long = [b'a'; 32];
    let buf = names_buffer(&[&long, b"b"]);
    let names = stat_names(&buf, 2).unwrap();
    assert_eq!(names[0], "a".repeat(32) + "b");
    assert_eq!(names[1], "b");
    let buf = names_buffer(&[&long]);
    assert_eq!(stat_names(&buf, 1).unwrap()[0], "a".repeat(32));
}

#[test]
fn values_are_words_of_eight_bytes() {
    for big in [false, true] {
        let buf = values_buffer(&[1, u64::MAX, 1 << 40], big);
        assert_eq!(stat_values(&buf, 3, big).unwrap(), vec![1, u64::MAX, 1 << 40]);
        assert_eq!(stat_values(&buf, 1, big).unwrap(), vec![1]);
        assert_eq!(stat_values(&buf, 4, big).unwrap_err(), WireError::Short);
    }
}

#[test]
fn statistics_of_an_interface() {
    let names = names_buffer(&[b"tx_bytes", b"rx_bytes"]);
    let values = values_buffer(&[10, 20], big());
    let stats = stats_for(&names, &values, 2, big()).unwrap();
    let got: Vec<(&str, u64)> = stats.iter().map(|s| (s.name.as_str(), s.value)).collect();
    assert_eq!(got, vec![("tx_bytes", 10), ("rx_bytes", 20)]);
    assert_eq!(stats_for(&names, &values, 3, big()).unwrap_err(), WireError::Short);
    assert_eq!(stats_for(&names, &values[..23].to_vec(), 2, big()).unwrap_err(), WireError::Short);
    assert!(stats_for(&names, &values, 0, big()).unwrap().is_empty());
}

#[test]
fn words_are_written_as_they_are_read() {
    for big in [false, true] {
        let mut buf = vec![9u8];
        put_u32(&mut buf, 0x0102_0304, big);
        put_u64(&mut buf, 0x1112_1314_1516_1718, big);
        put_word(&mut buf, 0xabcdef, 2, big);
        put_word(&mut buf, 7, 0, big);
        assert_eq!(buf.len(), 1 + 4 + 8 + 2);
        assert_eq!(read_u32(&buf, 1, big), 0x0102_0304);
        assert_eq!(read_u64(&buf, 5, big), 0x1112_1314_1516_1718);
        assert_eq!(read_word(&buf, 13, 2, big), 0xcdef);
    }
    let mut buf = Vec::new();
    put_u32(&mut buf, 0x0102_0304, false);
    assert_eq!(buf, vec![4, 3, 2, 1]);
    let mut buf = Vec::new();
    put_u32(&mut buf, 0x0102_0304, true);
    assert_eq!(buf, vec![1, 2, 3, 4]);
    let mut buf = Vec::new();
    put_u64(&mut buf, 0x0102_0304_0506_0708, big());
    assert_eq!(buf, 0x0102_0304_0506_0708u64.to_ne_bytes().to_vec());
}

#[test]
fn records_are_written_as_they_are_read() {
    for big in [false, true] {
        let basic = GnetStatsBasic { bytes: u64::MAX - 5, packets: 77 };
        let bytes = encode_basic(&basic, big);
        assert_eq!(bytes.len(), BASIC_SIZE);
        assert_eq!(decode_basic(&bytes, big), Ok(basic));

        let queue =
            GnetStatsQueue { qlen: 1, backlog: u32::MAX, drops: 3, requeues: 4, overlimits: 5 };
        let bytes = encode_queue(&queue, big);
        assert_eq!(bytes.len(), QUEUE_SIZE);
        assert_eq!(decode_queue(&bytes, big), Ok(queue));

        let est = GnetStatsRateEst { bps: 1 << 40, pps: 9 };
        let bytes = encode_rate_est(&est, true, big);
        assert_eq!(bytes.len(), rate_est_size(true));
        assert_eq!(decode_rate_est(&bytes, true, big), Ok(est));
        let bytes = encode_rate_est(&est, false, big);
        assert_eq!(bytes.len(), rate_est_size(false));
        assert_eq!(decode_rate_est(&bytes, false, big), Ok(GnetStatsRateEst { bps: 0, pps: 9 }));

        let red = TcRedXstats { early: 1, pdrop: 2, other: 3, marked: u32::MAX };
        let bytes = encode_red(&red, big);
        assert_eq!(bytes.len(), RED_SIZE);
        assert_eq!(decode_red(&bytes, big), Ok(red));

        let narrow: Vec<u32> = (1..=24).collect();
        let link: RtnlLinkStats = decode_link_stats(&words32(&narrow, big), false, big).unwrap();
        let bytes = encode_link_stats(&link, true, big);
        assert_eq!(bytes.len(), link_stats_size(true));
        assert_eq!(decode_link_stats(&bytes, true, big), Ok(link));
        let bytes = encode_link_stats(&link, false, big);
        assert_eq!(bytes.len(), link_stats_size(false));
        assert_eq!(bytes, words32(&narrow, big));
    }
}

#[test]
fn questions_to_the_kernel() {
    let b = big();
    let mut expected = Vec::new();
    expected.extend(0x37u32.to_ne_bytes());
    expected.extend(0u32.to_ne_bytes());
    expected.extend(2u64.to_ne_bytes());
    expected.extend([0u8; 8]);
    assert_eq!(sset_info_request(b), expected);

    let mut expected = Vec::new();
    expected.extend(0x1bu32.to_ne_bytes());
    expected.extend(1u32.to_ne_bytes());
    expected.extend(3u32.to_ne_bytes());
    expected.extend([0u8; 96]);
    assert_eq!(gstrings_request(3, b), expected);
    assert_eq!(gstrings_request(0, b).len(), 12);

    let mut expected = Vec::new();
    expected.extend(0x1du32.to_ne_bytes());
    expected.extend(3u32.to_ne_bytes());
    expected.extend([0u8; 24]);
    assert_eq!(gstats_request(3, b), expected);
    assert_eq!(gstats_request(0, b).len(), 8);
}
