use stas::pattern::matches_any;
use stas::rule::{find_match, handles_match, push_hex};
use stas::{
    pair_stats, parse_expr, unit_bytes, CounterImm, CounterKey, CounterRule, CounterValueFilter,
    IfStats, KeyHead, QdiscHandleMatch, QdiscHandlePartMatch, QdiscStat, Stat, UBase, UFreq,
};

fn words(line: &str) -> Vec<String> {
    line.split_whitespace().map(|w| w.to_string()).collect()
}

fn rule(line: &str) -> CounterRule {
    let mut rules = parse_expr(&words(line)).unwrap();
    assert_eq!(rules.len(), 1);
    rules.remove(0)
}

fn iface(name: &str, stats: &[(&str, u64)]) -> IfStats {
    IfStats {
        ifname: name.to_string(),
        stats: stats.iter().map(|(n, v)| Stat { name: n.to_string(), value: *v }).collect(),
    }
}

fn qdisc(ifname: &str, kind: &str, handle: u32, parent: u32, name: &str, value: u64) -> QdiscStat {
    QdiscStat {
        ifname: ifname.to_string(),
        kind: kind.to_string(),
        handle,
        parent,
        name: name.to_string(),
        value,
        default_unit: unit_bytes(),
    }
}

fn dims(imm: &CounterImm) -> Vec<(KeyHead, &str)> {
    imm.key.key.iter().map(|(h, v)| (*h, v.as_str())).collect()
}

fn hn(major: QdiscHandlePartMatch, minor: QdiscHandlePartMatch) -> QdiscHandleMatch {
    QdiscHandleMatch { major, minor }
}

#[test]
fn pattern_major_only_matches_own_major() {
    let pat = hn(QdiscHandlePartMatch::Value(1), QdiscHandlePartMatch::Omitted);
    assert!(pat.matches(0x0001_0000, 0xffff_ffff));
    assert!(pat.matches(0x0001_0005, 0x0002_0003));
    assert!(!pat.matches(0x0002_0000, 0x0001_0000));
    assert!(!pat.matches(0x0000_0001, 0x0001_0001));
}

#[test]
fn pattern_any_minor_matches_children_of_major() {
    let pat = hn(QdiscHandlePartMatch::Value(1), QdiscHandlePartMatch::Any);
    assert!(pat.matches(0x0010_0000, 0x0001_0000));
    assert!(pat.matches(0x0010_0000, 0x0001_ffff));
    assert!(!pat.matches(0x0001_0000, 0x0002_0000));
    assert!(!pat.matches(0x0001_0000, 0xffff_ffff));
}

#[test]
fn pattern_full_matches_exact_parent() {
    let pat = hn(QdiscHandlePartMatch::Value(1), QdiscHandlePartMatch::Value(2));
    assert!(pat.matches(0x0010_0000, 0x0001_0002));
    assert!(!pat.matches(0x0010_0000, 0x0001_0003));
    assert!(!pat.matches(0x0010_0000, 0x0002_0002));
    assert!(!pat.matches(0x0001_0002, 0x0003_0004));
}

#[test]
fn pattern_any_any_matches_everything() {
    let pat = hn(QdiscHandlePartMatch::Any, QdiscHandlePartMatch::Any);
    assert!(pat.matches(0, 0));
    assert!(pat.matches(0x1234_5678, 0xffff_ffff));
}

#[test]
fn pattern_without_major_value_checks_minor_only() {
    let pat = hn(QdiscHandlePartMatch::Any, QdiscHandlePartMatch::Value(7));
    assert!(pat.matches(0, 0x0042_0007));
    assert!(!pat.matches(0, 0x0042_0008));
    let pat = hn(QdiscHandlePartMatch::Omitted, QdiscHandlePartMatch::Omitted);
    assert!(pat.matches(5, 6));
}

#[test]
fn one_matching_handle_pattern_is_enough() {
    let pats = vec![
        hn(QdiscHandlePartMatch::Value(1), QdiscHandlePartMatch::Omitted),
        hn(QdiscHandlePartMatch::Value(2), QdiscHandlePartMatch::Any),
    ];
    assert!(handles_match(&pats, 0x0001_0000, 0));
    assert!(handles_match(&pats, 0x0009_0000, 0x0002_0001));
    assert!(!handles_match(&pats, 0x0009_0000, 0x0003_0001));
    assert!(!handles_match(&Vec::new(), 0x0001_0000, 0));
}

#[test]
fn parsed_handle_patterns_match_as_written() {
    let r = rule("qdisc: @eth0 1: *");
    let stats = vec![
        qdisc("eth0", "red", 0x0001_0000, 0xffff_ffff, "bytes", 10),
        qdisc("eth0", "red", 0x0002_0000, 0x0001_0001, "bytes", 20),
    ];
    let imms = r.select(&Vec::new(), &stats);
    assert_eq!(imms.len(), 1);
    assert_eq!(imms[0].value, 10);

    let r = rule("qdisc: @eth0 1:* *");
    let imms = r.select(&Vec::new(), &stats);
    assert_eq!(imms.len(), 1);
    assert_eq!(imms[0].value, 20);

    let r = rule("qdisc: @eth0 1:1 *");
    assert_eq!(r.select(&Vec::new(), &stats).len(), 1);
    let r = rule("qdisc: @eth0 1:2 *");
    assert!(r.select(&Vec::new(), &stats).is_empty());
}

#[test]
fn any_pattern_matches() {
    let pats = vec!["eth*".to_string(), "lo".to_string()];
    assert!(matches_any(&pats, "eth0"));
    assert!(matches_any(&pats, "lo"));
    assert!(!matches_any(&pats, "wlan0"));
    assert!(!matches_any(&Vec::new(), "eth0"));
}

#[test]
fn a_pattern_that_does_not_compile_matches_nothing() {
    let pats = vec!["a[".to_string()];
    assert!(!matches_any(&pats, "a["));
    assert!(!matches_any(&pats, "a"));
}

#[test]
fn glob_metacharacters() {
    let pats = vec!["tx_?[0-9]".to_string()];
    assert!(matches_any(&pats, "tx_q7"));
    assert!(!matches_any(&pats, "tx_q"));
    assert!(!matches_any(&pats, "tx_qa"));
}

#[test]
fn first_matching_counter_pattern_wins() {
    let r = rule("@eth0 tx_bytes /B tx_* /p");
    let cts = match &r {
        CounterRule::Ethtool(rule) => &rule.ctmatches,
        other => panic!("not an ethtool rule: {:?}", other),
    };
    assert_eq!(find_match(cts, "tx_bytes"), Some(0));
    assert_eq!(find_match(cts, "tx_packets"), Some(1));
    assert_eq!(find_match(cts, "rx_bytes"), None);
}

#[test]
fn ethtool_rule_selects_by_interface_and_name() {
    let r = rule("@eth* tx_* non0 /B/bps rx_bytes");
    let ifaces = vec![
        iface("eth0", &[("tx_bytes", 1), ("rx_bytes", 2), ("rx_packets", 3)]),
        iface("lo", &[("tx_bytes", 4)]),
        iface("eth1", &[("rx_bytes", 5), ("tx_packets", 6)]),
    ];
    let imms = r.select(&ifaces, &Vec::new());
    let got: Vec<(Vec<(KeyHead, &str)>, u64)> = imms.iter().map(|i| (dims(i), i.value)).collect();
    assert_eq!(
        got,
        vec![
            (vec![(KeyHead::Ifname, "eth0"), (KeyHead::Name, "tx_bytes")], 1),
            (vec![(KeyHead::Ifname, "eth0"), (KeyHead::Name, "rx_bytes")], 2),
            (vec![(KeyHead::Ifname, "eth1"), (KeyHead::Name, "rx_bytes")], 5),
            (vec![(KeyHead::Ifname, "eth1"), (KeyHead::Name, "tx_packets")], 6),
        ]
    );
    for imm in &imms {
        assert_eq!(imm.key.ctns, "ethtool");
    }
    assert_eq!(imms[0].unit.units.len(), 2);
    assert_eq!(imms[0].unit.freq, UFreq::PerSecond);
    assert_eq!(imms[0].filter, vec![CounterValueFilter::NonZero]);
    assert_eq!(imms[1].unit.units[0].base, UBase::Units);
    assert!(imms[1].filter.is_empty());
}

#[test]
fn ethtool_rule_wants_matching_interfaces() {
    match rule("@eth* @lo") {
        CounterRule::Ethtool(rule) => {
            assert!(rule.wants("eth3"));
            assert!(rule.wants("lo"));
            assert!(!rule.wants("wlan0"));
        }
        other => panic!("not an ethtool rule: {:?}", other),
    }
}

#[test]
fn qdisc_rule_selects_and_labels() {
    let r = rule("qdisc: @eth0 1:* bytes /B/bps drops");
    let stats = vec![
        qdisc("eth0", "red", 0x0010_0000, 0x0001_0002, "bytes", 100),
        qdisc("eth0", "red", 0x0010_0000, 0x0001_0002, "packets", 7),
        qdisc("eth0", "red", 0x0010_0000, 0x0001_0002, "drops", 3),
        qdisc("eth1", "red", 0x0010_0000, 0x0001_0002, "bytes", 200),
        qdisc("eth0", "prio", 0x0001_0000, 0xffff_ffff, "bytes", 300),
        qdisc("eth0", "pfifo", 0xabcd_0000, 0x0001_00ff, "bytes", 400),
    ];
    let imms = r.select(&Vec::new(), &stats);
    let got: Vec<(Vec<(KeyHead, &str)>, u64)> = imms.iter().map(|i| (dims(i), i.value)).collect();
    assert_eq!(
        got,
        vec![
            (
                vec![
                    (KeyHead::Ifname, "eth0"),
                    (KeyHead::Parent, "1:2"),
                    (KeyHead::Handle, "10:"),
                    (KeyHead::Kind, "red"),
                    (KeyHead::Name, "bytes"),
                ],
                100
            ),
            (
                vec![
                    (KeyHead::Ifname, "eth0"),
                    (KeyHead::Parent, "1:2"),
                    (KeyHead::Handle, "10:"),
                    (KeyHead::Kind, "red"),
                    (KeyHead::Name, "drops"),
                ],
                3
            ),
            (
                vec![
                    (KeyHead::Ifname, "eth0"),
                    (KeyHead::Parent, "1:ff"),
                    (KeyHead::Handle, "abcd:"),
                    (KeyHead::Kind, "pfifo"),
                    (KeyHead::Name, "bytes"),
                ],
                400
            ),
        ]
    );
    for imm in &imms {
        assert_eq!(imm.key.ctns, "qdisc");
    }
    assert_eq!(imms[0].unit.units.len(), 2);
    assert_eq!(imms[1].unit.units.len(), 1);
}

#[test]
fn a_rule_reads_only_its_own_source() {
    let ifaces = vec![iface("eth0", &[("bytes", 1)])];
    let stats = vec![qdisc("eth0", "red", 0x0001_0000, 0, "bytes", 2)];
    let imms = rule("@eth0 bytes").select(&ifaces, &stats);
    assert_eq!(imms.len(), 1);
    assert_eq!(imms[0].value, 1);
    let imms = rule("qdisc: @eth0 bytes").select(&ifaces, &stats);
    assert_eq!(imms.len(), 1);
    assert_eq!(imms[0].value, 2);
}

#[test]
fn hex_text_is_what_the_formatter_writes() {
    for v in [0u16, 1, 9, 10, 15, 16, 0xff, 0x100, 0xabc, 0x1000, 0xfffe, 0xffff] {
        let mut s = "x".to_string();
        push_hex(&mut s, v);
        assert_eq!(s, format!("x{:x}", v));
    }
}

#[test]
fn names_and_values_are_paired_in_order() {
    let stats = pair_stats(vec!["a".to_string(), "b".to_string(), "c".to_string()], vec![1, 2]);
    let got: Vec<(&str, u64)> = stats.iter().map(|s| (s.name.as_str(), s.value)).collect();
    assert_eq!(got, vec![("a", 1), ("b", 2)]);
    assert!(pair_stats(Vec::new(), vec![1]).is_empty());
}

#[test]
fn keys_compare_by_namespace_and_dimensions() {
    let key = |ns: &'static str, dims: &[(KeyHead, &str)]| CounterKey {
        ctns: ns,
        key: dims.iter().map(|(h, v)| (*h, v.to_string())).collect(),
    };
    let a = key("ethtool", &[(KeyHead::Ifname, "eth0"), (KeyHead::Name, "tx")]);
    assert!(a == key("ethtool", &[(KeyHead::Ifname, "eth0"), (KeyHead::Name, "tx")]));
    assert!(a != key("qdisc", &[(KeyHead::Ifname, "eth0"), (KeyHead::Name, "tx")]));
    assert!(a != key("ethtool", &[(KeyHead::Ifname, "eth1"), (KeyHead::Name, "tx")]));
    assert!(a != key("ethtool", &[(KeyHead::Ifname, "eth0"), (KeyHead::Kind, "tx")]));
    assert!(a != key("ethtool", &[(KeyHead::Ifname, "eth0")]));
    assert!(a.same(&a.duplicate()));
    assert_eq!(a.get(KeyHead::Name), Some(&"tx".to_string()));
    assert_eq!(a.get(KeyHead::Kind), None);
}

#[test]
fn handle_text_shows_a_minor_that_is_not_zero() {
    let r = rule("qdisc: @eth0 *");
    let stats = vec![
        qdisc("eth0", "red", 0x0010_0000, 0x0001_0002, "bytes", 1),
        qdisc("eth0", "red", 0x0010_0005, 0x0001_0002, "bytes", 2),
        qdisc("eth0", "red", 0xffff_fff1, 0x0000_0000, "bytes", 3),
    ];
    let imms = r.select(&Vec::new(), &stats);
    let handles: Vec<&str> = imms.iter().map(|i| i.key.key[2].1.as_str()).collect();
    assert_eq!(handles, vec!["10:", "10:5", "ffff:fff1"]);
    let parents: Vec<&str> = imms.iter().map(|i| i.key.key[1].1.as_str()).collect();
    assert_eq!(parents, vec!["1:2", "1:2", "0:0"]);
    assert!(imms[0].key != imms[1].key);
}

#[test]
fn what_counts_as_a_hit() {
    assert!(stas::pattern::is_hit(Some(true)));
    assert!(!stas::pattern::is_hit(Some(false)));
    assert!(!stas::pattern::is_hit(None));
    assert!(stas::pattern::pattern_test("tx_*", "tx_bytes"));
    assert!(!stas::pattern::pattern_test("tx_*", "rx_bytes"));
    assert!(!stas::pattern::pattern_test("tx_[", "tx_["));
    assert_eq!(stas::pattern::first_hit(&vec![false, true, true]), Some(1));
    assert_eq!(stas::pattern::first_hit(&vec![false, false]), None);
    assert_eq!(
        stas::pattern::pattern_hits(&vec!["a*".to_string(), "b".to_string()], "ab"),
        vec![true, false]
    );
}

#[test]
fn a_rule_fails_with_the_source_that_it_reads() {
    let ifaces = Ok(vec![iface("eth0", &[("bytes", 1)])]);
    let no_ifaces: Result<Vec<IfStats>, String> = Err("no links".to_string());
    let qdiscs = Ok(vec![qdisc("eth0", "red", 0x0001_0000, 0, "bytes", 2)]);
    let no_qdiscs: Result<Vec<QdiscStat>, String> = Err("no disciplines".to_string());

    let ethtool = rule("@eth0 bytes");
    assert_eq!(ethtool.counters(&ifaces, &no_qdiscs).unwrap()[0].value, 1);
    assert_eq!(ethtool.counters(&no_ifaces, &qdiscs).unwrap_err(), "no links");

    let on_qdiscs = rule("qdisc: @eth0 bytes");
    assert_eq!(on_qdiscs.counters(&no_ifaces, &qdiscs).unwrap()[0].value, 2);
    assert_eq!(on_qdiscs.counters(&ifaces, &no_qdiscs).unwrap_err(), "no disciplines");
}
