use stas::{
    age_and_trim, ages_fit, all_can_derive, can_derive, can_render, column_widths, cycle,
    derive_line, evict, is_shown, lines, merge, parse_expr, render_row, take_in, try_cycle,
    try_poll, unit_bytes, unit_bytes_bits_ps, unit_units_ps, CounterHistory, CounterImm,
    CounterKey, CounterRule, CounterValueFilter, IfStats, KeyHead, QdiscStat, Row, Stat, Timing,
    UBase, UFreq, UPfx, Unit, UnitChain, Value,
};

fn val(n: i128) -> Value {
    Value { bits: n << 63 }
}

fn key(name: &str) -> CounterKey {
    CounterKey {
        ctns: "ethtool",
        key: vec![(KeyHead::Ifname, "eth0".to_string()), (KeyHead::Name, name.to_string())],
    }
}

fn imm(name: &str, value: u64, unit: UnitChain) -> CounterImm {
    CounterImm { key: key(name), value, unit, filter: Vec::new() }
}

fn chain(base: UBase, freq: UFreq) -> UnitChain {
    UnitChain { units: vec![Unit { prefix: UPfx::Plain, base }], freq }
}

fn rules(line: &str) -> Vec<CounterRule> {
    let words: Vec<String> = line.split_whitespace().map(|w| w.to_string()).collect();
    parse_expr(&words).unwrap()
}

fn eth0(stats: &[(&str, u64)]) -> Vec<IfStats> {
    vec![IfStats {
        ifname: "eth0".to_string(),
        stats: stats.iter().map(|(n, v)| Stat { name: n.to_string(), value: *v }).collect(),
    }]
}

#[test]
fn timing_depth() {
    let t = Timing::new(500, 5).unwrap();
    assert_eq!(t.history_depth(), 10);
    assert_eq!(Timing::new(1000, 2).unwrap().history_depth(), 2);
    assert_eq!(Timing::new(300, 1).unwrap().history_depth(), 3);
}

#[test]
fn timing_refuses_what_cannot_work() {
    assert_eq!(Timing::new(0, 5), None);
    assert_eq!(Timing::new(1000, 1), None);
    assert_eq!(Timing::new(5001, 5), None);
    assert_eq!(Timing::new(1, 4_294_968), None);
    assert!(Timing::new(1, 4_294_967).is_some());
}

#[test]
fn first_sighting() {
    let h = CounterHistory::new(&imm("tx", 100, unit_bytes()));
    assert!(h.key == key("tx"));
    assert!(h.history.is_empty());
    assert_eq!(h.curr, Some(100));
    assert_eq!(h.prev, None);
    assert_eq!(h.base, 100);
    assert_eq!(h.age, 0);
}

#[test]
fn staleness() {
    let mut h = CounterHistory::new(&imm("tx", 100, unit_bytes()));
    h.tick(10);
    assert!(!h.is_stale());
    h.tick(10);
    assert!(!h.is_stale());
    assert_eq!(h.history, vec![100]);
    h.history.clear();
    assert!(h.is_stale());
}

#[test]
fn tick_moves_samples_along() {
    let mut h = CounterHistory::new(&imm("tx", 1, unit_bytes()));
    h.tick(3);
    assert_eq!((h.age, h.prev, h.curr, h.history.clone()), (1, Some(1), None, vec![]));
    h.curr = Some(2);
    h.tick(3);
    assert_eq!((h.age, h.prev, h.curr, h.history.clone()), (2, Some(2), None, vec![1]));
    h.curr = Some(3);
    h.tick(3);
    assert_eq!((h.age, h.prev, h.curr, h.history.clone()), (3, Some(3), None, vec![1, 2]));
    h.curr = Some(4);
    h.tick(3);
    assert_eq!((h.age, h.prev, h.curr, h.history.clone()), (4, Some(4), None, vec![2, 3]));
    h.curr = Some(5);
    h.tick(3);
    assert_eq!((h.age, h.prev, h.curr, h.history.clone()), (5, Some(5), None, vec![3, 4]));
}

#[test]
fn merge_updates_known_keys_and_adds_new_ones() {
    let mut state = Vec::new();
    merge(&mut state, &vec![imm("a", 1, unit_bytes()), imm("b", 2, unit_units_ps())]);
    assert_eq!(state.len(), 2);
    age_and_trim(&mut state, 10);
    merge(
        &mut state,
        &vec![imm("b", 20, unit_bytes()), imm("c", 30, unit_bytes()), imm("c", 31, unit_bytes())],
    );
    assert_eq!(state.len(), 3);
    assert_eq!((state[0].prev, state[0].curr), (Some(1), None));
    assert_eq!((state[1].prev, state[1].curr, state[1].base), (Some(2), Some(20), 2));
    assert_eq!(state[1].unit.freq, UFreq::PerSecond);
    assert_eq!(
        (state[2].prev, state[2].curr, state[2].base, state[2].age),
        (None, Some(31), 30, 0)
    );
    assert!(state[2].key == key("c"));
}

#[test]
fn take_in_sets_the_first_entry_with_the_key() {
    let mut state = vec![
        CounterHistory::new(&imm("a", 1, unit_bytes())),
        CounterHistory::new(&imm("a", 2, unit_bytes())),
    ];
    take_in(&mut state, &imm("a", 9, unit_bytes()));
    assert_eq!(state[0].curr, Some(9));
    assert_eq!(state[1].curr, Some(2));
}

#[test]
fn evict_drops_stale_entries_and_keeps_order() {
    let mut state = Vec::new();
    merge(
        &mut state,
        &vec![imm("a", 1, unit_bytes()), imm("b", 2, unit_bytes()), imm("c", 3, unit_bytes())],
    );
    age_and_trim(&mut state, 10);
    merge(&mut state, &vec![imm("b", 4, unit_bytes())]);
    age_and_trim(&mut state, 10);
    evict(&mut state);
    assert_eq!(state.len(), 3);
    state[0].history.clear();
    state[2].history.clear();
    evict(&mut state);
    assert_eq!(state.len(), 1);
    assert!(state[0].key == key("b"));
}

fn cycles_until_gone(depth: u32, seen: usize) -> usize {
    let mut state = Vec::new();
    merge(&mut state, &vec![imm("a", 0, unit_bytes())]);
    for v in 1..seen {
        age_and_trim(&mut state, depth);
        evict(&mut state);
        merge(&mut state, &vec![imm("a", v as u64, unit_bytes())]);
        assert_eq!(state.len(), 1);
    }
    let mut absent = 0;
    while !state.is_empty() {
        age_and_trim(&mut state, depth);
        evict(&mut state);
        absent += 1;
        assert!(absent < 1000);
    }
    absent
}

#[test]
fn a_counter_gone_is_dropped_after_depth_plus_one_cycles() {
    assert_eq!(cycles_until_gone(10, 11), 11);
    assert_eq!(cycles_until_gone(4, 5), 5);
    assert_eq!(cycles_until_gone(2, 3), 3);
}

#[test]
fn with_depth_one_a_counter_gone_is_dropped_after_two_cycles() {
    assert_eq!(cycles_until_gone(1, 2), 2);
}

#[test]
fn ages_fit_until_the_counter_is_full() {
    let mut state = vec![CounterHistory::new(&imm("a", 1, unit_bytes()))];
    assert!(ages_fit(&state));
    state[0].age = u32::MAX - 1;
    assert!(ages_fit(&state));
    state[0].age = u32::MAX;
    assert!(!ages_fit(&state));
}

#[test]
fn as_is_shows_the_sample() {
    let t = Timing::new(500, 5).unwrap();
    let mut h = CounterHistory::new(&imm("a", 7, chain(UBase::Bytes, UFreq::AsIs)));
    let line = derive_line(&h, t);
    assert_eq!(line.value, Some(val(7)));
    assert_eq!(line.avg, None);
    assert_eq!(line.freq, UFreq::AsIs);
    assert_eq!(line.unit, Unit { prefix: UPfx::Plain, base: UBase::Bytes });
    assert!(line.key == key("a"));
    h.tick(10);
    assert_eq!(derive_line(&h, t).value, None);
}

#[test]
fn as_is_holds_the_largest_counter() {
    let t = Timing::new(500, 5).unwrap();
    let h = CounterHistory::new(&imm("a", u64::MAX, chain(UBase::Bytes, UFreq::AsIs)));
    assert!(can_derive(&h, t));
    assert_eq!(derive_line(&h, t).value, Some(val(u64::MAX as i128)));
}

#[test]
fn delta_shows_the_change_since_the_first_sample() {
    let t = Timing::new(500, 5).unwrap();
    let mut h = CounterHistory::new(&imm("a", 100, chain(UBase::Bytes, UFreq::Delta)));
    assert_eq!(derive_line(&h, t).value, Some(val(0)));
    h.tick(10);
    h.curr = Some(130);
    assert_eq!(derive_line(&h, t).value, Some(val(30)));
    h.tick(10);
    h.curr = Some(90);
    assert_eq!(derive_line(&h, t).value, Some(val(-10)));
    assert_eq!(derive_line(&h, t).avg, None);
}

#[test]
fn rate_needs_two_samples() {
    let t = Timing::new(500, 5).unwrap();
    let mut h = CounterHistory::new(&imm("a", 100, unit_units_ps()));
    assert_eq!(derive_line(&h, t).value, None);
    h.tick(10);
    assert_eq!(derive_line(&h, t).value, None);
    h.curr = Some(150);
    assert_eq!(derive_line(&h, t).value, Some(val(100)));
}

#[test]
fn rate_keeps_the_fraction() {
    let t = Timing::new(3000, 6).unwrap();
    let mut h = CounterHistory::new(&imm("a", 0, unit_units_ps()));
    h.tick(2);
    h.curr = Some(1);
    assert_eq!(derive_line(&h, t).value, Some(Value { bits: (1000i128 << 63) / 3000 }));
    h.tick(2);
    h.curr = Some(0);
    assert_eq!(derive_line(&h, t).value, Some(Value { bits: -((1000i128 << 63) / 3000) }));
}

#[test]
fn rate_of_a_falling_counter_is_negative() {
    let t = Timing::new(500, 5).unwrap();
    let mut h = CounterHistory::new(&imm("a", 200, unit_units_ps()));
    h.tick(10);
    h.curr = Some(150);
    assert_eq!(derive_line(&h, t).value, Some(val(-100)));
}

#[test]
fn spot_rate_and_average_of_a_steady_counter() {
    let t = Timing::new(500, 5).unwrap();
    let depth = t.history_depth();
    assert_eq!(depth, 10);
    let mut state = Vec::new();
    let samples: Vec<u64> = (0..12).map(|k| 100 + 50 * k).collect();
    assert_eq!(&samples[..3], &[100, 150, 200]);
    for (n, sample) in samples.iter().enumerate() {
        let cycle_no = n + 1;
        age_and_trim(&mut state, depth);
        evict(&mut state);
        merge(&mut state, &vec![imm("a", *sample, unit_units_ps())]);
        assert_eq!(state.len(), 1);
        let line = derive_line(&state[0], t);
        if cycle_no == 1 {
            assert_eq!(line.value, None);
        } else {
            assert_eq!(line.value, Some(val(100)), "cycle {}", cycle_no);
        }
        let ring = state[0].history.len();
        assert_eq!(ring, if cycle_no < 2 { 0 } else { (cycle_no - 2).min(9) });
        if ring >= 9 {
            let oldest = state[0].history[0];
            let expected = ((*sample as i128 - oldest as i128) << 63) / 5;
            assert_eq!(line.avg, Some(Value { bits: expected }), "cycle {}", cycle_no);
        } else {
            assert_eq!(line.avg, None, "cycle {}", cycle_no);
        }
        if cycle_no == 11 {
            assert_eq!(line.avg, Some(val(100)));
        }
        if cycle_no == 12 {
            assert_eq!(state[0].history[0], 150);
            assert_eq!(line.avg, Some(val(100)));
        }
    }
}

#[test]
fn the_unit_chain_applies_to_value_and_average() {
    let t = Timing::new(1000, 2).unwrap();
    let mut h = CounterHistory::new(&imm("a", 0, unit_bytes_bits_ps()));
    h.tick(2);
    h.curr = Some(10);
    h.tick(2);
    h.curr = Some(30);
    let line = derive_line(&h, t);
    assert_eq!(line.value, Some(val(160)));
    assert_eq!(line.avg, Some(val(120)));
    assert_eq!(line.unit.base, UBase::Bits);
}

#[test]
fn only_rates_have_an_average() {
    let t = Timing::new(1000, 2).unwrap();
    let mut h = CounterHistory::new(&imm("a", 0, chain(UBase::Bytes, UFreq::Delta)));
    h.tick(2);
    h.curr = Some(10);
    h.tick(2);
    h.curr = Some(30);
    assert_eq!(derive_line(&h, t).avg, None);
}

#[test]
fn can_derive_sees_overflow() {
    let t = Timing::new(500, 5).unwrap();
    let mut h = CounterHistory::new(&imm("a", 0, unit_units_ps()));
    h.tick(10);
    h.curr = Some(18_446_744_073_709_551);
    assert!(can_derive(&h, t));
    h.curr = Some(18_446_744_073_709_552);
    assert!(!can_derive(&h, t));
    assert!(!all_can_derive(&vec![h], t));

    let mut h = CounterHistory::new(&imm("a", 1 << 61, unit_bytes_bits_ps()));
    h.unit.freq = UFreq::AsIs;
    assert!(!can_derive(&h, t));
    h.curr = Some((1 << 61) - 1);
    assert!(can_derive(&h, t));
}

#[test]
fn lines_apply_the_filters() {
    let t = Timing::new(500, 5).unwrap();
    let mut zero = imm("zero", 0, chain(UBase::Bytes, UFreq::AsIs));
    zero.filter = vec![CounterValueFilter::NonZero];
    let mut one = imm("one", 1, chain(UBase::Bytes, UFreq::AsIs));
    one.filter = vec![CounterValueFilter::NonZero];
    let plain_zero = imm("plain", 0, chain(UBase::Bytes, UFreq::AsIs));
    let mut state = Vec::new();
    merge(&mut state, &vec![zero, one, plain_zero]);

    let shown = lines(&state, t, false);
    assert_eq!(shown.len(), 2);
    assert!(shown[0].key == key("one"));
    assert!(shown[1].key == key("plain"));

    let shown = lines(&state, t, true);
    assert_eq!(shown.len(), 1);
    assert!(shown[0].key == key("one"));

    let line = derive_line(&state[2], t);
    assert!(is_shown(&line, false));
    assert!(!is_shown(&line, true));
}

#[test]
fn absent_values_count_as_zero_for_the_filters() {
    let t = Timing::new(500, 5).unwrap();
    let mut rate = imm("rate", 5, unit_units_ps());
    rate.filter = vec![CounterValueFilter::NonZero];
    let mut state = Vec::new();
    merge(&mut state, &vec![rate]);
    assert!(lines(&state, t, false).is_empty());
}

#[test]
fn rows_carry_the_texts() {
    let t = Timing::new(500, 5).unwrap();
    let rs = rules("@eth0 tx_bytes /B/bps tx_packets rx_bytes /dB");
    let mut state = Vec::new();
    let first = eth0(&[("tx_bytes", 1000), ("tx_packets", 5), ("rx_bytes", 7)]);
    let second = eth0(&[("tx_bytes", 1100), ("tx_packets", 6), ("rx_bytes", 2007)]);
    cycle(&mut state, t, &rs, &first, &Vec::new());
    cycle(&mut state, t, &rs, &second, &Vec::new());
    assert!(all_can_derive(&state, t));
    let shown = lines(&state, t, false);
    assert_eq!(shown.len(), 3);
    for line in &shown {
        assert!(can_render(line));
    }
    let rows: Vec<(String, String, String)> = shown
        .iter()
        .map(|l| render_row(l))
        .map(|r| (r.key[1].1.clone(), r.value, r.avg))
        .collect();
    assert_eq!(
        rows,
        vec![
            ("tx_bytes".to_string(), " 1.60 Kbps".to_string(), "-     ".to_string()),
            ("tx_packets".to_string(), "\u{394}1     B  ".to_string(), "-     ".to_string()),
            ("rx_bytes".to_string(), "\u{394}2.00 KB  ".to_string(), "-     ".to_string()),
        ]
    );
}

#[test]
fn average_row_always_has_decimals() {
    let t = Timing::new(1000, 2).unwrap();
    let rs = rules("@eth0 tx_packets");
    let mut state = Vec::new();
    for v in [10u64, 20, 30] {
        cycle(&mut state, t, &rs, &eth0(&[("tx_packets", v)]), &Vec::new());
    }
    let shown = lines(&state, t, false);
    let row = render_row(&shown[0]);
    assert_eq!(row.value, " 10     1ps");
    assert_eq!(row.avg, " 10.00  1ps");
    assert_eq!(row.key, vec![
        (KeyHead::Ifname, "eth0".to_string()),
        (KeyHead::Name, "tx_packets".to_string()),
    ]);
}

#[test]
fn cycle_forgets_a_counter_that_is_gone() {
    let t = Timing::new(1000, 2).unwrap();
    let rs = rules("@eth0 *");
    let mut state = Vec::new();
    cycle(&mut state, t, &rs, &eth0(&[("a", 1), ("b", 1)]), &Vec::new());
    cycle(&mut state, t, &rs, &eth0(&[("a", 2), ("b", 2)]), &Vec::new());
    cycle(&mut state, t, &rs, &eth0(&[("a", 3), ("b", 3)]), &Vec::new());
    for _ in 0..2 {
        cycle(&mut state, t, &rs, &eth0(&[("b", 4)]), &Vec::new());
        assert_eq!(state.len(), 2);
    }
    cycle(&mut state, t, &rs, &eth0(&[("b", 4)]), &Vec::new());
    assert_eq!(state.len(), 1);
    assert!(state[0].key == key("b"));
}

fn row(dims: &[(KeyHead, &str)]) -> Row {
    Row {
        key: dims.iter().map(|(h, v)| (*h, v.to_string())).collect(),
        value: String::new(),
        avg: String::new(),
    }
}

#[test]
fn column_widths_in_display_order() {
    let mut rows = vec![
        row(&[(KeyHead::Ifname, "eth0"), (KeyHead::Name, "tx_bytes_total")]),
        row(&[(KeyHead::Ifname, "eth0"), (KeyHead::Name, "rx")]),
    ];
    assert_eq!(column_widths(&rows), vec![(KeyHead::Ifname, 4), (KeyHead::Name, 14)]);
    rows[1].key.push((KeyHead::Kind, "x".to_string()));
    assert_eq!(
        column_widths(&rows),
        vec![(KeyHead::Ifname, 4), (KeyHead::Kind, 4), (KeyHead::Name, 14)]
    );
    assert!(column_widths(&Vec::new()).is_empty());
}

#[test]
fn column_width_is_at_least_the_header() {
    let rows = vec![row(&[(KeyHead::Name, "a")])];
    assert_eq!(column_widths(&rows), vec![(KeyHead::Name, 7)]);
    let rows = vec![row(&[(KeyHead::Ifname, "a")]), row(&[(KeyHead::Ifname, "abc")])];
    assert_eq!(column_widths(&rows), vec![(KeyHead::Ifname, 3)]);
}

#[test]
fn column_width_counts_bytes() {
    let rows = vec![row(&[(KeyHead::Kind, "r\u{e9}seau")])];
    assert_eq!(column_widths(&rows), vec![(KeyHead::Kind, 7)]);
}

#[test]
fn columns_of_the_rows_of_a_cycle() {
    let t = Timing::new(500, 5).unwrap();
    let rs = rules("@eth0 tx_bytes non0 rx_packets_total");
    let mut state = Vec::new();
    cycle(&mut state, t, &rs, &eth0(&[("tx_bytes", 0), ("rx_packets_total", 1)]), &Vec::new());
    cycle(&mut state, t, &rs, &eth0(&[("tx_bytes", 0), ("rx_packets_total", 2)]), &Vec::new());
    let rows: Vec<Row> = lines(&state, t, false).iter().map(render_row).collect();
    assert_eq!(rows.len(), 1);
    assert_eq!(column_widths(&rows), vec![(KeyHead::Ifname, 4), (KeyHead::Name, 16)]);
}

#[test]
fn one_entry_for_each_counter() {
    let t = Timing::new(1000, 2).unwrap();
    let rs = rules("@eth0 a* @eth0 ab");
    let mut state = Vec::new();
    for round in 0..6u64 {
        let stats: Vec<(&str, u64)> = if round % 2 == 0 {
            vec![("ab", round), ("ac", round), ("ab", round + 1)]
        } else {
            vec![("ac", round), ("ad", round)]
        };
        cycle(&mut state, t, &rs, &eth0(&stats), &Vec::new());
        for i in 0..state.len() {
            for j in i + 1..state.len() {
                assert!(state[i].key != state[j].key);
            }
        }
    }
    assert_eq!(state.len(), 3);
}

#[test]
fn a_cycle_stops_at_the_first_rule_whose_source_failed() {
    let t = Timing::new(1000, 2).unwrap();
    let rs = rules("@eth0 a qdisc: @eth0 bytes @eth0 b");
    let ifaces = Ok(eth0(&[("a", 1), ("b", 2)]));
    let no_qdiscs: Result<Vec<QdiscStat>, String> = Err("socket closed".to_string());

    let mut state = Vec::new();
    let r = try_cycle(&mut state, t, &rs, &ifaces, &no_qdiscs);
    assert_eq!(r, Err("socket closed".to_string()));
    assert_eq!(state.len(), 1);
    assert!(state[0].key == key("a"));

    let mut state = Vec::new();
    let r = try_cycle(&mut state, t, &rs, &ifaces, &Ok(Vec::new()));
    assert_eq!(r, Ok(()));
    assert_eq!(state.len(), 2);

    let mut plain = Vec::new();
    cycle(&mut plain, t, &rs, &eth0(&[("a", 1), ("b", 2)]), &Vec::new());
    assert_eq!(plain.len(), state.len());
    for (x, y) in plain.iter().zip(state.iter()) {
        assert!(x.key == y.key);
        assert_eq!(x.curr, y.curr);
    }

    let no_ifaces: Result<Vec<IfStats>, String> = Err("no links".to_string());
    let mut state = Vec::new();
    assert_eq!(try_poll(&mut state, &rs, &no_ifaces, &no_qdiscs), Err("no links".to_string()));
    assert!(state.is_empty());
    assert_eq!(try_poll(&mut state, &Vec::new(), &no_ifaces, &no_qdiscs), Ok(()));
}
