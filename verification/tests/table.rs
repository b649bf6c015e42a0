use stas::table::{dimension, line_out, push_padded_end, push_padded_start, table_lines};
use stas::{KeyHead, Row};

fn key(dims: &[(KeyHead, &str)]) -> Vec<(KeyHead, String)> {
    dims.iter().map(|(h, v)| (*h, v.to_string())).collect()
}

fn row(dims: &[(KeyHead, &str)], value: &str, avg: &str) -> Row {
    Row { key: key(dims), value: value.to_string(), avg: avg.to_string() }
}

#[test]
fn padding_counts_characters() {
    let mut s = "[".to_string();
    push_padded_end(&mut s, "ab", 5);
    s.push(']');
    assert_eq!(s, format!("[{: <5}]", "ab"));
    let mut s = "[".to_string();
    push_padded_start(&mut s, "ab", 5);
    s.push(']');
    assert_eq!(s, format!("[{: >5}]", "ab"));
    let mut s = String::new();
    push_padded_end(&mut s, "abcdef", 3);
    push_padded_start(&mut s, "abcdef", 3);
    push_padded_end(&mut s, "", 0);
    assert_eq!(s, "abcdefabcdef");
    let mut s = String::new();
    push_padded_end(&mut s, "\u{394}x", 4);
    push_padded_start(&mut s, "\u{394}x", 4);
    assert_eq!(s, format!("{: <4}{: >4}", "\u{394}x", "\u{394}x"));
}

#[test]
fn dimension_of_a_head() {
    let k = key(&[(KeyHead::Ifname, "eth0"), (KeyHead::Name, "tx"), (KeyHead::Name, "other")]);
    assert_eq!(dimension(&k, KeyHead::Ifname), "eth0");
    assert_eq!(dimension(&k, KeyHead::Name), "tx");
    assert_eq!(dimension(&k, KeyHead::Kind), "-");
}

#[test]
fn one_line() {
    let columns = vec![(KeyHead::Ifname, 6), (KeyHead::Handle, 4), (KeyHead::Name, 7)];
    let k = key(&[(KeyHead::Ifname, "eth0"), (KeyHead::Name, "tx_bytes")]);
    let mut lasts = vec![None, None, None];
    let line = line_out(&columns, &k, " 1.50 KBps", "-     ", true, &mut lasts);
    let expected = format!(
        "| {: <6}  {: <4} | {: <7} | {: >14} | {: >14} |",
        "eth0", "-", "tx_bytes", " 1.50 KBps", "-     "
    );
    assert_eq!(line, expected);
    assert_eq!(lasts, vec![Some("eth0".to_string()), Some("-".to_string()), None]);
}

#[test]
fn repeated_values_are_left_blank() {
    let columns = vec![(KeyHead::Ifname, 4), (KeyHead::Name, 7)];
    let mut lasts = vec![Some("eth0".to_string()), Some("a".to_string())];
    let k = key(&[(KeyHead::Ifname, "eth0"), (KeyHead::Name, "a")]);
    let line = line_out(&columns, &k, "v", "a", true, &mut lasts);
    assert_eq!(
        line,
        format!("| {: <4} | {: <7} | {: >14} | {: >14} |", "", "a", "v", "a")
    );
    assert_eq!(lasts, vec![Some("eth0".to_string()), Some("a".to_string())]);

    let k = key(&[(KeyHead::Ifname, "eth1"), (KeyHead::Name, "a")]);
    let line = line_out(&columns, &k, "v", "a", true, &mut lasts);
    assert!(line.starts_with("| eth1 | a       |"));
    assert_eq!(lasts[0], Some("eth1".to_string()));
}

#[test]
fn a_line_of_headers_remembers_nothing() {
    let columns = vec![(KeyHead::Ifname, 4)];
    let mut lasts = vec![Some("if".to_string())];
    let k = key(&[(KeyHead::Ifname, "if")]);
    let line = line_out(&columns, &k, "value", "5s avg", false, &mut lasts);
    assert_eq!(line, format!("| {: <4} | {: >14} | {: >14} |", "if", "value", "5s avg"));
    assert_eq!(lasts, vec![Some("if".to_string())]);
}

#[test]
fn a_table() {
    let columns = vec![
        (KeyHead::Ifname, 4),
        (KeyHead::Parent, 3),
        (KeyHead::Handle, 3),
        (KeyHead::Kind, 4),
        (KeyHead::Name, 8),
    ];
    let q = |name: &str| {
        row(
            &[
                (KeyHead::Ifname, "eth0"),
                (KeyHead::Parent, "1:2"),
                (KeyHead::Handle, "10:"),
                (KeyHead::Kind, "red"),
                (KeyHead::Name, name),
            ],
            " 1     pps",
            "-     ",
        )
    };
    let rows = vec![
        q("bytes"),
        q("packets"),
        row(&[(KeyHead::Ifname, "eth1"), (KeyHead::Name, "tx_bytes")], " 2.00 Kbps", " 1.00 Kbps"),
        row(&[(KeyHead::Ifname, "eth1"), (KeyHead::Name, "tx_bytes")], "-     ", "-     "),
    ];
    let lines = table_lines(&columns, &rows, "5s avg");
    let fmt = |a: &str, b: &str, c: &str, d: &str, e: &str, v: &str, avg: &str| {
        format!(
            "| {: <4} | {: <3}  {: <3}  {: <4} | {: <8} | {: >14} | {: >14} |",
            a, b, c, d, e, v, avg
        )
    };
    assert_eq!(
        lines,
        vec![
            fmt("if", "par", "hnd", "kind", "counter", "value", "5s avg"),
            fmt("eth0", "1:2", "10:", "red", "bytes", " 1     pps", "-     "),
            fmt("", "", "", "", "packets", " 1     pps", "-     "),
            fmt("eth1", "-", "-", "-", "tx_bytes", " 2.00 Kbps", " 1.00 Kbps"),
            fmt("", "", "", "", "tx_bytes", "-     ", "-     "),
        ]
    );
}

#[test]
fn a_table_without_rows_has_its_headers() {
    let lines = table_lines(&Vec::new(), &Vec::new(), "5s avg");
    assert_eq!(lines, vec![format!("| {: >14} | {: >14} |", "value", "5s avg")]);
}
