use stas::expr::{
    describe, parse_ctrex, parse_expr, parse_ifmatch, parse_ifmatch_group, CounterExpr,
};

fn words(line: &str) -> Vec<String> {
    line.split_whitespace().map(|w| w.to_string()).collect()
}

#[test]
fn one_word_is_one_interface() {
    let ws = words("eth0 eth1");
    let mut pos = 0;
    assert_eq!(parse_ifmatch(&ws, &mut pos), vec!["eth0".to_string()]);
    assert_eq!(pos, 1);
}

#[test]
fn a_group_is_taken_up_to_its_closing_word() {
    let ws = words("( eth0 eth1 ) eth2");
    let mut pos = 0;
    assert_eq!(parse_ifmatch(&ws, &mut pos), vec!["eth0".to_string(), "eth1".to_string()]);
    assert_eq!(pos, 4);
}

#[test]
fn an_open_group_runs_to_the_last_word() {
    let ws = words("( eth0 eth1");
    let mut pos = 0;
    assert_eq!(parse_ifmatch(&ws, &mut pos), vec!["eth0".to_string(), "eth1".to_string()]);
    assert_eq!(pos, 3);
}

#[test]
fn no_word_no_interface() {
    let ws = words("eth0");
    let mut pos = 1;
    assert!(parse_ifmatch(&ws, &mut pos).is_empty());
    assert_eq!(pos, 1);
}

#[test]
fn group_words_are_added_to_what_is_there() {
    let ws = words("a b ) c");
    let mut pos = 1;
    let mut ret = vec!["x".to_string()];
    parse_ifmatch_group(&ws, &mut pos, &mut ret);
    assert_eq!(ret, vec!["x".to_string(), "b".to_string()]);
    assert_eq!(pos, 3);
}

#[test]
fn expression_holds_its_interfaces() {
    let ws = words("( a b )");
    let mut pos = 0;
    assert_eq!(parse_ctrex(&ws, &mut pos).ifmatch, vec!["a".to_string(), "b".to_string()]);
}

#[test]
fn description_of_an_expression() {
    let ctrex = CounterExpr { ifmatch: vec!["eth0".to_string(), "eth1".to_string()] };
    assert_eq!(describe(&Some("qdisc".to_string()), &ctrex), "qdisc: ( eth0 eth1 ) \n");
    assert_eq!(describe(&None, &ctrex), "<>( eth0 eth1 ) \n");
    assert_eq!(describe(&None, &CounterExpr { ifmatch: Vec::new() }), "<>( ) \n");
}

#[test]
fn words_are_read_and_described() {
    assert_eq!(parse_expr(&words("qdisc: ( eth0 eth1 ) rest")), "qdisc: ( eth0 eth1 ) \n");
    assert_eq!(parse_expr(&words("eth0 tx_bytes")), "<>( eth0 ) \n");
    assert_eq!(parse_expr(&words("qdisc:")), "qdisc: ( ) \n");
    assert_eq!(parse_expr(&Vec::new()), "<>( ) \n");
}
