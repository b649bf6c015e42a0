use fixed::types::I65F63;
use stas::{
    compose, convert, humanize, rescale, unit_bytes_bits_ps, UBase, UFreq, UPfx, Unit, UnitChain,
    Value,
};

fn val(n: i128) -> Value {
    Value { bits: n << 63 }
}

fn chain(bases: &[UBase]) -> UnitChain {
    UnitChain {
        units: bases.iter().map(|b| Unit { prefix: UPfx::Plain, base: *b }).collect(),
        freq: UFreq::AsIs,
    }
}

#[test]
fn bytes_to_bits_multiplies_by_eight() {
    let (value, avg, unit) = convert(&unit_bytes_bits_ps(), Some(val(100)), Some(val(3)));
    assert_eq!(value, Some(val(800)));
    assert_eq!(avg, Some(val(24)));
    assert_eq!(unit, Unit { prefix: UPfx::Plain, base: UBase::Bits });
}

#[test]
fn bits_to_bytes_divides_by_eight() {
    let (value, avg, unit) =
        convert(&chain(&[UBase::Bits, UBase::Bytes]), Some(val(800)), Some(val(4)));
    assert_eq!(value, Some(val(100)));
    assert_eq!(avg, Some(Value { bits: 1 << 62 }));
    assert_eq!(unit.base, UBase::Bytes);
}

#[test]
fn bits_to_bytes_rounds_raw_bits_toward_zero() {
    let (value, avg, _) = convert(
        &chain(&[UBase::Bits, UBase::Bytes]),
        Some(Value { bits: 15 }),
        Some(Value { bits: -15 }),
    );
    assert_eq!(value, Some(Value { bits: 1 }));
    assert_eq!(avg, Some(Value { bits: -1 }));
}

#[test]
fn average_is_divided_from_where_it_stands() {
    let units = chain(&[UBase::Bytes, UBase::Bits, UBase::Bytes]);
    let (value, avg, _) = convert(&units, Some(val(5)), Some(val(7)));
    assert_eq!(value, Some(val(5)));
    assert_eq!(avg, Some(val(7)));
}

#[test]
fn unrelated_bases_pass_through() {
    let units = chain(&[UBase::Packets, UBase::Seconds, UBase::Units]);
    let (value, avg, unit) = convert(&units, Some(val(42)), None);
    assert_eq!(value, Some(val(42)));
    assert_eq!(avg, None);
    assert_eq!(unit.base, UBase::Units);
}

#[test]
fn absent_values_stay_absent() {
    let (value, avg, _) = convert(&unit_bytes_bits_ps(), None, None);
    assert_eq!(value, None);
    assert_eq!(avg, None);
}

#[test]
fn display_unit_takes_first_prefix_and_last_base() {
    let units = UnitChain {
        units: vec![
            Unit { prefix: UPfx::Kilo, base: UBase::Bytes },
            Unit { prefix: UPfx::Mega, base: UBase::Bits },
        ],
        freq: UFreq::PerSecond,
    };
    let (_, _, unit) = convert(&units, None, None);
    assert_eq!(unit, Unit { prefix: UPfx::Kilo, base: UBase::Bits });
}

#[test]
fn bytes_bits_bytes_round_trip_is_identity() {
    let there = chain(&[UBase::Bytes, UBase::Bits]);
    let back = chain(&[UBase::Bits, UBase::Bytes]);
    for v in [0i128, 1, 7, 12345, (1 << 60) - 1, -5, -(1 << 60)] {
        let start = Value { bits: v * 3 + 1 };
        let (mid, _, _) = convert(&there, Some(start), None);
        let (end, _, _) = convert(&back, mid, None);
        assert_eq!(end, Some(start));
    }
}

#[test]
fn bits_bytes_bits_loses_what_eight_does_not_divide() {
    let there = chain(&[UBase::Bits, UBase::Bytes]);
    let back = chain(&[UBase::Bytes, UBase::Bits]);
    let (mid, mid_avg, _) = convert(&there, Some(Value { bits: 16 }), Some(Value { bits: 17 }));
    let (end, end_avg, _) = convert(&back, mid, mid_avg);
    assert_eq!(end, Some(Value { bits: 16 }));
    assert_eq!(end_avg, Some(Value { bits: 16 }));
}

#[test]
fn rescale_stays_below_1100() {
    assert_eq!(rescale(val(1099), UPfx::Plain), (val(1099), 3));
    assert_eq!(rescale(val(0), UPfx::Nano), (val(0), 0));
}

#[test]
fn rescale_moves_up_from_1100() {
    let (v, pos) = rescale(val(1100), UPfx::Plain);
    assert_eq!(pos, 4);
    assert_eq!(v.bits, (1100i128 << 63) / 1000);
    let (v, pos) = rescale(val(1_500_000), UPfx::Plain);
    assert_eq!(pos, 5);
    assert_eq!(v.bits, ((1_500_000i128 << 63) / 1000) / 1000);
}

#[test]
fn rescale_takes_the_absolute_value() {
    let (v, pos) = rescale(val(-2000), UPfx::Plain);
    assert_eq!(pos, 4);
    assert_eq!(v, val(-2));
}

#[test]
fn rescale_stops_at_the_top_of_the_ladder() {
    let (v, pos) = rescale(val(5_000_000), UPfx::Peta);
    assert_eq!(pos, 9);
    assert_eq!(v, val(5_000));
    let (v, pos) = rescale(val(5_000), UPfx::Exa);
    assert_eq!(pos, 9);
    assert_eq!(v, val(5_000));
}

#[test]
fn compose_pads_a_trivial_value() {
    assert_eq!(compose(" ", "100", true, ' ', "Bps"), " 100     Bps");
    assert_eq!(compose(" ", "1.50", false, 'K', "Bps"), " 1.50 KBps");
}

#[test]
fn humanize_trivial_value_has_no_decimals() {
    assert_eq!(humanize(val(100), UPfx::Plain, " ", &"Bps".to_string(), false), " 100     Bps");
    assert_eq!(humanize(val(1099), UPfx::Plain, " ", &"1  ".to_string(), false), " 1099     1  ");
}

#[test]
fn humanize_scaled_value_has_two_decimals() {
    assert_eq!(humanize(val(1500), UPfx::Plain, " ", &"Bps".to_string(), false), " 1.50 KBps");
    assert_eq!(humanize(val(1100), UPfx::Plain, " ", &"bps".to_string(), false), " 1.10 Kbps");
    assert_eq!(
        humanize(val(2_500_000_000), UPfx::Plain, " ", &"bps".to_string(), false),
        " 2.50 Gbps"
    );
}

#[test]
fn humanize_always_decimal() {
    assert_eq!(humanize(val(100), UPfx::Plain, " ", &"pps".to_string(), true), " 100.00  pps");
}

#[test]
fn humanize_starts_from_the_base_prefix() {
    assert_eq!(humanize(val(1500), UPfx::Kilo, " ", &"B  ".to_string(), false), " 1.50 MB  ");
    assert_eq!(humanize(val(5), UPfx::Milli, " ", &"s  ".to_string(), false), " 5    ms  ");
}

#[test]
fn humanize_negative_value() {
    assert_eq!(
        humanize(val(-1500), UPfx::Plain, "\u{394}", &"B  ".to_string(), false),
        "\u{394}-1.50 KB  "
    );
    assert_eq!(
        humanize(val(-7), UPfx::Plain, "\u{394}", &"B  ".to_string(), false),
        "\u{394}-7     B  "
    );
}

#[test]
fn humanize_saturates_at_exa() {
    assert_eq!(
        humanize(val(5_000_000), UPfx::Peta, " ", &"B  ".to_string(), false),
        " 5000.00 EB  "
    );
}

#[test]
fn humanize_writes_the_number_as_the_fixed_point_type_does() {
    for bits in [1i128, (1 << 62) + 1, (3 << 62), 12345678901234567890123, -(1 << 61)] {
        let v = Value { bits };
        let (scaled, _) = rescale(v, UPfx::Plain);
        let text = humanize(v, UPfx::Plain, "", &String::new(), true);
        let number = format!("{:.2}", I65F63::from_bits(scaled.bits));
        assert!(text.starts_with(&number));
        assert_eq!(text.len(), number.len() + 2);
    }
}
