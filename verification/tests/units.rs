use stas::{
    all_heads, unit_bytes, unit_bytes_bits_ps, unit_packets_ps, unit_units_ps, KeyHead, UBase,
    UFreq, UPfx, Unit,
};

#[test]
fn unit_bytes_is_plain_bytes_as_is() {
    let chain = unit_bytes();
    assert_eq!(chain.units, vec![Unit { prefix: UPfx::Plain, base: UBase::Bytes }]);
    assert_eq!(chain.freq, UFreq::AsIs);
}

#[test]
fn unit_units_ps_is_plain_units_per_second() {
    let chain = unit_units_ps();
    assert_eq!(chain.units, vec![Unit { prefix: UPfx::Plain, base: UBase::Units }]);
    assert_eq!(chain.freq, UFreq::PerSecond);
}

#[test]
fn unit_packets_ps_is_plain_packets_per_second() {
    let chain = unit_packets_ps();
    assert_eq!(chain.units, vec![Unit { prefix: UPfx::Plain, base: UBase::Packets }]);
    assert_eq!(chain.freq, UFreq::PerSecond);
}

#[test]
fn unit_bytes_bits_ps_converts_bytes_to_bits() {
    let chain = unit_bytes_bits_ps();
    assert_eq!(
        chain.units,
        vec![
            Unit { prefix: UPfx::Plain, base: UBase::Bytes },
            Unit { prefix: UPfx::Plain, base: UBase::Bits },
        ]
    );
    assert_eq!(chain.freq, UFreq::PerSecond);
}

#[test]
fn duplicate_keeps_the_chain() {
    let chain = unit_bytes_bits_ps();
    let copy = chain.duplicate();
    assert_eq!(copy.units, chain.units);
    assert_eq!(copy.freq, chain.freq);
}

#[test]
fn base_glyphs() {
    assert_eq!(UBase::Units.to_string(), "1");
    assert_eq!(UBase::Packets.to_string(), "p");
    assert_eq!(UBase::Seconds.to_string(), "s");
    assert_eq!(UBase::Bits.to_string(), "b");
    assert_eq!(UBase::Bytes.to_string(), "B");
}

#[test]
fn prefix_ladder_order_and_glyphs() {
    let ladder = [
        (UPfx::Nano, 'n'),
        (UPfx::Micro, 'u'),
        (UPfx::Milli, 'm'),
        (UPfx::Plain, ' '),
        (UPfx::Kilo, 'K'),
        (UPfx::Mega, 'M'),
        (UPfx::Giga, 'G'),
        (UPfx::Tera, 'T'),
        (UPfx::Peta, 'P'),
        (UPfx::Exa, 'E'),
    ];
    for (pos, (prefix, glyph)) in ladder.iter().enumerate() {
        assert_eq!(prefix.position(), pos);
        assert_eq!(UPfx::from_position(pos), *prefix);
        assert_eq!(prefix.symbol(), *glyph);
    }
}

#[test]
fn key_head_flags_and_headers() {
    assert!(KeyHead::Ifname.separate());
    assert!(KeyHead::Parent.separate());
    assert!(!KeyHead::Handle.separate());
    assert!(!KeyHead::Kind.separate());
    assert!(KeyHead::Name.separate());

    assert!(KeyHead::Ifname.suppress_dups());
    assert!(KeyHead::Parent.suppress_dups());
    assert!(KeyHead::Handle.suppress_dups());
    assert!(KeyHead::Kind.suppress_dups());
    assert!(!KeyHead::Name.suppress_dups());

    assert_eq!(KeyHead::Ifname.column_head(), "if");
    assert_eq!(KeyHead::Parent.column_head(), "par");
    assert_eq!(KeyHead::Handle.column_head(), "hnd");
    assert_eq!(KeyHead::Kind.column_head(), "kind");
    assert_eq!(KeyHead::Name.column_head(), "counter");
}

#[test]
fn heads_come_in_display_order() {
    assert_eq!(
        all_heads(),
        [KeyHead::Ifname, KeyHead::Parent, KeyHead::Handle, KeyHead::Kind, KeyHead::Name]
    );
}
