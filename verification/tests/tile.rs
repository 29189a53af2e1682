use rustybar::tile::{Alignment, Block, Markup, TileLabel};

#[test]
fn alignment_defaults_to_center() {
    assert_eq!(Alignment::default(), Alignment::Center);
}

#[test]
fn markup_defaults_to_plain() {
    assert_eq!(Markup::default(), Markup::Plain);
}

#[test]
fn default_block_is_empty() {
    let b = Block::default();
    assert_eq!(b.full_text, "");
    assert_eq!(b.short_text, None);
    assert_eq!(b.name, "");
    assert_eq!(b.instance, "");
    assert_eq!(b.color, None);
    assert_eq!(b.align, None);
    assert_eq!(b.markup, None);
    assert_eq!(b.urgent, None);
    assert_eq!(b.separator_block_width, None);
}

#[test]
fn with_text_sets_texts_and_name() {
    let b = Block::with_text("full".to_string(), Some("short".to_string()), "n".to_string());
    assert_eq!(b.full_text, "full");
    assert_eq!(b.short_text.as_deref(), Some("short"));
    assert_eq!(b.name, "n");
    assert_eq!(b.instance, "");
    assert_eq!(b.border_top, None);
}

#[test]
fn label_has_uuid_instance() {
    let random = [
        0x12u8, 0x34, 0x56, 0x78, 0x9a, 0xbc, 0xde, 0xf0, 0xff, 0x00, 0x11, 0x22, 0x33, 0x44, 0x55, 0x66,
    ];
    let l = TileLabel::new(3, random);
    assert_eq!(l.sender_id, 3);
    assert_eq!(l.instance, "12345678-9abc-4ef0-bf00-112233445566");
    let expected = uuid::Builder::from_bytes(random)
        .set_variant(uuid::Variant::RFC4122)
        .set_version(uuid::Version::Random)
        .build()
        .to_string();
    assert_eq!(l.instance, expected);
}

#[test]
fn label_instance_is_the_uuid_text() {
    for _ in 0..100 {
        let u = uuid::Uuid::new_v4();
        assert_eq!(TileLabel::new(0, *u.as_bytes()).instance, u.to_string());
    }
    let zero = TileLabel::new(1, [0u8; 16]);
    assert_eq!(zero.instance, "00000000-0000-4000-8000-000000000000");
    let ones = TileLabel::new(1, [0xffu8; 16]);
    assert_eq!(ones.instance, "ffffffff-ffff-4fff-bfff-ffffffffffff");
}

#[test]
fn label_replaces_only_the_instance() {
    let l = TileLabel { sender_id: 2, instance: "abc".to_string() };
    let mut b = Block::with_text("x".to_string(), None, "load".to_string());
    b.instance = "old".to_string();
    b.urgent = Some(true);
    b.min_width = Some(40);
    let d = l.apply(b);
    assert_eq!(d.sender_id, 2);
    assert_eq!(d.block.instance, "abc");
    assert_eq!(d.block.full_text, "x");
    assert_eq!(d.block.name, "load");
    assert_eq!(d.block.urgent, Some(true));
    assert_eq!(d.block.min_width, Some(40));
}
