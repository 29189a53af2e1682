use rustybar::output::{frame, header, Output, OutputAction};
use rustybar::tile::{Block, TileData};

fn msg(id: usize, text: &str) -> TileData {
    TileData { sender_id: id, block: Block::with_text(text.to_string(), None, "t".to_string()) }
}

fn shown(o: &Output) -> Vec<Option<String>> {
    o.blocks().iter().map(|b| b.as_ref().map(|b| b.full_text.clone())).collect()
}

#[test]
fn header_opens_the_protocol() {
    assert_eq!(header(), b"{ \"version\": 1 }\n[".to_vec());
}

#[test]
fn frame_adds_separator() {
    assert_eq!(frame(b"[null]"), b"[null],\n".to_vec());
    assert_eq!(frame(b""), b",\n".to_vec());
}

#[test]
fn new_output_shows_nothing() {
    let o = Output::new(3);
    assert_eq!(shown(&o), vec![None, None, None]);
}

#[test]
fn each_slot_shows_latest_block() {
    let mut o = Output::new(3);
    assert_eq!(o.handle(msg(1, "a")), OutputAction::Render);
    assert_eq!(o.handle(msg(0, "b")), OutputAction::Render);
    assert_eq!(o.handle(msg(1, "c")), OutputAction::Render);
    assert_eq!(shown(&o), vec![Some("b".to_string()), Some("c".to_string()), None]);
}

#[test]
fn unknown_sender_changes_nothing() {
    let mut o = Output::new(2);
    o.handle(msg(0, "a"));
    assert_eq!(o.handle(msg(2, "x")), OutputAction::InvalidSender(2));
    assert_eq!(o.handle(msg(usize::MAX, "y")), OutputAction::InvalidSender(usize::MAX));
    assert_eq!(shown(&o), vec![Some("a".to_string()), None]);
    let mut empty = Output::new(0);
    assert_eq!(empty.handle(msg(0, "z")), OutputAction::InvalidSender(0));
}
