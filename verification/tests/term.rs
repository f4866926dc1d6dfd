use wt::error::ExitClass;
use wt::term::{
    decode_key, failed, size, viewport, Arrival, Decoded, Input, Key, KeyStep, Quiet, Region,
    Waited, ESCAPE_GRACE,
};

fn key(bytes: &[u8]) -> Option<(Key, usize)> {
    match decode_key(bytes) {
        Decoded::Key(key, consumed) => Some((key, consumed)),
        _ => None,
    }
}

#[test]
fn ordinary_keys_decode_one_byte_at_a_time() {
    assert_eq!(key(b"a"), Some((Key::Char('a'), 1)));
    assert_eq!(key(b" "), Some((Key::Space, 1)));
    assert_eq!(key(b"\r"), Some((Key::Enter, 1)));
    assert_eq!(key(b"\n"), Some((Key::Enter, 1)));
    assert_eq!(key(&[0x7f]), Some((Key::Backspace, 1)));
    assert_eq!(key(&[0x03]), Some((Key::Interrupt, 1)));
}

#[test]
fn arrows_decode_from_their_escape_sequences() {
    assert_eq!(key(b"\x1b[A"), Some((Key::Up, 3)));
    assert_eq!(key(b"\x1b[B"), Some((Key::Down, 3)));
    assert_eq!(key(b"\x1bOA"), Some((Key::Up, 3)), "application cursor mode");
}

#[test]
fn a_parameterised_sequence_is_consumed_whole() {
    // An arrow with modifiers, as an extended-keys terminal sends it.
    assert_eq!(key(b"\x1b[1;5A"), Some((Key::Up, 6)));
    match decode_key(b"\x1b[200~") {
        Decoded::Skip(consumed) => assert_eq!(consumed, 6, "bracketed paste is dropped whole"),
        _ => panic!("a sequence wt does not bind must be consumed, not reinterpreted"),
    }
}

#[test]
fn a_partial_sequence_waits_for_the_rest() {
    assert!(matches!(decode_key(b"\x1b["), Decoded::Incomplete));
    assert!(matches!(decode_key(b"\x1b[1;"), Decoded::Incomplete));
    assert!(matches!(decode_key(b"\x1b"), Decoded::Incomplete));
}

#[test]
fn a_multibyte_character_waits_for_all_its_bytes() {
    let bytes = "é".as_bytes();
    assert!(matches!(decode_key(&bytes[..1]), Decoded::Incomplete));
    assert_eq!(key(bytes), Some((Key::Char('é'), 2)));
    let wide = "日".as_bytes();
    assert_eq!(key(wide), Some((Key::Char('日'), 3)));
}

#[test]
fn a_stray_continuation_byte_is_dropped_not_misread() {
    assert!(matches!(decode_key(&[0x80]), Decoded::Skip(1)));
}

#[test]
fn an_unfinished_sequence_is_never_reinterpreted_as_its_first_byte() {
    // The grace period discards it whole; reading `\x1b[` as Escape and then
    // `[` would toggle a row the reader never asked for.
    assert!(matches!(decode_key(b"\x1b["), Decoded::Incomplete));
    assert!(matches!(decode_key("é".as_bytes()), Decoded::Key(..)));
    assert!(matches!(decode_key(&"é".as_bytes()[..1]), Decoded::Incomplete));
}

#[test]
fn unbound_control_bytes_are_skipped() {
    assert!(matches!(decode_key(&[0x01]), Decoded::Skip(1)));
}

#[test]
fn pending_bytes_give_their_keys_in_turn() {
    let mut input = Input::new();
    input.fill(b"a\x01\x1b[Bz\x1b");
    assert_eq!(input.decode(), Some(Key::Char('a')));
    assert_eq!(input.decode(), Some(Key::Down));
    assert_eq!(input.decode(), Some(Key::Char('z')));
    assert_eq!(input.decode(), None);
    assert_eq!(input.quiet(), Quiet::Key(Key::Escape));
    assert_eq!(input.quiet(), Quiet::Nothing);
}

#[test]
fn an_unfinished_sequence_is_discarded_after_the_grace() {
    let mut input = Input::new();
    input.fill(b"\x1b[1;");
    assert_eq!(input.decode(), None);
    assert_eq!(input.quiet(), Quiet::Again);
    assert!(input.pending.is_empty());
    assert_eq!(input.wait(500_000_000), 500_000_000);
    input.fill(b"\x1b");
    assert_eq!(input.wait(500_000_000), 40_000_000);
    assert_eq!(input.wait(7), 7);
}

#[test]
fn a_passed_deadline_gives_no_key() {
    let mut input = Input::new();
    assert_eq!(input.step(0), KeyStep::Expired);
    input.fill(b"\x1b");
    assert_eq!(input.step(0), KeyStep::Expired);
    assert_eq!(input.step(ESCAPE_GRACE + 1), KeyStep::Wait(ESCAPE_GRACE));
    assert_eq!(input.waited(Arrival::Nothing), Waited::Over(Some(Key::Escape)));
    assert_eq!(input.step(5), KeyStep::Wait(5));
    assert_eq!(input.waited(Arrival::Nothing), Waited::Over(None));
    assert_eq!(input.waited(Arrival::Bytes(b"ab".to_vec())), Waited::Again);
    assert_eq!(input.step(0), KeyStep::Key(Key::Char('a')));
    assert_eq!(input.waited(Arrival::End), Waited::Over(Some(Key::Interrupt)));
    assert!(input.pending.is_empty());
}

#[test]
fn keys_come_out_however_the_bytes_arrived() {
    let bytes = "a\x1b[A\x01é".as_bytes();
    for cut in 0..=bytes.len() {
        let mut input = Input::new();
        let mut keys = Vec::new();
        for part in [&bytes[..cut], &bytes[cut..]] {
            input.fill(part);
            while let Some(key) = input.decode() {
                keys.push(key);
            }
        }
        assert_eq!(keys, [Key::Char('a'), Key::Up, Key::Char('é')], "cut at {cut}");
        assert!(input.pending.is_empty());
    }
    let mut input = Input::new();
    input.fill(b"a\x1b[");
    assert_eq!(input.closed(), Key::Interrupt);
    assert!(input.pending.is_empty());
}

#[test]
fn a_region_is_drawn_over_itself() {
    let mut region = Region::new();
    assert_eq!(
        Region::new().draw(&vec![String::from("x")]),
        "\x1b[?25l\r\x1b[2Kx\r\n\x1b[?25h"
    );
    assert_eq!(Region::new().commit(&vec![String::from("x")]), "\r\x1b[2Kx\r\n");
    let lines = vec![String::from("one"), String::from("two")];
    let first = region.draw(&lines);
    assert!(first.contains("one") && first.contains("two"));
    assert_eq!(region.lines, 2);
    let second = region.draw(&vec![String::from("three")]);
    assert!(second.contains("\x1b[2A"), "{second:?}");
    assert_eq!(region.lines, 1);
    let cleared = region.clear_region();
    assert!(cleared.contains("\x1b[1A"), "{cleared:?}");
    assert_eq!(region.lines, 0);
    assert_eq!(region.clear_region(), "");
}

#[test]
fn a_terminal_without_a_size_gets_the_usual_one() {
    assert_eq!(size(None), (24, 80));
    assert_eq!(size(Some((0, 132))), (24, 80));
    assert_eq!(size(Some((50, 132))), (50, 132));
    let view = viewport(Some((50, 132)), true, false);
    assert_eq!((view.rows, view.cols, view.color, view.unicode), (50, 132, true, false));
    assert_eq!(failed("read").class, ExitClass::Internal);
}
