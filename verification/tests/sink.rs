use skipline::sink::{clipboard_payload, key_code_of, lobyte};

#[test]
fn clipboard_payload_is_text_plus_terminator() {
    assert_eq!(clipboard_payload(b"hello"), b"hello\0".to_vec());
}

#[test]
fn clipboard_payload_of_empty_text_is_one_zero_byte() {
    assert_eq!(clipboard_payload(b""), vec![0u8]);
}

#[test]
fn clipboard_payload_keeps_every_byte() {
    let text = [1u8, 0, 255, 10, 13, 65];
    let payload = clipboard_payload(&text);
    assert_eq!(&payload[..text.len()], &text);
    assert_eq!(payload.len(), text.len() + 1);
    assert_eq!(*payload.last().unwrap(), 0);
}

#[test]
fn lobyte_takes_the_low_byte() {
    assert_eq!(lobyte(0x1ff), 0xff);
    assert_eq!(lobyte(0x58), 0x58);
    assert_eq!(lobyte(0xabcd_1234_5678_9a42), 0x42);
}

#[test]
fn unresolvable_characters_are_skipped() {
    assert_eq!(key_code_of(-1), None);
    assert_eq!(key_code_of(i16::MIN), None);
}

#[test]
fn resolvable_characters_use_the_low_byte() {
    assert_eq!(key_code_of(0x0158), Some(0x58));
    assert_eq!(key_code_of(0x0041), Some(0x41));
}
