use chat_wire::request::request_text;
use std::collections::HashSet;

/// The bytes that the encodings of characters start with, whole or in part.
fn character_starts() -> HashSet<Vec<u8>> {
    let mut starts = HashSet::new();
    for c in '\0'..=char::MAX {
        let mut buffer = [0_u8; 4];
        let code = c.encode_utf8(&mut buffer).as_bytes();
        for len in 1..code.len() {
            starts.insert(code[..len].to_vec());
        }
    }
    starts
}

/// The characters of `bytes`, and U+FFFD for each sequence that is none but might have become
/// one, up to the byte that is in the way.
fn expected(bytes: &[u8], starts: &HashSet<Vec<u8>>) -> String {
    let mut text = String::new();
    let mut rest = bytes;
    while !rest.is_empty() {
        let whole = (1..=rest.len().min(4)).find_map(|len| {
            let part = std::str::from_utf8(&rest[..len]).ok()?;
            Some((part, len))
        });
        match whole {
            Some((part, len)) => {
                text.push_str(part);
                rest = &rest[len..];
            }
            None => {
                text.push('\u{fffd}');
                let len = (2..=rest.len().min(3))
                    .rev()
                    .find(|len| starts.contains(&rest[..*len]))
                    .unwrap_or(1);
                rest = &rest[len..];
            }
        }
    }
    text
}

#[test]
fn ill_formed_sequences_are_replaced() {
    let edges = [
        0x00, 0x0a, 0x41, 0x7f, 0x80, 0x8f, 0x90, 0x9f, 0xa0, 0xbf, 0xc0, 0xc1, 0xc2, 0xdf, 0xe0,
        0xe1, 0xec, 0xed, 0xee, 0xef, 0xf0, 0xf1, 0xf3, 0xf4, 0xf5, 0xff,
    ];
    let starts = character_starts();
    let mut all: Vec<Vec<u8>> = vec![vec![]];
    for _ in 0..4 {
        for bytes in &all {
            assert_eq!(request_text(bytes), expected(bytes, &starts), "{bytes:?}");
        }
        let longest = all.last().map_or(0, |bytes| bytes.len());
        all = all
            .iter()
            .filter(|bytes| bytes.len() == longest)
            .flat_map(|bytes| edges.map(|byte| [bytes.as_slice(), &[byte]].concat()))
            .collect();
    }
    for bytes in &all {
        assert_eq!(request_text(bytes), expected(bytes, &starts), "{bytes:?}");
    }
}

#[test]
fn texts_of_ill_formed_bytes() {
    assert_eq!(request_text(b"Hello \xF0\x90\x80World"), "Hello \u{fffd}World");
    assert_eq!(request_text(b"\xF0\x90\x80"), "\u{fffd}");
    assert_eq!(request_text(b"\xE2\x82"), "\u{fffd}");
    assert_eq!(request_text(b"\xE2\x82\xAC"), "\u{20ac}");
    assert_eq!(request_text(b"\xE0\x80\x80"), "\u{fffd}\u{fffd}\u{fffd}");
    assert_eq!(request_text(b"\xF4\x90\xFF\n"), "\u{fffd}\u{fffd}\u{fffd}\n");
}

#[test]
fn ascii_byte_stands_for_itself() {
    for bytes in [&b"\xF0\x90"[..], b"\xC3", b"a\xFF", b"\xE2\x82\xAC", b""] {
        for byte in 0..0x80_u8 {
            let mut expected = request_text(bytes);
            expected.push(byte as char);
            assert_eq!(request_text(&[bytes, &[byte]].concat()), expected);
        }
    }
}
