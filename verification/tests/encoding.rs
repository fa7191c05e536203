use tiddlydesktop::encoding::{
    decode_string, decode_utf16_be, decode_utf16_le, decode_utf16le, find_utf16_null, from_utf16,
    from_utf16_lossy, looks_like_utf16_be, looks_like_utf16_le, parse_chromium_custom_data,
    parse_chromium_custom_data_64, parse_moz_custom_clipdata, take_until_zero, to_bytes_le,
    to_units_be, to_units_le, to_utf16,
};

fn le(s: &str) -> Vec<u8> {
    s.encode_utf16().flat_map(|u| u.to_le_bytes()).collect()
}

fn be(s: &str) -> Vec<u8> {
    s.encode_utf16().flat_map(|u| u.to_be_bytes()).collect()
}

#[test]
fn utf16_follows_std() {
    for s in ["", "abc", "é€", "😀x", "a\0b"] {
        let units: Vec<u16> = s.encode_utf16().collect();
        assert_eq!(to_utf16(s), units);
        assert_eq!(from_utf16_lossy(&units), s);
        assert_eq!(from_utf16(&units), Some(s.to_string()));
        assert_eq!(to_units_le(&le(s)), units);
        assert_eq!(to_units_be(&be(s)), units);
        assert_eq!(to_bytes_le(&units), le(s));
    }
    for units in [vec![0xD800u16], vec![0xDC00, 65], vec![0xD83D, 65], vec![0xD83D, 0xD83D, 0xDE00]] {
        assert_eq!(from_utf16_lossy(&units), String::from_utf16_lossy(&units));
        assert_eq!(from_utf16(&units), String::from_utf16(&units).ok());
    }
    assert_eq!(take_until_zero(&[1, 2, 0, 3]), vec![1, 2]);
    assert_eq!(to_units_le(&[65, 0, 66]), vec![65]);
}

#[test]
fn plain_text_is_read() {
    assert_eq!(decode_string("héllo".as_bytes()), "héllo");
    assert_eq!(decode_string(b""), "");
}

#[test]
fn marked_utf16_is_read() {
    let mut data = vec![0xFF, 0xFE];
    data.extend(le("héllo"));
    assert_eq!(decode_string(&data), "héllo");
    let mut data = vec![0xFE, 0xFF];
    data.extend(be("héllo"));
    assert_eq!(decode_string(&data), "héllo");
    assert_eq!(decode_utf16_le(&le("ab")), Some("ab".to_string()));
    assert_eq!(decode_utf16_be(&be("ab")), Some("ab".to_string()));
}

#[test]
fn unmarked_utf16_is_guessed() {
    assert!(looks_like_utf16_le(&le("hello world")));
    assert!(!looks_like_utf16_le(b"hello world"));
    assert_eq!(find_utf16_null(&[65, 0, 0, 0, 66, 0]), Some(2));
    assert_eq!(find_utf16_null(&[65, 0]), None);
    assert_eq!(decode_utf16le(&le("x\u{e9}")), "x\u{e9}");
    assert!(looks_like_utf16_be(&be("hello world")));
    assert!(!looks_like_utf16_be(&le("hello world")));
    assert_eq!(decode_string(&[0x00, 0x48, 0x00, 0x69]), "Hi");
    assert_eq!(decode_string(&[0x48, 0x00, 0x69, 0x00]), "Hi");
    assert_eq!(decode_string(&[0x00, 0x48, 0x00, 0x69, 0, 0, 0x00, 0x21]), "Hi");
    assert_eq!(decode_string(&be("caf\u{e9} au lait")), "caf\u{e9} au lait");
    assert_eq!(decode_string(&[0xEF, 0xBB, 0xBF, 0x61, 0xC3, 0xA9]), "a\u{e9}");
}

#[test]
fn broken_text_is_read_as_far_as_it_goes() {
    assert_eq!(decode_string(&[0x61, 0xFF, 0x62]), "a\u{FFFD}b");
}

fn moz_frame(entries: &[(&str, &str)]) -> Vec<u8> {
    let mut data = vec![0, 0, 0, entries.len() as u8];
    for (k, v) in entries {
        for s in [k, v] {
            let b = le(s);
            data.extend((b.len() as u32).to_be_bytes());
            data.extend(b);
        }
    }
    data
}

#[test]
fn a_moz_frame_is_read() {
    let data = moz_frame(&[("text/vnd.tiddler", "[1]"), ("text/plain", "hé")]);
    let map = parse_moz_custom_clipdata(&data).unwrap();
    assert_eq!(map.get("text/vnd.tiddler"), Some(&"[1]".to_string()));
    assert_eq!(map.get("text/plain"), Some(&"hé".to_string()));
    assert!(parse_moz_custom_clipdata(&[0, 0]).is_none());
}

fn pad4(data: &mut Vec<u8>) {
    while data.len() % 4 != 0 {
        data.push(0);
    }
}

fn chromium_frame(entries: &[(&str, &str)]) -> Vec<u8> {
    let mut body = (entries.len() as u32).to_le_bytes().to_vec();
    for (k, v) in entries {
        for s in [k, v] {
            body.extend((s.encode_utf16().count() as u32).to_le_bytes());
            body.extend(le(s));
            pad4(&mut body);
        }
    }
    let mut data = (body.len() as u32).to_le_bytes().to_vec();
    data.extend(body);
    data
}

#[test]
fn a_chromium_frame_is_read() {
    let data = chromium_frame(&[("text/vnd.tiddler", "[x]"), ("a", "b")]);
    let map = parse_chromium_custom_data(&data).unwrap();
    assert_eq!(map.get("text/vnd.tiddler"), Some(&"[x]".to_string()));
    assert_eq!(map.get("a"), Some(&"b".to_string()));
    assert!(parse_chromium_custom_data(&[1, 0, 0]).is_none());
    assert!(parse_chromium_custom_data_64(&[1, 0, 0]).is_none());
}
