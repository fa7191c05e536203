use tiddlydesktop::clipboard::{
    clipboard_fault, clipboard_html_text, clipboard_units, decode_text, formats_to_try,
    fragment_markers_cross, get_clipboard_content_linux, get_clipboard_content_macos,
    get_clipboard_content_windows, pasteboard_types, uri_list_of_paths, windows_clipboard,
    ClipboardContentData,
};
use tiddlydesktop::sanitize::Platform;

#[test]
fn nothing_is_there_at_first() {
    let c = ClipboardContentData::new();
    assert!(c.types.is_empty());
    assert_eq!(c.data.len(), 0);
}

#[test]
fn text_is_decoded() {
    assert_eq!(decode_text(b"abc"), Some("abc".to_string()));
    let wide: Vec<u8> = "abc".encode_utf16().flat_map(|u| u.to_le_bytes()).collect();
    assert_eq!(decode_text(&wide), Some("abc".to_string()));
}

fn answers(given: &[(&str, &[u8])]) -> Vec<Vec<u8>> {
    formats_to_try()
        .iter()
        .map(|f| given.iter().find(|g| g.0 == f).map(|g| g.1.to_vec()).unwrap_or_default())
        .collect()
}

#[test]
fn linux_offers_are_taken() {
    assert_eq!(formats_to_try()[5], "text/vnd.tiddler");
    let given = answers(&[("text/plain", b"hello"), ("text/html", b"<b>hello</b>")]);
    let c = get_clipboard_content_linux(&given, Some("unused".to_string()));
    assert_eq!(c.types, vec!["text/html".to_string(), "text/plain".to_string()]);
    assert_eq!(c.data.get("text/plain"), Some(&"hello".to_string()));
    assert_eq!(c.data.get("text/html"), Some(&"<b>hello</b>".to_string()));
    let c = get_clipboard_content_linux(&vec![], Some("plain".to_string()));
    assert_eq!(c.data.get("text/plain"), Some(&"plain".to_string()));
}

#[test]
fn types_are_named_once() {
    let wide: Vec<u8> = "a".encode_utf16().chain(Some(98)).flat_map(|u| u.to_le_bytes()).collect();
    let given = answers(&[("text/uri-list", b"\xff"), ("UTF8_STRING", &wide), ("STRING", b"c")]);
    let c = get_clipboard_content_linux(&given, None);
    assert_eq!(c.types, vec!["text/plain".to_string()]);
    assert_eq!(c.data.get("text/plain"), Some(&"ab".to_string()));
    for i in 0..c.types.len() {
        for j in 0..i {
            assert_ne!(c.types[i], c.types[j]);
        }
    }
}

#[test]
fn copied_text_is_pasted() {
    let units = clipboard_units("héllo");
    assert_eq!(units.last(), Some(&0));
    let c = get_clipboard_content_windows(&vec![], None, Some(units)).unwrap();
    assert_eq!(c.data.get("text/plain"), Some(&"héllo".to_string()));
}

#[test]
fn windows_files_and_html_are_taken() {
    let path: Vec<u16> = "C:\\a b.txt".encode_utf16().collect();
    let list = uri_list_of_paths(&vec![path.clone()]);
    assert_eq!(list, "file:///C:/a b.txt");
    let html = "Version:0.9\r\n<html><!--StartFragment--><b>x</b><!--EndFragment--></html>";
    assert!(!fragment_markers_cross(html));
    let c = windows_clipboard(&vec![path.clone()], Some(html.to_string()), None);
    assert_eq!(c.data.get("text/uri-list"), Some(&list));
    assert_eq!(c.data.get("text/html"), Some(&"<b>x</b>".to_string()));
    let mut bytes = html.as_bytes().to_vec();
    bytes.extend(b"\0rest");
    let c = get_clipboard_content_windows(&vec![path], Some(bytes), None).unwrap();
    assert_eq!(c.types, vec!["text/uri-list".to_string(), "text/html".to_string()]);
    assert_eq!(c.data.get("text/html"), Some(&"<b>x</b>".to_string()));
    let crossed = "<!--EndFragment--><!--StartFragment-->";
    assert!(fragment_markers_cross(crossed));
    assert!(get_clipboard_content_windows(&vec![], Some(crossed.as_bytes().to_vec()), None).is_none());
    let open = get_clipboard_content_windows(&vec![], Some(b"<!--StartFragment-->x".to_vec()), None);
    assert!(open.unwrap().types.is_empty());
    assert_eq!(clipboard_html_text(b"abc"), "abc");
}

#[test]
fn pasteboard_answers_are_taken() {
    let types = pasteboard_types();
    let answers: Vec<Option<String>> = types
        .iter()
        .map(|t| if t == "public.utf8-plain-text" { Some("hi".to_string()) } else { None })
        .collect();
    let c = get_clipboard_content_macos(None, &answers);
    assert_eq!(c.data.get("text/plain"), Some(&"hi".to_string()));
}

#[test]
fn android_has_no_clipboard() {
    assert_eq!(
        clipboard_fault(Platform::Android),
        Some("Clipboard not implemented on Android".to_string())
    );
    assert_eq!(clipboard_fault(Platform::Linux), None);
}
