use tiddlydesktop::drag_drop;
use tiddlydesktop::drag_drop::{NativeDrag, NativeDragData};
use tiddlydesktop::input_inject;
use tiddlydesktop::input_inject::{InjectResult, SimulatedClick};
use tiddlydesktop::linux;
use tiddlydesktop::linux::{
    CrossingMode, DataReply, DragResult, DragState, DragTarget, DropOutcome, LinuxDrag,
    OutgoingDragData, OutgoingDragState, PointerPlace, Received, WindowRegistry,
};
use tiddlydesktop::macos;
use tiddlydesktop::macos::{DropResult, Pasteboard, SessionStart};
use tiddlydesktop::native_dnd;
use tiddlydesktop::native_dnd::{
    DisplayServer, Environment, KeptServer, Labels, NativeDnd, WaylandEvents,
};
use tiddlydesktop::sanitize::Platform;
use tiddlydesktop::table::Table;
use tiddlydesktop::windows;
use tiddlydesktop::windows::{
    ContentAwareDropTarget, DataObject, DragEvent, DropEvent, Formats, InternalDrag,
    InternalDragType, OfferedFormats,
};

fn some(s: &str) -> Option<String> {
    Some(s.to_string())
}

fn wide(s: &str) -> Vec<u8> {
    s.encode_utf16().flat_map(|u| u.to_le_bytes()).collect()
}

fn data(plain: Option<&str>, tiddler: Option<&str>) -> OutgoingDragData {
    OutgoingDragData {
        text_plain: plain.map(|s| s.to_string()),
        text_html: None,
        text_vnd_tiddler: tiddler.map(|s| s.to_string()),
        text_uri_list: None,
        text_x_moz_url: some("data:x"),
        url: None,
        is_text_selection_drag: false,
    }
}

#[test]
fn one_window_holds_a_drag() {
    let mut a = DragState::new("a");
    let mut b = DragState::new("b");
    let mut target: Option<String> = None;
    assert!(linux::drag_motion(&mut a, &mut target, Some("src"), 1, 2));
    assert_eq!(target, some("a"));
    assert!(!linux::drag_motion(&mut b, &mut target, Some("src"), 1, 2));
    assert_eq!(target, some("a"));
    assert!(!linux::drag_motion(&mut a, &mut target, Some("a"), 1, 2));
}

#[test]
fn a_drag_passes_on() {
    let mut a = DragState::new("a");
    let mut b = DragState::new("b");
    let mut target: Option<String> = None;
    linux::drag_motion(&mut a, &mut target, Some("src"), 1, 2);
    assert!(linux::drag_leave(&mut a, &mut target, Some("src")));
    assert_eq!(target, None);
    assert!(linux::drag_motion(&mut b, &mut target, Some("src"), 3, 4));
    assert_eq!(target, some("b"));
    assert_eq!(b.last_position, Some((3, 4)));
}

#[test]
fn dropped_files_are_accepted() {
    let list = b"file:///home/a.txt\r\nfile:///x/../etc\r\n";
    match linux::classify_drop("text/uri-list", list, None) {
        Received::Files(files) => assert_eq!(files, vec!["/home/a.txt".to_string()]),
        Received::Content(_) => panic!("not files"),
    }
    assert_eq!(linux::files_of_list("file:///a%20b"), vec!["/a b".to_string()]);
}

#[test]
fn a_drop_is_dealt_with() {
    let mut st = DragState::new("w");
    let targets = vec!["text/plain".to_string(), "text/vnd.tiddler".to_string()];
    let none = linux::handle_drag_data_received(&mut st, None, 5, 6, None, "text/plain", b"x", None);
    assert!(matches!(none, DropOutcome::Preview));
    assert_eq!(linux::drag_drop(&mut st, true, 1, 2, &targets), Some(0));
    let ranked = vec!["STRING".to_string(), "text/html".to_string()];
    assert_eq!(linux::drag_drop(&mut st, true, 1, 2, &ranked), Some(1));
    let place = Some(PointerPlace { pointer: (110, 220), origin: (100, 200) });
    match linux::handle_drag_data_received(&mut st, None, 0, 0, place, "text/plain", b"hello", None) {
        DropOutcome::Done { x, y, received } => {
            assert_eq!((x, y), (10, 20));
            assert!(linux::drop_succeeded(&received));
            match received {
                Received::Content(m) => assert_eq!(m.get("text/plain"), Some(&"hello".to_string())),
                Received::Files(_) => panic!("no files"),
            }
        }
        _ => panic!("not done"),
    }
    linux::drag_drop(&mut st, true, 1, 2, &targets);
    let native = linux::handle_drag_data_received(&mut st, Some("v"), 5, 6, None, "text/plain", b"x", None);
    assert!(matches!(native, DropOutcome::Native));
    assert_eq!(linux::drag_drop(&mut st, false, 1, 2, &targets), None);
}

#[test]
fn tiddlers_come_alone() {
    assert!(linux::seems_tiddlers("[{\"title\":\"A\",\"text\":\"x\"}]"));
    assert!(!linux::seems_tiddlers("hello"));
    let json = b"[{\"title\":\"A\",\"text\":\"x\"}]";
    match linux::classify_drop("text/plain", json, None) {
        Received::Content(m) => {
            assert_eq!(m.len(), 2);
            assert_eq!(m.get("text/vnd.tiddler"), m.get("text/plain"));
        }
        Received::Files(_) => panic!("no files"),
    }
}

fn outgoing(label: &str, d: OutgoingDragData) -> Option<OutgoingDragState> {
    Some(OutgoingDragState { data: d, source_window_label: label.to_string(), data_was_requested: false })
}

#[test]
fn data_is_handed_out() {
    let mut out = outgoing("a", data(Some("plain"), Some("[]")));
    match linux::drag_data_get("text/vnd.tiddler", &mut out, &some("b")) {
        DataReply::Provide { atom, bytes } => {
            assert_eq!(atom, "text/vnd.tiddler");
            assert_eq!(bytes, b"[]".to_vec());
        }
        _ => panic!("nothing handed out"),
    }
    assert!(linux::was_data_requested(&out));
    match linux::drag_data_get("text/x-moz-url", &mut out, &None) {
        DataReply::Provide { bytes, .. } => assert_eq!(bytes, wide("data:x\nplain")),
        _ => panic!("nothing handed out"),
    }
    assert!(matches!(linux::drag_data_get("text/html", &mut out, &None), DataReply::Stop { empty: false }));
    assert!(matches!(linux::drag_data_get("text/plain", &mut out, &some("a")), DataReply::Leave));
    assert!(linux::has_outgoing_data_for_window(&out, "a"));
    assert!(!linux::has_outgoing_data_for_window(&out, "b"));
    assert!(linux::has_any_outgoing_data(&out));
}

#[test]
fn the_internal_format_is_withheld() {
    let name = "org.webkitgtk.WebKit.custom-pasteboard-data";
    for current in [None, some("a"), some("b")] {
        let mut out = outgoing("a", data(Some("x"), None));
        assert!(matches!(linux::drag_data_get(name, &mut out, &current), DataReply::Stop { empty: true }));
        let mut out = None;
        assert!(matches!(linux::drag_data_get(name, &mut out, &current), DataReply::Stop { empty: true }));
    }
}

#[test]
fn a_drag_lives_and_ends() {
    let mut d = LinuxDrag::new();
    d.prepare_native_drag("w", data(Some("x"), None));
    assert!(d.source_ready);
    d.set_pending_drag_icon(vec![1], 2, 3);
    d.start_native_drag("w", data(Some("x"), None), None, None, None);
    assert_eq!(d.active_window, some("w"));
    assert_eq!(d.image.as_ref().unwrap().png, vec![1]);
    assert!(!d.drag_end());
    d.start_native_drag("w", data(Some("x"), None), Some(vec![9]), None, Some(4));
    assert_eq!(d.image.as_ref().unwrap().offset_y, 4);
    assert_eq!(d.drag_failed(DragResult::UserCancelled), some("user_cancelled"));
    d.start_native_drag("w", data(Some("x"), None), None, None, None);
    assert_eq!(d.cleanup_native_drag(), some("w"));
    assert!(d.outgoing.is_none());
    d.set_pending_drag_icon(vec![1], 2, 3);
    d.start_native_drag("w", data(Some("x"), None), None, None, None);
    assert!(d.start_failed().starts_with("Failed to start native drag"));
    assert!(d.outgoing.is_none() && d.image.is_none());
    assert!(linux::drag_targets(&data(None, Some("[]")))
        == vec![DragTarget::Tiddler, DragTarget::MozUrl, DragTarget::TextTargets]);
    assert_eq!(linux::shown_image(Some(vec![1]), None, Some(2)).unwrap().offset_y, 2);
}

#[test]
fn windows_and_widgets_are_known() {
    let mut inside: Option<String> = None;
    linux::pointer_enter(&mut inside, "w", CrossingMode::Grab);
    assert_eq!(inside, None);
    linux::pointer_enter(&mut inside, "w", CrossingMode::Normal);
    linux::pointer_leave(&mut inside, "w", CrossingMode::Normal, true);
    assert_eq!(inside, some("w"));
    linux::pointer_leave(&mut inside, "w", CrossingMode::Ungrab, false);
    assert_eq!(inside, None);
    assert!(linux::is_webkit_widget("WebKitWebView"));
    let mut widgets: Table<u64> = Table::new();
    linux::register_webkit_widget(&mut widgets, "w", 7);
    assert_eq!(linux::get_source_window_label(&widgets, Some(7)), some("w"));
    assert_eq!(linux::get_source_window_label(&widgets, Some(8)), None);
    assert!(!linux::pointer_reset_succeeds(false, &some("wayland"), true));
    assert!(linux::pointer_reset_succeeds(false, &some("x11"), true));
    let mut registry = WindowRegistry::new();
    registry.register_gdk_window(1, "w", 10, 20);
    registry.update_gdk_window_dimensions(1, 30, 40);
    registry.update_gdk_window_dimensions(2, 30, 40);
    assert_eq!(registry.by_window.len(), 1);
    let e = &registry.by_window[&1];
    assert_eq!((e.label.as_str(), e.width, e.height), ("w", 30, 40));
}

fn pasteboard(tiddler: Option<&str>, plain: Option<&str>) -> Pasteboard {
    Pasteboard {
        moz_custom: None,
        chrome_custom: None,
        tiddler: tiddler.map(|s| s.to_string()),
        json: None,
        plain: plain.map(|s| s.to_string()),
        html: None,
        url: None,
    }
}

#[test]
fn listed_types_have_data() {
    let c = macos::extract_pasteboard_content(&pasteboard(None, Some("https://example.com"))).unwrap();
    assert!(c.types.contains(&"text/uri-list".to_string()));
    for t in &c.types {
        assert!(c.data.contains_key(t));
    }
    assert!(macos::extract_pasteboard_content(&pasteboard(None, None)).is_none());
}

fn field(s: &str) -> Vec<u8> {
    let bytes = wide(s);
    let mut out = (bytes.len() as u32).to_be_bytes().to_vec();
    out.extend(bytes);
    out
}

fn moz_frame(entries: &[(&str, &str)]) -> Vec<u8> {
    let mut data = (entries.len() as u32).to_be_bytes().to_vec();
    for (mime, content) in entries {
        data.extend(field(mime));
        data.extend(field(content));
    }
    data
}

#[test]
fn frames_are_made_harmless() {
    let frame = moz_frame(&[
        ("text/html", "<img src=\"x\" onerror=\"alert(1)\">"),
        ("text/uri-list", "https://a\njavascript:alert(1)"),
        ("URL", "javascript:alert(1)"),
        ("text/plain", "t"),
    ]);
    let html = Some("<img src=\"x\">".to_string());
    let list = Some("https://a".to_string());
    let mut p = pasteboard(None, None);
    p.moz_custom = Some(frame.clone());
    let c = macos::extract_pasteboard_content(&p).unwrap();
    assert_eq!(c.data.get("text/html").cloned(), html);
    assert_eq!(c.data.get("text/uri-list").cloned(), list);
    assert!(!c.data.contains_key("URL"));
    assert!(!c.types.contains(&"URL".to_string()));
    p.moz_custom = Some(moz_frame(&[("URL", "javascript:alert(1)")]));
    assert!(macos::extract_pasteboard_content(&p).is_none());
    let mut d = object(None);
    d.moz_custom = Some(frame.clone());
    let m = windows::extract_content(&d);
    assert_eq!(m.get("text/html").cloned(), html);
    assert_eq!(m.get("text/uri-list").cloned(), list);
    assert!(!m.contains_key("URL"));
    match linux::classify_drop("application/x-moz-custom-clipdata", &frame, None) {
        Received::Content(m) => {
            assert_eq!(m.get("text/html").cloned(), html);
            assert_eq!(m.get("text/uri-list").cloned(), list);
            assert!(!m.contains_key("URL"));
        }
        Received::Files(_) => panic!("no files"),
    }
    d.chromium_custom = None;
    d.moz_custom = Some(moz_frame(&[("URL", "javascript:alert(1)")]));
    d.unicode_text = Some(wide("hello"));
    let m = windows::extract_content(&d);
    assert_eq!(m.get("text/plain"), Some(&"hello".to_string()));
    match linux::classify_drop("text/plain", b"https://a\njavascript:alert(1)", None) {
        Received::Content(m) => assert_eq!(m.get("text/uri-list").cloned(), list),
        Received::Files(_) => panic!("no files"),
    }
}

#[test]
fn harmless_links_stay_as_they_are() {
    let links = "https://a.org\r\nhttps://b.org\r\n";
    let stays = Some(links.to_string());
    match linux::classify_drop("text/plain", links.as_bytes(), None) {
        Received::Content(m) => assert_eq!(m.get("text/uri-list").cloned(), stays),
        Received::Files(_) => panic!("no files"),
    }
    let c = macos::extract_pasteboard_content(&pasteboard(None, Some(links))).unwrap();
    assert_eq!(c.data.get("text/uri-list").cloned(), stays);
    let mut d = object(None);
    d.url = Some(wide(links));
    assert_eq!(windows::extract_content(&d).get("text/uri-list").cloned(), stays);
    let frame = moz_frame(&[("text/uri-list", links)]);
    let mut p = pasteboard(None, None);
    p.moz_custom = Some(frame.clone());
    let c = macos::extract_pasteboard_content(&p).unwrap();
    assert_eq!(c.data.get("text/uri-list").cloned(), stays);
    let mut d = object(None);
    d.moz_custom = Some(frame.clone());
    assert_eq!(windows::extract_content(&d).get("text/uri-list").cloned(), stays);
    match linux::classify_drop("application/x-moz-custom-clipdata", &frame, None) {
        Received::Content(m) => {
            let list = m.get("text/uri-list").cloned();
            assert_eq!(list, Some("https://a.org\nhttps://b.org".to_string()));
        }
        Received::Files(_) => panic!("no files"),
    }
}

#[test]
fn plain_text_yields_to_tiddlers() {
    let c = macos::extract_pasteboard_content(&pasteboard(Some("[{}]"), Some("text"))).unwrap();
    assert_eq!(c.data.get("text/vnd.tiddler"), Some(&"[{}]".to_string()));
    assert!(!c.data.contains_key("text/plain"));
}

#[test]
fn mac_drags_are_followed() {
    let mut out: Option<macos::OutgoingDragState> = None;
    macos::prepare_native_drag(&mut out, "a", data(Some("x"), None));
    assert!(macos::is_same_window_drag(&out, "a"));
    assert!(macos::drag_info(&out, "b").is_our_drag);
    assert_eq!(macos::drag_info(&out, "b").source_window, some("a"));
    assert!(matches!(
        macos::perform_drag_operation(Some("a"), &out, true, &vec![], None),
        DropResult::WebViewDidIt
    ));
    let own = macos::perform_drag_operation(Some("a"), &out, false, &vec![], None);
    assert!(macos::drop_answer(&own, Some(false)));
    match own {
        DropResult::OwnDrop(Some(c)) => assert_eq!(c.data.get("text/plain"), Some(&"x".to_string())),
        _ => panic!("not the window's own"),
    }
    let files = vec!["/a".to_string()];
    let asked = macos::perform_drag_operation(Some("b"), &out, false, &files, None);
    assert!(matches!(asked, DropResult::AskWebView));
    assert!(!macos::drop_answer(&asked, Some(false)));
    assert_eq!(macos::dragging_operation(None), 5);
    assert_eq!(macos::source_operation_mask(&out, Some(1)), 19);
    assert_eq!(macos::pasteboard_items(&data(Some("x"), None))[0].1, "x");
    assert_eq!(macos::tiddlydesktop_has_internal_drag(&out), 1);
    assert_eq!(macos::tiddlydesktop_get_internal_drag_text_plain(&out), some("x"));
    assert_eq!(macos::tiddlydesktop_get_internal_drag_tiddler_json(&out), None);
    assert!(macos::get_pending_drag_data(&out, "b").is_some());
    assert_eq!(macos::dragging_session_ended(&mut out, Some("b"), 0), None);
    assert_eq!(macos::dragging_session_ended(&mut out, Some("a"), 0), Some(false));
    assert!(out.is_none());
    macos::prepare_native_drag(&mut out, "a", data(Some("x"), None));
    assert!(macos::session_started(&mut out, SessionStart::NoItem).is_err());
    macos::cleanup_native_drag(&mut out);
    assert!(out.is_none());
    assert_eq!(macos::extract_file_paths(Some("file:///a%20b"), &vec![]), vec!["/a b".to_string()]);
    assert!(macos::extract_file_paths(Some("file:///a/%2e%2e/b"), &vec![]).is_empty());
    let found = vec!["/x/../y".to_string(), "".to_string(), "/z".to_string()];
    assert_eq!(macos::extract_file_paths(None, &found), vec!["/z".to_string()]);
    let mut kept = None;
    macos::tiddlydesktop_store_drop_paths(&mut kept, Some(b"[\"/x/../y\",\"/z\"]"));
    assert_eq!(kept, Some(vec!["/z".to_string()]));
    assert!(macos::is_web_view_class("WKWebView"));
    let mut kept = None;
    macos::tiddlydesktop_store_drop_paths(&mut kept, Some(b"[\"/a\"]"));
    for passed_over in [None, Some(&b"[1]"[..]), Some(&b"[\"\xff\"]"[..]), Some(&b"{}"[..])] {
        macos::tiddlydesktop_store_drop_paths(&mut kept, passed_over);
    }
    assert_eq!(kept, Some(files));
    macos::tiddlydesktop_clear_drop_paths(&mut kept);
    assert_eq!(kept, None);
}

fn object(text: Option<&str>) -> DataObject {
    DataObject {
        chromium_custom: None,
        moz_custom: None,
        unicode_text: text.map(|t| wide(t)),
        html: None,
        tiddler: None,
        url: None,
    }
}

#[test]
fn wide_text_is_read() {
    assert_eq!(windows::get_format_string(&Some(wide("héllo\0"))), some("héllo"));
    let c = windows::extract_content(&object(Some("hello\0")));
    assert_eq!(c.get("text/plain"), Some(&"hello".to_string()));
    assert_eq!(
        windows::strip_cf_html_header("Version:0.9\r\n<!--StartFragment--><b>x</b><!--EndFragment-->"),
        "<b>x</b>"
    );
}

#[test]
fn windows_drags_are_followed() {
    let mut internal = InternalDrag::new();
    internal.set_internal_drag_active(InternalDragType::Tiddler);
    assert_eq!(internal.tiddlydesktop_is_tiddler_drag(), 1);
    let mut target = ContentAwareDropTarget::new("w");
    assert!(matches!(target.drag_enter(&internal, true, vec![], true), DragEvent::Nothing));
    internal.tiddlydesktop_clear_internal_drag();
    assert!(matches!(target.drag_enter(&internal, true, vec![], true), DragEvent::Content));
    assert!(matches!(target.drag_over(), DragEvent::Content));
    match target.drop_object(&mut internal, &None, vec![], Some(object(Some("hi\0")))) {
        DropEvent::Content(c) => {
            assert_eq!(c.data.get("text/plain"), Some(&"hi".to_string()));
            assert_eq!(c.is_same_window, None);
        }
        _ => panic!("no content"),
    }
    assert!(matches!(target.drag_over(), DragEvent::Nothing));
    let paths = vec!["C:\\a".to_string()];
    assert!(matches!(target.drag_enter(&internal, true, paths.clone(), true), DragEvent::Files));
    match target.drop_object(&mut internal, &None, paths.clone(), Some(object(None))) {
        DropEvent::Files(p) => assert_eq!(p, paths),
        _ => panic!("no files"),
    }
    let mixed = vec!["C:\\..\\b".to_string(), "C:\\a".to_string()];
    assert!(matches!(target.drag_enter(&internal, true, mixed.clone(), true), DragEvent::Files));
    assert_eq!(target.current_paths, paths);
    match target.drop_object(&mut internal, &None, mixed, Some(object(None))) {
        DropEvent::Files(p) => assert_eq!(p, paths),
        _ => panic!("no files"),
    }
    let refused = vec!["C:\\..\\b".to_string()];
    assert!(matches!(target.drag_enter(&internal, true, refused, false), DragEvent::Nothing));
    assert!(matches!(target.drag_enter(&internal, true, vec![], true), DragEvent::Content));
    assert_eq!(target.drag_leave(&mut internal), (true, false));
    assert!(internal.drag_starting(true, false, false));
    assert_eq!(internal.tiddlydesktop_is_tiddler_drag(), 1);
    assert!(internal.drag_starting(false, false, true));
    assert!(!internal.drag_starting(false, false, false));
    assert_eq!(internal.tiddlydesktop_is_text_selection_drag(), 1);
    internal.set_over_droppable(true);
    assert_eq!(internal.tiddlydesktop_is_over_droppable(), 1);
    internal.set_internal_drag_type_from_js("text");
    assert_eq!(internal.tiddlydesktop_is_text_selection_drag(), 1);
    internal.set_internal_drag_type_from_js("other");
    assert_eq!(internal.tiddlydesktop_is_text_selection_drag(), 0);
    assert!(windows::take_pending_file_paths().is_none());
    let offered = OfferedFormats {
        unicode_text: false,
        html: false,
        tiddler: false,
        url: false,
        chromium_custom: false,
        moz_custom: true,
    };
    assert!(windows::has_content_formats(&offered));
    assert_eq!(windows::query_continue_drag(false, 1), 0);
}

#[test]
fn windows_hands_out_its_formats() {
    let f = Formats { html: 100, tiddler: 101, url: 102, moz_url: 103 };
    let d = drag_drop::outgoing_for_windows(native());
    assert_eq!(windows::get_data(13, &f, &d), Some(wide("plain\0")));
    assert!(windows::query_get_data(13, &f, &d));
    assert!(!windows::query_get_data(999, &f, &d));
    let mut out = None;
    let mut internal = InternalDrag::new();
    windows::prepare_native_drag(&mut out, "w", d);
    assert_eq!(windows::get_pending_drag_data(&out, "v").unwrap().source_window, some("w"));
    assert!(windows::get_outgoing_drag_info(&out, "w").1);
    windows::cleanup_native_drag(&mut out, &mut internal);
    assert!(out.is_none());
}

fn native() -> NativeDragData {
    NativeDragData {
        text_plain: some("plain"),
        text_html: None,
        text_vnd_tiddler: some("[]"),
        text_uri_list: None,
        text_x_moz_url: None,
        url: None,
        is_text_selection_drag: true,
    }
}

#[test]
fn drags_of_all_systems() {
    let mut drags = vec![
        NativeDrag::Linux(LinuxDrag::new()),
        NativeDrag::Windows(None, InternalDrag::new()),
        NativeDrag::MacOs(None),
    ];
    for drag in drags.iter_mut() {
        assert!(drag_drop::prepare_native_drag_impl(drag, "w", native()).is_ok());
        assert!(drag_drop::start_native_drag_impl(drag, "w", native(), Some(vec![7]), Some(1), None).is_ok());
        assert!(drag_drop::update_drag_icon_impl(drag, vec![1], 0, 0).is_ok());
        drag_drop::set_drag_dest_enabled_impl(drag, "w", true);
        assert!(drag_drop::set_pending_drag_icon_impl(drag, vec![8], 2, 3).is_ok());
        match drag {
            NativeDrag::Linux(d) => {
                assert_eq!(d.image.as_ref().unwrap().png, vec![8]);
                assert_eq!(d.outgoing.as_ref().unwrap().data.text_plain, some("plain"));
                assert_eq!(drag_drop::cleanup_native_drag_impl(drag), some("w"));
                assert_eq!(drag_drop::cleanup_native_drag_impl(drag), None);
            }
            NativeDrag::Windows(out, _) => {
                assert_eq!(out.as_ref().unwrap().data.text_vnd_tiddler, some("[]"));
                assert_eq!(drag_drop::cleanup_native_drag_impl(drag), None);
            }
            NativeDrag::MacOs(out) => {
                assert!(out.as_ref().unwrap().data.is_text_selection_drag);
                assert_eq!(drag_drop::cleanup_native_drag_impl(drag), None);
            }
        }
    }
    assert!(drag_drop::ungrab_seat_for_focus_impl(Platform::Linux, true, true));
    assert!(!drag_drop::ungrab_seat_for_focus_impl(Platform::Linux, true, false));
    assert!(!drag_drop::ungrab_seat_for_focus_impl(Platform::MacOs, true, true));
    assert_eq!(drag_drop::outgoing_for_linux(native()).text_plain, some("plain"));
}

fn env(wayland: bool, session: Option<&str>, backend: Option<&str>, display: bool) -> Environment {
    Environment {
        wayland_display: wayland,
        session_type: session.map(|s| s.to_string()),
        gdk_backend: backend.map(|s| s.to_string()),
        display,
    }
}

#[test]
fn display_servers_are_found() {
    assert_eq!(native_dnd::get_display_server(&env(true, Some("x11"), None, true)), DisplayServer::Wayland);
    assert_eq!(native_dnd::get_display_server(&env(false, Some("x11"), None, false)), DisplayServer::X11);
    assert_eq!(native_dnd::get_display_server(&env(false, Some("tty"), Some("wayland"), true)), DisplayServer::X11);
    assert_eq!(native_dnd::get_display_server(&env(false, None, None, false)), DisplayServer::Unknown);
    let wayland = |e: &Environment| input_inject::is_wayland(&mut KeptServer::new(), e);
    let x11 = |e: &Environment| input_inject::is_x11(&mut KeptServer::new(), e);
    assert!(wayland(&env(false, None, Some("wayland,x11"), true)));
    assert!(x11(&env(false, None, Some("x11"), false)));
    assert!(!x11(&env(false, None, Some("quartz"), false)));
    for wayland in [false, true] {
        for session in [None, Some("wayland"), Some("x11"), Some("tty")] {
            for display in [false, true] {
                let e = env(wayland, session, None, display);
                assert_eq!(input_inject::detect_display_server(&e), native_dnd::get_display_server(&e));
            }
        }
    }
}

#[test]
fn the_first_display_server_is_kept() {
    let w = env(true, None, None, false);
    let x = env(false, Some("x11"), None, true);
    let mut kept = KeptServer::new();
    assert!(input_inject::is_wayland(&mut kept, &w));
    assert!(input_inject::is_wayland(&mut kept, &x));
    assert!(!input_inject::is_x11(&mut kept, &x));
    assert_eq!(input_inject::kept_display_server(&mut kept, &x), DisplayServer::Wayland);
    let mut kept = KeptServer::new();
    assert_eq!(kept.get_display_server(&x), DisplayServer::X11);
    assert_eq!(kept.get_display_server(&w), DisplayServer::X11);
    assert_eq!(kept.keep(DisplayServer::Unknown), DisplayServer::X11);
    let mut dnd = NativeDnd::new();
    assert_eq!(dnd.init(&x, Ok(())), Ok(true));
    native_dnd::register_surface(&mut dnd, &w, 5, "w");
    assert_eq!(dnd.x11.as_ref().unwrap().get(5), some("w"));
    assert_eq!(dnd.wayland.get(5), None);
}

#[test]
fn clicks_are_put_in() {
    let click = |released: bool| SimulatedClick { has_display: true, has_root_window: true, pressed: true, released };
    let inject = |e: &Environment, direct: bool, c: &SimulatedClick| {
        input_inject::inject_click(&mut KeptServer::new(), e, direct, c)
    };
    let fallback = |e: &Environment, direct: bool, c: &SimulatedClick| {
        input_inject::inject_click_or_need_fallback(&mut KeptServer::new(), e, direct, c)
    };
    let x = env(false, Some("x11"), None, true);
    assert_eq!(inject(&x, true, &click(false)), InjectResult::Success);
    assert_eq!(inject(&x, false, &click(true)), InjectResult::Success);
    assert_eq!(inject(&x, false, &click(false)), InjectResult::X11Unavailable);
    let w = env(true, None, None, false);
    assert_eq!(inject(&w, true, &click(true)), InjectResult::LibeiUnavailable);
    let u = env(false, None, None, false);
    assert_eq!(inject(&u, true, &click(true)), InjectResult::UnknownDisplayServer);
    assert!(!fallback(&x, true, &click(false)));
    assert!(fallback(&w, true, &click(true)));
    assert_eq!(input_inject::inject_click_gdk(&click(true)), InjectResult::Success);
}

#[test]
fn surfaces_are_noted() {
    let mut dnd = NativeDnd::new();
    let x = env(false, Some("x11"), None, true);
    native_dnd::register_surface(&mut dnd, &x, 5, "w");
    assert!(dnd.x11.is_none());
    assert_eq!(dnd.init(&x, Ok(())), Ok(true));
    assert_eq!(dnd.init(&x, Err("later".to_string())), Ok(true));
    native_dnd::register_surface(&mut dnd, &x, 5, "w");
    assert_eq!(dnd.x11.as_ref().unwrap().get(5), some("w"));
    assert_eq!(dnd.wayland.get(5), None);
    let mut dnd = NativeDnd::new();
    let session = env(false, Some("wayland"), None, true);
    assert_eq!(dnd.init(&session, Ok(())), Ok(false));
    let mut dnd = NativeDnd::new();
    let w = env(true, None, None, true);
    assert_eq!(dnd.init(&w, Err("no".to_string())), Err("no".to_string()));
    dnd.register_surface(DisplayServer::Wayland, 9, "v");
    assert_eq!(dnd.wayland.get(9), some("v"));
    assert!(!native_dnd::x11_is_wanted(&w));
    assert!(native_dnd::wayland_is_wanted(&w));
    assert_eq!(native_dnd::surface_number(0x1_2345_6789), 0x2345_6789);
    let mut labels = Labels::new();
    labels.insert(1, "a");
    labels.insert(1, "b");
    assert_eq!(labels.get(1), some("b"));
}

#[test]
fn offers_are_kept() {
    let mut e = WaylandEvents::new();
    e.data_offer();
    e.offer("text/plain".to_string());
    assert_eq!(e.offer_mime_types, vec!["text/plain".to_string()]);
    e.data_offer();
    assert!(e.offer_mime_types.is_empty());
    e.has_source = true;
    e.source_data.insert("a".to_string(), vec![1]);
    assert_eq!(e.send("a"), Some(&vec![1]));
    e.source_done();
    assert_eq!(e.send("a"), None);
    assert!(!e.has_source);
    assert_eq!(native_dnd::bind_version("wl_seat", 9), Some(7));
    assert_eq!(native_dnd::bind_version("wl_seat", 4), Some(4));
    assert_eq!(native_dnd::bind_version("wl_data_device_manager", 9), Some(3));
    assert_eq!(native_dnd::bind_version("wl_output", 9), None);
}
