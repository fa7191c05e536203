use tiddlydesktop::events;
use tiddlydesktop::events::{Axis, Carried, Event};
use tiddlydesktop::linux;
use tiddlydesktop::linux::{DropOutcome, IconStep, OutgoingDragData, Received};
use tiddlydesktop::macos;
use tiddlydesktop::macos::DropResult;
use tiddlydesktop::table::StringMap;
use tiddlydesktop::windows;
use tiddlydesktop::windows::{ContentAwareDropTarget, DragEvent, DropEvent};

fn shown(c: &Carried) -> String {
    match c {
        Carried::Null => "null".to_string(),
        Carried::Flag(b) => format!("{}", b),
        Carried::Number(n) => format!("{}", n),
        Carried::Text(s) => format!("{:?}", s),
        Carried::Texts(v) => format!("{:?}", v),
        Carried::Entries(m) => format!("{:?}", m.entries),
        Carried::Point(x, y) => format!("({}, {})", x, y),
        Carried::Coordinate(Axis::X) => "across".to_string(),
        Carried::Coordinate(Axis::Y) => "down".to_string(),
    }
}

fn line(e: &Event) -> String {
    let fields: Vec<String> =
        e.fields.iter().map(|(k, v)| format!("{}={}", k, shown(v))).collect();
    format!("{}: {}", e.name, fields.join(" "))
}

fn lines(v: &Vec<Event>) -> Vec<String> {
    v.iter().map(line).collect()
}

fn table(entries: &[(&str, &str)]) -> StringMap {
    let mut m = StringMap::new();
    for (k, v) in entries {
        m.insert(k.to_string(), v.to_string());
    }
    m
}

fn windows_drag(label: &str) -> Option<windows::OutgoingDragState> {
    Some(windows::OutgoingDragState {
        data: windows::OutgoingDragData {
            text_plain: None,
            text_html: None,
            text_vnd_tiddler: Some("[]".to_string()),
            text_uri_list: None,
            text_x_moz_url: None,
            url: None,
            is_text_selection_drag: true,
            source_window: None,
        },
        source_window_label: label.to_string(),
    })
}

fn macos_drag(label: &str) -> Option<macos::OutgoingDragState> {
    Some(macos::OutgoingDragState {
        data: OutgoingDragData {
            text_plain: Some("t".to_string()),
            text_html: None,
            text_vnd_tiddler: None,
            text_uri_list: None,
            text_x_moz_url: None,
            url: None,
            is_text_selection_drag: true,
        },
        source_window_label: label.to_string(),
        data_was_requested: false,
    })
}

#[test]
fn linux_tells_of_motion() {
    assert_eq!(
        line(&events::linux_motion_event("w", Some("v"), 3, -4)),
        "td-drag-motion: x=3 y=-4 screenCoords=false isOurDrag=true sourceWindow=\"v\" targetWindow=\"w\""
    );
    assert_eq!(
        line(&events::linux_leave_event("w", None)),
        "td-drag-leave: isOurDrag=false sourceWindow=null targetWindow=\"w\""
    );
}

#[test]
fn linux_tells_of_files() {
    let received = Received::Files(vec!["/tmp/a".to_string()]);
    let told = events::linux_drop_events("w", DropOutcome::Done { x: 1, y: 2, received });
    assert_eq!(
        lines(&told),
        vec![
            "td-drag-drop-start: x=1 y=2 screenCoords=false",
            "td-drag-drop-position: x=1 y=2 screenCoords=false targetWindow=\"w\"",
            "td-file-drop: paths=[\"/tmp/a\"] targetWindow=\"w\"",
        ]
    );
}

#[test]
fn linux_tells_of_content() {
    let received = Received::Content(table(&[("text/html", "<b>"), ("text/plain", "b")]));
    let told = events::linux_drop_events("w", DropOutcome::Done { x: 1, y: 2, received });
    assert_eq!(told.len(), 3);
    assert_eq!(
        line(&told[2]),
        "td-drag-content: types=[\"text/html\", \"text/plain\"] data=[(\"text/html\", \"<b>\"), (\"text/plain\", \"b\")] targetWindow=\"w\""
    );
}

#[test]
fn linux_tells_little_of_an_empty_drop() {
    let received = Received::Content(StringMap::new());
    let told = events::linux_drop_events("w", DropOutcome::Done { x: 0, y: 0, received });
    assert_eq!(lines(&told), vec!["td-drag-drop-start: x=0 y=0 screenCoords=false"]);
    assert_eq!(events::linux_drop_events("w", DropOutcome::Preview).len(), 0);
    assert_eq!(events::linux_drop_events("w", DropOutcome::Native).len(), 0);
}

#[test]
fn linux_tells_of_the_end() {
    assert_eq!(
        line(&events::linux_end_event("w", true)),
        "td-drag-end: data_was_requested=true targetWindow=\"w\""
    );
    assert_eq!(
        line(&events::linux_cancel_event("w", "timeout")),
        "td-drag-cancel: reason=\"timeout\" targetWindow=\"w\""
    );
    assert_eq!(
        line(&events::linux_reset_event("w", true)),
        "td-reset-pointer-state: x=0 y=0 needsFallback=false fromCleanup=true windowLabel=\"w\""
    );
}

#[test]
fn windows_tells_of_what_enters() {
    let mut target = ContentAwareDropTarget::new("w");
    target.current_paths = vec!["C:\\a".to_string()];
    assert_eq!(
        lines(&events::windows_enter_events(&target, DragEvent::Files, &None, 5, 6)),
        vec!["tauri://drag-enter: paths=[\"C:\\\\a\"] position=(5, 6)"]
    );
    assert_eq!(
        lines(&events::windows_enter_events(&target, DragEvent::Content, &windows_drag("w"), 5, 6)),
        vec!["td-drag-motion: x=5 y=6 physicalPixels=true isOurDrag=true isSameWindow=true sourceWindow=\"w\" targetWindow=\"w\" hasTiddlerData=true isTextSelectionDrag=true"]
    );
    assert_eq!(events::windows_enter_events(&target, DragEvent::Nothing, &None, 5, 6).len(), 0);
}

#[test]
fn windows_tells_of_what_moves_and_leaves() {
    assert_eq!(
        lines(&events::windows_over_events("w", DragEvent::Files, &None, 5, 6)),
        vec!["tauri://drag-over: position=(5, 6)"]
    );
    assert_eq!(
        lines(&events::windows_over_events("w", DragEvent::Content, &None, 5, 6)),
        vec!["td-drag-motion: x=5 y=6 physicalPixels=true isOurDrag=false isSameWindow=false sourceWindow=null targetWindow=\"w\" hasTiddlerData=false isTextSelectionDrag=false"]
    );
    assert_eq!(
        lines(&events::windows_leave_events("w", (true, true), &windows_drag("v"))),
        vec!["td-drag-leave: isOurDrag=true targetWindow=\"w\"", "tauri://drag-leave: "]
    );
    assert_eq!(events::windows_leave_events("w", (false, false), &None).len(), 0);
}

#[test]
fn windows_tells_of_drops() {
    let files = DropEvent::Files(vec!["C:\\a".to_string()]);
    assert_eq!(
        lines(&events::windows_drop_events("w", files, 5, 6)),
        vec![
            "td-file-drop: paths=[\"C:\\\\a\"] targetWindow=\"w\"",
            "tauri://drag-drop: paths=[\"C:\\\\a\"] position=(5, 6)",
        ]
    );
    let content = DropEvent::Content(windows::DragContentData {
        types: vec!["text/plain".to_string()],
        data: table(&[("text/plain", "b")]),
        is_same_window: None,
        is_text_selection_drag: Some(true),
    });
    assert_eq!(
        lines(&events::windows_drop_events("w", content, 5, 6)),
        vec![
            "td-drag-drop-start: x=5 y=6 physicalPixels=true",
            "td-drag-drop-position: x=5 y=6 physicalPixels=true targetWindow=\"w\"",
            "td-drag-content: types=[\"text/plain\"] data=[(\"text/plain\", \"b\")] is_text_selection_drag=true",
        ]
    );
    assert_eq!(events::windows_drop_events("w", DropEvent::Nothing, 5, 6).len(), 0);
}

#[test]
fn macos_tells_of_motion() {
    assert_eq!(
        line(&events::macos_motion_event("w", &macos_drag("v"))),
        "td-drag-motion: x=across y=down screenCoords=false isOurDrag=true isSameWindow=false sourceWindowLabel=\"v\" windowLabel=\"w\" hasTiddlerData=false isTextSelectionDrag=true"
    );
    assert_eq!(
        line(&events::macos_leave_event("w", &None)),
        "td-drag-leave: isOurDrag=false isSameWindow=false sourceWindowLabel=null windowLabel=\"w\""
    );
    assert_eq!(line(&events::macos_end_event(false)), "td-drag-end: data_was_requested=false");
}

#[test]
fn macos_tells_of_drops() {
    let own = macos::perform_drag_operation(Some("w"), &macos_drag("w"), false, &vec![], None);
    assert_eq!(
        lines(&events::macos_drop_events("w", &macos_drag("w"), own)),
        vec![
            "td-drag-drop-position: x=across y=down screenCoords=false isOurDrag=true isSameWindow=true sourceWindowLabel=\"w\" windowLabel=\"w\"",
            "td-drag-content: types=[\"text/plain\"] data=[(\"text/plain\", \"t\")] is_text_selection_drag=true isSameWindow=true",
        ]
    );
    let content = DropResult::ContentDrop(macos::DragContentData {
        types: vec!["text/plain".to_string()],
        data: table(&[("text/plain", "b")]),
        is_text_selection_drag: None,
        is_same_window: None,
    });
    assert_eq!(
        lines(&events::macos_drop_events("w", &None, content)),
        vec![
            "td-drag-drop-start: x=across y=down screenCoords=false",
            "td-drag-drop-position: x=across y=down screenCoords=false",
            "td-drag-content: types=[\"text/plain\"] data=[(\"text/plain\", \"b\")]",
        ]
    );
    assert_eq!(events::macos_drop_events("w", &None, DropResult::AskWebView).len(), 0);
    assert_eq!(events::macos_drop_events("w", &None, DropResult::WebViewDidIt).len(), 0);
}

#[test]
fn macos_listens_for_types() {
    let types = macos::create_drag_types_array();
    assert_eq!(types.len(), 13);
    assert_eq!(types[0], "org.mozilla.custom-clipdata");
    assert_eq!(types[2], "text/vnd.tiddler");
    assert_eq!(types[12], "NSFilenamesPboardType");
}

#[test]
fn pictures_of_drags_may_come_late() {
    let image = Some(linux::DragImage { png: vec![1], offset_x: 0, offset_y: 0 });
    assert!(linux::drag_begin_icon(&image) == IconStep::Show);
    assert!(linux::drag_begin_icon(&None) == IconStep::HideAndRetry);
    assert!(linux::drag_icon_shown(false) == IconStep::HideAndRetry);
    assert!(linux::drag_icon_shown(true) == IconStep::Nothing);
    assert!(linux::drag_icon_retry(&image) == IconStep::Show);
    assert!(linux::drag_icon_retry(&None) == IconStep::Nothing);
}
