//! What the page of a window is told of drags: the events' names, and what each
//! of them carries.

use vstd::prelude::*;
use crate::linux;
use crate::linux::{DropOutcome, Received};
use crate::macos;
use crate::macos::DropResult;
use crate::table;
use crate::table::StringMap;
use crate::text;
use crate::windows;
use crate::windows::{ContentAwareDropTarget, DragEvent, DropEvent};

verus! {

/// One of the two directions of the screen.
#[derive(Clone, Copy, PartialEq, Eq, Structural)]
pub enum Axis {
    X,
    Y,
}

/// A value that an event carries.
pub enum Carried {
    Null,
    Flag(bool),
    Number(i32),
    Text(String),
    Texts(Vec<String>),
    Entries(StringMap),
    Point(i32, i32),
    /// The coordinate that the system gave with the drag, which is no whole
    /// number.
    Coordinate(Axis),
}

/// A value that an event carries.
pub ghost enum CarriedView {
    Null,
    Flag(bool),
    Number(i32),
    Text(Seq<char>),
    Texts(Seq<Seq<char>>),
    Entries(Seq<(Seq<char>, Seq<char>)>),
    Point(i32, i32),
    Coordinate(Axis),
}

impl View for Carried {
    type V = CarriedView;

    open spec fn view(&self) -> CarriedView {
        match self {
            Carried::Null => CarriedView::Null,
            Carried::Flag(b) => CarriedView::Flag(*b),
            Carried::Number(n) => CarriedView::Number(*n),
            Carried::Text(s) => CarriedView::Text(s@),
            Carried::Texts(v) => CarriedView::Texts(text::views(v@)),
            Carried::Entries(m) => CarriedView::Entries(m@),
            Carried::Point(x, y) => CarriedView::Point(*x, *y),
            Carried::Coordinate(a) => CarriedView::Coordinate(*a),
        }
    }
}

/// What a page is told: an event, and what it carries under which names.
pub struct Event {
    pub name: String,
    pub fields: Vec<(String, Carried)>,
}

/// What a page is told.
pub ghost struct EventView {
    pub name: Seq<char>,
    pub fields: Seq<(Seq<char>, CarriedView)>,
}

/// What the fields hold.
pub open spec fn field_views(v: Seq<(String, Carried)>) -> Seq<(Seq<char>, CarriedView)> {
    v.map_values(|f: (String, Carried)| (f.0@, f.1@))
}

impl View for Event {
    type V = EventView;

    open spec fn view(&self) -> EventView {
        EventView { name: self.name@, fields: field_views(self.fields@) }
    }
}

/// What the events say.
pub open spec fn event_views(v: Seq<Event>) -> Seq<EventView> {
    v.map_values(|e: Event| e@)
}

/// A text, or nothing.
pub open spec fn text_or_null(o: Option<Seq<char>>) -> CarriedView {
    match o {
        Some(s) => CarriedView::Text(s),
        None => CarriedView::Null,
    }
}

/// A flag under a name, where it is given.
pub open spec fn flag_if(name: Seq<char>, o: Option<bool>) -> Seq<(Seq<char>, CarriedView)> {
    match o {
        Some(b) => seq![(name, CarriedView::Flag(b))],
        None => Seq::empty(),
    }
}

fn event(name: &str) -> (r: Event)
    ensures
        r@.name == name@,
        r@.fields == Seq::<(Seq<char>, CarriedView)>::empty(),
{
    let fields: Vec<(String, Carried)> = Vec::new();
    assert(field_views(fields@) =~= Seq::empty());
    Event { name: name.to_owned(), fields }
}

fn carry(e: &mut Event, name: &str, value: Carried)
    ensures
        final(e)@.name == old(e)@.name,
        final(e)@.fields == old(e)@.fields.push((name@, value@)),
{
    let ghost before = e.fields@;
    e.fields.push((name.to_owned(), value));
    assert(field_views(e.fields@) =~= field_views(before).push((name@, value@)));
}

fn carry_text(e: &mut Event, name: &str, s: &str)
    ensures
        final(e)@.name == old(e)@.name,
        final(e)@.fields == old(e)@.fields.push((name@, CarriedView::Text(s@))),
{
    carry(e, name, Carried::Text(s.to_owned()));
}

fn carry_source(e: &mut Event, name: &str, source: Option<String>)
    ensures
        final(e)@.name == old(e)@.name,
        final(e)@.fields == old(e)@.fields.push((name@, text_or_null(text::opt_view(source)))),
{
    match source {
        Some(s) => carry(e, name, Carried::Text(s)),
        None => carry(e, name, Carried::Null),
    }
}

fn carry_flag_if(e: &mut Event, name: &str, flag: Option<bool>)
    ensures
        final(e)@.name == old(e)@.name,
        final(e)@.fields == old(e)@.fields + flag_if(name@, flag),
{
    match flag {
        Some(b) => {
            carry(e, name, Carried::Flag(b));
            assert(e@.fields =~= old(e)@.fields + flag_if(name@, flag));
        },
        None => {
            assert(e@.fields =~= old(e)@.fields + flag_if(name@, flag));
        },
    }
}

fn no_events() -> (r: Vec<Event>)
    ensures
        event_views(r@) == Seq::<EventView>::empty(),
{
    let v: Vec<Event> = Vec::new();
    assert(event_views(v@) =~= Seq::empty());
    v
}

fn tell(out: &mut Vec<Event>, e: Event)
    ensures
        event_views(final(out)@) == event_views(old(out)@).push(e@),
{
    let ghost before = out@;
    out.push(e);
    assert(event_views(out@) =~= event_views(before).push(e@));
}

// ---------------------------------------------------------------------------
// Linux
// ---------------------------------------------------------------------------

/// A drag moves over the window.
pub open spec fn linux_motion(label: Seq<char>, source: Option<Seq<char>>, x: i32, y: i32) -> EventView {
    EventView {
        name: "td-drag-motion"@,
        fields: seq![
            ("x"@, CarriedView::Number(x)),
            ("y"@, CarriedView::Number(y)),
            ("screenCoords"@, CarriedView::Flag(false)),
            ("isOurDrag"@, CarriedView::Flag(source is Some)),
            ("sourceWindow"@, text_or_null(source)),
            ("targetWindow"@, CarriedView::Text(label)),
        ],
    }
}

fn owned(o: Option<&str>) -> (r: Option<String>)
    ensures
        text::opt_view(r) == linux::label_view(o),
{
    match o {
        Some(s) => Some(s.to_owned()),
        None => None,
    }
}

/// What the window is told where a drag moves over it that is reported to it.
pub fn linux_motion_event(label: &str, source: Option<&str>, x: i32, y: i32) -> (r: Event)
    ensures
        r@ == linux_motion(label@, linux::label_view(source), x, y),
{
    let mut e: Event = event("td-drag-motion");
    carry(&mut e, "x", Carried::Number(x));
    carry(&mut e, "y", Carried::Number(y));
    carry(&mut e, "screenCoords", Carried::Flag(false));
    carry(&mut e, "isOurDrag", Carried::Flag(source.is_some()));
    carry_source(&mut e, "sourceWindow", owned(source));
    carry_text(&mut e, "targetWindow", label);
    assert(e@.fields =~= linux_motion(label@, linux::label_view(source), x, y).fields);
    e
}

/// A drag leaves the window.
pub open spec fn linux_leave(label: Seq<char>, source: Option<Seq<char>>) -> EventView {
    EventView {
        name: "td-drag-leave"@,
        fields: seq![
            ("isOurDrag"@, CarriedView::Flag(source is Some)),
            ("sourceWindow"@, text_or_null(source)),
            ("targetWindow"@, CarriedView::Text(label)),
        ],
    }
}

/// What the window is told where a drag leaves it and that is reported to it.
pub fn linux_leave_event(label: &str, source: Option<&str>) -> (r: Event)
    ensures
        r@ == linux_leave(label@, linux::label_view(source)),
{
    let mut e: Event = event("td-drag-leave");
    carry(&mut e, "isOurDrag", Carried::Flag(source.is_some()));
    carry_source(&mut e, "sourceWindow", owned(source));
    carry_text(&mut e, "targetWindow", label);
    assert(e@.fields =~= linux_leave(label@, linux::label_view(source)).fields);
    e
}

/// A drop begins.
pub open spec fn linux_drop_start(x: i32, y: i32) -> EventView {
    EventView {
        name: "td-drag-drop-start"@,
        fields: seq![
            ("x"@, CarriedView::Number(x)),
            ("y"@, CarriedView::Number(y)),
            ("screenCoords"@, CarriedView::Flag(false)),
        ],
    }
}

/// Where a drop is.
pub open spec fn linux_drop_position(label: Seq<char>, x: i32, y: i32) -> EventView {
    EventView {
        name: "td-drag-drop-position"@,
        fields: seq![
            ("x"@, CarriedView::Number(x)),
            ("y"@, CarriedView::Number(y)),
            ("screenCoords"@, CarriedView::Flag(false)),
            ("targetWindow"@, CarriedView::Text(label)),
        ],
    }
}

/// Files were dropped.
pub open spec fn file_drop(label: Seq<char>, paths: Seq<Seq<char>>) -> EventView {
    EventView {
        name: "td-file-drop"@,
        fields: seq![
            ("paths"@, CarriedView::Texts(paths)),
            ("targetWindow"@, CarriedView::Text(label)),
        ],
    }
}

/// Content was dropped.
pub open spec fn linux_content(label: Seq<char>, m: Seq<(Seq<char>, Seq<char>)>) -> EventView {
    EventView {
        name: "td-drag-content"@,
        fields: seq![
            ("types"@, CarriedView::Texts(table::keys_of(m))),
            ("data"@, CarriedView::Entries(m)),
            ("targetWindow"@, CarriedView::Text(label)),
        ],
    }
}

/// What the window is told of a drop that is over: that it began, and, where it
/// held anything, where it was and what it held. Of data that was only looked
/// at, and of drops that the web view deals with, it is told nothing.
pub open spec fn linux_drop(label: Seq<char>, o: DropOutcome) -> Seq<EventView> {
    match o {
        DropOutcome::Done { x, y, received } => match received@ {
            linux::ReceivedView::Files(p) => seq![
                linux_drop_start(x, y),
                linux_drop_position(label, x, y),
                file_drop(label, p),
            ],
            linux::ReceivedView::Content(m) => if m.len() > 0 {
                seq![
                    linux_drop_start(x, y),
                    linux_drop_position(label, x, y),
                    linux_content(label, m),
                ]
            } else {
                seq![linux_drop_start(x, y)]
            },
        },
        _ => Seq::empty(),
    }
}

fn linux_drop_start_event(x: i32, y: i32) -> (r: Event)
    ensures
        r@ == linux_drop_start(x, y),
{
    let mut e: Event = event("td-drag-drop-start");
    carry(&mut e, "x", Carried::Number(x));
    carry(&mut e, "y", Carried::Number(y));
    carry(&mut e, "screenCoords", Carried::Flag(false));
    assert(e@.fields =~= linux_drop_start(x, y).fields);
    e
}

fn linux_drop_position_event(label: &str, x: i32, y: i32) -> (r: Event)
    ensures
        r@ == linux_drop_position(label@, x, y),
{
    let mut e: Event = event("td-drag-drop-position");
    carry(&mut e, "x", Carried::Number(x));
    carry(&mut e, "y", Carried::Number(y));
    carry(&mut e, "screenCoords", Carried::Flag(false));
    carry_text(&mut e, "targetWindow", label);
    assert(e@.fields =~= linux_drop_position(label@, x, y).fields);
    e
}

fn file_drop_event(label: &str, paths: Vec<String>) -> (r: Event)
    ensures
        r@ == file_drop(label@, text::views(paths@)),
{
    let mut e: Event = event("td-file-drop");
    carry(&mut e, "paths", Carried::Texts(paths));
    carry_text(&mut e, "targetWindow", label);
    assert(e@.fields =~= file_drop(label@, text::views(paths@)).fields);
    e
}

fn linux_content_event(label: &str, m: StringMap) -> (r: Event)
    ensures
        r@ == linux_content(label@, m@),
{
    let mut e: Event = event("td-drag-content");
    let types: Vec<String> = table::keys(&m);
    carry(&mut e, "types", Carried::Texts(types));
    carry(&mut e, "data", Carried::Entries(m));
    carry_text(&mut e, "targetWindow", label);
    assert(e@.fields =~= linux_content(label@, m@).fields);
    e
}

/// What the window is told of a drop.
pub fn linux_drop_events(label: &str, outcome: DropOutcome) -> (r: Vec<Event>)
    ensures
        event_views(r@) == linux_drop(label@, outcome),
{
    let mut out: Vec<Event> = no_events();
    match outcome {
        DropOutcome::Done { x, y, received } => {
            tell(&mut out, linux_drop_start_event(x, y));
            match received {
                Received::Files(p) => {
                    tell(&mut out, linux_drop_position_event(label, x, y));
                    tell(&mut out, file_drop_event(label, p));
                },
                Received::Content(m) => {
                    if m.len() > 0 {
                        tell(&mut out, linux_drop_position_event(label, x, y));
                        tell(&mut out, linux_content_event(label, m));
                    }
                },
            }
        },
        _ => {},
    }
    assert(event_views(out@) =~= linux_drop(label@, outcome));
    out
}

/// A drag of the window's is over.
pub open spec fn linux_end(label: Seq<char>, requested: bool) -> EventView {
    EventView {
        name: "td-drag-end"@,
        fields: seq![
            ("data_was_requested"@, CarriedView::Flag(requested)),
            ("targetWindow"@, CarriedView::Text(label)),
        ],
    }
}

/// What the window is told where a drag of its own is over. `requested` says
/// whether its data was asked for.
pub fn linux_end_event(label: &str, requested: bool) -> (r: Event)
    ensures
        r@ == linux_end(label@, requested),
{
    let mut e: Event = event("td-drag-end");
    carry(&mut e, "data_was_requested", Carried::Flag(requested));
    carry_text(&mut e, "targetWindow", label);
    assert(e@.fields =~= linux_end(label@, requested).fields);
    e
}

/// A drag of the window's failed.
pub open spec fn linux_cancel(label: Seq<char>, reason: Seq<char>) -> EventView {
    EventView {
        name: "td-drag-cancel"@,
        fields: seq![
            ("reason"@, CarriedView::Text(reason)),
            ("targetWindow"@, CarriedView::Text(label)),
        ],
    }
}

/// What the window is told where a drag of its own failed, and why.
pub fn linux_cancel_event(label: &str, reason: &str) -> (r: Event)
    ensures
        r@ == linux_cancel(label@, reason@),
{
    let mut e: Event = event("td-drag-cancel");
    carry_text(&mut e, "reason", reason);
    carry_text(&mut e, "targetWindow", label);
    assert(e@.fields =~= linux_cancel(label@, reason@).fields);
    e
}

/// The pointer was set right after a drag that was given up.
pub open spec fn linux_reset(label: Seq<char>, succeeded: bool) -> EventView {
    EventView {
        name: "td-reset-pointer-state"@,
        fields: seq![
            ("x"@, CarriedView::Number(0)),
            ("y"@, CarriedView::Number(0)),
            ("needsFallback"@, CarriedView::Flag(!succeeded)),
            ("fromCleanup"@, CarriedView::Flag(true)),
            ("windowLabel"@, CarriedView::Text(label)),
        ],
    }
}

/// What the window is told where its pointer was set right after a drag that
/// was given up, or could not be.
pub fn linux_reset_event(label: &str, succeeded: bool) -> (r: Event)
    ensures
        r@ == linux_reset(label@, succeeded),
{
    let mut e: Event = event("td-reset-pointer-state");
    carry(&mut e, "x", Carried::Number(0));
    carry(&mut e, "y", Carried::Number(0));
    carry(&mut e, "needsFallback", Carried::Flag(!succeeded));
    carry(&mut e, "fromCleanup", Carried::Flag(true));
    carry_text(&mut e, "windowLabel", label);
    assert(e@.fields =~= linux_reset(label@, succeeded).fields);
    e
}

// ---------------------------------------------------------------------------
// Windows
// ---------------------------------------------------------------------------

/// The window that a drag of ours comes from.
pub open spec fn windows_source(out: Option<windows::OutgoingDragState>) -> Option<Seq<char>> {
    match out {
        Some(st) => Some(st.source_window_label@),
        None => None,
    }
}

/// A drag of content moves over the window.
pub open spec fn windows_motion(
    label: Seq<char>,
    out: Option<windows::OutgoingDragState>,
    x: i32,
    y: i32,
) -> EventView {
    EventView {
        name: "td-drag-motion"@,
        fields: seq![
            ("x"@, CarriedView::Number(x)),
            ("y"@, CarriedView::Number(y)),
            ("physicalPixels"@, CarriedView::Flag(true)),
            ("isOurDrag"@, CarriedView::Flag(out is Some)),
            ("isSameWindow"@, CarriedView::Flag(windows_source(out) == Some(label))),
            ("sourceWindow"@, text_or_null(windows_source(out))),
            ("targetWindow"@, CarriedView::Text(label)),
            (
                "hasTiddlerData"@,
                CarriedView::Flag(out is Some && out->0.data.text_vnd_tiddler is Some),
            ),
            (
                "isTextSelectionDrag"@,
                CarriedView::Flag(out is Some && out->0.data.is_text_selection_drag),
            ),
        ],
    }
}

fn windows_motion_event(label: &str, out: &Option<windows::OutgoingDragState>, x: i32, y: i32) -> (r:
    Event)
    ensures
        r@ == windows_motion(label@, *out, x, y),
{
    let info: (bool, bool, Option<String>, bool, bool) = windows::get_outgoing_drag_info(
        out,
        label,
    );
    let mut e: Event = event("td-drag-motion");
    carry(&mut e, "x", Carried::Number(x));
    carry(&mut e, "y", Carried::Number(y));
    carry(&mut e, "physicalPixels", Carried::Flag(true));
    carry(&mut e, "isOurDrag", Carried::Flag(info.0));
    carry(&mut e, "isSameWindow", Carried::Flag(info.1));
    carry_source(&mut e, "sourceWindow", info.2);
    carry_text(&mut e, "targetWindow", label);
    carry(&mut e, "hasTiddlerData", Carried::Flag(info.3));
    carry(&mut e, "isTextSelectionDrag", Carried::Flag(info.4));
    assert(e@.fields =~= windows_motion(label@, *out, x, y).fields);
    e
}

/// An event of files at a place.
pub open spec fn windows_files(name: Seq<char>, paths: Seq<Seq<char>>, x: i32, y: i32) -> EventView {
    EventView {
        name,
        fields: seq![
            ("paths"@, CarriedView::Texts(paths)),
            ("position"@, CarriedView::Point(x, y)),
        ],
    }
}

fn windows_files_event(name: &str, paths: Vec<String>, x: i32, y: i32) -> (r: Event)
    ensures
        r@ == windows_files(name@, text::views(paths@), x, y),
{
    let mut e: Event = event(name);
    carry(&mut e, "paths", Carried::Texts(paths));
    carry(&mut e, "position", Carried::Point(x, y));
    assert(e@.fields =~= windows_files(name@, text::views(paths@), x, y).fields);
    e
}

fn copied(v: &Vec<String>) -> (r: Vec<String>)
    ensures
        text::views(r@) == text::views(v@),
{
    let ghost all = text::views(v@);
    let mut out: Vec<String> = Vec::new();
    let mut i: usize = 0;
    assert(text::views(out@) =~= all.take(0));
    while i < v.len()
        invariant
            i <= v.len(),
            all == text::views(v@),
            text::views(out@) == all.take(i as int),
        decreases v.len() - i,
    {
        let ghost before = out@;
        let s: String = v[i].clone();
        out.push(s);
        assert(text::views(out@) =~= text::views(before).push(s@));
        assert(all.take(i + 1) =~= all.take(i as int).push(s@));
        i = i + 1;
    }
    assert(all.take(i as int) =~= all);
    out
}

/// What the window is told where a drag enters it.
pub open spec fn windows_enter(
    target: ContentAwareDropTarget,
    e: DragEvent,
    out: Option<windows::OutgoingDragState>,
    x: i32,
    y: i32,
) -> Seq<EventView> {
    match e {
        DragEvent::Nothing => Seq::empty(),
        DragEvent::Files => seq![
            windows_files("tauri://drag-enter"@, text::views(target.current_paths@), x, y),
        ],
        DragEvent::Content => seq![windows_motion(target.window_label@, out, x, y)],
    }
}

/// What the window is told where a drag enters it. `target` is the window with
/// the drag over it, and `entered` what the drag is.
pub fn windows_enter_events(
    target: &ContentAwareDropTarget,
    entered: DragEvent,
    out: &Option<windows::OutgoingDragState>,
    x: i32,
    y: i32,
) -> (r: Vec<Event>)
    ensures
        event_views(r@) == windows_enter(*target, entered, *out, x, y),
{
    let mut told: Vec<Event> = no_events();
    match entered {
        DragEvent::Nothing => {},
        DragEvent::Files => {
            let paths: Vec<String> = copied(&target.current_paths);
            tell(&mut told, windows_files_event("tauri://drag-enter", paths, x, y));
        },
        DragEvent::Content => {
            tell(&mut told, windows_motion_event(target.window_label.as_str(), out, x, y));
        },
    }
    assert(event_views(told@) =~= windows_enter(*target, entered, *out, x, y));
    told
}

/// What the window is told where a drag moves over it.
pub open spec fn windows_over(
    label: Seq<char>,
    e: DragEvent,
    out: Option<windows::OutgoingDragState>,
    x: i32,
    y: i32,
) -> Seq<EventView> {
    match e {
        DragEvent::Nothing => Seq::empty(),
        DragEvent::Files => seq![
            EventView {
                name: "tauri://drag-over"@,
                fields: seq![("position"@, CarriedView::Point(x, y))],
            },
        ],
        DragEvent::Content => seq![windows_motion(label, out, x, y)],
    }
}

/// What the window is told where a drag moves over it.
pub fn windows_over_events(
    label: &str,
    over: DragEvent,
    out: &Option<windows::OutgoingDragState>,
    x: i32,
    y: i32,
) -> (r: Vec<Event>)
    ensures
        event_views(r@) == windows_over(label@, over, *out, x, y),
{
    let mut told: Vec<Event> = no_events();
    match over {
        DragEvent::Nothing => {},
        DragEvent::Files => {
            let mut e: Event = event("tauri://drag-over");
            carry(&mut e, "position", Carried::Point(x, y));
            assert(e@.fields =~= seq![("position"@, CarriedView::Point(x, y))]);
            tell(&mut told, e);
        },
        DragEvent::Content => {
            tell(&mut told, windows_motion_event(label, out, x, y));
        },
    }
    assert(event_views(told@) =~= windows_over(label@, over, *out, x, y));
    told
}

/// What the window is told where a drag leaves it: of content, and of files.
pub open spec fn windows_leave(label: Seq<char>, told: (bool, bool), is_our_drag: bool) -> Seq<EventView> {
    (if told.0 {
        seq![
            EventView {
                name: "td-drag-leave"@,
                fields: seq![
                    ("isOurDrag"@, CarriedView::Flag(is_our_drag)),
                    ("targetWindow"@, CarriedView::Text(label)),
                ],
            },
        ]
    } else {
        Seq::empty()
    }) + (if told.1 {
        seq![EventView { name: "tauri://drag-leave"@, fields: Seq::empty() }]
    } else {
        Seq::empty()
    })
}

/// What the window is told where a drag leaves it. `left` says whether content
/// left it, and whether files did.
pub fn windows_leave_events(
    label: &str,
    left: (bool, bool),
    out: &Option<windows::OutgoingDragState>,
) -> (r: Vec<Event>)
    ensures
        event_views(r@) == windows_leave(label@, left, *out is Some),
{
    let mut told: Vec<Event> = no_events();
    if left.0 {
        let mut e: Event = event("td-drag-leave");
        carry(&mut e, "isOurDrag", Carried::Flag(out.is_some()));
        carry_text(&mut e, "targetWindow", label);
        assert(e@.fields =~= seq![
            ("isOurDrag"@, CarriedView::Flag(*out is Some)),
            ("targetWindow"@, CarriedView::Text(label@)),
        ]);
        tell(&mut told, e);
    }
    if left.1 {
        tell(&mut told, event("tauri://drag-leave"));
    }
    assert(event_views(told@) =~= windows_leave(label@, left, *out is Some));
    told
}

/// A drop begins.
pub open spec fn windows_drop_start(x: i32, y: i32) -> EventView {
    EventView {
        name: "td-drag-drop-start"@,
        fields: seq![
            ("x"@, CarriedView::Number(x)),
            ("y"@, CarriedView::Number(y)),
            ("physicalPixels"@, CarriedView::Flag(true)),
        ],
    }
}

/// Where a drop is.
pub open spec fn windows_drop_position(label: Seq<char>, x: i32, y: i32) -> EventView {
    EventView {
        name: "td-drag-drop-position"@,
        fields: seq![
            ("x"@, CarriedView::Number(x)),
            ("y"@, CarriedView::Number(y)),
            ("physicalPixels"@, CarriedView::Flag(true)),
            ("targetWindow"@, CarriedView::Text(label)),
        ],
    }
}

/// Content was dropped.
pub open spec fn windows_content(c: windows::DragContentData) -> EventView {
    EventView {
        name: "td-drag-content"@,
        fields: seq![
            ("types"@, CarriedView::Texts(text::views(c.types@))),
            ("data"@, CarriedView::Entries(c.data@)),
        ] + flag_if("isSameWindow"@, c.is_same_window) + flag_if(
            "is_text_selection_drag"@,
            c.is_text_selection_drag,
        ),
    }
}

/// What the window is told of a drop.
pub open spec fn windows_drop(label: Seq<char>, d: DropEvent, x: i32, y: i32) -> Seq<EventView> {
    match d {
        DropEvent::Nothing => Seq::empty(),
        DropEvent::Files(p) => seq![
            file_drop(label, text::views(p@)),
            windows_files("tauri://drag-drop"@, text::views(p@), x, y),
        ],
        DropEvent::Content(c) => seq![
            windows_drop_start(x, y),
            windows_drop_position(label, x, y),
            windows_content(c),
        ],
    }
}

fn windows_drop_start_event(x: i32, y: i32) -> (r: Event)
    ensures
        r@ == windows_drop_start(x, y),
{
    let mut e: Event = event("td-drag-drop-start");
    carry(&mut e, "x", Carried::Number(x));
    carry(&mut e, "y", Carried::Number(y));
    carry(&mut e, "physicalPixels", Carried::Flag(true));
    assert(e@.fields =~= windows_drop_start(x, y).fields);
    e
}

fn windows_drop_position_event(label: &str, x: i32, y: i32) -> (r: Event)
    ensures
        r@ == windows_drop_position(label@, x, y),
{
    let mut e: Event = event("td-drag-drop-position");
    carry(&mut e, "x", Carried::Number(x));
    carry(&mut e, "y", Carried::Number(y));
    carry(&mut e, "physicalPixels", Carried::Flag(true));
    carry_text(&mut e, "targetWindow", label);
    assert(e@.fields =~= windows_drop_position(label@, x, y).fields);
    e
}

fn windows_content_event(c: windows::DragContentData) -> (r: Event)
    ensures
        r@ == windows_content(c),
{
    let mut e: Event = event("td-drag-content");
    carry(&mut e, "types", Carried::Texts(c.types));
    carry(&mut e, "data", Carried::Entries(c.data));
    carry_flag_if(&mut e, "isSameWindow", c.is_same_window);
    carry_flag_if(&mut e, "is_text_selection_drag", c.is_text_selection_drag);
    assert(e@.fields =~= windows_content(c).fields);
    e
}

/// What the window is told of a drop: of files, once for the page and once for
/// the host; of content, that it begins, where it is, and what it holds.
pub fn windows_drop_events(label: &str, dropped: DropEvent, x: i32, y: i32) -> (r: Vec<Event>)
    ensures
        event_views(r@) == windows_drop(label@, dropped, x, y),
{
    let mut told: Vec<Event> = no_events();
    match dropped {
        DropEvent::Nothing => {},
        DropEvent::Files(p) => {
            let paths: Vec<String> = copied(&p);
            tell(&mut told, file_drop_event(label, paths));
            tell(&mut told, windows_files_event("tauri://drag-drop", p, x, y));
        },
        DropEvent::Content(c) => {
            tell(&mut told, windows_drop_start_event(x, y));
            tell(&mut told, windows_drop_position_event(label, x, y));
            tell(&mut told, windows_content_event(c));
        },
    }
    assert(event_views(told@) =~= windows_drop(label@, dropped, x, y));
    told
}

// ---------------------------------------------------------------------------
// macOS
// ---------------------------------------------------------------------------

/// Where the system says that a drag is, in the window.
pub open spec fn macos_place() -> Seq<(Seq<char>, CarriedView)> {
    seq![
        ("x"@, CarriedView::Coordinate(Axis::X)),
        ("y"@, CarriedView::Coordinate(Axis::Y)),
        ("screenCoords"@, CarriedView::Flag(false)),
    ]
}

/// Where a drag comes from and what window it is over.
pub open spec fn macos_windows(label: Seq<char>, out: Option<macos::OutgoingDragState>) -> Seq<
    (Seq<char>, CarriedView),
> {
    let source = match out {
        Some(st) => Some(st.source_window_label@),
        None => None,
    };
    seq![
        ("isOurDrag"@, CarriedView::Flag(out is Some)),
        ("isSameWindow"@, CarriedView::Flag(source == Some(label))),
        ("sourceWindowLabel"@, text_or_null(source)),
        ("windowLabel"@, CarriedView::Text(label)),
    ]
}

/// A drag moves over the window.
pub open spec fn macos_motion(label: Seq<char>, out: Option<macos::OutgoingDragState>) -> EventView {
    EventView {
        name: "td-drag-motion"@,
        fields: macos_place() + macos_windows(label, out) + seq![
            (
                "hasTiddlerData"@,
                CarriedView::Flag(out is Some && out->0.data.text_vnd_tiddler is Some),
            ),
            (
                "isTextSelectionDrag"@,
                CarriedView::Flag(out is Some && out->0.data.is_text_selection_drag),
            ),
        ],
    }
}

fn carry_place(e: &mut Event)
    ensures
        final(e)@.name == old(e)@.name,
        final(e)@.fields == old(e)@.fields + macos_place(),
{
    carry(e, "x", Carried::Coordinate(Axis::X));
    carry(e, "y", Carried::Coordinate(Axis::Y));
    carry(e, "screenCoords", Carried::Flag(false));
    assert(e@.fields =~= old(e)@.fields + macos_place());
}

fn carry_windows(e: &mut Event, label: &str, out: &Option<macos::OutgoingDragState>)
    ensures
        final(e)@.name == old(e)@.name,
        final(e)@.fields == old(e)@.fields + macos_windows(label@, *out),
{
    let info: macos::DragInfo = macos::drag_info(out, label);
    carry(e, "isOurDrag", Carried::Flag(info.is_our_drag));
    carry(e, "isSameWindow", Carried::Flag(info.is_same_window));
    carry_source(e, "sourceWindowLabel", info.source_window);
    carry_text(e, "windowLabel", label);
    assert(e@.fields =~= old(e)@.fields + macos_windows(label@, *out));
}

/// What the window is told where a drag enters it or moves over it.
pub fn macos_motion_event(label: &str, out: &Option<macos::OutgoingDragState>) -> (r: Event)
    ensures
        r@ == macos_motion(label@, *out),
{
    let info: macos::DragInfo = macos::drag_info(out, label);
    let mut e: Event = event("td-drag-motion");
    carry_place(&mut e);
    carry_windows(&mut e, label, out);
    carry(&mut e, "hasTiddlerData", Carried::Flag(info.has_tiddler_data));
    carry(&mut e, "isTextSelectionDrag", Carried::Flag(info.is_text_selection_drag));
    assert(e@.fields =~= macos_motion(label@, *out).fields);
    e
}

/// A drag leaves the window.
pub open spec fn macos_leave(label: Seq<char>, out: Option<macos::OutgoingDragState>) -> EventView {
    EventView { name: "td-drag-leave"@, fields: macos_windows(label, out) }
}

/// What the window is told where a drag leaves it.
pub fn macos_leave_event(label: &str, out: &Option<macos::OutgoingDragState>) -> (r: Event)
    ensures
        r@ == macos_leave(label@, *out),
{
    let mut e: Event = event("td-drag-leave");
    carry_windows(&mut e, label, out);
    assert(e@.fields =~= macos_windows(label@, *out));
    e
}

/// Content was dropped.
pub open spec fn macos_content(c: macos::DragContentData) -> EventView {
    EventView {
        name: "td-drag-content"@,
        fields: seq![
            ("types"@, CarriedView::Texts(text::views(c.types@))),
            ("data"@, CarriedView::Entries(c.data@)),
        ] + flag_if("is_text_selection_drag"@, c.is_text_selection_drag) + flag_if(
            "isSameWindow"@,
            c.is_same_window,
        ),
    }
}

/// What the window is told of a drop: of one of its own, where it is and what
/// fell there; of another, that it begins, where it is, and what it holds. Of a
/// drop that is the web view's it is told nothing.
pub open spec fn macos_drop(
    label: Seq<char>,
    out: Option<macos::OutgoingDragState>,
    d: DropResult,
) -> Seq<EventView> {
    match d {
        DropResult::OwnDrop(c) => seq![
            EventView {
                name: "td-drag-drop-position"@,
                fields: macos_place() + macos_windows(label, out),
            },
        ] + match c {
            Some(c) => seq![macos_content(c)],
            None => Seq::empty(),
        },
        DropResult::ContentDrop(c) => seq![
            EventView { name: "td-drag-drop-start"@, fields: macos_place() },
            EventView { name: "td-drag-drop-position"@, fields: macos_place() },
            macos_content(c),
        ],
        _ => Seq::empty(),
    }
}

fn macos_content_event(c: macos::DragContentData) -> (r: Event)
    ensures
        r@ == macos_content(c),
{
    let mut e: Event = event("td-drag-content");
    carry(&mut e, "types", Carried::Texts(c.types));
    carry(&mut e, "data", Carried::Entries(c.data));
    carry_flag_if(&mut e, "is_text_selection_drag", c.is_text_selection_drag);
    carry_flag_if(&mut e, "isSameWindow", c.is_same_window);
    assert(e@.fields =~= macos_content(c).fields);
    e
}

fn macos_place_event(name: &str) -> (r: Event)
    ensures
        r@ == (EventView { name: name@, fields: macos_place() }),
{
    let mut e: Event = event(name);
    carry_place(&mut e);
    assert(e@.fields =~= macos_place());
    e
}

/// What the window is told of a drop.
pub fn macos_drop_events(
    label: &str,
    out: &Option<macos::OutgoingDragState>,
    dropped: DropResult,
) -> (r: Vec<Event>)
    ensures
        event_views(r@) == macos_drop(label@, *out, dropped),
{
    let mut told: Vec<Event> = no_events();
    match dropped {
        DropResult::OwnDrop(c) => {
            let mut e: Event = macos_place_event("td-drag-drop-position");
            carry_windows(&mut e, label, out);
            tell(&mut told, e);
            if let Some(c) = c {
                tell(&mut told, macos_content_event(c));
            }
        },
        DropResult::ContentDrop(c) => {
            tell(&mut told, macos_place_event("td-drag-drop-start"));
            tell(&mut told, macos_place_event("td-drag-drop-position"));
            tell(&mut told, macos_content_event(c));
        },
        _ => {},
    }
    assert(event_views(told@) =~= macos_drop(label@, *out, dropped));
    told
}

/// A drag of the window's is over.
pub open spec fn macos_end(requested: bool) -> EventView {
    EventView {
        name: "td-drag-end"@,
        fields: seq![("data_was_requested"@, CarriedView::Flag(requested))],
    }
}

/// What the window is told where a drag of its own is over. `requested` says
/// whether anything came of it.
pub fn macos_end_event(requested: bool) -> (r: Event)
    ensures
        r@ == macos_end(requested),
{
    let mut e: Event = event("td-drag-end");
    carry(&mut e, "data_was_requested", Carried::Flag(requested));
    assert(e@.fields =~= macos_end(requested).fields);
    e
}

// ---------------------------------------------------------------------------
// All systems
// ---------------------------------------------------------------------------

/// The events tell of a drop's content only behind its place.
pub open spec fn place_comes_first(v: Seq<EventView>) -> bool {
    forall|i: int|
        0 <= i < v.len() && (#[trigger] v[i]).name == "td-drag-content"@ ==> i > 0 && v[i - 1].name
            == "td-drag-drop-position"@
}

/// On every system a page learns where a drop is before it learns what was
/// dropped there.
pub proof fn law_place_comes_before_content(
    label: Seq<char>,
    outcome: DropOutcome,
    event: DropEvent,
    x: i32,
    y: i32,
    out: Option<macos::OutgoingDragState>,
    result: DropResult,
)
    ensures
        place_comes_first(linux_drop(label, outcome)),
        place_comes_first(windows_drop(label, event, x, y)),
        place_comes_first(macos_drop(label, out, result)),
{
    reveal_strlit("td-drag-content");
    reveal_strlit("td-drag-drop-position");
    reveal_strlit("td-drag-drop-start");
    reveal_strlit("td-file-drop");
    reveal_strlit("tauri://drag-drop");
    assert("td-drag-content"@.len() == 15);
    assert("td-drag-drop-position"@.len() == 21);
    assert("td-drag-drop-start"@.len() == 18);
    assert("td-file-drop"@.len() == 12);
    assert("tauri://drag-drop"@.len() == 17);
}

/// The event carries the value under the name.
pub open spec fn carries_under(e: EventView, name: Seq<char>, value: CarriedView) -> bool {
    exists|i: int| 0 <= i < e.fields.len() && #[trigger] e.fields[i] == (name, value)
}

/// A page learns all that was dropped: the paths of the files, in their order, or
/// the content with all its types, and which window it fell on.
pub proof fn law_pages_learn_what_was_dropped(
    label: Seq<char>,
    outcome: DropOutcome,
    files: Vec<String>,
    content: windows::DragContentData,
    x: i32,
    y: i32,
)
    ensures
        match outcome {
            DropOutcome::Done { x: px, y: py, received } => ({
                let v = linux_drop(label, outcome);
                match received@ {
                    linux::ReceivedView::Files(p) => {
                        &&& v.last().name == "td-file-drop"@
                        &&& carries_under(v.last(), "paths"@, CarriedView::Texts(p))
                        &&& carries_under(v.last(), "targetWindow"@, CarriedView::Text(label))
                    },
                    linux::ReceivedView::Content(m) => m.len() > 0 ==> {
                        &&& v.last().name == "td-drag-content"@
                        &&& carries_under(v.last(), "data"@, CarriedView::Entries(m))
                        &&& carries_under(
                            v.last(),
                            "types"@,
                            CarriedView::Texts(table::keys_of(m)),
                        )
                        &&& carries_under(v[1], "x"@, CarriedView::Number(px))
                        &&& carries_under(v[1], "y"@, CarriedView::Number(py))
                    },
                }
            }),
            _ => linux_drop(label, outcome).len() == 0,
        },
        ({
            let v = windows_drop(label, DropEvent::Files(files), x, y);
            &&& v[0].name == "td-file-drop"@
            &&& carries_under(v[0], "paths"@, CarriedView::Texts(text::views(files@)))
        }),
        ({
            let v = windows_drop(label, DropEvent::Content(content), x, y);
            &&& v.last().name == "td-drag-content"@
            &&& carries_under(v.last(), "data"@, CarriedView::Entries(content.data@))
            &&& carries_under(
                v.last(),
                "types"@,
                CarriedView::Texts(text::views(content.types@)),
            )
        }),
{
    if let DropOutcome::Done { x: px, y: py, received } = outcome {
        match received@ {
            linux::ReceivedView::Files(p) => {
                let e = file_drop(label, p);
                assert(e.fields[0] == ("paths"@, CarriedView::Texts(p)));
                assert(e.fields[1] == ("targetWindow"@, CarriedView::Text(label)));
            },
            linux::ReceivedView::Content(m) => {
                let e = linux_content(label, m);
                let p = linux_drop_position(label, px, py);
                assert(e.fields[0] == ("types"@, CarriedView::Texts(table::keys_of(m))));
                assert(e.fields[1] == ("data"@, CarriedView::Entries(m)));
                assert(p.fields[0] == ("x"@, CarriedView::Number(px)));
                assert(p.fields[1] == ("y"@, CarriedView::Number(py)));
            },
        }
    }
    let f = file_drop(label, text::views(files@));
    assert(f.fields[0] == ("paths"@, CarriedView::Texts(text::views(files@))));
    let c = windows_content(content);
    assert(c.fields[0] == ("types"@, CarriedView::Texts(text::views(content.types@))));
    assert(c.fields[1] == ("data"@, CarriedView::Entries(content.data@)));
}

} // verus!
