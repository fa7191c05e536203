//! Drag and drop on Windows: what a data object holds, what a drag over a
//! window comes to, and what a drag of ours hands out.

use vstd::prelude::*;
use crate::encoding;
use crate::sanitize;
use crate::table;
use crate::table::StringMap;
use crate::text;

verus! {

// ---------------------------------------------------------------------------
// What kind of drag of its own a web view has under way
// ---------------------------------------------------------------------------

/// No drag.
pub const DRAG_STATE_NONE: u8 = 0;

/// A drag of tiddlers: the page deals with it.
pub const DRAG_STATE_TIDDLER: u8 = 1;

/// A drag of a link: the web view deals with it.
pub const DRAG_STATE_LINK: u8 = 2;

/// A drag of selected text: it may be dropped like one from elsewhere.
pub const DRAG_STATE_TEXT_SELECTION: u8 = 3;

/// The kinds of a web view's own drags.
#[derive(Clone, Copy, PartialEq, Eq, Structural)]
pub enum InternalDragType {
    Tiddler,
    Link,
    TextSelection,
}

/// What is known of the web view's own drag.
pub struct InternalDrag {
    pub state: u8,
    pub over_droppable: bool,
}

/// The state for a kind of drag.
pub open spec fn state_of(t: InternalDragType) -> u8 {
    match t {
        InternalDragType::Tiddler => DRAG_STATE_TIDDLER,
        InternalDragType::Link => DRAG_STATE_LINK,
        InternalDragType::TextSelection => DRAG_STATE_TEXT_SELECTION,
    }
}

/// The state for the name that the page gives a kind of drag.
pub open spec fn state_named(name: Seq<char>) -> u8 {
    if name == "tiddler"@ {
        DRAG_STATE_TIDDLER
    } else if name == "link"@ {
        DRAG_STATE_LINK
    } else if name == "text"@ {
        DRAG_STATE_TEXT_SELECTION
    } else {
        DRAG_STATE_NONE
    }
}

/// The kind of a drag, by what its data object offers.
pub open spec fn drag_kind(has_tiddler: bool, has_url: bool, has_moz_url: bool) -> InternalDragType {
    if has_tiddler {
        InternalDragType::Tiddler
    } else if has_url || has_moz_url {
        InternalDragType::Link
    } else {
        InternalDragType::TextSelection
    }
}

fn flag(b: bool) -> (r: i32)
    ensures
        r == if b {
            1int
        } else {
            0
        },
{
    if b {
        1
    } else {
        0
    }
}

impl InternalDrag {
    /// No drag.
    pub fn new() -> (r: InternalDrag)
        ensures
            r.state == DRAG_STATE_NONE,
            !r.over_droppable,
    {
        InternalDrag { state: DRAG_STATE_NONE, over_droppable: false }
    }

    /// A drag of the kind begins.
    pub fn set_internal_drag_active(&mut self, t: InternalDragType)
        ensures
            final(self).state == state_of(t),
            final(self).over_droppable == old(self).over_droppable,
    {
        self.state = match t {
            InternalDragType::Tiddler => DRAG_STATE_TIDDLER,
            InternalDragType::Link => DRAG_STATE_LINK,
            InternalDragType::TextSelection => DRAG_STATE_TEXT_SELECTION,
        };
    }

    /// The page says what kind of drag begins, or that none is under way.
    pub fn set_internal_drag_type_from_js(&mut self, name: &str)
        ensures
            final(self).state == state_named(name@),
            final(self).over_droppable == old(self).over_droppable,
    {
        self.state = if text::same(name, "tiddler") {
            DRAG_STATE_TIDDLER
        } else if text::same(name, "link") {
            DRAG_STATE_LINK
        } else if text::same(name, "text") {
            DRAG_STATE_TEXT_SELECTION
        } else {
            DRAG_STATE_NONE
        };
    }

    /// The web view begins a drag, and its data object offers these. Says
    /// whether the page is told of a drag in progress, which keeps its drop
    /// zone shut.
    pub fn drag_starting(&mut self, has_tiddler: bool, has_url: bool, has_moz_url: bool) -> (r: bool)
        ensures
            final(self).state == state_of(drag_kind(has_tiddler, has_url, has_moz_url)),
            final(self).over_droppable == old(self).over_droppable,
            r == (has_tiddler || has_url || has_moz_url),
    {
        let t: InternalDragType = if has_tiddler {
            InternalDragType::Tiddler
        } else if has_url || has_moz_url {
            InternalDragType::Link
        } else {
            InternalDragType::TextSelection
        };
        self.set_internal_drag_active(t);
        t != InternalDragType::TextSelection
    }

    /// The pointer is over something that takes drops, or is not.
    pub fn set_over_droppable(&mut self, over: bool)
        ensures
            final(self).over_droppable == over,
            final(self).state == old(self).state,
    {
        self.over_droppable = over;
    }

    /// The drag is over.
    pub fn tiddlydesktop_clear_internal_drag(&mut self)
        ensures
            final(self).state == DRAG_STATE_NONE,
            !final(self).over_droppable,
    {
        self.state = DRAG_STATE_NONE;
        self.over_droppable = false;
    }

    /// One where a drag is under way, else zero.
    pub fn tiddlydesktop_has_internal_drag(&self) -> (r: i32)
        ensures
            r == if self.state != DRAG_STATE_NONE {
                1int
            } else {
                0
            },
    {
        flag(self.state != DRAG_STATE_NONE)
    }

    /// One where the drag is one of selected text, else zero.
    pub fn tiddlydesktop_is_text_selection_drag(&self) -> (r: i32)
        ensures
            r == if self.state == DRAG_STATE_TEXT_SELECTION {
                1int
            } else {
                0
            },
    {
        flag(self.state == DRAG_STATE_TEXT_SELECTION)
    }

    /// One where the drag is one of tiddlers, else zero.
    pub fn tiddlydesktop_is_tiddler_drag(&self) -> (r: i32)
        ensures
            r == if self.state == DRAG_STATE_TIDDLER {
                1int
            } else {
                0
            },
    {
        flag(self.state == DRAG_STATE_TIDDLER)
    }

    /// One where the pointer is over something that takes drops, else zero.
    pub fn tiddlydesktop_is_over_droppable(&self) -> (r: i32)
        ensures
            r == if self.over_droppable {
                1int
            } else {
                0
            },
    {
        flag(self.over_droppable)
    }
}

// ---------------------------------------------------------------------------
// What a data object holds
// ---------------------------------------------------------------------------

/// What a data object gave under each of the formats that are asked for.
pub struct DataObject {
    pub chromium_custom: Option<Vec<u8>>,
    pub moz_custom: Option<Vec<u8>>,
    pub unicode_text: Option<Vec<u8>>,
    pub html: Option<Vec<u8>>,
    pub tiddler: Option<Vec<u8>>,
    pub url: Option<Vec<u8>>,
}

/// The text of a format, where there is any.
pub open spec fn format_text(b: Option<Vec<u8>>) -> Option<Seq<char>> {
    match b {
        Some(v) => if encoding::decoded_text(v@).len() > 0 {
            Some(encoding::decoded_text(v@))
        } else {
            None
        },
        None => None,
    }
}

/// The text of a format, where there is any.
pub fn get_format_string(b: &Option<Vec<u8>>) -> (r: Option<String>)
    ensures
        text::opt_view(r) == format_text(*b),
{
    match b {
        Some(v) => {
            let s: String = encoding::decode_string(v.as_slice());
            if s.as_str().is_empty() {
                None
            } else {
                Some(s)
            }
        },
        None => None,
    }
}

/// HTML from the clipboard without its header: what stands between the fragment
/// markers, or else what follows the first empty line, or else all of it.
pub open spec fn html_fragment(h: Seq<char>) -> Seq<char> {
    let marked = match text::index_of_sub(h, "<!--StartFragment-->"@, 0) {
        Some(i) => {
            let rest = h.skip(i + "<!--StartFragment-->"@.len());
            match text::index_of_sub(rest, "<!--EndFragment-->"@, 0) {
                Some(j) => Some(rest.take(j)),
                None => None,
            }
        },
        None => None,
    };
    match marked {
        Some(f) => f,
        None => match text::index_of_sub(h, "\r\n\r\n"@, 0) {
            Some(i) => h.skip(i + 4),
            None => match text::index_of_sub(h, "\n\n"@, 0) {
                Some(i) => h.skip(i + 2),
                None => h,
            },
        },
    }
}

/// HTML from the clipboard without its header.
pub fn strip_cf_html_header(html: &str) -> (r: String)
    ensures
        r@ == html_fragment(html@),
{
    proof {
        reveal_strlit("\r\n\r\n");
        reveal_strlit("\n\n");
    }
    if let Some(i) = text::find_sub(html, "<!--StartFragment-->") {
        let n: usize = "<!--StartFragment-->".unicode_len();
        let rest: &str = text::skip(html, i + n);
        if let Some(j) = text::find_sub(rest, "<!--EndFragment-->") {
            return text::take(rest, j).to_owned();
        }
    }
    if let Some(i) = text::find_sub(html, "\r\n\r\n") {
        return text::skip(html, i + 4).to_owned();
    }
    if let Some(i) = text::find_sub(html, "\n\n") {
        return text::skip(html, i + 2).to_owned();
    }
    html.to_owned()
}

/// What the single formats of a data object hold: text, HTML, tiddlers, and a
/// link unless it is a dangerous one.
pub open spec fn single_formats(d: DataObject) -> Seq<(Seq<char>, Seq<char>)> {
    let m0 = Seq::<(Seq<char>, Seq<char>)>::empty();
    let m1 = match format_text(d.unicode_text) {
        Some(s) => table::put(m0, "text/plain"@, s),
        None => m0,
    };
    let m2 = match format_text(d.html) {
        Some(s) => table::put(m1, "text/html"@, sanitize::html_sanitized(html_fragment(s))),
        None => m1,
    };
    let m3 = match format_text(d.tiddler) {
        Some(s) => table::put(m2, "text/vnd.tiddler"@, s),
        None => m2,
    };
    match format_text(d.url) {
        Some(s) => if sanitize::is_dangerous(s) {
            m3
        } else {
            table::put(m3, "text/uri-list"@, sanitize::list_cleaned(s))
        },
        None => m3,
    }
}

/// What a data object holds: what is harmless of Chrome's frame, or else of
/// Firefox's, or else the single formats.
pub open spec fn object_content(d: DataObject) -> Seq<(Seq<char>, Seq<char>)> {
    let chrome = match d.chromium_custom {
        Some(b) => sanitize::entries_cleaned(encoding::chromium_entries(b@)),
        None => Seq::empty(),
    };
    let moz = match d.moz_custom {
        Some(b) => sanitize::entries_cleaned(encoding::moz_entries(b@)),
        None => Seq::empty(),
    };
    if chrome.len() > 0 {
        chrome
    } else if moz.len() > 0 {
        moz
    } else {
        single_formats(d)
    }
}

/// What a data object holds under each MIME type.
pub fn extract_content(d: &DataObject) -> (r: StringMap)
    ensures
        r@ == object_content(*d),
{
    if let Some(b) = &d.chromium_custom {
        if let Some(m) = encoding::parse_chromium_custom_data(b.as_slice()) {
            let harmless: StringMap = sanitize::clean_entries(&m);
            if harmless.len() > 0 {
                return harmless;
            }
        }
    }
    if let Some(b) = &d.moz_custom {
        if let Some(m) = encoding::parse_moz_custom_clipdata(b.as_slice()) {
            let harmless: StringMap = sanitize::clean_entries(&m);
            if harmless.len() > 0 {
                return harmless;
            }
        }
    }
    let mut out: StringMap = StringMap::new();
    if let Some(s) = get_format_string(&d.unicode_text) {
        out.insert("text/plain".to_owned(), s);
    }
    if let Some(s) = get_format_string(&d.html) {
        let fragment: String = strip_cf_html_header(s.as_str());
        out.insert("text/html".to_owned(), sanitize::sanitize_html(fragment.as_str()));
    }
    if let Some(s) = get_format_string(&d.tiddler) {
        out.insert("text/vnd.tiddler".to_owned(), s);
    }
    if let Some(s) = get_format_string(&d.url) {
        if !sanitize::is_dangerous_url(s.as_str()) {
            out.insert("text/uri-list".to_owned(), sanitize::clean_uri_list(s.as_str()));
        }
    }
    out
}

/// What a data object holds is harmless under each type.
pub proof fn law_object_content_is_harmless(d: DataObject)
    ensures
        sanitize::content_is_harmless(object_content(d)),
{
    reveal_strlit("text/vnd.tiddler");
    reveal_strlit("text/uri-list");
    reveal_strlit("URL");
    reveal_strlit("text/html");
    reveal_strlit("text/plain");
    assert("text/plain"@.len() == 10 && "text/html"@.len() == 9 && "text/uri-list"@.len() == 13
        && "URL"@.len() == 3 && "text/vnd.tiddler"@.len() == 16);
    if let Some(b) = d.chromium_custom {
        sanitize::law_cleaned_entries_are_harmless(encoding::chromium_entries(b@));
    }
    if let Some(b) = d.moz_custom {
        sanitize::law_cleaned_entries_are_harmless(encoding::moz_entries(b@));
    }
    let m0 = Seq::<(Seq<char>, Seq<char>)>::empty();
    let m1 = match format_text(d.unicode_text) {
        Some(s) => {
            sanitize::lemma_put_harmless(m0, "text/plain"@, s);
            table::put(m0, "text/plain"@, s)
        },
        None => m0,
    };
    let m2 = match format_text(d.html) {
        Some(s) => {
            let h = sanitize::html_sanitized(html_fragment(s));
            sanitize::lemma_put_harmless(m1, "text/html"@, h);
            table::put(m1, "text/html"@, h)
        },
        None => m1,
    };
    let m3 = match format_text(d.tiddler) {
        Some(s) => {
            sanitize::lemma_put_harmless(m2, "text/vnd.tiddler"@, s);
            table::put(m2, "text/vnd.tiddler"@, s)
        },
        None => m2,
    };
    if let Some(s) = format_text(d.url) {
        sanitize::law_cleaned_entry_is_harmless("text/uri-list"@, s);
        sanitize::lemma_put_harmless(m3, "text/uri-list"@, sanitize::list_cleaned(s));
    }
}

// ---------------------------------------------------------------------------
// A drag of ours
// ---------------------------------------------------------------------------

/// What a drag of ours carries.
pub struct OutgoingDragData {
    pub text_plain: Option<String>,
    pub text_html: Option<String>,
    pub text_vnd_tiddler: Option<String>,
    pub text_uri_list: Option<String>,
    pub text_x_moz_url: Option<String>,
    pub url: Option<String>,
    pub is_text_selection_drag: bool,
    pub source_window: Option<String>,
}

/// A drag of ours that is on its way.
pub struct OutgoingDragState {
    pub data: OutgoingDragData,
    pub source_window_label: String,
}

/// What is told of a drag to the window that it is over: whether it is ours,
/// whether it is the window's own, where it comes from, whether it carries
/// tiddlers, and whether it is one of selected text.
pub fn get_outgoing_drag_info(out: &Option<OutgoingDragState>, target_window: &str) -> (r: (
    bool,
    bool,
    Option<String>,
    bool,
    bool,
))
    ensures
        r.0 == (*out is Some),
        r.1 == (*out is Some && out->0.source_window_label@ == target_window@),
        text::opt_view(r.2) == match *out {
            Some(st) => Some(st.source_window_label@),
            None => None,
        },
        r.3 == (*out is Some && out->0.data.text_vnd_tiddler is Some),
        r.4 == (*out is Some && out->0.data.is_text_selection_drag),
{
    match out {
        Some(st) => (
            true,
            text::same(st.source_window_label.as_str(), target_window),
            Some(st.source_window_label.clone()),
            st.data.text_vnd_tiddler.is_some(),
            st.data.is_text_selection_drag,
        ),
        None => (false, false, None, false, false),
    }
}

/// A drag of ours begins.
pub fn prepare_native_drag(out: &mut Option<OutgoingDragState>, label: &str, data: OutgoingDragData)
    ensures
        *final(out) is Some,
        (*final(out))->0.source_window_label@ == label@,
        (*final(out))->0.data == data,
{
    *out = Some(OutgoingDragState { data, source_window_label: label.to_owned() });
}

/// A drag of ours is over, however it ended.
pub fn cleanup_native_drag(out: &mut Option<OutgoingDragState>, internal: &mut InternalDrag)
    ensures
        *final(out) is None,
        final(internal).state == DRAG_STATE_NONE,
        final(internal).over_droppable == old(internal).over_droppable,
{
    *out = None;
    internal.state = DRAG_STATE_NONE;
}

/// What a window is given of a drag of ours, whichever window it comes from.
pub fn get_pending_drag_data(out: &Option<OutgoingDragState>, _target_window: &str) -> (r: Option<
    OutgoingDragData,
>)
    ensures
        r is Some <==> *out is Some,
        match r {
            Some(d) => {
                &&& text::opt_view(d.text_plain) == text::opt_view(out->0.data.text_plain)
                &&& text::opt_view(d.text_html) == text::opt_view(out->0.data.text_html)
                &&& text::opt_view(d.text_vnd_tiddler) == text::opt_view(
                    out->0.data.text_vnd_tiddler,
                )
                &&& text::opt_view(d.text_uri_list) == text::opt_view(out->0.data.text_uri_list)
                &&& text::opt_view(d.text_x_moz_url) == text::opt_view(out->0.data.text_x_moz_url)
                &&& text::opt_view(d.url) == text::opt_view(out->0.data.url)
                &&& d.is_text_selection_drag == out->0.data.is_text_selection_drag
                &&& text::opt_view(d.source_window) == Some(out->0.source_window_label@)
            },
            None => true,
        },
{
    match out {
        Some(st) => Some(
            OutgoingDragData {
                text_plain: text::clone_opt(&st.data.text_plain),
                text_html: text::clone_opt(&st.data.text_html),
                text_vnd_tiddler: text::clone_opt(&st.data.text_vnd_tiddler),
                text_uri_list: text::clone_opt(&st.data.text_uri_list),
                text_x_moz_url: text::clone_opt(&st.data.text_x_moz_url),
                url: text::clone_opt(&st.data.url),
                is_text_selection_drag: st.data.is_text_selection_drag,
                source_window: Some(st.source_window_label.clone()),
            },
        ),
        None => None,
    }
}

/// The paths of files that were dropped and not yet asked for: on Windows there
/// are never any, for a drop is reported with its paths.
pub fn take_pending_file_paths() -> (r: Option<Vec<String>>)
    ensures
        r is None,
{
    None
}

/// The numbers that the system gave the formats.
pub struct Formats {
    pub html: u16,
    pub tiddler: u16,
    pub url: u16,
    pub moz_url: u16,
}

/// The number of the format for Unicode text.
pub const CF_UNICODETEXT: u16 = 13;

/// The text that a drag has for a format, and whether it is handed out in
/// UTF-16.
pub open spec fn format_content(cf: u16, f: Formats, d: OutgoingDragData) -> Option<(Seq<char>, bool)> {
    let (content, wide) = if cf == CF_UNICODETEXT {
        (d.text_plain, true)
    } else if cf == f.html {
        (d.text_html, false)
    } else if cf == f.tiddler {
        (d.text_vnd_tiddler, true)
    } else if cf == f.url || cf == f.moz_url {
        (
            if d.text_uri_list is Some {
                d.text_uri_list
            } else {
                d.url
            },
            true,
        )
    } else {
        (None, true)
    };
    match content {
        Some(s) => Some((s@, wide)),
        None => None,
    }
}

/// A text as it is handed out: in UTF-16 or in UTF-8, with a terminating zero.
pub open spec fn handed_out(s: Seq<char>, wide: bool) -> Seq<u8> {
    if wide {
        encoding::bytes_le(encoding::utf16_units(s).push(0))
    } else {
        vstd::utf8::encode_utf8(s).push(0)
    }
}

fn find_content<'a>(cf: u16, f: &Formats, d: &'a OutgoingDragData) -> (r: Option<(&'a str, bool)>)
    ensures
        match r {
            Some((s, wide)) => format_content(cf, *f, *d) == Some((s@, wide)),
            None => format_content(cf, *f, *d) is None,
        },
{
    let content: &Option<String>;
    let mut wide: bool = true;
    if cf == CF_UNICODETEXT {
        content = &d.text_plain;
    } else if cf == f.html {
        content = &d.text_html;
        wide = false;
    } else if cf == f.tiddler {
        content = &d.text_vnd_tiddler;
    } else if cf == f.url || cf == f.moz_url {
        if d.text_uri_list.is_some() {
            content = &d.text_uri_list;
        } else {
            content = &d.url;
        }
    } else {
        return None;
    }
    match content {
        Some(s) => Some((s.as_str(), wide)),
        None => None,
    }
}

/// What a drag of ours hands out under a format; nothing where it has nothing
/// for it.
pub fn get_data(cf: u16, f: &Formats, d: &OutgoingDragData) -> (r: Option<Vec<u8>>)
    ensures
        match r {
            Some(b) => match format_content(cf, *f, *d) {
                Some((s, wide)) => b@ == handed_out(s, wide),
                None => false,
            },
            None => format_content(cf, *f, *d) is None,
        },
{
    match find_content(cf, f, d) {
        Some((s, wide)) => {
            if wide {
                let mut units: Vec<u16> = encoding::to_utf16(s);
                units.push(0);
                Some(encoding::to_bytes_le(units.as_slice()))
            } else {
                let mut bytes: Vec<u8> = s.as_bytes_vec();
                bytes.push(0);
                Some(bytes)
            }
        },
        None => None,
    }
}

/// Whether a drag of ours has anything for a format.
pub fn query_get_data(cf: u16, f: &Formats, d: &OutgoingDragData) -> (r: bool)
    ensures
        r == (format_content(cf, *f, *d) is Some),
{
    find_content(cf, f, d).is_some()
}

/// Text without NUL that a drag of ours hands out in UTF-16 is read back as it
/// was, up to its terminating zero.
pub proof fn law_wide_text_is_read(s: Seq<char>)
    requires
        forall|i: int| 0 <= i < s.len() ==> s[i] != '\0',
    ensures
        encoding::utf16_le_text(handed_out(s, true)) == Some(s),
{
    let u = encoding::utf16_units(s);
    encoding::law_units_round_trip(u.push(0));
    encoding::law_utf16_round_trip(s);
    encoding::lemma_units_not_zero(s);
    encoding::lemma_until_zero_push(u);
    assert(encoding::bytes_le(u.push(0)).len() % 2 == 0);
}

/// The answer to whether a drag goes on: it is given up.
pub const DRAGDROP_S_CANCEL: i32 = 0x00040101;

/// The answer to whether a drag goes on: it ends here.
pub const DRAGDROP_S_DROP: i32 = 0x00040100;

/// The answer to whether a drag goes on: it does.
pub const S_OK: i32 = 0;

/// Whether a drag goes on: not when Escape is pressed, and not when neither
/// mouse button is held any more.
pub fn query_continue_drag(escape_pressed: bool, key_state: u32) -> (r: i32)
    ensures
        r == if escape_pressed {
            DRAGDROP_S_CANCEL
        } else if key_state & 1 == 0 && key_state & 2 == 0 {
            DRAGDROP_S_DROP
        } else {
            S_OK
        },
{
    if escape_pressed {
        return DRAGDROP_S_CANCEL;
    }
    let left: bool = (key_state & 1) != 0;
    let right: bool = (key_state & 2) != 0;
    if !left && !right {
        return DRAGDROP_S_DROP;
    }
    S_OK
}

// ---------------------------------------------------------------------------
// A window under a drag
// ---------------------------------------------------------------------------

/// How far a drag over a window has come.
pub struct ContentAwareDropTarget {
    pub window_label: String,
    /// A drag of content is over the window.
    pub drag_active: bool,
    /// A drag of files is over the window.
    pub file_drag_active: bool,
    pub current_paths: Vec<String>,
}

/// What a window is told of a drag.
#[derive(Clone, Copy, PartialEq, Eq, Structural)]
pub enum DragEvent {
    Nothing,
    Files,
    Content,
}

/// The content of a drop, and what is told with it.
pub struct DragContentData {
    pub types: Vec<String>,
    pub data: StringMap,
    pub is_same_window: Option<bool>,
    pub is_text_selection_drag: Option<bool>,
}

/// What a drop over a window comes to.
pub enum DropEvent {
    Nothing,
    Files(Vec<String>),
    Content(DragContentData),
}

/// The formats of content that a drag offers.
pub struct OfferedFormats {
    pub unicode_text: bool,
    pub html: bool,
    pub tiddler: bool,
    pub url: bool,
    pub chromium_custom: bool,
    pub moz_custom: bool,
}

/// Whether a drag offers content in any format.
pub fn has_content_formats(f: &OfferedFormats) -> (r: bool)
    ensures
        r == (f.unicode_text || f.html || f.tiddler || f.url || f.chromium_custom || f.moz_custom),
{
    f.unicode_text || f.html || f.tiddler || f.url || f.chromium_custom || f.moz_custom
}

/// What a drag that enters a window is to it: files whose paths are accepted, or
/// content, or nothing; nothing too where it is the page's own drag of tiddlers.
pub open spec fn entering(
    internal: u8,
    has_object: bool,
    paths: Seq<Seq<char>>,
    has_content: bool,
) -> DragEvent {
    if !has_object || internal == DRAG_STATE_TIDDLER {
        DragEvent::Nothing
    } else if sanitize::accepted_paths(paths).len() > 0 {
        DragEvent::Files
    } else if has_content {
        DragEvent::Content
    } else {
        DragEvent::Nothing
    }
}

fn some_if(b: bool) -> (r: Option<bool>)
    ensures
        r == if b {
            Some(true)
        } else {
            None
        },
{
    if b {
        Some(true)
    } else {
        None
    }
}

impl ContentAwareDropTarget {
    /// A window that no drag has reached.
    pub fn new(window_label: &str) -> (r: ContentAwareDropTarget)
        ensures
            r.window_label@ == window_label@,
            !r.drag_active && !r.file_drag_active,
            r.current_paths@.len() == 0,
    {
        ContentAwareDropTarget {
            window_label: window_label.to_owned(),
            drag_active: false,
            file_drag_active: false,
            current_paths: Vec::new(),
        }
    }

    /// A drag enters the window. Where it holds content, it is to be copied,
    /// whatever the web view says.
    pub fn drag_enter(
        &mut self,
        internal: &InternalDrag,
        has_object: bool,
        paths: Vec<String>,
        has_content: bool,
    ) -> (r: DragEvent)
        ensures
            r == entering(internal.state, has_object, text::views(paths@), has_content),
            final(self).file_drag_active == (r is Files || old(self).file_drag_active),
            final(self).drag_active == (r is Content || old(self).drag_active),
            text::views(final(self).current_paths@) == if r is Files {
                sanitize::accepted_paths(text::views(paths@))
            } else {
                text::views(old(self).current_paths@)
            },
            final(self).window_label@ == old(self).window_label@,
    {
        if !has_object || internal.state == DRAG_STATE_TIDDLER {
            return DragEvent::Nothing;
        }
        let accepted: Vec<String> = sanitize::sanitize_file_paths(paths);
        assert(accepted@.len() == text::views(accepted@).len());
        if accepted.len() > 0 {
            self.current_paths = accepted;
            self.file_drag_active = true;
            return DragEvent::Files;
        }
        if has_content {
            self.drag_active = true;
            return DragEvent::Content;
        }
        DragEvent::Nothing
    }

    /// A drag moves over the window.
    pub fn drag_over(&self) -> (r: DragEvent)
        ensures
            r == if self.drag_active {
                DragEvent::Content
            } else if self.file_drag_active {
                DragEvent::Files
            } else {
                DragEvent::Nothing
            },
    {
        if self.drag_active {
            DragEvent::Content
        } else if self.file_drag_active {
            DragEvent::Files
        } else {
            DragEvent::Nothing
        }
    }

    fn clear(&mut self)
        ensures
            !final(self).drag_active,
            !final(self).file_drag_active,
            final(self).current_paths@.len() == 0,
            final(self).window_label@ == old(self).window_label@,
    {
        self.drag_active = false;
        self.file_drag_active = false;
        self.current_paths = Vec::new();
    }

    /// A drag leaves the window. Says whether the window is told that content
    /// left it, and whether that files did.
    pub fn drag_leave(&mut self, internal: &mut InternalDrag) -> (r: (bool, bool))
        ensures
            r == (old(self).drag_active, old(self).file_drag_active),
            !final(self).drag_active,
            !final(self).file_drag_active,
            final(self).current_paths@.len() == 0,
            final(self).window_label@ == old(self).window_label@,
            final(internal).state == DRAG_STATE_NONE,
            final(internal).over_droppable == old(internal).over_droppable,
    {
        let told: (bool, bool) = (self.drag_active, self.file_drag_active);
        self.clear();
        internal.state = DRAG_STATE_NONE;
        told
    }

    /// A drag is dropped on the window. `paths` and `object` are what its data
    /// object holds, where there is one. Paths that are refused are left out.
    pub fn drop_object(
        &mut self,
        internal: &mut InternalDrag,
        out: &Option<OutgoingDragState>,
        paths: Vec<String>,
        object: Option<DataObject>,
    ) -> (r: DropEvent)
        ensures
            ({
                let content = match object {
                    Some(d) => object_content(d),
                    None => Seq::empty(),
                };
                let files = sanitize::accepted_paths(text::views(paths@));
                &&& r is Files <==> object is Some && old(self).file_drag_active && files.len() > 0
                &&& r is Content <==> object is Some && !old(self).file_drag_active && old(
                    self,
                ).drag_active && content.len() > 0
                &&& match r {
                    DropEvent::Files(p) => text::views(p@) == files,
                    DropEvent::Content(c) => {
                        &&& c.data@ == content
                        &&& text::views(c.types@) == table::keys_of(content)
                        &&& c.is_same_window == if *out is Some && out->0.source_window_label@
                            == old(self).window_label@ {
                            Some(true)
                        } else {
                            None
                        }
                        &&& c.is_text_selection_drag == if *out is Some
                            && out->0.data.is_text_selection_drag {
                            Some(true)
                        } else {
                            None
                        }
                    },
                    DropEvent::Nothing => true,
                }
            }),
            !final(self).drag_active,
            !final(self).file_drag_active,
            final(self).current_paths@.len() == 0,
            final(self).window_label@ == old(self).window_label@,
            final(internal).state == DRAG_STATE_NONE,
            final(internal).over_droppable == old(internal).over_droppable,
    {
        let was_file: bool = self.file_drag_active;
        let was_content: bool = self.drag_active;
        self.clear();
        internal.state = DRAG_STATE_NONE;
        if let Some(d) = object {
            if was_file {
                let accepted: Vec<String> = sanitize::sanitize_file_paths(paths);
                assert(accepted@.len() == text::views(accepted@).len());
                if accepted.len() > 0 {
                    return DropEvent::Files(accepted);
                }
            } else if was_content {
                let content: StringMap = extract_content(&d);
                if content.len() > 0 {
                    let info: (bool, bool, Option<String>, bool, bool) = get_outgoing_drag_info(
                        out,
                        self.window_label.as_str(),
                    );
                    return DropEvent::Content(
                        DragContentData {
                            types: table::keys(&content),
                            data: content,
                            is_same_window: some_if(info.1),
                            is_text_selection_drag: some_if(info.4),
                        },
                    );
                }
            }
        }
        DropEvent::Nothing
    }
}

// ---------------------------------------------------------------------------
// What is dropped is what arrives
// ---------------------------------------------------------------------------

/// Where a drop holds no browser's frame, each of its formats arrives under its
/// own type: text and tiddlers as they are, the fragment of HTML made harmless, a
/// link unless it is a dangerous one; and nothing else arrives.
pub proof fn law_formats_arrive(d: DataObject, key: Seq<char>)
    ensures
        d.chromium_custom is None && d.moz_custom is None ==> object_content(d) == single_formats(d),
        table::lookup(single_formats(d), key) == if key == "text/plain"@ {
            format_text(d.unicode_text)
        } else if key == "text/html"@ {
            match format_text(d.html) {
                Some(s) => Some(sanitize::html_sanitized(html_fragment(s))),
                None => None,
            }
        } else if key == "text/vnd.tiddler"@ {
            format_text(d.tiddler)
        } else if key == "text/uri-list"@ {
            match format_text(d.url) {
                Some(s) => if sanitize::is_dangerous(s) {
                    None
                } else {
                    Some(sanitize::list_cleaned(s))
                },
                None => None,
            }
        } else {
            None
        },
{
    reveal_strlit("text/vnd.tiddler");
    reveal_strlit("text/uri-list");
    reveal_strlit("text/html");
    reveal_strlit("text/plain");
    assert("text/plain"@.len() == 10 && "text/html"@.len() == 9 && "text/uri-list"@.len() == 13
        && "text/vnd.tiddler"@.len() == 16);
    let m0 = Seq::<(Seq<char>, Seq<char>)>::empty();
    assert(table::lookup(m0, key) is None);
    let m1 = match format_text(d.unicode_text) {
        Some(s) => {
            table::law_put_then_lookup(m0, "text/plain"@, s, key);
            table::put(m0, "text/plain"@, s)
        },
        None => m0,
    };
    let m2 = match format_text(d.html) {
        Some(s) => {
            let h = sanitize::html_sanitized(html_fragment(s));
            table::law_put_then_lookup(m1, "text/html"@, h, key);
            table::put(m1, "text/html"@, h)
        },
        None => m1,
    };
    let m3 = match format_text(d.tiddler) {
        Some(s) => {
            table::law_put_then_lookup(m2, "text/vnd.tiddler"@, s, key);
            table::put(m2, "text/vnd.tiddler"@, s)
        },
        None => m2,
    };
    if let Some(s) = format_text(d.url) {
        table::law_put_then_lookup(m3, "text/uri-list"@, sanitize::list_cleaned(s), key);
    }
}

/// A browser's frame comes before the single formats, that of Chromium before that
/// of Mozilla, and each of its entries arrives under its type, made harmless by
/// itself.
pub proof fn law_frames_come_first(d: DataObject, key: Seq<char>)
    ensures
        d.chromium_custom is Some ==> ({
            let entries = encoding::chromium_entries(d.chromium_custom->0@);
            table::distinct_keys(entries) && sanitize::entries_cleaned(entries).len() > 0
                ==> table::lookup(object_content(d), key) == match table::lookup(entries, key) {
                Some(v) => sanitize::entry_cleaned(key, v),
                None => None,
            }
        }),
        d.chromium_custom is None && d.moz_custom is Some ==> ({
            let entries = encoding::moz_entries(d.moz_custom->0@);
            table::distinct_keys(entries) && sanitize::entries_cleaned(entries).len() > 0
                ==> table::lookup(object_content(d), key) == match table::lookup(entries, key) {
                Some(v) => sanitize::entry_cleaned(key, v),
                None => None,
            }
        }),
{
    if d.chromium_custom is Some {
        let entries = encoding::chromium_entries(d.chromium_custom->0@);
        if table::distinct_keys(entries) {
            sanitize::law_each_entry_is_cleaned(entries, key);
        }
    } else if d.moz_custom is Some {
        let entries = encoding::moz_entries(d.moz_custom->0@);
        if table::distinct_keys(entries) {
            sanitize::law_each_entry_is_cleaned(entries, key);
        }
    }
}

proof fn lemma_found_at(s: Seq<char>, pat: Seq<char>, from: int, i: int)
    requires
        0 <= from <= i,
        text::occurs_at(s, pat, i),
        forall|k: int| from <= k < i ==> !#[trigger] text::occurs_at(s, pat, k),
    ensures
        text::index_of_sub(s, pat, from) == Some(i),
    decreases i - from,
{
    text::lemma_index_of_sub(s, pat, from);
    if from < i {
        lemma_found_at(s, pat, from + 1, i);
    }
}

/// The fragment of HTML is what stands between its two markers: the first start
/// marker and the first end marker behind it.
pub proof fn law_fragment_stands_between_its_markers(
    head: Seq<char>,
    fragment: Seq<char>,
    tail: Seq<char>,
)
    requires
        forall|k: int|
            0 <= k < head.len() ==> !#[trigger] text::occurs_at(
                head + "<!--StartFragment-->"@ + fragment + "<!--EndFragment-->"@ + tail,
                "<!--StartFragment-->"@,
                k,
            ),
        forall|k: int|
            0 <= k < fragment.len() ==> !#[trigger] text::occurs_at(
                fragment + "<!--EndFragment-->"@ + tail,
                "<!--EndFragment-->"@,
                k,
            ),
    ensures
        html_fragment(head + "<!--StartFragment-->"@ + fragment + "<!--EndFragment-->"@ + tail)
            == fragment,
{
    let start = "<!--StartFragment-->"@;
    let end = "<!--EndFragment-->"@;
    let h = head + start + fragment + end + tail;
    let n = head.len() as int;
    assert(h.subrange(n, n + start.len()) =~= start);
    lemma_found_at(h, start, 0, n);
    let rest = fragment + end + tail;
    assert(h.skip(n + start.len()) =~= rest);
    let m = fragment.len() as int;
    assert(rest.subrange(m, m + end.len()) =~= end);
    lemma_found_at(rest, end, 0, m);
    assert(rest.take(m) =~= fragment);
}

/// HTML without a header, a blank line and a start marker is all fragment.
pub proof fn law_bare_html_is_all_fragment(h: Seq<char>)
    requires
        !text::has_sub(h, "<!--StartFragment-->"@),
        !text::has_sub(h, "\r\n\r\n"@),
        !text::has_sub(h, "\n\n"@),
    ensures
        html_fragment(h) == h,
{
    text::lemma_has_sub(h, "<!--StartFragment-->"@);
    text::lemma_has_sub(h, "\r\n\r\n"@);
    text::lemma_has_sub(h, "\n\n"@);
}

/// A drag hands its text, its tiddlers and its links out in UTF-16 and its HTML in
/// UTF-8, each under its own format; a list of links goes before a single one.
pub proof fn law_formats_carry(f: Formats, d: OutgoingDragData, cf: u16)
    requires
        f.html != CF_UNICODETEXT,
        f.tiddler != CF_UNICODETEXT,
        f.url != CF_UNICODETEXT,
        f.moz_url != CF_UNICODETEXT,
        f.html != f.tiddler,
        f.html != f.url,
        f.html != f.moz_url,
        f.tiddler != f.url,
        f.tiddler != f.moz_url,
    ensures
        d.text_plain is Some ==> format_content(13, f, d) == Some((d.text_plain->0@, true)),
        d.text_html is Some ==> format_content(f.html, f, d) == Some((d.text_html->0@, false)),
        d.text_vnd_tiddler is Some ==> format_content(f.tiddler, f, d) == Some(
            (d.text_vnd_tiddler->0@, true),
        ),
        d.text_uri_list is Some ==> format_content(f.url, f, d) == Some(
            (d.text_uri_list->0@, true),
        ) && format_content(f.moz_url, f, d) == Some((d.text_uri_list->0@, true)),
        d.text_uri_list is None && d.url is Some ==> format_content(f.url, f, d) == Some(
            (d.url->0@, true),
        ) && format_content(f.moz_url, f, d) == Some((d.url->0@, true)),
        cf != 13 && cf != f.html && cf != f.tiddler && cf != f.url && cf != f.moz_url
            ==> format_content(cf, f, d) is None,
{
}

/// HTML is handed out in UTF-8 with a zero behind it: what stands before the zero
/// reads as the text.
pub proof fn law_narrow_text_is_read(s: Seq<char>)
    ensures
        handed_out(s, false).last() == 0,
        vstd::utf8::valid_utf8(handed_out(s, false).drop_last()),
        vstd::utf8::decode_utf8(handed_out(s, false).drop_last()) == s,
{
    let b = vstd::utf8::encode_utf8(s);
    vstd::utf8::encode_utf8_valid_utf8(s);
    vstd::utf8::encode_utf8_decode_utf8(s);
    assert(b.push(0).drop_last() =~= b);
}

/// A drag that enters a window is one of files exactly where it brings a path that
/// is accepted, and else one of content where it offers any; the page's own drag
/// of tiddlers is neither.
pub proof fn law_files_go_before_content(
    internal: u8,
    paths: Seq<Seq<char>>,
    has_content: bool,
    i: int,
)
    ensures
        0 <= i < paths.len() && sanitize::path_accepted(paths[i]) && internal != DRAG_STATE_TIDDLER
            ==> entering(internal, true, paths, has_content) is Files,
        (forall|k: int| 0 <= k < paths.len() ==> !sanitize::path_accepted(#[trigger] paths[k]))
            ==> entering(internal, true, paths, has_content) == (if has_content && internal
            != DRAG_STATE_TIDDLER {
            DragEvent::Content
        } else {
            DragEvent::Nothing
        }),
        entering(internal, false, paths, has_content) is Nothing,
        entering(DRAG_STATE_TIDDLER, true, paths, has_content) is Nothing,
{
    let f = |p: Seq<char>| sanitize::path_accepted(p);
    if 0 <= i < paths.len() && sanitize::path_accepted(paths[i]) {
        assert(f(paths[i]));
        paths.lemma_filter_contains(f, i);
    }
    if forall|k: int| 0 <= k < paths.len() ==> !sanitize::path_accepted(#[trigger] paths[k]) {
        lemma_none_accepted(paths);
    }
}

proof fn lemma_none_accepted(paths: Seq<Seq<char>>)
    requires
        forall|k: int| 0 <= k < paths.len() ==> !sanitize::path_accepted(#[trigger] paths[k]),
    ensures
        sanitize::accepted_paths(paths).len() == 0,
    decreases paths.len(),
{
    reveal(Seq::filter);
    if paths.len() > 0 {
        let front = paths.drop_last();
        assert forall|k: int| 0 <= k < front.len() implies !sanitize::path_accepted(
            #[trigger] front[k],
        ) by {
            assert(front[k] == paths[k]);
        }
        lemma_none_accepted(front);
        assert(paths[paths.len() - 1] == paths.last());
    }
}

/// The page's names of drags and the drags themselves are told apart in the same
/// way: a drag that starts with tiddlers is a tiddler drag, one with a link a link
/// drag, any other one of selected text.
pub proof fn law_drags_are_told_apart(name: Seq<char>, has_url: bool, has_moz_url: bool)
    ensures
        state_of(drag_kind(true, has_url, has_moz_url)) == state_named("tiddler"@),
        has_url || has_moz_url ==> state_of(drag_kind(false, has_url, has_moz_url)) == state_named(
            "link"@,
        ),
        state_of(drag_kind(false, false, false)) == state_named("text"@),
        state_named("tiddler"@) != state_named("link"@),
        state_named("tiddler"@) != state_named("text"@),
        state_named("link"@) != state_named("text"@),
        name != "tiddler"@ && name != "link"@ && name != "text"@ ==> state_named(name)
            == DRAG_STATE_NONE,
        state_named("tiddler"@) != DRAG_STATE_NONE && state_named("link"@) != DRAG_STATE_NONE
            && state_named("text"@) != DRAG_STATE_NONE,
{
    reveal_strlit("tiddler");
    reveal_strlit("link");
    reveal_strlit("text");
    assert("tiddler"@.len() == 7 && "link"@.len() == 4 && "text"@.len() == 4);
    assert("link"@[0] == 'l' && "text"@[0] == 't');
}

} // verus!
