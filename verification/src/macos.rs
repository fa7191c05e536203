//! Drag and drop on macOS: what a pasteboard holds, what a drop over a window
//! comes to, and what a drag of ours hands out.

use vstd::prelude::*;
use crate::encoding;
use crate::linux;
use crate::linux::OutgoingDragData;
use crate::outside;
use crate::sanitize;
use crate::table;
use crate::table::StringMap;
use crate::text;

verus! {

// ---------------------------------------------------------------------------
// What a pasteboard holds
// ---------------------------------------------------------------------------

/// What a drag pasteboard answers under each of the types that are asked for.
pub struct Pasteboard {
    /// `org.mozilla.custom-clipdata`
    pub moz_custom: Option<Vec<u8>>,
    /// `org.chromium.web-custom-data`
    pub chrome_custom: Option<Vec<u8>>,
    /// `text/vnd.tiddler`
    pub tiddler: Option<String>,
    /// `public.json`
    pub json: Option<String>,
    /// `public.utf8-plain-text`
    pub plain: Option<String>,
    /// `public.html`
    pub html: Option<String>,
    /// `public.url`
    pub url: Option<String>,
}

/// The content of a drop: its types in the order in which they were found, and
/// what there is under each.
pub struct DragContentData {
    pub types: Vec<String>,
    pub data: StringMap,
    pub is_text_selection_drag: Option<bool>,
    pub is_same_window: Option<bool>,
}

/// Types in the order in which they were found, and what there is under each.
pub ghost struct ContentView {
    pub types: Seq<Seq<char>>,
    pub data: Seq<(Seq<char>, Seq<char>)>,
}

/// What the content holds.
pub open spec fn content_view(types: Seq<String>, data: StringMap) -> ContentView {
    ContentView { types: text::views(types), data: data@ }
}

/// No content.
pub open spec fn no_content() -> ContentView {
    ContentView { types: Seq::empty(), data: Seq::empty() }
}

/// The content with one type more.
pub open spec fn with(c: ContentView, mime: Seq<char>, value: Seq<char>) -> ContentView {
    ContentView { types: c.types.push(mime), data: table::put(c.data, mime, value) }
}

/// The content holds the type.
pub open spec fn holds(c: ContentView, mime: Seq<char>) -> bool {
    table::has_key(c.data, mime)
}

/// The content with the entries, as far as their types are new.
pub open spec fn with_new(c: ContentView, entries: Seq<(Seq<char>, Seq<char>)>) -> ContentView
    decreases entries.len(),
{
    if entries.len() == 0 {
        c
    } else {
        let before = with_new(c, entries.drop_last());
        let e = entries.last();
        if holds(before, e.0) {
            before
        } else {
            with(before, e.0, e.1)
        }
    }
}

/// The content with the entries of a browser's frame, made harmless: its tiddlers
/// first.
pub open spec fn with_frame(c: ContentView, entries: Seq<(Seq<char>, Seq<char>)>) -> ContentView {
    let first = match table::lookup(entries, "text/vnd.tiddler"@) {
        Some(t) => with(c, "text/vnd.tiddler"@, t),
        None => c,
    };
    with_new(first, sanitize::entries_cleaned(entries))
}

/// The content with what a type holds, where it holds something and is new.
pub open spec fn with_some(c: ContentView, mime: Seq<char>, value: Option<String>) -> ContentView {
    match value {
        Some(v) => if v@.len() > 0 && !holds(c, mime) {
            with(c, mime, v@)
        } else {
            c
        },
        None => c,
    }
}

/// The content with what the browsers' own types hold.
pub open spec fn after_frames(p: Pasteboard) -> ContentView {
    let a = match p.moz_custom {
        Some(b) => with_frame(no_content(), encoding::moz_entries(b@)),
        None => no_content(),
    };
    match p.chrome_custom {
        Some(b) => if holds(a, "text/vnd.tiddler"@) {
            a
        } else {
            with_frame(a, encoding::chromium_entries_64(b@))
        },
        None => a,
    }
}

/// The content with plain text: tiddlers where it looks like them, else text,
/// and a link too where it is a web address.
pub open spec fn with_plain(c: ContentView, s: Seq<char>) -> ContentView {
    if linux::looks_like_tiddlers(s) {
        with(c, "text/vnd.tiddler"@, s)
    } else {
        let d = with(c, "text/plain"@, s);
        if ("http://"@.is_prefix_of(s) || "https://"@.is_prefix_of(s))
            && !sanitize::is_dangerous(s) {
            with(with(d, "text/uri-list"@, sanitize::list_cleaned(s)), "URL"@, s)
        } else {
            d
        }
    }
}

/// The content with the pasteboard's plain text, which does not count beside
/// tiddlers.
pub open spec fn after_plain(c: ContentView, p: Pasteboard) -> ContentView {
    match p.plain {
        Some(s) => if !holds(c, "text/vnd.tiddler"@) && s@.len() > 0 && !holds(c, "text/plain"@) {
            with_plain(c, s@)
        } else {
            c
        },
        None => c,
    }
}

/// The content with the pasteboard's HTML, made harmless.
pub open spec fn after_html(c: ContentView, p: Pasteboard) -> ContentView {
    match p.html {
        Some(s) => if s@.len() > 0 && !holds(c, "text/html"@) {
            with(c, "text/html"@, sanitize::html_sanitized(s@))
        } else {
            c
        },
        None => c,
    }
}

/// The content with the pasteboard's link, unless it is a dangerous one.
pub open spec fn after_url(c: ContentView, p: Pasteboard) -> ContentView {
    match p.url {
        Some(s) => if s@.len() > 0 && !holds(c, "URL"@) && !sanitize::is_dangerous(s@) {
            with(c, "URL"@, s@)
        } else {
            c
        },
        None => c,
    }
}

/// What the pasteboard holds: the browsers' own types, tiddlers, JSON, text,
/// HTML and a link, each as far as it adds something.
pub open spec fn pasteboard_content(p: Pasteboard) -> ContentView {
    let a = with_some(after_frames(p), "text/vnd.tiddler"@, p.tiddler);
    let b = with_some(a, "application/json"@, p.json);
    after_url(after_html(after_plain(b, p), p), p)
}

/// Content that is being gathered.
struct Gathered {
    types: Vec<String>,
    data: StringMap,
}

impl Gathered {
    spec fn all(self) -> ContentView {
        content_view(self.types@, self.data)
    }

    fn new() -> (r: Gathered)
        ensures
            r.all() == no_content(),
    {
        let r = Gathered { types: Vec::new(), data: StringMap::new() };
        assert(text::views(r.types@) =~= Seq::empty());
        r
    }

    fn insert(&mut self, mime: &str, value: String)
        ensures
            final(self).all() == with(old(self).all(), mime@, value@),
    {
        let ghost before = text::views(self.types@);
        let name: String = mime.to_owned();
        self.types.push(name);
        assert(text::views(self.types@) =~= before.push(mime@));
        self.data.insert(mime.to_owned(), value);
    }

    fn holds_type(&self, mime: &str) -> (r: bool)
        ensures
            r == holds(self.all(), mime@),
    {
        self.data.contains_key(mime)
    }

    fn insert_new(&mut self, entries: &StringMap)
        ensures
            final(self).all() == with_new(old(self).all(), entries@),
    {
        let ghost start = self.all();
        let mut i: usize = 0;
        while i < entries.entries.len()
            invariant
                i <= entries.entries.len(),
                self.all() == with_new(start, entries@.take(i as int)),
            decreases entries.entries.len() - i,
        {
            let mime: &str = entries.entries[i].0.as_str();
            assert(entries@.take(i + 1).drop_last() =~= entries@.take(i as int));
            assert(entries@.take(i + 1).last() == (mime@, entries.entries@[i as int].1@));
            if !self.holds_type(mime) {
                self.insert(mime, entries.entries[i].1.clone());
            }
            i = i + 1;
        }
        assert(entries@.take(i as int) =~= entries@);
    }

    fn insert_frame(&mut self, entries: &StringMap)
        ensures
            final(self).all() == with_frame(old(self).all(), entries@),
    {
        if let Some(t) = entries.get("text/vnd.tiddler") {
            self.insert("text/vnd.tiddler", t.clone());
        }
        let harmless: StringMap = sanitize::clean_entries(entries);
        self.insert_new(&harmless);
    }

    fn insert_some(&mut self, mime: &str, value: &Option<String>)
        ensures
            final(self).all() == with_some(old(self).all(), mime@, *value),
    {
        if let Some(v) = value {
            if !v.as_str().is_empty() && !self.holds_type(mime) {
                self.insert(mime, v.clone());
            }
        }
    }

    fn insert_plain(&mut self, s: &str)
        ensures
            final(self).all() == with_plain(old(self).all(), s@),
    {
        if linux::seems_tiddlers(s) {
            self.insert("text/vnd.tiddler", s.to_owned());
        } else {
            self.insert("text/plain", s.to_owned());
            if (text::starts_with(s, "http://") || text::starts_with(s, "https://"))
                && !sanitize::is_dangerous_url(s) {
                self.insert("text/uri-list", sanitize::clean_uri_list(s));
                self.insert("URL", s.to_owned());
            }
        }
    }
}

proof fn lemma_empty_frame(c: ContentView, entries: Seq<(Seq<char>, Seq<char>)>)
    requires
        entries.len() == 0,
    ensures
        with_frame(c, entries) == c,
{
}

/// The content of a pasteboard, where there is any.
pub fn extract_pasteboard_content(p: &Pasteboard) -> (r: Option<DragContentData>)
    ensures
        match r {
            Some(c) => {
                &&& content_view(c.types@, c.data) == pasteboard_content(*p)
                &&& c.types@.len() > 0
                &&& c.is_text_selection_drag is None
                &&& c.is_same_window is None
            },
            None => pasteboard_content(*p).types.len() == 0,
        },
{
    let mut g: Gathered = Gathered::new();
    if let Some(b) = &p.moz_custom {
        match encoding::parse_moz_custom_clipdata(b.as_slice()) {
            Some(m) => {
                g.insert_frame(&m);
            },
            None => {
                proof {
                    lemma_empty_frame(g.all(), encoding::moz_entries(b@));
                }
            },
        }
    }
    if let Some(b) = &p.chrome_custom {
        if !g.holds_type("text/vnd.tiddler") {
            match encoding::parse_chromium_custom_data_64(b.as_slice()) {
                Some(m) => {
                    g.insert_frame(&m);
                },
                None => {
                    proof {
                        lemma_empty_frame(g.all(), encoding::chromium_entries_64(b@));
                    }
                },
            }
        }
    }
    assert(g.all() == after_frames(*p));
    g.insert_some("text/vnd.tiddler", &p.tiddler);
    g.insert_some("application/json", &p.json);
    if let Some(s) = &p.plain {
        if !g.holds_type("text/vnd.tiddler") && !s.as_str().is_empty() && !g.holds_type(
            "text/plain",
        ) {
            g.insert_plain(s.as_str());
        }
    }
    if let Some(s) = &p.html {
        if !s.as_str().is_empty() && !g.holds_type("text/html") {
            g.insert("text/html", sanitize::sanitize_html(s.as_str()));
        }
    }
    if let Some(s) = &p.url {
        if !s.as_str().is_empty() && !g.holds_type("URL") && !sanitize::is_dangerous_url(
            s.as_str(),
        ) {
            g.insert("URL", s.clone());
        }
    }
    assert(g.all() == pasteboard_content(*p));
    if g.types.len() == 0 {
        None
    } else {
        Some(
            DragContentData {
                types: g.types,
                data: g.data,
                is_text_selection_drag: None,
                is_same_window: None,
            },
        )
    }
}

/// The paths on a pasteboard that are accepted: that of the file URL, or else the
/// file names that are not empty.
pub open spec fn pasteboard_files(file_url: Option<Seq<char>>, names: Seq<Seq<char>>) -> Seq<Seq<char>> {
    let from_url = match file_url {
        Some(u) => if "file://"@.is_prefix_of(u) {
            outside::url_decoded(u.skip(7))
        } else {
            None
        },
        None => None,
    };
    sanitize::accepted_paths(
        match from_url {
            Some(p) => seq![p],
            None => names.filter(|n: Seq<char>| n.len() > 0),
        },
    )
}

/// The paths on a pasteboard that are accepted. `file_url` is its `public.file-url`, `names` its
/// list of file names.
pub fn extract_file_paths(file_url: Option<&str>, names: &Vec<String>) -> (r: Vec<String>)
    ensures
        text::views(r@) == pasteboard_files(linux::label_view(file_url), text::views(names@)),
{
    proof {
        reveal_strlit("file://");
    }
    if let Some(u) = file_url {
        if let Some(path) = text::strip_prefix(u, "file://") {
            if let Some(p) = outside::url_decode(path) {
                let mut out: Vec<String> = Vec::new();
                out.push(p);
                assert(text::views(out@) =~= seq![p@]);
                return sanitize::sanitize_file_paths(out);
            }
        }
    }
    let ghost all = text::views(names@);
    let ghost f = |n: Seq<char>| n.len() > 0;
    let mut out: Vec<String> = Vec::new();
    let mut i: usize = 0;
    proof {
        reveal(Seq::filter);
        assert(all.take(0).filter(f) =~= Seq::empty());
    }
    while i < names.len()
        invariant
            i <= names.len(),
            all == text::views(names@),
            f == (|n: Seq<char>| n.len() > 0),
            text::views(out@) == all.take(i as int).filter(f),
        decreases names.len() - i,
    {
        let ghost before = out@;
        assert(all[i as int] == names@[i as int]@);
        assert(all.take(i + 1).drop_last() =~= all.take(i as int));
        proof {
            reveal(Seq::filter);
        }
        if !names[i].as_str().is_empty() {
            out.push(names[i].clone());
            assert(text::views(out@) =~= text::views(before).push(names@[i as int]@));
        }
        i = i + 1;
    }
    assert(all.take(i as int) =~= all);
    sanitize::sanitize_file_paths(out)
}

// ---------------------------------------------------------------------------
// A drag of ours
// ---------------------------------------------------------------------------

/// A drag of ours that is on its way.
pub struct OutgoingDragState {
    pub data: OutgoingDragData,
    pub source_window_label: String,
    pub data_was_requested: bool,
}

/// What is told of a drag to the window that it is over.
pub struct DragInfo {
    pub is_our_drag: bool,
    pub is_same_window: bool,
    pub source_window: Option<String>,
    pub has_tiddler_data: bool,
    pub is_text_selection_drag: bool,
}

/// Whether the drag comes from the window.
pub fn is_same_window_drag(out: &Option<OutgoingDragState>, label: &str) -> (r: bool)
    ensures
        r == (*out is Some && out->0.source_window_label@ == label@),
{
    match out {
        Some(st) => text::same(st.source_window_label.as_str(), label),
        None => false,
    }
}

/// What is told of a drag to the window that it enters, moves over or leaves.
pub fn drag_info(out: &Option<OutgoingDragState>, label: &str) -> (r: DragInfo)
    ensures
        r.is_our_drag == (*out is Some),
        r.is_same_window == (*out is Some && out->0.source_window_label@ == label@),
        text::opt_view(r.source_window) == match *out {
            Some(st) => Some(st.source_window_label@),
            None => None,
        },
        r.has_tiddler_data == (*out is Some && out->0.data.text_vnd_tiddler is Some),
        r.is_text_selection_drag == (*out is Some && out->0.data.is_text_selection_drag),
{
    match out {
        Some(st) => DragInfo {
            is_our_drag: true,
            is_same_window: text::same(st.source_window_label.as_str(), label),
            source_window: Some(st.source_window_label.clone()),
            has_tiddler_data: st.data.text_vnd_tiddler.is_some(),
            is_text_selection_drag: st.data.is_text_selection_drag,
        },
        None => DragInfo {
            is_our_drag: false,
            is_same_window: false,
            source_window: None,
            has_tiddler_data: false,
            is_text_selection_drag: false,
        },
    }
}

/// The content of a drag of ours for its own window: tiddlers and text, where
/// it carries any.
pub open spec fn own_content(d: OutgoingDragData) -> ContentView {
    let a = match d.text_vnd_tiddler {
        Some(t) => with(no_content(), "text/vnd.tiddler"@, t@),
        None => no_content(),
    };
    match d.text_plain {
        Some(t) => with(a, "text/plain"@, t@),
        None => a,
    }
}

fn own_window_content(d: &OutgoingDragData) -> (r: Option<DragContentData>)
    ensures
        match r {
            Some(c) => {
                &&& content_view(c.types@, c.data) == own_content(*d)
                &&& c.types@.len() > 0
                &&& c.is_text_selection_drag == if d.is_text_selection_drag {
                    Some(true)
                } else {
                    None
                }
                &&& c.is_same_window == Some(true)
            },
            None => own_content(*d).types.len() == 0,
        },
{
    let mut g: Gathered = Gathered::new();
    if let Some(t) = &d.text_vnd_tiddler {
        g.insert("text/vnd.tiddler", t.clone());
    }
    if let Some(t) = &d.text_plain {
        g.insert("text/plain", t.clone());
    }
    if g.types.len() == 0 {
        return None;
    }
    Some(
        DragContentData {
            types: g.types,
            data: g.data,
            is_text_selection_drag: if d.is_text_selection_drag {
                Some(true)
            } else {
                None
            },
            is_same_window: Some(true),
        },
    )
}

/// What a drop over a window comes to.
pub enum DropResult {
    /// The web view's own handler decides.
    AskWebView,
    /// The web view has dealt with it.
    WebViewDidIt,
    /// The window is told where the drop was, and what of its own drag fell
    /// there.
    OwnDrop(Option<DragContentData>),
    /// The window is told that a drop begins, where, and what it holds.
    ContentDrop(DragContentData),
}

/// A drop over a window. `label` is the window, `browser_handled` what the web
/// view's handler said to a drop of the window's own drag; `files` and
/// `content` are what the pasteboard holds.
///
/// A drop of the window's own drag goes to the web view first, and to the
/// window if the web view leaves it. Of any other drop, one of files is the web
/// view's, and one with content is the window's.
pub fn perform_drag_operation(
    label: Option<&str>,
    out: &Option<OutgoingDragState>,
    browser_handled: bool,
    files: &Vec<String>,
    content: Option<DragContentData>,
) -> (r: DropResult)
    ensures
        ({
            let own = label is Some && *out is Some && out->0.source_window_label@ == label->0@;
            &&& r is WebViewDidIt <==> own && browser_handled
            &&& r is OwnDrop <==> own && !browser_handled
            &&& r is ContentDrop <==> label is Some && !own && files.len() == 0 && content is Some
        }),
        match r {
            DropResult::OwnDrop(Some(c)) => {
                &&& content_view(c.types@, c.data) == own_content(out->0.data)
                &&& c.types@.len() > 0
                &&& c.is_same_window == Some(true)
                &&& c.is_text_selection_drag == if out->0.data.is_text_selection_drag {
                    Some(true)
                } else {
                    None
                }
            },
            DropResult::OwnDrop(None) => own_content(out->0.data).types.len() == 0,
            DropResult::ContentDrop(c) => {
                &&& content_view(c.types@, c.data) == content_view(
                    content->0.types@,
                    content->0.data,
                )
                &&& c.is_same_window == content->0.is_same_window
                &&& c.is_text_selection_drag == if *out is Some
                    && out->0.data.is_text_selection_drag {
                    Some(true)
                } else {
                    content->0.is_text_selection_drag
                }
            },
            _ => true,
        },
{
    let label: &str = match label {
        Some(l) => l,
        None => {
            return DropResult::AskWebView;
        },
    };
    if let Some(st) = out {
        if text::same(st.source_window_label.as_str(), label) {
            if browser_handled {
                return DropResult::WebViewDidIt;
            }
            return DropResult::OwnDrop(own_window_content(&st.data));
        }
    }
    if files.len() > 0 {
        return DropResult::AskWebView;
    }
    match content {
        Some(c) => {
            let selection: bool = match out {
                Some(st) => st.data.is_text_selection_drag,
                None => false,
            };
            DropResult::ContentDrop(
                DragContentData {
                    types: c.types,
                    data: c.data,
                    is_text_selection_drag: if selection {
                        Some(true)
                    } else {
                        c.is_text_selection_drag
                    },
                    is_same_window: c.is_same_window,
                },
            )
        },
        None => DropResult::AskWebView,
    }
}

/// What the drop's handler answers: yes where the drop was dealt with, else
/// what the web view's handler says, and yes where there is none.
pub fn drop_answer(result: &DropResult, original: Option<bool>) -> (r: bool)
    ensures
        r == (*result !is AskWebView || original is None || original == Some(true)),
{
    match result {
        DropResult::AskWebView => match original {
            Some(b) => b,
            None => true,
        },
        _ => true,
    }
}

/// The operations that a window offers a drag: what the web view says, or else
/// to copy.
pub fn dragging_operation(original: Option<usize>) -> (r: usize)
    ensures
        r == match original {
            Some(n) => n,
            None => 5,
        },
{
    match original {
        Some(n) => n,
        None => 5,
    }
}

/// The operations that a drag allows: all three for ours, what the web view
/// says for others, and all three where it says nothing.
pub fn source_operation_mask(out: &Option<OutgoingDragState>, original: Option<usize>) -> (r: usize)
    ensures
        r == if *out is Some || original is None {
            19
        } else {
            original->0
        },
{
    if out.is_some() {
        return 19;
    }
    match original {
        Some(n) => n,
        None => 19,
    }
}

/// A dragging session ends over a window. Where the drag was the window's own
/// it is over, and the window is told whether anything came of it.
pub fn dragging_session_ended(
    out: &mut Option<OutgoingDragState>,
    label: Option<&str>,
    operation: usize,
) -> (r: Option<bool>)
    ensures
        ({
            let own = label is Some && *old(out) is Some && (*old(out))->0.source_window_label@
                == label->0@;
            &&& r == if own {
                Some(operation != 0 || (*old(out))->0.data_was_requested)
            } else {
                None
            }
            &&& *final(out) == if own {
                None
            } else {
                *old(out)
            }
        }),
{
    let requested: Option<bool> = match (&*out, label) {
        (Some(st), Some(l)) => {
            if text::same(st.source_window_label.as_str(), l) {
                Some(operation != 0 || st.data_was_requested)
            } else {
                None
            }
        },
        _ => None,
    };
    if requested.is_some() {
        *out = None;
    }
    requested
}

/// A drag of ours begins.
pub fn prepare_native_drag(out: &mut Option<OutgoingDragState>, label: &str, data: OutgoingDragData)
    ensures
        *final(out) is Some,
        (*final(out))->0.source_window_label@ == label@,
        (*final(out))->0.data == data,
        !(*final(out))->0.data_was_requested,
{
    *out = Some(
        OutgoingDragState {
            data,
            source_window_label: label.to_owned(),
            data_was_requested: false,
        },
    );
}

/// A drag of ours is over.
pub fn cleanup_native_drag(out: &mut Option<OutgoingDragState>)
    ensures
        *final(out) is None,
{
    *out = None;
}

/// What a drag writes to its pasteboard item: text, HTML, tiddlers and a link,
/// each under the system's type for it, as far as it carries them.
pub open spec fn written_items(d: OutgoingDragData) -> Seq<(Seq<char>, Seq<char>)> {
    (match d.text_plain {
        Some(s) => seq![("public.utf8-plain-text"@, s@)],
        None => Seq::empty(),
    }) + (match d.text_html {
        Some(s) => seq![("public.html"@, s@)],
        None => Seq::empty(),
    }) + (match d.text_vnd_tiddler {
        Some(s) => seq![("text/vnd.tiddler"@, s@)],
        None => Seq::empty(),
    }) + (match d.url {
        Some(s) => seq![("public.url"@, s@)],
        None => Seq::empty(),
    })
}

/// What the pairs of strings hold.
pub open spec fn pair_views(v: Seq<(String, String)>) -> Seq<(Seq<char>, Seq<char>)> {
    v.map_values(|e: (String, String)| (e.0@, e.1@))
}

fn push_item(items: &mut Vec<(String, String)>, name: &str, value: &Option<String>)
    ensures
        pair_views(final(items)@) == pair_views(old(items)@) + (match *value {
            Some(s) => seq![(name@, s@)],
            None => Seq::empty(),
        }),
{
    let ghost before = pair_views(items@);
    if let Some(s) = value {
        let item: (String, String) = (name.to_owned(), s.clone());
        items.push(item);
        assert(pair_views(items@) =~= before + seq![(name@, s@)]);
    } else {
        assert(pair_views(items@) =~= before + Seq::empty());
    }
}

/// What a drag writes to its pasteboard item, in order.
pub fn pasteboard_items(d: &OutgoingDragData) -> (r: Vec<(String, String)>)
    ensures
        pair_views(r@) == written_items(*d),
{
    let mut out: Vec<(String, String)> = Vec::new();
    assert(pair_views(out@) =~= Seq::empty());
    push_item(&mut out, "public.utf8-plain-text", &d.text_plain);
    push_item(&mut out, "public.html", &d.text_html);
    push_item(&mut out, "text/vnd.tiddler", &d.text_vnd_tiddler);
    push_item(&mut out, "public.url", &d.url);
    assert(pair_views(out@) =~= written_items(*d));
    out
}

/// How far the system came with beginning a dragging session.
pub enum SessionStart {
    NoWindow(String),
    NoContentView,
    NoWebView,
    NoItem,
    ItemRefused,
    NoEvent,
    NoSession,
    Started,
}

/// What is wrong with a start that failed.
pub open spec fn start_fault(s: SessionStart) -> Option<Seq<char>> {
    match s {
        SessionStart::NoWindow(e) => Some("Failed to get NSWindow: "@ + e@),
        SessionStart::NoContentView => Some("Failed to get content view"@),
        SessionStart::NoWebView => Some("Failed to find WKWebView"@),
        SessionStart::NoItem => Some("Failed to allocate NSDraggingItem"@),
        SessionStart::ItemRefused => Some("Failed to init NSDraggingItem"@),
        SessionStart::NoEvent => Some("No current event available for drag"@),
        SessionStart::NoSession => Some("beginDraggingSession returned nil"@),
        SessionStart::Started => None,
    }
}

/// The system began a dragging session, or did not: then there is no drag.
pub fn session_started(out: &mut Option<OutgoingDragState>, start: SessionStart) -> (r: Result<
    (),
    String,
>)
    ensures
        match r {
            Ok(_) => start is Started,
            Err(e) => start_fault(start) == Some(e@),
        },
        *final(out) == if start is Started {
            *old(out)
        } else {
            None
        },
{
    let fault: String = match start {
        SessionStart::Started => {
            return Ok(());
        },
        SessionStart::NoWindow(e) => text::concat("Failed to get NSWindow: ", e.as_str()),
        SessionStart::NoContentView => "Failed to get content view".to_owned(),
        SessionStart::NoWebView => "Failed to find WKWebView".to_owned(),
        SessionStart::NoItem => "Failed to allocate NSDraggingItem".to_owned(),
        SessionStart::ItemRefused => "Failed to init NSDraggingItem".to_owned(),
        SessionStart::NoEvent => "No current event available for drag".to_owned(),
        SessionStart::NoSession => "beginDraggingSession returned nil".to_owned(),
    };
    *out = None;
    Err(fault)
}

// ---------------------------------------------------------------------------
// Drags between windows
// ---------------------------------------------------------------------------

/// What a window is given of a drag that comes from another window.
pub struct PendingDragDataResponse {
    pub text_plain: Option<String>,
    pub text_html: Option<String>,
    pub text_vnd_tiddler: Option<String>,
    pub text_uri_list: Option<String>,
    pub source_window: String,
    pub is_text_selection_drag: bool,
}

/// What the window is given of a drag that comes from another window of ours;
/// nothing of its own.
pub fn get_pending_drag_data(out: &Option<OutgoingDragState>, target_window: &str) -> (r: Option<
    PendingDragDataResponse,
>)
    ensures
        r is Some <==> *out is Some && out->0.source_window_label@ != target_window@,
        match r {
            Some(p) => {
                &&& text::opt_view(p.text_plain) == text::opt_view(out->0.data.text_plain)
                &&& text::opt_view(p.text_html) == text::opt_view(out->0.data.text_html)
                &&& text::opt_view(p.text_vnd_tiddler) == text::opt_view(
                    out->0.data.text_vnd_tiddler,
                )
                &&& text::opt_view(p.text_uri_list) == text::opt_view(out->0.data.text_uri_list)
                &&& p.source_window@ == out->0.source_window_label@
                &&& p.is_text_selection_drag == out->0.data.is_text_selection_drag
            },
            None => true,
        },
{
    match out {
        Some(st) => {
            if text::same(st.source_window_label.as_str(), target_window) {
                return None;
            }
            Some(
                PendingDragDataResponse {
                    text_plain: text::clone_opt(&st.data.text_plain),
                    text_html: text::clone_opt(&st.data.text_html),
                    text_vnd_tiddler: text::clone_opt(&st.data.text_vnd_tiddler),
                    text_uri_list: text::clone_opt(&st.data.text_uri_list),
                    source_window: st.source_window_label.clone(),
                    is_text_selection_drag: st.data.is_text_selection_drag,
                },
            )
        },
        None => None,
    }
}

/// A text that can be handed on with a terminating NUL: one without NUL.
pub open spec fn as_c_text(o: Option<String>) -> Option<Seq<char>> {
    match o {
        Some(s) => if s@.contains('\0') {
            None
        } else {
            Some(s@)
        },
        None => None,
    }
}

fn c_text(o: &Option<String>) -> (r: Option<String>)
    ensures
        text::opt_view(r) == as_c_text(*o),
{
    match o {
        Some(s) => {
            if text::contains_char(s.as_str(), '\0') {
                None
            } else {
                Some(s.clone())
            }
        },
        None => None,
    }
}

/// The text of a drag of ours.
pub fn tiddlydesktop_get_internal_drag_text_plain(out: &Option<OutgoingDragState>) -> (r: Option<
    String,
>)
    ensures
        text::opt_view(r) == match *out {
            Some(st) => as_c_text(st.data.text_plain),
            None => None,
        },
{
    match out {
        Some(st) => c_text(&st.data.text_plain),
        None => None,
    }
}

/// The tiddlers of a drag of ours.
pub fn tiddlydesktop_get_internal_drag_tiddler_json(out: &Option<OutgoingDragState>) -> (r: Option<
    String,
>)
    ensures
        text::opt_view(r) == match *out {
            Some(st) => as_c_text(st.data.text_vnd_tiddler),
            None => None,
        },
{
    match out {
        Some(st) => c_text(&st.data.text_vnd_tiddler),
        None => None,
    }
}

/// One where there is a drag of ours, else zero.
pub fn tiddlydesktop_has_internal_drag(out: &Option<OutgoingDragState>) -> (r: i32)
    ensures
        r == if *out is Some {
            1int
        } else {
            0
        },
{
    if out.is_some() {
        1
    } else {
        0
    }
}

/// The types for which a window listens.
pub open spec fn drag_types() -> Seq<Seq<char>> {
    seq![
        "org.mozilla.custom-clipdata"@,
        "org.chromium.web-custom-data"@,
        "text/vnd.tiddler"@,
        "public.json"@,
        "public.utf8-plain-text"@,
        "public.html"@,
        "public.url"@,
        "public.file-url"@,
        "public.text"@,
        "NSStringPboardType"@,
        "NSHTMLPboardType"@,
        "NSURLPboardType"@,
        "NSFilenamesPboardType"@,
    ]
}

fn push_type(out: &mut Vec<String>, name: &str)
    ensures
        text::views(final(out)@) == text::views(old(out)@).push(name@),
{
    let ghost before = out@;
    out.push(name.to_owned());
    assert(text::views(out@) =~= text::views(before).push(name@));
}

/// The types for which a window listens, the browsers' own first, since tiddlers
/// may stand in them.
pub fn create_drag_types_array() -> (r: Vec<String>)
    ensures
        text::views(r@) == drag_types(),
{
    let mut out: Vec<String> = Vec::new();
    assert(text::views(out@) =~= Seq::empty());
    push_type(&mut out, "org.mozilla.custom-clipdata");
    push_type(&mut out, "org.chromium.web-custom-data");
    push_type(&mut out, "text/vnd.tiddler");
    push_type(&mut out, "public.json");
    push_type(&mut out, "public.utf8-plain-text");
    push_type(&mut out, "public.html");
    push_type(&mut out, "public.url");
    push_type(&mut out, "public.file-url");
    push_type(&mut out, "public.text");
    push_type(&mut out, "NSStringPboardType");
    push_type(&mut out, "NSHTMLPboardType");
    push_type(&mut out, "NSURLPboardType");
    push_type(&mut out, "NSFilenamesPboardType");
    assert(text::views(out@) =~= drag_types());
    out
}

/// The class of a web view, by its name.
pub fn is_web_view_class(name: &str) -> (r: bool)
    ensures
        r == (text::has_sub(name@, "WKWebView"@) || text::has_sub(name@, "WryWebView"@)),
{
    text::contains(name, "WKWebView") || text::contains(name, "WryWebView")
}

/// Every type that is listed has something under it.
pub open spec fn listed(c: ContentView) -> bool {
    forall|i: int| 0 <= i < c.types.len() ==> holds(c, #[trigger] c.types[i])
}

proof fn lemma_with_listed(c: ContentView, mime: Seq<char>, value: Seq<char>)
    requires
        listed(c),
    ensures
        listed(with(c, mime, value)),
{
    let d = with(c, mime, value);
    assert forall|i: int| 0 <= i < d.types.len() implies holds(d, #[trigger] d.types[i]) by {
        table::law_put_then_lookup(c.data, mime, value, d.types[i]);
        if i < c.types.len() {
            assert(d.types[i] == c.types[i]);
            assert(holds(c, c.types[i]));
        }
    }
}

proof fn lemma_with_new_listed(c: ContentView, entries: Seq<(Seq<char>, Seq<char>)>)
    requires
        listed(c),
    ensures
        listed(with_new(c, entries)),
    decreases entries.len(),
{
    if entries.len() > 0 {
        lemma_with_new_listed(c, entries.drop_last());
        lemma_with_listed(
            with_new(c, entries.drop_last()),
            entries.last().0,
            entries.last().1,
        );
    }
}

proof fn lemma_with_frame_listed(c: ContentView, entries: Seq<(Seq<char>, Seq<char>)>)
    requires
        listed(c),
    ensures
        listed(with_frame(c, entries)),
{
    match table::lookup(entries, "text/vnd.tiddler"@) {
        Some(t) => {
            lemma_with_listed(c, "text/vnd.tiddler"@, t);
            lemma_with_new_listed(
                with(c, "text/vnd.tiddler"@, t),
                sanitize::entries_cleaned(entries),
            );
        },
        None => {
            lemma_with_new_listed(c, sanitize::entries_cleaned(entries));
        },
    }
}

/// Every type that the content of a pasteboard lists has something under it.
pub proof fn law_listed_types_have_data(p: Pasteboard)
    ensures
        listed(pasteboard_content(p)),
{
    let c0 = no_content();
    let c1 = match p.moz_custom {
        Some(b) => with_frame(c0, encoding::moz_entries(b@)),
        None => c0,
    };
    if let Some(b) = p.moz_custom {
        lemma_with_frame_listed(c0, encoding::moz_entries(b@));
    }
    if let Some(b) = p.chrome_custom {
        lemma_with_frame_listed(c1, encoding::chromium_entries_64(b@));
    }
    let c2 = after_frames(p);
    if let Some(v) = p.tiddler {
        lemma_with_listed(c2, "text/vnd.tiddler"@, v@);
    }
    let c3 = with_some(c2, "text/vnd.tiddler"@, p.tiddler);
    if let Some(v) = p.json {
        lemma_with_listed(c3, "application/json"@, v@);
    }
    let c4 = with_some(c3, "application/json"@, p.json);
    if let Some(v) = p.plain {
        lemma_with_listed(c4, "text/vnd.tiddler"@, v@);
        lemma_with_listed(c4, "text/plain"@, v@);
        let d = with(c4, "text/plain"@, v@);
        let list = sanitize::list_cleaned(v@);
        lemma_with_listed(d, "text/uri-list"@, list);
        lemma_with_listed(with(d, "text/uri-list"@, list), "URL"@, v@);
    }
    let c5 = after_plain(c4, p);
    if let Some(v) = p.html {
        lemma_with_listed(c5, "text/html"@, sanitize::html_sanitized(v@));
    }
    let c6 = after_html(c5, p);
    if let Some(v) = p.url {
        lemma_with_listed(c6, "URL"@, v@);
    }
}

proof fn lemma_with_harmless(c: ContentView, mime: Seq<char>, value: Seq<char>)
    requires
        sanitize::content_is_harmless(c.data),
        sanitize::entry_is_harmless(mime, value),
    ensures
        sanitize::content_is_harmless(with(c, mime, value).data),
{
    sanitize::lemma_put_harmless(c.data, mime, value);
}

proof fn lemma_with_new_harmless(c: ContentView, entries: Seq<(Seq<char>, Seq<char>)>)
    requires
        sanitize::content_is_harmless(c.data),
        sanitize::content_is_harmless(entries),
    ensures
        sanitize::content_is_harmless(with_new(c, entries).data),
    decreases entries.len(),
{
    if entries.len() > 0 {
        let before = entries.drop_last();
        assert forall|i: int| 0 <= i < before.len() implies sanitize::entry_is_harmless(
            (#[trigger] before[i]).0,
            before[i].1,
        ) by {
            assert(before[i] == entries[i]);
        }
        lemma_with_new_harmless(c, before);
        lemma_with_harmless(with_new(c, before), entries.last().0, entries.last().1);
    }
}

proof fn lemma_frame_harmless(c: ContentView, entries: Seq<(Seq<char>, Seq<char>)>)
    requires
        sanitize::content_is_harmless(c.data),
    ensures
        sanitize::content_is_harmless(with_frame(c, entries).data),
{
    lemma_types_apart();
    sanitize::law_cleaned_entries_are_harmless(entries);
    let cleaned = sanitize::entries_cleaned(entries);
    match table::lookup(entries, "text/vnd.tiddler"@) {
        Some(t) => {
            lemma_with_harmless(c, "text/vnd.tiddler"@, t);
            lemma_with_new_harmless(with(c, "text/vnd.tiddler"@, t), cleaned);
        },
        None => {
            lemma_with_new_harmless(c, cleaned);
        },
    }
}

proof fn lemma_types_apart()
    ensures
        "text/plain"@.len() == 10,
        "text/html"@.len() == 9,
        "text/uri-list"@.len() == 13,
        "URL"@.len() == 3,
        "text/vnd.tiddler"@.len() == 16,
        "application/json"@.len() == 16,
{
    reveal_strlit("text/vnd.tiddler");
    reveal_strlit("text/uri-list");
    reveal_strlit("URL");
    reveal_strlit("text/html");
    reveal_strlit("text/plain");
    reveal_strlit("application/json");
}

proof fn lemma_plain_harmless(c: ContentView, s: Seq<char>)
    requires
        sanitize::content_is_harmless(c.data),
    ensures
        sanitize::content_is_harmless(with_plain(c, s).data),
{
    lemma_types_apart();
    lemma_with_harmless(c, "text/vnd.tiddler"@, s);
    lemma_with_harmless(c, "text/plain"@, s);
    let d = with(c, "text/plain"@, s);
    let list = sanitize::list_cleaned(s);
    sanitize::law_cleaned_entry_is_harmless("text/uri-list"@, s);
    lemma_with_harmless(d, "text/uri-list"@, list);
    if !sanitize::is_dangerous(s) {
        lemma_with_harmless(with(d, "text/uri-list"@, list), "URL"@, s);
    }
}

/// What a pasteboard holds is harmless under each type.
pub proof fn law_pasteboard_content_is_harmless(p: Pasteboard)
    ensures
        sanitize::content_is_harmless(pasteboard_content(p).data),
{
    lemma_types_apart();
    let c0 = no_content();
    if let Some(b) = p.moz_custom {
        lemma_frame_harmless(c0, encoding::moz_entries(b@));
    }
    let c1 = match p.moz_custom {
        Some(b) => with_frame(c0, encoding::moz_entries(b@)),
        None => c0,
    };
    if let Some(b) = p.chrome_custom {
        lemma_frame_harmless(c1, encoding::chromium_entries_64(b@));
    }
    let c2 = after_frames(p);
    if let Some(v) = p.tiddler {
        lemma_with_harmless(c2, "text/vnd.tiddler"@, v@);
    }
    let c3 = with_some(c2, "text/vnd.tiddler"@, p.tiddler);
    if let Some(v) = p.json {
        lemma_with_harmless(c3, "application/json"@, v@);
    }
    let c4 = with_some(c3, "application/json"@, p.json);
    if let Some(v) = p.plain {
        lemma_plain_harmless(c4, v@);
    }
    let c5 = after_plain(c4, p);
    if let Some(v) = p.html {
        lemma_with_harmless(c5, "text/html"@, sanitize::html_sanitized(v@));
    }
    let c6 = after_html(c5, p);
    if let Some(v) = p.url {
        if !sanitize::is_dangerous(v@) {
            lemma_with_harmless(c6, "URL"@, v@);
        }
    }
}

/// Beside tiddlers the pasteboard's plain text does not count, so that nothing
/// is brought in twice.
pub proof fn law_plain_text_yields_to_tiddlers(p: Pasteboard, c: ContentView)
    requires
        holds(c, "text/vnd.tiddler"@),
    ensures
        after_plain(c, p) == c,
{
}

// ---------------------------------------------------------------------------
// Paths of dropped files
// ---------------------------------------------------------------------------

/// The paths in the JSON list that the bytes spell; nothing where there are no
/// bytes, or they spell no such list.
pub open spec fn listed_paths(json: Option<Seq<u8>>) -> Option<Seq<Seq<char>>> {
    match json {
        Some(b) => if vstd::utf8::valid_utf8(b) {
            outside::json_strings_parsed(vstd::utf8::decode_utf8(b))
        } else {
            None
        },
        None => None,
    }
}

/// Keeps the paths of dropped files for the page that are accepted, where they
/// could be read.
pub fn keep_drop_paths(kept: &mut Option<Vec<String>>, paths: Option<Vec<String>>)
    ensures
        match paths {
            Some(p) => *final(kept) is Some && text::views((*final(kept))->0@)
                == sanitize::accepted_paths(text::views(p@)),
            None => *final(kept) == *old(kept),
        },
{
    if let Some(p) = paths {
        *kept = Some(sanitize::sanitize_file_paths(p));
    }
}

/// Keeps the paths of dropped files for the page that are accepted. They come as
/// the bytes of a JSON list, which is passed over where it cannot be read.
pub fn tiddlydesktop_store_drop_paths(kept: &mut Option<Vec<String>>, paths_json: Option<&[u8]>)
    ensures
        match listed_paths(
            match paths_json {
                Some(b) => Some(b@),
                None => None,
            },
        ) {
            Some(p) => *final(kept) is Some && text::views((*final(kept))->0@)
                == sanitize::accepted_paths(p),
            None => *final(kept) == *old(kept),
        },
{
    let paths: Option<Vec<String>> = match paths_json {
        Some(b) => match outside::utf8_strict(b) {
            Some(json) => outside::json_strings(json.as_str()),
            None => None,
        },
        None => None,
    };
    keep_drop_paths(kept, paths);
}

/// Forgets the paths of dropped files.
pub fn tiddlydesktop_clear_drop_paths(kept: &mut Option<Vec<String>>)
    ensures
        *final(kept) is None,
{
    *kept = None;
}

// ---------------------------------------------------------------------------
// What is dropped is what arrives
// ---------------------------------------------------------------------------

/// What the content holds under the type.
pub open spec fn under(c: ContentView, mime: Seq<char>) -> Option<Seq<char>> {
    table::lookup(c.data, mime)
}

proof fn lemma_under(c: ContentView, mime: Seq<char>, value: Seq<char>, key: Seq<char>)
    ensures
        under(with(c, mime, value), key) == if key == mime {
            Some(value)
        } else {
            under(c, key)
        },
        holds(c, key) <==> under(c, key) is Some,
{
    table::law_put_then_lookup(c.data, mime, value, key);
}

/// What a type of the pasteboard holds, where it holds something.
pub open spec fn filled(value: Option<String>) -> Option<Seq<char>> {
    match value {
        Some(v) => if v@.len() > 0 {
            Some(v@)
        } else {
            None
        },
        None => None,
    }
}

proof fn lemma_some_under(c: ContentView, mime: Seq<char>, value: Option<String>, key: Seq<char>)
    ensures
        under(with_some(c, mime, value), key) == if key == mime && under(c, mime) is None
            && filled(value) is Some {
            filled(value)
        } else {
            under(c, key)
        },
{
    if let Some(v) = value {
        lemma_under(c, mime, v@, key);
        lemma_under(c, mime, v@, mime);
    }
}

proof fn lemma_names_apart()
    ensures
        "text/plain"@.len() == 10,
        "text/html"@.len() == 9,
        "text/uri-list"@.len() == 13,
        "URL"@.len() == 3,
        "text/vnd.tiddler"@.len() == 16,
        "application/json"@.len() == 16,
        "application/json"@ != "text/vnd.tiddler"@,
{
    reveal_strlit("text/vnd.tiddler");
    reveal_strlit("text/uri-list");
    reveal_strlit("URL");
    reveal_strlit("text/html");
    reveal_strlit("text/plain");
    reveal_strlit("application/json");
    assert("application/json"@[0] == 'a' && "text/vnd.tiddler"@[0] == 't');
}

proof fn lemma_plain_under(c: ContentView, p: Pasteboard, key: Seq<char>)
    requires
        under(c, "text/plain"@) is None,
    ensures
        under(after_plain(c, p), key) == if filled(p.plain) is None || under(
            c,
            "text/vnd.tiddler"@,
        ) is Some {
            under(c, key)
        } else {
            let s = filled(p.plain)->0;
            let link = ("http://"@.is_prefix_of(s) || "https://"@.is_prefix_of(s))
                && !sanitize::is_dangerous(s) && !linux::looks_like_tiddlers(s);
            if key == "text/vnd.tiddler"@ && linux::looks_like_tiddlers(s) {
                Some(s)
            } else if key == "text/plain"@ && !linux::looks_like_tiddlers(s) {
                Some(s)
            } else if key == "text/uri-list"@ && link {
                Some(sanitize::list_cleaned(s))
            } else if key == "URL"@ && link {
                Some(s)
            } else {
                under(c, key)
            }
        },
{
    lemma_names_apart();
    lemma_under(c, "text/plain"@, key, "text/plain"@);
    lemma_under(c, "text/plain"@, key, "text/vnd.tiddler"@);
    if let Some(s) = filled(p.plain) {
        let list = sanitize::list_cleaned(s);
        let d = with(c, "text/plain"@, s);
        lemma_under(c, "text/vnd.tiddler"@, s, key);
        lemma_under(c, "text/plain"@, s, key);
        lemma_under(d, "text/uri-list"@, list, key);
        lemma_under(with(d, "text/uri-list"@, list), "URL"@, s, key);
    }
}

/// Where a pasteboard holds no browser's frame, each of its types arrives: the
/// tiddlers, the JSON and the link as they are, the HTML made harmless, and the
/// text as tiddlers where it looks like them and else as text, unless there are
/// tiddlers already.
pub proof fn law_pasteboard_types_arrive(p: Pasteboard)
    requires
        p.moz_custom is None,
        p.chrome_custom is None,
    ensures
        ({
            let c = pasteboard_content(p);
            let text = filled(p.plain);
            &&& filled(p.tiddler) is Some ==> under(c, "text/vnd.tiddler"@) == filled(p.tiddler)
                && under(c, "text/plain"@) is None
            &&& under(c, "application/json"@) == filled(p.json)
            &&& under(c, "text/html"@) == match filled(p.html) {
                Some(h) => Some(sanitize::html_sanitized(h)),
                None => None,
            }
            &&& filled(p.tiddler) is None && text is Some && linux::looks_like_tiddlers(text->0)
                ==> under(c, "text/vnd.tiddler"@) == text && under(c, "text/plain"@) is None
            &&& filled(p.tiddler) is None && text is Some && !linux::looks_like_tiddlers(text->0)
                ==> under(c, "text/plain"@) == text && under(c, "text/vnd.tiddler"@) is None
            &&& (text is None || filled(p.tiddler) is Some) && filled(p.url) is Some
                && !sanitize::is_dangerous(filled(p.url)->0) ==> under(c, "URL"@) == filled(p.url)
            &&& filled(p.tiddler) is None && text is Some && !linux::looks_like_tiddlers(text->0)
                && ("http://"@.is_prefix_of(text->0) || "https://"@.is_prefix_of(text->0))
                && !sanitize::is_dangerous(text->0) ==> under(c, "URL"@) == text && under(
                c,
                "text/uri-list"@,
            ) == Some(sanitize::list_cleaned(text->0))
        }),
{
    lemma_names_apart();
    let none = no_content();
    let json = "application/json"@;
    let tiddler = "text/vnd.tiddler"@;
    let plain = "text/plain"@;
    let html = "text/html"@;
    let url = "URL"@;
    let list = "text/uri-list"@;
    assert forall|key: Seq<char>| #[trigger] under(none, key) is None by {
        table::lemma_position(none.data, key, 0);
    }
    assert(after_frames(p) == none);
    let a = with_some(none, tiddler, p.tiddler);
    let b = with_some(a, json, p.json);
    lemma_some_under(none, tiddler, p.tiddler, tiddler);
    lemma_some_under(none, tiddler, p.tiddler, json);
    lemma_some_under(none, tiddler, p.tiddler, plain);
    lemma_some_under(none, tiddler, p.tiddler, html);
    lemma_some_under(none, tiddler, p.tiddler, url);
    lemma_some_under(a, json, p.json, tiddler);
    lemma_some_under(a, json, p.json, json);
    lemma_some_under(a, json, p.json, plain);
    lemma_some_under(a, json, p.json, html);
    lemma_some_under(a, json, p.json, url);
    let c = after_plain(b, p);
    lemma_plain_under(b, p, tiddler);
    lemma_plain_under(b, p, json);
    lemma_plain_under(b, p, plain);
    lemma_plain_under(b, p, html);
    lemma_plain_under(b, p, url);
    lemma_plain_under(b, p, list);
    let d = after_html(c, p);
    lemma_html_under(c, p);
    lemma_url_under(d, p);
}

proof fn lemma_html_under(c: ContentView, p: Pasteboard)
    requires
        under(c, "text/html"@) is None,
    ensures
        forall|key: Seq<char>| #[trigger]
            under(after_html(c, p), key) == if key == "text/html"@ && filled(p.html) is Some {
                Some(sanitize::html_sanitized(filled(p.html)->0))
            } else {
                under(c, key)
            },
{
    assert forall|key: Seq<char>| #[trigger]
        under(after_html(c, p), key) == if key == "text/html"@ && filled(p.html) is Some {
            Some(sanitize::html_sanitized(filled(p.html)->0))
        } else {
            under(c, key)
        } by {
        lemma_under(c, "text/html"@, key, "text/html"@);
        if let Some(s) = filled(p.html) {
            lemma_under(c, "text/html"@, sanitize::html_sanitized(s), key);
        }
    }
}

proof fn lemma_url_under(c: ContentView, p: Pasteboard)
    ensures
        forall|key: Seq<char>| #[trigger]
            under(after_url(c, p), key) == if key == "URL"@ && under(c, key) is None && filled(p.url)
                is Some && !sanitize::is_dangerous(filled(p.url)->0) {
                filled(p.url)
            } else {
                under(c, key)
            },
{
    assert forall|key: Seq<char>| #[trigger]
        under(after_url(c, p), key) == if key == "URL"@ && under(c, key) is None && filled(p.url)
            is Some && !sanitize::is_dangerous(filled(p.url)->0) {
            filled(p.url)
        } else {
            under(c, key)
        } by {
        lemma_under(c, "URL"@, key, "URL"@);
        if let Some(s) = filled(p.url) {
            lemma_under(c, "URL"@, s, key);
        }
    }
}

proof fn lemma_new_under(c: ContentView, entries: Seq<(Seq<char>, Seq<char>)>, key: Seq<char>)
    ensures
        under(with_new(c, entries), key) == if under(c, key) is Some {
            under(c, key)
        } else {
            table::lookup(entries, key)
        },
    decreases entries.len(),
{
    table::lemma_position(entries, key, 0);
    if entries.len() > 0 {
        let front = entries.drop_last();
        let e = entries.last();
        lemma_new_under(c, front, key);
        lemma_new_under(c, front, e.0);
        let before = with_new(c, front);
        lemma_under(before, e.0, e.1, key);
        lemma_under(before, e.0, e.1, e.0);
        table::lemma_position(front, key, 0);
        match table::position(front, key, 0) {
            Some(i) => {
                assert(entries[i] == front[i]);
                assert forall|j: int| 0 <= j < i implies entries[j].0 != key by {
                    assert(entries[j] == front[j]);
                }
                table::lemma_position_is(entries, key, 0, i);
            },
            None => {
                let n = entries.len() as int - 1;
                assert forall|j: int| 0 <= j < n implies entries[j].0 != key by {
                    assert(entries[j] == front[j]);
                }
                if e.0 == key {
                    table::lemma_position_is(entries, key, 0, n);
                }
            },
        }
    }
}

/// Of a browser's frame the tiddlers arrive as they are, and each other entry
/// under its type, made harmless by itself.
pub proof fn law_frame_entries_arrive(entries: Seq<(Seq<char>, Seq<char>)>, key: Seq<char>)
    requires
        table::distinct_keys(entries),
    ensures
        under(with_frame(no_content(), entries), key) == match table::lookup(entries, key) {
            Some(v) => if key == "text/vnd.tiddler"@ {
                Some(v)
            } else {
                sanitize::entry_cleaned(key, v)
            },
            None => None,
        },
{
    let t = "text/vnd.tiddler"@;
    let none = no_content();
    table::lemma_position(none.data, key, 0);
    let first = match table::lookup(entries, t) {
        Some(v) => {
            lemma_under(none, t, v, key);
            with(none, t, v)
        },
        None => none,
    };
    sanitize::law_each_entry_is_cleaned(entries, key);
    lemma_new_under(first, sanitize::entries_cleaned(entries), key);
}

/// The file of a file URL is the one whose escaped path follows `file://`; where
/// there is no such URL every file name counts that is not empty and is accepted,
/// in their order.
pub proof fn law_pasteboard_files_are_kept(
    escaped: Seq<char>,
    path: Seq<char>,
    before: Seq<Seq<char>>,
    name: Seq<char>,
    behind: Seq<Seq<char>>,
)
    ensures
        outside::url_decoded(escaped) == Some(path) && sanitize::path_accepted(path)
            ==> pasteboard_files(Some("file://"@ + escaped), before) == seq![path],
        pasteboard_files(None, before + seq![name] + behind) == pasteboard_files(None, before) + (
        if name.len() > 0 && sanitize::path_accepted(name) {
            seq![name]
        } else {
            Seq::empty()
        }) + pasteboard_files(None, behind),
{
    reveal_strlit("file://");
    let f = |n: Seq<char>| n.len() > 0;
    let g = |p: Seq<char>| sanitize::path_accepted(p);
    let one = seq![name];
    let uri = "file://"@ + escaped;
    assert(uri.skip(7) =~= escaped);
    assert(uri.subrange(0, 7) =~= "file://"@);
    let none = Seq::<Seq<char>>::empty();
    if outside::url_decoded(escaped) == Some(path) && sanitize::path_accepted(path) {
        sanitize::law_accepted_paths_are_kept(none, path, none);
        reveal(Seq::filter);
        assert(none + seq![path] + none =~= seq![path]);
        assert(sanitize::accepted_paths(none) =~= none);
        assert(pasteboard_files(Some(uri), before) =~= seq![path]);
    }
    Seq::filter_distributes_over_add(before + one, behind, f);
    Seq::filter_distributes_over_add(before, one, f);
    lemma_filter_one(name, f);
    lemma_filter_one(name, g);
    let x = before.filter(f);
    let y = one.filter(f);
    let z = behind.filter(f);
    Seq::filter_distributes_over_add(x + y, z, g);
    Seq::filter_distributes_over_add(x, y, g);
}

proof fn lemma_filter_one(name: Seq<char>, f: spec_fn(Seq<char>) -> bool)
    ensures
        seq![name].filter(f) == (if f(name) {
            seq![name]
        } else {
            Seq::empty()
        }),
        Seq::<Seq<char>>::empty().filter(f) == Seq::<Seq<char>>::empty(),
{
    reveal(Seq::filter);
    let one = seq![name];
    assert(one.drop_last() =~= Seq::empty());
    assert(one.last() == name);
    assert(one.drop_last().filter(f) =~= Seq::empty());
    assert(one.filter(f) =~= if f(name) {
        one
    } else {
        Seq::empty()
    });
}

/// A drag that a window drops on itself brings the tiddlers and the text that it
/// carries; one that goes out writes its text, HTML, tiddlers and link, each under
/// the system's type for it.
pub proof fn law_drag_brings_what_it_carries(d: OutgoingDragData)
    ensures
        under(own_content(d), "text/vnd.tiddler"@) == text::opt_view(d.text_vnd_tiddler),
        under(own_content(d), "text/plain"@) == text::opt_view(d.text_plain),
        table::lookup(written_items(d), "public.utf8-plain-text"@) == text::opt_view(d.text_plain),
        table::lookup(written_items(d), "public.html"@) == text::opt_view(d.text_html),
        table::lookup(written_items(d), "text/vnd.tiddler"@) == text::opt_view(d.text_vnd_tiddler),
        table::lookup(written_items(d), "public.url"@) == text::opt_view(d.url),
{
    lemma_names_apart();
    let none = no_content();
    table::lemma_position(none.data, "text/plain"@, 0);
    table::lemma_position(none.data, "text/vnd.tiddler"@, 0);
    let a = match d.text_vnd_tiddler {
        Some(t) => {
            lemma_under(none, "text/vnd.tiddler"@, t@, "text/vnd.tiddler"@);
            lemma_under(none, "text/vnd.tiddler"@, t@, "text/plain"@);
            with(none, "text/vnd.tiddler"@, t@)
        },
        None => none,
    };
    if let Some(t) = d.text_plain {
        lemma_under(a, "text/plain"@, t@, "text/vnd.tiddler"@);
        lemma_under(a, "text/plain"@, t@, "text/plain"@);
    }
    reveal_strlit("public.utf8-plain-text");
    reveal_strlit("public.html");
    reveal_strlit("public.url");
    assert("public.utf8-plain-text"@.len() == 22 && "public.html"@.len() == 11 && "public.url"@.len()
        == 10);
    lemma_item("public.utf8-plain-text"@, "public.html"@, "text/vnd.tiddler"@, "public.url"@, d);
}

proof fn lemma_item(
    a: Seq<char>,
    b: Seq<char>,
    c: Seq<char>,
    e: Seq<char>,
    d: OutgoingDragData,
)
    requires
        a != b && a != c && a != e && b != c && b != e && c != e,
    ensures
        ({
            let m = (match d.text_plain {
                Some(s) => seq![(a, s@)],
                None => Seq::empty(),
            }) + (match d.text_html {
                Some(s) => seq![(b, s@)],
                None => Seq::empty(),
            }) + (match d.text_vnd_tiddler {
                Some(s) => seq![(c, s@)],
                None => Seq::empty(),
            }) + (match d.url {
                Some(s) => seq![(e, s@)],
                None => Seq::empty(),
            });
            &&& table::lookup(m, a) == text::opt_view(d.text_plain)
            &&& table::lookup(m, b) == text::opt_view(d.text_html)
            &&& table::lookup(m, c) == text::opt_view(d.text_vnd_tiddler)
            &&& table::lookup(m, e) == text::opt_view(d.url)
        }),
{
    reveal_with_fuel(table::position, 5);
}

} // verus!
