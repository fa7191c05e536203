//! Drag and drop on Linux: what a drop brings, what a drag hands out, and which
//! window a drag is over.

use std::collections::HashMap;
use vstd::prelude::*;
use vstd::std_specs::hash::*;
use crate::encoding;
use crate::outside;
use crate::sanitize;
use crate::table;
use crate::table::{StringMap, Table};
use crate::text;

verus! {

// ---------------------------------------------------------------------------
// What a drop brings
// ---------------------------------------------------------------------------

/// What a drop turned out to hold.
pub enum Received {
    /// Paths of files.
    Files(Vec<String>),
    /// Content under its MIME types; empty where there is none.
    Content(StringMap),
}

/// What a drop turned out to hold.
pub ghost enum ReceivedView {
    Files(Seq<Seq<char>>),
    Content(Seq<(Seq<char>, Seq<char>)>),
}

impl View for Received {
    type V = ReceivedView;

    open spec fn view(&self) -> ReceivedView {
        match self {
            Received::Files(p) => ReceivedView::Files(text::views(p@)),
            Received::Content(m) => ReceivedView::Content(m@),
        }
    }
}

/// The tiddlers among the entries of a browser's frame.
pub open spec fn tiddlers_in(entries: Seq<(Seq<char>, Seq<char>)>) -> Option<Seq<char>>
    decreases entries.len(),
{
    if entries.len() == 0 {
        None
    } else if entries.last().0 == "text/vnd.tiddler"@ {
        Some(entries.last().1)
    } else {
        tiddlers_in(entries.drop_last())
    }
}

/// An entry of a browser's frame, made harmless. A list of links is written anew,
/// line by line.
pub open spec fn frame_entry_cleaned(mime: Seq<char>, content: Seq<char>) -> Option<Seq<char>> {
    if mime == "text/uri-list"@ {
        Some(sanitize::uri_list_sanitized(content))
    } else {
        sanitize::entry_cleaned(mime, content)
    }
}

/// The entries of a browser's frame that are no tiddlers, made harmless.
pub open spec fn others_in(entries: Seq<(Seq<char>, Seq<char>)>) -> Seq<(Seq<char>, Seq<char>)>
    decreases entries.len(),
{
    if entries.len() == 0 {
        Seq::empty()
    } else {
        let before = others_in(entries.drop_last());
        let e = entries.last();
        if e.0 == "text/vnd.tiddler"@ {
            before
        } else {
            match frame_entry_cleaned(e.0, e.1) {
                Some(v) => table::put(before, e.0, v),
                None => before,
            }
        }
    }
}

/// The entries of a browser's frame, where the data is one.
pub open spec fn browser_entries(data_type: Seq<char>, raw: Seq<u8>) -> Seq<(Seq<char>, Seq<char>)> {
    if data_type == "application/x-moz-custom-clipdata"@ {
        encoding::moz_entries(raw)
    } else if data_type == "chromium/x-web-custom-data"@ {
        encoding::chromium_entries_64(raw)
    } else {
        Seq::empty()
    }
}

/// The text that the data holds, or else what the toolkit made of it.
pub open spec fn received_text(raw: Seq<u8>, fallback: Option<Seq<char>>) -> Option<Seq<char>> {
    let decoded = encoding::decoded_text(raw);
    if decoded.len() > 0 && !decoded.contains('\u{FFFD}') {
        Some(decoded)
    } else {
        fallback
    }
}

/// The file that a line of a URI list names.
pub open spec fn file_of_line(line: Seq<char>) -> Option<Seq<char>> {
    let uri = text::trimmed(line);
    if line.len() == 0 || line[0] == '#' || !"file://"@.is_prefix_of(uri) {
        None
    } else {
        outside::url_decoded(uri.skip(7))
    }
}

/// The files that the lines of a URI list name.
pub open spec fn files_of_lines(lines: Seq<Seq<char>>) -> Seq<Seq<char>>
    decreases lines.len(),
{
    if lines.len() == 0 {
        Seq::empty()
    } else {
        let before = files_of_lines(lines.drop_last());
        match file_of_line(lines.last()) {
            Some(p) => before.push(p),
            None => before,
        }
    }
}

/// The text looks like a JSON array of tiddlers.
pub open spec fn looks_like_tiddlers(s: Seq<char>) -> bool {
    &&& "["@.is_prefix_of(text::trimmed_start(s))
    &&& text::has_sub(s, "\"title\""@)
    &&& text::has_sub(s, "\"text\""@) || text::has_sub(s, "\"fields\""@)
}

/// Tiddlers, under their own type and as plain text.
pub open spec fn tiddler_content(t: Seq<char>) -> Seq<(Seq<char>, Seq<char>)> {
    seq![("text/vnd.tiddler"@, t), ("text/plain"@, t)]
}

/// Text that is neither files nor tiddlers, added to what else was received: a
/// web address also as a link, HTML also as HTML.
pub open spec fn with_text(
    others: Seq<(Seq<char>, Seq<char>)>,
    data_type: Seq<char>,
    s: Seq<char>,
) -> Seq<(Seq<char>, Seq<char>)> {
    let more = if "http://"@.is_prefix_of(s) || "https://"@.is_prefix_of(s) {
        if sanitize::is_dangerous(s) {
            others
        } else {
            table::put(
                table::put(others, "text/uri-list"@, sanitize::list_cleaned(s)),
                "URL"@,
                s,
            )
        }
    } else if "<"@.is_prefix_of(text::trimmed_start(s)) || data_type == "text/html"@ {
        table::put(others, "text/html"@, sanitize::html_sanitized(s))
    } else {
        others
    };
    table::put(more, "text/plain"@, s)
}

/// What text that was received turns out to hold.
pub open spec fn classified(
    others: Seq<(Seq<char>, Seq<char>)>,
    data_type: Seq<char>,
    s: Seq<char>,
) -> ReceivedView {
    let files = sanitize::accepted_paths(files_of_lines(text::lines_of(s)));
    if ("file://"@.is_prefix_of(s) || data_type == "text/uri-list"@) && files.len() > 0 {
        ReceivedView::Files(files)
    } else if data_type == "text/vnd.tiddler"@ || looks_like_tiddlers(s) {
        ReceivedView::Content(tiddler_content(s))
    } else {
        ReceivedView::Content(with_text(others, data_type, s))
    }
}

/// What the data of a drop turns out to hold. Tiddlers in a browser's frame
/// come before everything else; then the data counts as text.
pub open spec fn received(
    data_type: Seq<char>,
    raw: Seq<u8>,
    fallback: Option<Seq<char>>,
) -> ReceivedView {
    let entries = browser_entries(data_type, raw);
    match tiddlers_in(entries) {
        Some(t) => ReceivedView::Content(tiddler_content(t)),
        None => {
            let others = others_in(entries);
            if raw.len() == 0 {
                ReceivedView::Content(others)
            } else {
                match received_text(raw, fallback) {
                    Some(s) => classified(others, data_type, s),
                    None => ReceivedView::Content(others),
                }
            }
        },
    }
}

fn clean_frame_entry(mime: &str, content: &str) -> (r: Option<String>)
    ensures
        text::opt_view(r) == frame_entry_cleaned(mime@, content@),
{
    if text::same(mime, "text/uri-list") {
        Some(sanitize::sanitize_uri_list(content))
    } else {
        sanitize::clean_entry(mime, content)
    }
}

/// The tiddlers and the other entries of a browser's frame.
pub fn split_entries(entries: &StringMap) -> (r: (Option<String>, StringMap))
    ensures
        text::opt_view(r.0) == tiddlers_in(entries@),
        r.1@ == others_in(entries@),
{
    let mut tiddlers: Option<String> = None;
    let mut others: StringMap = StringMap::new();
    let mut i: usize = 0;
    while i < entries.entries.len()
        invariant
            i <= entries.entries.len(),
            text::opt_view(tiddlers) == tiddlers_in(entries@.take(i as int)),
            others@ == others_in(entries@.take(i as int)),
        decreases entries.entries.len() - i,
    {
        let mime: &str = entries.entries[i].0.as_str();
        let content: &str = entries.entries[i].1.as_str();
        assert(entries@.take(i + 1).drop_last() =~= entries@.take(i as int));
        assert(entries@.take(i + 1).last() == (mime@, content@));
        if text::same(mime, "text/vnd.tiddler") {
            tiddlers = Some(content.to_owned());
        } else if let Some(v) = clean_frame_entry(mime, content) {
            others.insert(mime.to_owned(), v);
        }
        i = i + 1;
    }
    assert(entries@.take(i as int) =~= entries@);
    (tiddlers, others)
}

fn entries_of(data_type: &str, raw: &[u8]) -> (r: StringMap)
    ensures
        r@ == browser_entries(data_type@, raw@),
{
    let parsed: Option<StringMap> = if text::same(data_type, "application/x-moz-custom-clipdata") {
        parse_moz_custom_clipdata(raw)
    } else if text::same(data_type, "chromium/x-web-custom-data") {
        parse_chromium_custom_data(raw)
    } else {
        None
    };
    match parsed {
        Some(m) => m,
        None => {
            let m: StringMap = StringMap::new();
            assert(m@ =~= browser_entries(data_type@, raw@));
            m
        },
    }
}

/// The entries of Firefox's `application/x-moz-custom-clipdata`.
pub fn parse_moz_custom_clipdata(data: &[u8]) -> (r: Option<StringMap>)
    ensures
        match r {
            Some(m) => m@ == encoding::moz_entries(data@) && m@.len() > 0,
            None => encoding::moz_entries(data@).len() == 0,
        },
{
    encoding::parse_moz_custom_clipdata(data)
}

/// The entries of Chrome's `chromium/x-web-custom-data`, whose count takes
/// eight bytes here.
pub fn parse_chromium_custom_data(data: &[u8]) -> (r: Option<StringMap>)
    ensures
        match r {
            Some(m) => m@ == encoding::chromium_entries_64(data@) && m@.len() > 0,
            None => encoding::chromium_entries_64(data@).len() == 0,
        },
{
    encoding::parse_chromium_custom_data_64(data)
}

fn line_file(line: &str) -> (r: Option<String>)
    ensures
        text::opt_view(r) == file_of_line(line@),
{
    proof {
        reveal_strlit("file://");
    }
    if line.is_empty() || line.get_char(0) == '#' {
        return None;
    }
    match text::strip_prefix(text::trim(line), "file://") {
        Some(path) => outside::url_decode(path),
        None => None,
    }
}

/// The files that a URI list names, without those whose path is refused.
pub fn files_of_list(list: &str) -> (r: Vec<String>)
    ensures
        text::views(r@) == sanitize::accepted_paths(files_of_lines(text::lines_of(list@))),
{
    let lines: Vec<String> = text::lines(list);
    let ghost all = text::views(lines@);
    let mut out: Vec<String> = Vec::new();
    let mut i: usize = 0;
    assert(text::views(out@) =~= files_of_lines(all.take(0)));
    while i < lines.len()
        invariant
            i <= lines.len(),
            all == text::views(lines@),
            text::views(out@) == files_of_lines(all.take(i as int)),
        decreases lines.len() - i,
    {
        let ghost before = out@;
        assert(all.take(i + 1).drop_last() =~= all.take(i as int));
        assert(all.take(i + 1).last() == lines@[i as int]@);
        if let Some(p) = line_file(lines[i].as_str()) {
            out.push(p);
            assert(text::views(out@) =~= text::views(before).push(p@));
        }
        i = i + 1;
    }
    assert(all.take(i as int) =~= all);
    sanitize::sanitize_file_paths(out)
}

/// Whether the text looks like a JSON array of tiddlers.
pub fn seems_tiddlers(s: &str) -> (r: bool)
    ensures
        r == looks_like_tiddlers(s@),
{
    text::starts_with(text::trim_start(s), "[") && text::contains(s, "\"title\"") && (
    text::contains(s, "\"text\"") || text::contains(s, "\"fields\""))
}

fn tiddlers_as_content(t: String) -> (r: StringMap)
    ensures
        r@ == tiddler_content(t@),
{
    let mut m: StringMap = StringMap::new();
    m.insert("text/vnd.tiddler".to_owned(), t.clone());
    proof {
        reveal_strlit("text/vnd.tiddler");
        reveal_strlit("text/plain");
        assert("text/vnd.tiddler"@.len() != "text/plain"@.len());
        table::lemma_position(m@, "text/plain"@, 0);
    }
    m.insert("text/plain".to_owned(), t);
    assert(m@ =~= tiddler_content(t@));
    m
}

fn add_text(others: StringMap, data_type: &str, s: &str) -> (r: StringMap)
    ensures
        r@ == with_text(others@, data_type@, s@),
{
    let mut m: StringMap = others;
    if text::starts_with(s, "http://") || text::starts_with(s, "https://") {
        if !sanitize::is_dangerous_url(s) {
            m.insert("text/uri-list".to_owned(), sanitize::clean_uri_list(s));
            m.insert("URL".to_owned(), s.to_owned());
        }
    } else if text::starts_with(text::trim_start(s), "<") || text::same(data_type, "text/html") {
        m.insert("text/html".to_owned(), sanitize::sanitize_html(s));
    }
    m.insert("text/plain".to_owned(), s.to_owned());
    m
}

/// What text that was received turns out to hold.
pub fn classify_text(others: StringMap, data_type: &str, s: String) -> (r: Received)
    ensures
        r@ == classified(others@, data_type@, s@),
{
    if text::starts_with(s.as_str(), "file://") || text::same(data_type, "text/uri-list") {
        let files: Vec<String> = files_of_list(s.as_str());
        if files.len() > 0 {
            return Received::Files(files);
        }
    }
    if text::same(data_type, "text/vnd.tiddler") || seems_tiddlers(s.as_str()) {
        return Received::Content(tiddlers_as_content(s));
    }
    Received::Content(add_text(others, data_type, s.as_str()))
}

/// What the data of a drop turns out to hold. `fallback` is what the toolkit
/// makes of the data as text.
pub fn classify_drop(data_type: &str, raw: &[u8], fallback: Option<String>) -> (r: Received)
    ensures
        r@ == received(data_type@, raw@, text::opt_view(fallback)),
{
    let entries: StringMap = entries_of(data_type, raw);
    let (tiddlers, others) = split_entries(&entries);
    if let Some(t) = tiddlers {
        return Received::Content(tiddlers_as_content(t));
    }
    if raw.len() == 0 {
        return Received::Content(others);
    }
    let decoded: String = encoding::decode_string(raw);
    let s: Option<String> = if !decoded.as_str().is_empty() && !text::contains_char(
        decoded.as_str(),
        '\u{FFFD}',
    ) {
        Some(decoded)
    } else {
        fallback
    };
    match s {
        Some(s) => classify_text(others, data_type, s),
        None => Received::Content(others),
    }
}

// ---------------------------------------------------------------------------
// A window under a drag
// ---------------------------------------------------------------------------

/// How far a drag over a window has come.
pub struct DragState {
    pub label: String,
    pub drag_active: bool,
    /// The button was released, and the data has been asked for.
    pub drop_requested: bool,
    /// The data of the drop is being looked at.
    pub drop_in_progress: bool,
    pub last_position: Option<(i32, i32)>,
}

/// What a label holds, where there is one.
pub open spec fn label_view(o: Option<&str>) -> Option<Seq<char>> {
    match o {
        Some(s) => Some(s@),
        None => None,
    }
}

/// Whether the optional label is `label`.
fn is_label(o: &Option<String>, label: &str) -> (r: bool)
    ensures
        r == (text::opt_view(*o) == Some(label@)),
{
    match o {
        Some(s) => text::same(s.as_str(), label),
        None => false,
    }
}

impl DragState {
    /// A window that no drag has reached.
    pub fn new(label: &str) -> (r: DragState)
        ensures
            r.label@ == label@,
            !r.drag_active && !r.drop_requested && !r.drop_in_progress,
            r.last_position is None,
    {
        DragState {
            label: label.to_owned(),
            drag_active: false,
            drop_requested: false,
            drop_in_progress: false,
            last_position: None,
        }
    }
}

/// A drag is reported to the window: one that comes from elsewhere always, one
/// that comes from another window of ours only while no third window holds it,
/// and one of the window's own never.
pub open spec fn motion_is_reported(
    label: Seq<char>,
    source: Option<Seq<char>>,
    target: Option<Seq<char>>,
) -> bool {
    match source {
        None => true,
        Some(s) => s != label && (target is None || target == Some(label)),
    }
}

/// The window that holds the drag after it moved over `label`.
pub open spec fn target_after_motion(
    label: Seq<char>,
    source: Option<Seq<char>>,
    target: Option<Seq<char>>,
) -> Option<Seq<char>> {
    match source {
        Some(s) => if s != label && target is None {
            Some(label)
        } else {
            target
        },
        None => target,
    }
}

/// The window that holds the drag after it left `label`.
pub open spec fn target_after_leave(
    label: Seq<char>,
    source: Option<Seq<char>>,
    target: Option<Seq<char>>,
) -> Option<Seq<char>> {
    if source is Some && target == Some(label) {
        None
    } else {
        target
    }
}

/// A drag moves over the window. Says whether that is reported; the first
/// window that a drag of ours reaches takes hold of it.
pub fn drag_motion(
    st: &mut DragState,
    target: &mut Option<String>,
    source: Option<&str>,
    x: i32,
    y: i32,
) -> (r: bool)
    ensures
        r == motion_is_reported(old(st).label@, label_view(source), text::opt_view(*old(target))),
        text::opt_view(*final(target)) == target_after_motion(
            old(st).label@,
            label_view(source),
            text::opt_view(*old(target)),
        ),
        final(st).label@ == old(st).label@,
        final(st).drag_active == (r || old(st).drag_active),
        final(st).last_position == if r {
            Some((x, y))
        } else {
            old(st).last_position
        },
        final(st).drop_requested == old(st).drop_requested,
        final(st).drop_in_progress == old(st).drop_in_progress,
{
    let reported: bool = match source {
        None => true,
        Some(s) => {
            if text::same(s, st.label.as_str()) {
                false
            } else if target.is_none() {
                *target = Some(st.label.clone());
                true
            } else {
                is_label(&*target, st.label.as_str())
            }
        },
    };
    if reported {
        st.last_position = Some((x, y));
        st.drag_active = true;
    }
    reported
}

/// A drag leaves the window. Says whether that is reported; a window that holds
/// a drag of ours lets go of it.
pub fn drag_leave(st: &mut DragState, target: &mut Option<String>, source: Option<&str>) -> (r: bool)
    ensures
        r == old(st).drag_active,
        text::opt_view(*final(target)) == target_after_leave(
            old(st).label@,
            label_view(source),
            text::opt_view(*old(target)),
        ),
        final(st).drag_active == (old(st).drag_active && old(st).drop_in_progress),
        final(st).label@ == old(st).label@,
        final(st).last_position == old(st).last_position,
        final(st).drop_requested == old(st).drop_requested,
        final(st).drop_in_progress == old(st).drop_in_progress,
{
    if source.is_some() && is_label(&*target, st.label.as_str()) {
        *target = None;
    }
    let was_active: bool = st.drag_active;
    if !st.drop_in_progress {
        st.drag_active = false;
    }
    was_active
}

/// A window that holds a drag of ours keeps hold of it until the drag leaves
/// it, and meanwhile no other window hears of the drag.
pub proof fn law_one_window_holds_a_drag(
    holder: Seq<char>,
    other: Seq<char>,
    source: Seq<char>,
)
    requires
        other != holder,
    ensures
        target_after_motion(other, Some(source), Some(holder)) == Some(holder),
        target_after_leave(other, Some(source), Some(holder)) == Some(holder),
        !motion_is_reported(other, Some(source), Some(holder)),
        target_after_leave(holder, Some(source), Some(holder)) is None,
{
}

/// A drag that its window let go of is taken by the next window that it reaches
/// and that it does not come from.
pub proof fn law_drag_passes_on(holder: Seq<char>, next: Seq<char>, source: Seq<char>)
    requires
        next != source,
    ensures
        ({
            let free = target_after_leave(holder, Some(source), Some(holder));
            &&& target_after_motion(next, Some(source), free) == Some(next)
            &&& motion_is_reported(next, Some(source), free)
        }),
{
}

/// The rank of a target among those that a drop is asked for.
pub open spec fn target_name(rank: int) -> Seq<char> {
    if rank == 0 {
        "text/uri-list"@
    } else if rank == 1 {
        "text/html"@
    } else if rank == 2 {
        "text/plain"@
    } else if rank == 3 {
        "UTF8_STRING"@
    } else {
        "STRING"@
    }
}

/// The first index, not before `from`, at which the name stands.
pub open spec fn index_of_name(names: Seq<Seq<char>>, name: Seq<char>, from: int) -> Option<int>
    decreases names.len() - from,
{
    if from < 0 || from >= names.len() {
        None
    } else if names[from] == name {
        Some(from)
    } else {
        index_of_name(names, name, from + 1)
    }
}

/// The target that a drop is asked for: the best ranked of those on offer, or
/// else the first.
pub open spec fn chosen_target(targets: Seq<Seq<char>>, rank: int) -> Option<int>
    decreases 5 - rank,
{
    if rank >= 5 {
        if targets.len() > 0 {
            Some(0int)
        } else {
            None
        }
    } else {
        match index_of_name(targets, target_name(rank), 0) {
            Some(i) => Some(i),
            None => chosen_target(targets, rank + 1),
        }
    }
}

fn find_name(names: &Vec<String>, name: &str) -> (r: Option<usize>)
    ensures
        match r {
            Some(i) => i < names.len() && index_of_name(text::views(names@), name@, 0) == Some(
                i as int,
            ),
            None => index_of_name(text::views(names@), name@, 0) is None,
        },
{
    let ghost all = text::views(names@);
    let mut i: usize = 0;
    while i < names.len()
        invariant
            i <= names.len(),
            all == text::views(names@),
            index_of_name(all, name@, 0) == index_of_name(all, name@, i as int),
        decreases names.len() - i,
    {
        assert(all[i as int] == names@[i as int]@);
        if text::same(names[i].as_str(), name) {
            return Some(i);
        }
        i = i + 1;
    }
    None
}

fn choose_target(targets: &Vec<String>) -> (r: Option<usize>)
    ensures
        match r {
            Some(i) => chosen_target(text::views(targets@), 0) == Some(i as int) && i
                < targets.len(),
            None => chosen_target(text::views(targets@), 0) is None,
        },
{
    proof {
        reveal_with_fuel(chosen_target, 6);
    }
    if let Some(i) = find_name(targets, "text/uri-list") {
        return Some(i);
    }
    if let Some(i) = find_name(targets, "text/html") {
        return Some(i);
    }
    if let Some(i) = find_name(targets, "text/plain") {
        return Some(i);
    }
    if let Some(i) = find_name(targets, "UTF8_STRING") {
        return Some(i);
    }
    if let Some(i) = find_name(targets, "STRING") {
        return Some(i);
    }
    if targets.len() > 0 {
        Some(0)
    } else {
        None
    }
}

/// The button is released over the window. A drop from another application is
/// asked for, in the best ranked of the targets on offer; one of ours is left
/// to the web view, as is one that offers nothing.
pub fn drag_drop(st: &mut DragState, external: bool, x: i32, y: i32, targets: &Vec<String>) -> (r:
    Option<usize>)
    ensures
        match r {
            Some(i) => external && chosen_target(text::views(targets@), 0) == Some(i as int) && i
                < targets.len(),
            None => !external || chosen_target(text::views(targets@), 0) is None,
        },
        final(st).drop_requested == (external || old(st).drop_requested),
        final(st).last_position == if external {
            Some((x, y))
        } else {
            old(st).last_position
        },
        final(st).label@ == old(st).label@,
        final(st).drag_active == old(st).drag_active,
        final(st).drop_in_progress == old(st).drop_in_progress,
{
    if !external {
        return None;
    }
    st.drop_requested = true;
    st.last_position = Some((x, y));
    choose_target(targets)
}

/// Where the pointer is on the screen, and where the window begins there.
pub struct PointerPlace {
    pub pointer: (i32, i32),
    pub origin: (i32, i32),
}

/// Where a drop is: as reported, unless that is the origin, which the toolkit
/// reports when it does not know; then where the pointer is in the window, or
/// else where the drag was last.
pub open spec fn drop_place(
    x: i32,
    y: i32,
    pointer: Option<PointerPlace>,
    last: Option<(i32, i32)>,
) -> (i32, i32) {
    if x == 0 && y == 0 {
        match pointer {
            Some(p) => (
                p.pointer.0.wrapping_sub(p.origin.0),
                p.pointer.1.wrapping_sub(p.origin.1),
            ),
            None => match last {
                Some(l) => l,
                None => (x, y),
            },
        }
    } else {
        (x, y)
    }
}

/// What is to be done with data that arrived.
pub enum DropOutcome {
    /// The data was asked for to look at it only.
    Preview,
    /// The drag is one of ours: the web view deals with it.
    Native,
    /// The drop is over, at the place, with what it held.
    Done { x: i32, y: i32, received: Received },
}

/// Data of a drop arrives.
pub fn handle_drag_data_received(
    st: &mut DragState,
    source: Option<&str>,
    x: i32,
    y: i32,
    pointer: Option<PointerPlace>,
    data_type: &str,
    raw: &[u8],
    fallback: Option<String>,
) -> (r: DropOutcome)
    ensures
        r is Preview <==> !old(st).drop_requested,
        r is Native <==> old(st).drop_requested && source is Some,
        match r {
            DropOutcome::Preview => *final(st) == *old(st),
            DropOutcome::Native => {
                &&& final(st).label@ == old(st).label@
                &&& !final(st).drop_requested
                &&& !final(st).drop_in_progress
                &&& final(st).drag_active == old(st).drag_active
                &&& final(st).last_position == old(st).last_position
            },
            DropOutcome::Done { x: px, y: py, received: c } => {
                &&& (px, py) == drop_place(x, y, pointer, old(st).last_position)
                &&& c@ == received(data_type@, raw@, text::opt_view(fallback))
                &&& final(st).label@ == old(st).label@
                &&& !final(st).drop_requested
                &&& !final(st).drop_in_progress
                &&& !final(st).drag_active
                &&& final(st).last_position == Some((px, py))
            },
        },
{
    if !st.drop_requested {
        return DropOutcome::Preview;
    }
    st.drop_requested = false;
    st.drop_in_progress = false;
    if source.is_some() {
        return DropOutcome::Native;
    }
    let (px, py): (i32, i32) = if x == 0 && y == 0 {
        match pointer {
            Some(p) => (
                p.pointer.0.wrapping_sub(p.origin.0),
                p.pointer.1.wrapping_sub(p.origin.1),
            ),
            None => match st.last_position {
                Some(l) => l,
                None => (x, y),
            },
        }
    } else {
        (x, y)
    };
    st.last_position = Some((px, py));
    st.drag_active = false;
    let c: Received = classify_drop(data_type, raw, fallback);
    DropOutcome::Done { x: px, y: py, received: c }
}

/// Whether a drop brought anything, which is what the source is told.
pub fn drop_succeeded(c: &Received) -> (r: bool)
    ensures
        r == match c@ {
            ReceivedView::Files(_) => true,
            ReceivedView::Content(m) => m.len() > 0,
        },
{
    match c {
        Received::Files(_) => true,
        Received::Content(m) => m.len() > 0,
    }
}

/// A drop of files always holds a file, and none whose path is refused.
pub proof fn law_dropped_files_are_accepted(
    data_type: Seq<char>,
    raw: Seq<u8>,
    fallback: Option<Seq<char>>,
)
    ensures
        match received(data_type, raw, fallback) {
            ReceivedView::Files(p) => p.len() > 0 && (forall|i: int|
                0 <= i < p.len() ==> sanitize::path_accepted(#[trigger] p[i])),
            ReceivedView::Content(_) => true,
        },
{
    broadcast use vstd::seq_lib::group_filter_ensures;

    match received(data_type, raw, fallback) {
        ReceivedView::Files(p) => {
            let s = received_text(raw, fallback)->0;
            let files = files_of_lines(text::lines_of(s));
            let f = |q: Seq<char>| sanitize::path_accepted(q);
            assert(p == files.filter(f));
            assert forall|i: int| 0 <= i < p.len() implies sanitize::path_accepted(
                #[trigger] p[i],
            ) by {
                assert(f(p[i]));
            }
        },
        ReceivedView::Content(_) => {},
    }
}

/// The files of a list are those of its lines, in the order of the lines: the
/// files of two lists one after the other are the files of the first, then those
/// of the second. So it is with the files that are accepted.
pub proof fn law_files_come_in_the_order_of_the_lines(a: Seq<Seq<char>>, b: Seq<Seq<char>>)
    ensures
        files_of_lines(a + b) == files_of_lines(a) + files_of_lines(b),
        sanitize::accepted_paths(files_of_lines(a + b)) == sanitize::accepted_paths(
            files_of_lines(a),
        ) + sanitize::accepted_paths(files_of_lines(b)),
    decreases b.len(),
{
    if b.len() == 0 {
        assert(a + b =~= a);
        assert(files_of_lines(a + b) =~= files_of_lines(a) + files_of_lines(b));
    } else {
        assert((a + b).drop_last() =~= a + b.drop_last());
        assert((a + b).last() == b.last());
        law_files_come_in_the_order_of_the_lines(a, b.drop_last());
        assert(files_of_lines(a + b) =~= files_of_lines(a) + files_of_lines(b));
    }
    let f = |q: Seq<char>| sanitize::path_accepted(q);
    Seq::filter_distributes_over_add(files_of_lines(a), files_of_lines(b), f);
}

proof fn lemma_trimmed_as_is(s: Seq<char>)
    requires
        s.len() > 0,
        !text::is_space(s[0]),
        !text::is_space(s.last()),
    ensures
        text::trimmed(s) == s,
{
}

/// A line that is a file URI names the one file whose escaped path follows
/// `file://`; an empty line, a comment and a line with another URI name none.
pub proof fn law_file_uri_names_its_file(escaped: Seq<char>, path: Seq<char>, line: Seq<char>)
    requires
        escaped.len() > 0 ==> !text::is_space(escaped.last()),
        outside::url_decoded(escaped) == Some(path),
        line.len() == 0 || line[0] == '#' || !"file://"@.is_prefix_of(text::trimmed(line)),
    ensures
        files_of_lines(seq!["file://"@ + escaped]) == seq![path],
        files_of_lines(seq!["file://"@ + escaped + "\r"@]) == seq![path],
        files_of_lines(seq![line]) == Seq::<Seq<char>>::empty(),
{
    reveal_strlit("file://");
    reveal_strlit("\r");
    reveal_with_fuel(files_of_lines, 2);
    let uri = "file://"@ + escaped;
    assert(uri.last() == if escaped.len() > 0 {
        escaped.last()
    } else {
        '/'
    });
    lemma_trimmed_as_is(uri);
    assert(uri.skip(7) =~= escaped);
    assert("file://"@.is_prefix_of(uri));
    let ended = uri + "\r"@;
    assert(ended.drop_last() =~= uri);
    assert(ended.last() == '\r');
    assert(text::trimmed_start(ended) == ended);
    assert(text::trimmed_end(ended) == text::trimmed_end(uri));
    let one = seq![uri];
    let two = seq![ended];
    let none = seq![line];
    assert(one.drop_last() =~= Seq::empty() && one.last() == uri);
    assert(two.drop_last() =~= Seq::empty() && two.last() == ended);
    assert(none.drop_last() =~= Seq::empty() && none.last() == line);
    assert(files_of_lines(one) =~= seq![path]);
    assert(files_of_lines(two) =~= seq![path]);
    assert(files_of_lines(none) =~= Seq::empty());
}

/// A list of file URIs, one on each line, as a file manager hands it over.
pub open spec fn file_list(escaped: Seq<Seq<char>>) -> Seq<char>
    decreases escaped.len(),
{
    if escaped.len() == 0 {
        Seq::empty()
    } else {
        "file://"@ + escaped[0] + "\r\n"@ + file_list(escaped.skip(1))
    }
}

/// The characters of a URI: printable ASCII without the space.
pub open spec fn is_uri_text(s: Seq<char>) -> bool {
    forall|i: int| 0 <= i < s.len() ==> '!' <= #[trigger] s[i] <= '~'
}

proof fn lemma_first_newline(s: Seq<char>, from: int, i: int)
    requires
        0 <= from <= i < s.len(),
        s[i] == '\n',
        forall|j: int| from <= j < i ==> s[j] != '\n',
    ensures
        text::index_of(s, '\n', from) == Some(i),
    decreases i - from,
{
    if from < i {
        lemma_first_newline(s, from + 1, i);
    }
}

proof fn lemma_file_list_lines(escaped: Seq<Seq<char>>)
    requires
        forall|i: int| 0 <= i < escaped.len() ==> is_uri_text(#[trigger] escaped[i]),
    ensures
        text::lines_of(file_list(escaped)) == escaped.map_values(|e: Seq<char>| "file://"@ + e),
    decreases escaped.len(),
{
    reveal_strlit("file://");
    reveal_strlit("\r\n");
    let f = |e: Seq<char>| "file://"@ + e;
    if escaped.len() == 0 {
        assert(text::lines_of(file_list(escaped)) =~= escaped.map_values(f));
    } else {
        let rest = escaped.skip(1);
        assert forall|i: int| 0 <= i < rest.len() implies is_uri_text(#[trigger] rest[i]) by {
            assert(rest[i] == escaped[i + 1]);
        }
        lemma_file_list_lines(rest);
        let uri = "file://"@ + escaped[0];
        let s = file_list(escaped);
        let n = uri.len() as int;
        assert(is_uri_text(escaped[0]));
        assert(s =~= uri + seq!['\r', '\n'] + file_list(rest));
        assert forall|j: int| 0 <= j < n + 1 implies s[j] != '\n' by {
            if j < n {
                assert(s[j] == uri[j]);
                if j >= 7 {
                    assert(uri[j] == escaped[0][j - 7]);
                }
            }
        }
        assert(s[n + 1] == '\n');
        lemma_first_newline(s, 0, n + 1);
        assert(s.take(n + 1) =~= uri.push('\r'));
        assert(s.take(n + 1).drop_last() =~= uri);
        assert(s.skip(n + 2) =~= file_list(rest));
        assert(text::lines_of(s) =~= seq![uri] + text::lines_of(file_list(rest)));
        assert(escaped.map_values(f) =~= seq![uri] + rest.map_values(f));
    }
}

proof fn lemma_files_of_uris(escaped: Seq<Seq<char>>, paths: Seq<Seq<char>>)
    requires
        escaped.len() == paths.len(),
        forall|i: int|
            0 <= i < escaped.len() ==> is_uri_text(#[trigger] escaped[i]) && outside::url_decoded(
                escaped[i],
            ) == Some(paths[i]),
    ensures
        files_of_lines(escaped.map_values(|e: Seq<char>| "file://"@ + e)) == paths,
    decreases escaped.len(),
{
    let f = |e: Seq<char>| "file://"@ + e;
    let lines = escaped.map_values(f);
    if escaped.len() > 0 {
        let e = escaped.last();
        assert(is_uri_text(escaped[escaped.len() - 1]));
        if e.len() > 0 {
            assert('!' <= e[e.len() - 1] <= '~');
        }
        reveal_strlit("file://");
        lemma_files_of_uris(escaped.drop_last(), paths.drop_last());
        law_file_uri_names_its_file(e, paths.last(), Seq::empty());
        let one = seq!["file://"@ + e];
        law_files_come_in_the_order_of_the_lines(escaped.drop_last().map_values(f), one);
        assert(lines =~= escaped.drop_last().map_values(f) + one);
        assert(files_of_lines(lines) =~= paths);
    } else {
        assert(files_of_lines(lines) =~= paths);
    }
}

proof fn lemma_file_list_bytes(escaped: Seq<Seq<char>>)
    requires
        forall|i: int| 0 <= i < escaped.len() ==> is_uri_text(#[trigger] escaped[i]),
    ensures
        forall|i: int|
            0 <= i < file_list(escaped).len() ==> '\n' <= #[trigger] file_list(escaped)[i] <= '~',
        escaped.len() > 0 ==> file_list(escaped).len() > 0,
    decreases escaped.len(),
{
    if escaped.len() > 0 {
        reveal_strlit("file://");
        reveal_strlit("\r\n");
        let rest = escaped.skip(1);
        assert forall|i: int| 0 <= i < rest.len() implies is_uri_text(#[trigger] rest[i]) by {
            assert(rest[i] == escaped[i + 1]);
        }
        lemma_file_list_bytes(rest);
        let e = escaped[0];
        let s = file_list(escaped);
        let n = 7 + e.len();
        assert(is_uri_text(e));
        assert forall|i: int| 0 <= i < s.len() implies '\n' <= #[trigger] s[i] <= '~' by {
            if i < 7 {
                assert(s[i] == "file://"@[i]);
            } else if i < n {
                assert(s[i] == e[i - 7]);
            } else if i < n + 2 {
                assert(s[i] == "\r\n"@[i - n]);
            } else {
                assert(s[i] == file_list(rest)[i - n - 2]);
            }
        }
    }
}

proof fn lemma_plain_bytes_are_read(s: Seq<char>)
    requires
        forall|i: int| 0 <= i < s.len() ==> '\n' <= #[trigger] s[i] <= '~',
    ensures
        encoding::decoded_text(vstd::utf8::encode_utf8(s)) == s,
        vstd::utf8::encode_utf8(s).len() == s.len(),
        !s.contains('\u{FFFD}'),
{
    let b = vstd::utf8::encode_utf8(s);
    assert(vstd::utf8::is_ascii_chars(s));
    vstd::utf8::is_ascii_chars_encode_utf8(s);
    vstd::utf8::encode_utf8_valid_utf8(s);
    vstd::utf8::encode_utf8_decode_utf8(s);
    assert forall|i: int| 0 <= i < b.len() implies b[i] != 0 && b[i] < 0x80 by {
        assert('\n' <= s[i] <= '~');
        assert(s[i] as u8 == b[i]);
    }
    encoding::law_utf8_is_read(b);
}

/// Every file of a list of file URIs is handed over, in the order of the list:
/// for accepted paths, the drop of the list of their escaped forms holds just
/// these paths.
pub proof fn law_listed_files_are_dropped(
    escaped: Seq<Seq<char>>,
    paths: Seq<Seq<char>>,
    fallback: Option<Seq<char>>,
)
    requires
        escaped.len() == paths.len(),
        paths.len() > 0,
        forall|i: int|
            0 <= i < escaped.len() ==> is_uri_text(#[trigger] escaped[i]) && outside::url_decoded(
                escaped[i],
            ) == Some(paths[i]),
        forall|i: int| 0 <= i < paths.len() ==> sanitize::path_accepted(#[trigger] paths[i]),
    ensures
        received("text/uri-list"@, vstd::utf8::encode_utf8(file_list(escaped)), fallback)
            == ReceivedView::Files(paths),
{
    let s = file_list(escaped);
    let b = vstd::utf8::encode_utf8(s);
    lemma_file_list_bytes(escaped);
    lemma_plain_bytes_are_read(s);
    lemma_file_list_lines(escaped);
    lemma_files_of_uris(escaped, paths);
    let f = |q: Seq<char>| sanitize::path_accepted(q);
    lemma_all_kept(paths, f);
    reveal_strlit("text/uri-list");
    reveal_strlit("application/x-moz-custom-clipdata");
    reveal_strlit("chromium/x-web-custom-data");
    assert("text/uri-list"@.len() == 13 && "application/x-moz-custom-clipdata"@.len() == 33
        && "chromium/x-web-custom-data"@.len() == 26);
    assert(browser_entries("text/uri-list"@, b) =~= Seq::empty());
    assert(tiddlers_in(browser_entries("text/uri-list"@, b)) is None);
    assert(received_text(b, fallback) == Some(s));
}

proof fn lemma_all_kept(paths: Seq<Seq<char>>, f: spec_fn(Seq<char>) -> bool)
    requires
        forall|i: int| 0 <= i < paths.len() ==> f(#[trigger] paths[i]),
    ensures
        paths.filter(f) == paths,
    decreases paths.len(),
{
    reveal(Seq::filter);
    if paths.len() > 0 {
        let front = paths.drop_last();
        assert forall|i: int| 0 <= i < front.len() implies f(#[trigger] front[i]) by {
            assert(front[i] == paths[i]);
        }
        lemma_all_kept(front, f);
        assert(paths[paths.len() - 1] == paths.last());
        assert(front.push(paths.last()) =~= paths);
    } else {
        assert(paths.filter(f) =~= paths);
    }
}

proof fn lemma_others_are_no_tiddlers(entries: Seq<(Seq<char>, Seq<char>)>)
    ensures
        table::lookup(others_in(entries), "text/vnd.tiddler"@) is None,
    decreases entries.len(),
{
    if entries.len() > 0 {
        let e = entries.last();
        lemma_others_are_no_tiddlers(entries.drop_last());
        if let Some(v) = frame_entry_cleaned(e.0, e.1) {
            table::law_put_then_lookup(
                others_in(entries.drop_last()),
                e.0,
                v,
                "text/vnd.tiddler"@,
            );
        }
    }
}

proof fn lemma_types_apart()
    ensures
        "text/html"@.len() == 9,
        "text/uri-list"@.len() == 13,
        "URL"@.len() == 3,
{
    reveal_strlit("text/uri-list");
    reveal_strlit("URL");
    reveal_strlit("text/html");
}

proof fn lemma_others_harmless(entries: Seq<(Seq<char>, Seq<char>)>)
    ensures
        sanitize::content_is_harmless(others_in(entries)),
    decreases entries.len(),
{
    if entries.len() > 0 {
        let e = entries.last();
        lemma_others_harmless(entries.drop_last());
        sanitize::law_cleaned_entry_is_harmless(e.0, e.1);
        sanitize::law_sanitized_list_is_harmless(e.1);
        lemma_types_apart();
        if let Some(v) = frame_entry_cleaned(e.0, e.1) {
            sanitize::lemma_put_harmless(others_in(entries.drop_last()), e.0, v);
        }
    }
}

proof fn lemma_text_harmless(
    others: Seq<(Seq<char>, Seq<char>)>,
    data_type: Seq<char>,
    s: Seq<char>,
)
    requires
        sanitize::content_is_harmless(others),
    ensures
        sanitize::content_is_harmless(with_text(others, data_type, s)),
        sanitize::content_is_harmless(tiddler_content(s)),
{
    reveal_strlit("text/vnd.tiddler");
    reveal_strlit("text/uri-list");
    reveal_strlit("URL");
    reveal_strlit("text/html");
    reveal_strlit("text/plain");
    let list = sanitize::list_cleaned(s);
    sanitize::law_cleaned_entry_is_harmless("text/uri-list"@, s);
    sanitize::law_cleaned_entry_is_harmless("URL"@, s);
    sanitize::law_cleaned_entry_is_harmless("text/html"@, s);
    sanitize::law_cleaned_entry_is_harmless("text/plain"@, s);
    assert("text/plain"@.len() == 10 && "text/html"@.len() == 9 && "text/uri-list"@.len() == 13
        && "URL"@.len() == 3 && "text/vnd.tiddler"@.len() == 16);
    sanitize::lemma_put_harmless(others, "text/uri-list"@, list);
    let linked = table::put(others, "text/uri-list"@, list);
    let more = if "http://"@.is_prefix_of(s) || "https://"@.is_prefix_of(s) {
        if sanitize::is_dangerous(s) {
            others
        } else {
            sanitize::lemma_put_harmless(linked, "URL"@, s);
            table::put(linked, "URL"@, s)
        }
    } else if "<"@.is_prefix_of(text::trimmed_start(s)) || data_type == "text/html"@ {
        sanitize::lemma_put_harmless(others, "text/html"@, sanitize::html_sanitized(s));
        table::put(others, "text/html"@, sanitize::html_sanitized(s))
    } else {
        others
    };
    sanitize::lemma_put_harmless(more, "text/plain"@, s);
}

/// Content that was dropped is harmless under each of its types.
pub proof fn law_dropped_content_is_harmless(
    data_type: Seq<char>,
    raw: Seq<u8>,
    fallback: Option<Seq<char>>,
)
    ensures
        match received(data_type, raw, fallback) {
            ReceivedView::Content(m) => sanitize::content_is_harmless(m),
            ReceivedView::Files(_) => true,
        },
{
    let entries = browser_entries(data_type, raw);
    let others = others_in(entries);
    lemma_others_harmless(entries);
    if let Some(t) = tiddlers_in(entries) {
        lemma_text_harmless(others, data_type, t);
    }
    if let Some(s) = received_text(raw, fallback) {
        lemma_text_harmless(others, data_type, s);
    }
}

proof fn lemma_text_is_no_tiddlers(
    others: Seq<(Seq<char>, Seq<char>)>,
    data_type: Seq<char>,
    s: Seq<char>,
)
    requires
        table::lookup(others, "text/vnd.tiddler"@) is None,
    ensures
        table::lookup(with_text(others, data_type, s), "text/vnd.tiddler"@) is None,
{
    reveal_strlit("text/vnd.tiddler");
    reveal_strlit("text/uri-list");
    reveal_strlit("URL");
    reveal_strlit("text/html");
    reveal_strlit("text/plain");
    let t = "text/vnd.tiddler"@;
    assert(t.len() == 16);
    let list = sanitize::list_cleaned(s);
    let linked = table::put(others, "text/uri-list"@, list);
    let named = table::put(linked, "URL"@, s);
    let html = table::put(others, "text/html"@, sanitize::html_sanitized(s));
    table::law_put_then_lookup(others, "text/uri-list"@, list, t);
    table::law_put_then_lookup(linked, "URL"@, s, t);
    table::law_put_then_lookup(others, "text/html"@, sanitize::html_sanitized(s), t);
    table::law_put_then_lookup(others, "text/plain"@, s, t);
    table::law_put_then_lookup(named, "text/plain"@, s, t);
    table::law_put_then_lookup(html, "text/plain"@, s, t);
}

/// Where a drop holds tiddlers it holds nothing else but their text, so that
/// nothing is brought in twice.
pub proof fn law_tiddlers_come_alone(
    data_type: Seq<char>,
    raw: Seq<u8>,
    fallback: Option<Seq<char>>,
)
    ensures
        match received(data_type, raw, fallback) {
            ReceivedView::Content(m) => match table::lookup(m, "text/vnd.tiddler"@) {
                Some(t) => m == tiddler_content(t),
                None => true,
            },
            ReceivedView::Files(_) => true,
        },
{
    let entries = browser_entries(data_type, raw);
    let others = others_in(entries);
    lemma_others_are_no_tiddlers(entries);
    if let Some(s) = received_text(raw, fallback) {
        lemma_text_is_no_tiddlers(others, data_type, s);
        assert(tiddler_content(s)[0] == ("text/vnd.tiddler"@, s));
    }
    if let Some(t) = tiddlers_in(entries) {
        assert(tiddler_content(t)[0] == ("text/vnd.tiddler"@, t));
    }
}

// ---------------------------------------------------------------------------
// What a drag hands out
// ---------------------------------------------------------------------------

/// What a drag of ours carries, under the types in which it can be had.
pub struct OutgoingDragData {
    pub text_plain: Option<String>,
    pub text_html: Option<String>,
    pub text_vnd_tiddler: Option<String>,
    pub text_uri_list: Option<String>,
    pub text_x_moz_url: Option<String>,
    pub url: Option<String>,
    /// The drag is one of selected text.
    pub is_text_selection_drag: bool,
}

/// The two carry the same.
pub open spec fn same_data(a: OutgoingDragData, b: OutgoingDragData) -> bool {
    &&& text::opt_view(a.text_plain) == text::opt_view(b.text_plain)
    &&& text::opt_view(a.text_html) == text::opt_view(b.text_html)
    &&& text::opt_view(a.text_vnd_tiddler) == text::opt_view(b.text_vnd_tiddler)
    &&& text::opt_view(a.text_uri_list) == text::opt_view(b.text_uri_list)
    &&& text::opt_view(a.text_x_moz_url) == text::opt_view(b.text_x_moz_url)
    &&& text::opt_view(a.url) == text::opt_view(b.url)
    &&& a.is_text_selection_drag == b.is_text_selection_drag
}

/// A drag of ours that is on its way.
pub struct OutgoingDragState {
    pub data: OutgoingDragData,
    pub source_window_label: String,
    /// Something has been handed out.
    pub data_was_requested: bool,
}

/// What becomes of a request for the data of a drag.
pub enum DataReply {
    /// The web view answers it.
    Leave,
    /// The request ends here; with `empty`, it is answered with nothing.
    Stop { empty: bool },
    /// It is answered with the bytes, under the type.
    Provide { atom: String, bytes: Vec<u8> },
}

/// What becomes of a request for the data of a drag.
pub ghost enum ReplyView {
    Leave,
    Stop(bool),
    Provide(Seq<char>, Seq<u8>),
}

impl View for DataReply {
    type V = ReplyView;

    open spec fn view(&self) -> ReplyView {
        match self {
            DataReply::Leave => ReplyView::Leave,
            DataReply::Stop { empty } => ReplyView::Stop(*empty),
            DataReply::Provide { atom, bytes } => ReplyView::Provide(atom@, bytes@),
        }
    }
}

/// A text, where there is one, as the answer under the type.
pub open spec fn provided(atom: Seq<char>, content: Option<String>) -> ReplyView {
    match content {
        Some(s) => ReplyView::Provide(atom, vstd::utf8::encode_utf8(s@)),
        None => ReplyView::Leave,
    }
}

/// Mozilla's form of a link: the address and a title on two lines, in UTF-16.
pub open spec fn moz_url_bytes(d: OutgoingDragData) -> Seq<u8> {
    let title = match d.text_plain {
        Some(t) => t@,
        None => ""@,
    };
    encoding::bytes_le(encoding::utf16_units(d.text_x_moz_url->0@ + "\n"@ + title))
}

/// What a drag with the data answers to a request for the target.
pub open spec fn data_for(target: Seq<char>, d: OutgoingDragData) -> ReplyView {
    if target == "org.webkitgtk.WebKit.custom-pasteboard-data"@ {
        ReplyView::Stop(true)
    } else if target == "text/vnd.tiddler"@ {
        provided("text/vnd.tiddler"@, d.text_vnd_tiddler)
    } else if target == "text/plain"@ || "text/plain;"@.is_prefix_of(target) || target == "TEXT"@ {
        provided("text/plain"@, d.text_plain)
    } else if target == "UTF8_STRING"@ {
        provided("UTF8_STRING"@, d.text_plain)
    } else if target == "STRING"@ {
        provided("STRING"@, d.text_plain)
    } else if target == "text/html"@ || "text/html;"@.is_prefix_of(target) {
        ReplyView::Stop(false)
    } else if target == "text/uri-list"@ {
        if d.url is Some {
            provided("text/uri-list"@, d.url)
        } else {
            provided("text/uri-list"@, d.text_uri_list)
        }
    } else if target == "text/x-moz-url"@ {
        if d.text_x_moz_url is Some {
            ReplyView::Provide("text/x-moz-url"@, moz_url_bytes(d))
        } else {
            ReplyView::Leave
        }
    } else if target == "URL"@ {
        provided("URL"@, d.url)
    } else {
        ReplyView::Leave
    }
}

/// The drag comes from the window that it is over.
pub open spec fn over_its_source(out: Option<OutgoingDragState>, current: Option<Seq<char>>) -> bool {
    out is Some && current == Some(out->0.source_window_label@)
}

/// What becomes of a request for the data of a drag. A drag over its own window
/// is the web view's, unless it is one of selected text; the web view's own
/// format is never handed out.
pub open spec fn data_reply(
    target: Seq<char>,
    out: Option<OutgoingDragState>,
    current: Option<Seq<char>>,
) -> ReplyView {
    let left = if target == "org.webkitgtk.WebKit.custom-pasteboard-data"@ {
        ReplyView::Stop(true)
    } else {
        ReplyView::Leave
    };
    match out {
        None => left,
        Some(st) => if over_its_source(out, current) && !st.data.is_text_selection_drag {
            left
        } else {
            data_for(target, st.data)
        },
    }
}

fn provide(atom: &str, content: &Option<String>) -> (r: DataReply)
    ensures
        r@ == provided(atom@, *content),
{
    match content {
        Some(s) => {
            let bytes: Vec<u8> = s.as_str().as_bytes_vec();
            DataReply::Provide { atom: atom.to_owned(), bytes }
        },
        None => DataReply::Leave,
    }
}

fn moz_url(d: &OutgoingDragData, address: &str) -> (r: DataReply)
    requires
        d.text_x_moz_url is Some,
        d.text_x_moz_url->0@ == address@,
    ensures
        r@ == ReplyView::Provide("text/x-moz-url"@, moz_url_bytes(*d)),
{
    let mut full: String = text::concat(address, "\n");
    match &d.text_plain {
        Some(t) => {
            full.append(t.as_str());
        },
        None => {
            full.append("");
        },
    }
    let units: Vec<u16> = encoding::to_utf16(full.as_str());
    DataReply::Provide {
        atom: "text/x-moz-url".to_owned(),
        bytes: encoding::to_bytes_le(units.as_slice()),
    }
}

fn answer(target: &str, d: &OutgoingDragData) -> (r: DataReply)
    ensures
        r@ == data_for(target@, *d),
{
    if text::same(target, "org.webkitgtk.WebKit.custom-pasteboard-data") {
        DataReply::Stop { empty: true }
    } else if text::same(target, "text/vnd.tiddler") {
        provide("text/vnd.tiddler", &d.text_vnd_tiddler)
    } else if text::same(target, "text/plain") || text::starts_with(target, "text/plain;")
        || text::same(target, "TEXT") {
        provide("text/plain", &d.text_plain)
    } else if text::same(target, "UTF8_STRING") {
        provide("UTF8_STRING", &d.text_plain)
    } else if text::same(target, "STRING") {
        provide("STRING", &d.text_plain)
    } else if text::same(target, "text/html") || text::starts_with(target, "text/html;") {
        DataReply::Stop { empty: false }
    } else if text::same(target, "text/uri-list") {
        if d.url.is_some() {
            provide("text/uri-list", &d.url)
        } else {
            provide("text/uri-list", &d.text_uri_list)
        }
    } else if text::same(target, "text/x-moz-url") {
        match &d.text_x_moz_url {
            Some(address) => moz_url(d, address.as_str()),
            None => DataReply::Leave,
        }
    } else if text::same(target, "URL") {
        provide("URL", &d.url)
    } else {
        DataReply::Leave
    }
}

/// Someone asks for the data of a drag in the form of the target. `current` is
/// the window that the drag is over. What is handed out is noted.
pub fn drag_data_get(target: &str, out: &mut Option<OutgoingDragState>, current: &Option<String>) -> (r:
    DataReply)
    ensures
        r@ == data_reply(target@, *old(out), text::opt_view(*current)),
        *final(out) is Some <==> *old(out) is Some,
        match *final(out) {
            Some(st) => {
                &&& same_data(st.data, (*old(out))->0.data)
                &&& st.source_window_label@ == (*old(out))->0.source_window_label@
                &&& st.data_was_requested == ((*old(out))->0.data_was_requested || r is Provide)
            },
            None => true,
        },
{
    let reply: DataReply = match &*out {
        None => {
            if text::same(target, "org.webkitgtk.WebKit.custom-pasteboard-data") {
                DataReply::Stop { empty: true }
            } else {
                DataReply::Leave
            }
        },
        Some(st) => {
            if is_label(current, st.source_window_label.as_str())
                && !st.data.is_text_selection_drag {
                if text::same(target, "org.webkitgtk.WebKit.custom-pasteboard-data") {
                    DataReply::Stop { empty: true }
                } else {
                    DataReply::Leave
                }
            } else {
                answer(target, &st.data)
            }
        },
    };
    if let DataReply::Provide { atom: _, bytes: _ } = &reply {
        mark_data_requested(out);
    }
    reply
}

/// The web view's own format never leaves the application, whatever the drag
/// carries and wherever it is.
pub proof fn law_internal_format_is_withheld(
    out: Option<OutgoingDragState>,
    current: Option<Seq<char>>,
)
    ensures
        data_reply("org.webkitgtk.WebKit.custom-pasteboard-data"@, out, current)
            == ReplyView::Stop(true),
{
}

/// Notes that something was handed out.
pub fn mark_data_requested(out: &mut Option<OutgoingDragState>)
    ensures
        *final(out) is Some <==> *old(out) is Some,
        match *final(out) {
            Some(st) => {
                &&& st.data_was_requested
                &&& st.data == (*old(out))->0.data
                &&& st.source_window_label == (*old(out))->0.source_window_label
            },
            None => true,
        },
{
    match out.take() {
        Some(st) => {
            *out = Some(
                OutgoingDragState {
                    data: st.data,
                    source_window_label: st.source_window_label,
                    data_was_requested: true,
                },
            );
        },
        None => {},
    }
}

/// Whether anything was handed out.
pub fn was_data_requested(out: &Option<OutgoingDragState>) -> (r: bool)
    ensures
        r == (*out is Some && out->0.data_was_requested),
{
    match out {
        Some(st) => st.data_was_requested,
        None => false,
    }
}

/// Whether the window has a drag on its way.
pub fn has_outgoing_data_for_window(out: &Option<OutgoingDragState>, label: &str) -> (r: bool)
    ensures
        r == (*out is Some && out->0.source_window_label@ == label@),
{
    match out {
        Some(st) => text::same(st.source_window_label.as_str(), label),
        None => false,
    }
}

/// Whether any window has a drag on its way.
pub fn has_any_outgoing_data(out: &Option<OutgoingDragState>) -> (r: bool)
    ensures
        r == (*out is Some),
{
    out.is_some()
}

// ---------------------------------------------------------------------------
// The life of a drag of ours
// ---------------------------------------------------------------------------

/// The picture of a drag and the place in it by which it is held.
pub struct DragImage {
    pub png: Vec<u8>,
    pub offset_x: i32,
    pub offset_y: i32,
}

/// Everything that the application knows of a drag of ours.
pub struct LinuxDrag {
    pub outgoing: Option<OutgoingDragState>,
    pub image: Option<DragImage>,
    /// The window whose pointer is to be reset when the drag is over.
    pub active_window: Option<String>,
    pub source_ready: bool,
    /// The window that holds the drag.
    pub drag_target: Option<String>,
}

/// Nothing is being dragged.
pub open spec fn is_idle(d: LinuxDrag) -> bool {
    d.outgoing is None && d.image is None && d.active_window is None && !d.source_ready
        && d.drag_target is None
}

/// The drag is on its way from the window with the data, and nothing has been
/// handed out.
pub open spec fn carries(
    out: Option<OutgoingDragState>,
    label: Seq<char>,
    data: OutgoingDragData,
) -> bool {
    match out {
        Some(st) => st.source_window_label@ == label && same_data(st.data, data)
            && !st.data_was_requested,
        None => false,
    }
}

/// The offset by which a picture is kept: the given one, or ten.
pub open spec fn kept_offset(o: Option<i32>) -> i32 {
    match o {
        Some(n) => n,
        None => 10,
    }
}

/// The offset by which a picture is shown: the given one, or none.
pub open spec fn shown_offset(o: Option<i32>) -> i32 {
    match o {
        Some(n) => n,
        None => 0,
    }
}

impl LinuxDrag {
    /// Nothing is being dragged.
    pub fn new() -> (r: LinuxDrag)
        ensures
            is_idle(r),
    {
        LinuxDrag {
            outgoing: None,
            image: None,
            active_window: None,
            source_ready: false,
            drag_target: None,
        }
    }

    /// A drag begins inside the window: its data is kept for whoever asks.
    pub fn prepare_native_drag(&mut self, label: &str, data: OutgoingDragData)
        ensures
            carries(final(self).outgoing, label@, data),
            final(self).source_ready,
            final(self).image == old(self).image,
            final(self).active_window == old(self).active_window,
            final(self).drag_target == old(self).drag_target,
    {
        self.outgoing = Some(
            OutgoingDragState {
                data,
                source_window_label: label.to_owned(),
                data_was_requested: false,
            },
        );
        self.source_ready = true;
    }

    /// The drag is over, or was given up. Gives the window whose pointer is to
    /// be reset.
    pub fn cleanup_native_drag(&mut self) -> (r: Option<String>)
        ensures
            text::opt_view(r) == text::opt_view(old(self).active_window),
            final(self).outgoing is None,
            final(self).image is None,
            final(self).active_window is None,
            !final(self).source_ready,
            final(self).drag_target == old(self).drag_target,
    {
        let window: Option<String> = text::clone_opt(&self.active_window);
        self.outgoing = None;
        self.source_ready = false;
        self.image = None;
        self.active_window = None;
        window
    }

    /// The picture of the next drag.
    pub fn set_pending_drag_icon(&mut self, image_data: Vec<u8>, offset_x: i32, offset_y: i32)
        ensures
            final(self).image is Some,
            final(self).image->0.png@ == image_data@,
            final(self).image->0.offset_x == offset_x,
            final(self).image->0.offset_y == offset_y,
            final(self).outgoing == old(self).outgoing,
            final(self).active_window == old(self).active_window,
            final(self).source_ready == old(self).source_ready,
            final(self).drag_target == old(self).drag_target,
    {
        self.image = Some(DragImage { png: image_data, offset_x, offset_y });
    }

    /// A drag leaves the window: its data and its picture are kept.
    pub fn start_native_drag(
        &mut self,
        label: &str,
        data: OutgoingDragData,
        image_data: Option<Vec<u8>>,
        image_offset_x: Option<i32>,
        image_offset_y: Option<i32>,
    )
        ensures
            carries(final(self).outgoing, label@, data),
            text::opt_view(final(self).active_window) == Some(label@),
            match image_data {
                Some(png) => {
                    &&& final(self).image is Some
                    &&& final(self).image->0.png@ == png@
                    &&& final(self).image->0.offset_x == kept_offset(image_offset_x)
                    &&& final(self).image->0.offset_y == kept_offset(image_offset_y)
                },
                None => final(self).image == old(self).image,
            },
            final(self).source_ready == old(self).source_ready,
            final(self).drag_target == old(self).drag_target,
    {
        self.outgoing = Some(
            OutgoingDragState {
                data,
                source_window_label: label.to_owned(),
                data_was_requested: false,
            },
        );
        self.active_window = Some(label.to_owned());
        if let Some(png) = image_data {
            self.image = Some(
                DragImage {
                    png,
                    offset_x: match image_offset_x {
                        Some(n) => n,
                        None => 10,
                    },
                    offset_y: match image_offset_y {
                        Some(n) => n,
                        None => 10,
                    },
                },
            );
        }
    }

    /// The toolkit would not begin the drag.
    pub fn start_failed(&mut self) -> (r: String)
        ensures
            r@ == "Failed to start native drag - drag_begin_with_coordinates returned None"@,
            final(self).outgoing is None,
            final(self).image is None,
            final(self).active_window == old(self).active_window,
            final(self).source_ready == old(self).source_ready,
            final(self).drag_target == old(self).drag_target,
    {
        self.outgoing = None;
        self.image = None;
        "Failed to start native drag - drag_begin_with_coordinates returned None".to_owned()
    }

    /// The toolkit says that the drag is over. Says whether anything was handed
    /// out.
    pub fn drag_end(&mut self) -> (r: bool)
        ensures
            r == (old(self).outgoing is Some && old(self).outgoing->0.data_was_requested),
            is_idle(*final(self)),
    {
        let requested: bool = was_data_requested(&self.outgoing);
        self.outgoing = None;
        self.image = None;
        self.active_window = None;
        self.source_ready = false;
        self.drag_target = None;
        requested
    }

    /// The toolkit says that the drag failed. Gives the reason that is reported,
    /// where it is one.
    pub fn drag_failed(&mut self, result: DragResult) -> (r: Option<String>)
        ensures
            text::opt_view(r) == cancel_reason(result),
            final(self).outgoing is None,
            final(self).image is None,
            final(self).drag_target is None,
            final(self).active_window == old(self).active_window,
            final(self).source_ready == old(self).source_ready,
    {
        self.outgoing = None;
        self.image = None;
        self.drag_target = None;
        match result {
            DragResult::Success => None,
            DragResult::NoTarget => Some("no_target".to_owned()),
            DragResult::UserCancelled => Some("user_cancelled".to_owned()),
            DragResult::TimeoutExpired => Some("timeout".to_owned()),
            DragResult::GrabBroken => Some("grab_broken".to_owned()),
            DragResult::Error => Some("error".to_owned()),
            DragResult::Unknown => Some("unknown".to_owned()),
        }
    }
}

/// How the toolkit says a drag ended.
#[derive(Clone, Copy, PartialEq, Eq, Structural)]
pub enum DragResult {
    Success,
    NoTarget,
    UserCancelled,
    TimeoutExpired,
    GrabBroken,
    Error,
    Unknown,
}

/// The reason that is reported of a drag that did not end well.
pub open spec fn cancel_reason(result: DragResult) -> Option<Seq<char>> {
    match result {
        DragResult::Success => None,
        DragResult::NoTarget => Some("no_target"@),
        DragResult::UserCancelled => Some("user_cancelled"@),
        DragResult::TimeoutExpired => Some("timeout"@),
        DragResult::GrabBroken => Some("grab_broken"@),
        DragResult::Error => Some("error"@),
        DragResult::Unknown => Some("unknown"@),
    }
}

/// A form in which a drag offers its data.
#[derive(Clone, Copy, PartialEq, Eq, Structural)]
pub enum DragTarget {
    Tiddler,
    Url,
    MozUrl,
    Html,
    /// The toolkit's forms of a list of links.
    UriTargets,
    /// The toolkit's forms of text.
    TextTargets,
}

/// The forms in which a drag offers its data, in order: what it carries, and
/// text in any case.
pub open spec fn offered_targets(d: OutgoingDragData) -> Seq<DragTarget> {
    (if d.text_vnd_tiddler is Some {
        seq![DragTarget::Tiddler]
    } else {
        Seq::empty()
    }) + (if d.url is Some {
        seq![DragTarget::Url]
    } else {
        Seq::empty()
    }) + (if d.text_x_moz_url is Some {
        seq![DragTarget::MozUrl]
    } else {
        Seq::empty()
    }) + (if d.text_html is Some {
        seq![DragTarget::Html]
    } else {
        Seq::empty()
    }) + (if d.text_uri_list is Some {
        seq![DragTarget::UriTargets]
    } else {
        Seq::empty()
    }) + (if d.text_plain is Some {
        seq![DragTarget::TextTargets]
    } else {
        Seq::empty()
    }) + seq![DragTarget::TextTargets]
}

/// The forms in which a drag offers its data.
pub fn drag_targets(d: &OutgoingDragData) -> (r: Vec<DragTarget>)
    ensures
        r@ == offered_targets(*d),
{
    let mut out: Vec<DragTarget> = Vec::new();
    if d.text_vnd_tiddler.is_some() {
        out.push(DragTarget::Tiddler);
    }
    if d.url.is_some() {
        out.push(DragTarget::Url);
    }
    if d.text_x_moz_url.is_some() {
        out.push(DragTarget::MozUrl);
    }
    if d.text_html.is_some() {
        out.push(DragTarget::Html);
    }
    if d.text_uri_list.is_some() {
        out.push(DragTarget::UriTargets);
    }
    if d.text_plain.is_some() {
        out.push(DragTarget::TextTargets);
    }
    out.push(DragTarget::TextTargets);
    assert(out@ =~= offered_targets(*d));
    out
}

/// The picture that a drag shows: the one that came with it and where it is
/// held, or the stock one.
pub fn shown_image(image: Option<Vec<u8>>, x: Option<i32>, y: Option<i32>) -> (r: Option<DragImage>)
    ensures
        match r {
            Some(i) => image is Some && i.png@ == image->0@ && i.offset_x == shown_offset(x)
                && i.offset_y == shown_offset(y),
            None => image is None,
        },
{
    match image {
        Some(png) => Some(
            DragImage {
                png,
                offset_x: match x {
                    Some(n) => n,
                    None => 0,
                },
                offset_y: match y {
                    Some(n) => n,
                    None => 0,
                },
            },
        ),
        None => None,
    }
}

/// What is to be done about the picture of a drag that the web view began.
#[derive(Clone, Copy, PartialEq, Eq, Structural)]
pub enum IconStep {
    /// The picture that is kept is shown.
    Show,
    /// Nothing is shown in place of the web view's own picture, and a little
    /// later it is asked again.
    HideAndRetry,
    Nothing,
}

/// The web view began a drag: its picture is the one that is kept, where there
/// is one already.
pub fn drag_begin_icon(image: &Option<DragImage>) -> (r: IconStep)
    ensures
        r == if *image is Some {
            IconStep::Show
        } else {
            IconStep::HideAndRetry
        },
{
    if image.is_some() {
        IconStep::Show
    } else {
        IconStep::HideAndRetry
    }
}

/// The picture of a drag that began was shown, or could not be read.
pub fn drag_icon_shown(shown: bool) -> (r: IconStep)
    ensures
        r == if shown {
            IconStep::Nothing
        } else {
            IconStep::HideAndRetry
        },
{
    if shown {
        IconStep::Nothing
    } else {
        IconStep::HideAndRetry
    }
}

/// It is asked again for the picture of a drag: one that came late is shown.
pub fn drag_icon_retry(image: &Option<DragImage>) -> (r: IconStep)
    ensures
        r == if *image is Some {
            IconStep::Show
        } else {
            IconStep::Nothing
        },
{
    if image.is_some() {
        IconStep::Show
    } else {
        IconStep::Nothing
    }
}

// ---------------------------------------------------------------------------
// Windows, widgets and the pointer
// ---------------------------------------------------------------------------

/// Why the pointer crossed the border of a window.
#[derive(Clone, Copy, PartialEq, Eq, Structural)]
pub enum CrossingMode {
    Normal,
    Grab,
    Ungrab,
    Other,
}

/// The crossing is one of the pointer's own.
pub open spec fn is_real_crossing(mode: CrossingMode) -> bool {
    mode == CrossingMode::Normal || mode == CrossingMode::Ungrab
}

/// The pointer comes into the window.
pub fn pointer_enter(inside: &mut Option<String>, label: &str, mode: CrossingMode)
    ensures
        text::opt_view(*final(inside)) == if is_real_crossing(mode) {
            Some(label@)
        } else {
            text::opt_view(*old(inside))
        },
{
    if mode == CrossingMode::Normal || mode == CrossingMode::Ungrab {
        *inside = Some(label.to_owned());
    }
}

/// The pointer leaves the window, or, with `inferior`, goes over to something
/// inside it.
pub fn pointer_leave(inside: &mut Option<String>, label: &str, mode: CrossingMode, inferior: bool)
    ensures
        text::opt_view(*final(inside)) == if !inferior && is_real_crossing(mode)
            && text::opt_view(*old(inside)) == Some(label@) {
            None
        } else {
            text::opt_view(*old(inside))
        },
{
    if !inferior && (mode == CrossingMode::Normal || mode == CrossingMode::Ungrab) {
        if is_label(&*inside, label) {
            *inside = None;
        }
    }
}

/// The widget of a web view, by the name of its type.
pub fn is_webkit_widget(class: &str) -> (r: bool)
    ensures
        r == (text::has_sub(class@, "WebKit"@) || text::has_sub(class@, "webview"@)),
{
    text::contains(class, "WebKit") || text::contains(class, "webview")
}

/// The first label under which the widget stands.
pub open spec fn label_of_widget(m: Seq<(Seq<char>, u64)>, widget: u64, from: int) -> Option<Seq<char>>
    decreases m.len() - from,
{
    if from < 0 || from >= m.len() {
        None
    } else if m[from].1 == widget {
        Some(m[from].0)
    } else {
        label_of_widget(m, widget, from + 1)
    }
}

/// The window of ours that a drag comes from, by the widget that began it.
pub fn get_source_window_label(widgets: &Table<u64>, widget: Option<u64>) -> (r: Option<String>)
    ensures
        text::opt_view(r) == match widget {
            Some(w) => label_of_widget(widgets@, w, 0),
            None => None,
        },
{
    let w: u64 = match widget {
        Some(w) => w,
        None => {
            return None;
        },
    };
    let mut i: usize = 0;
    while i < widgets.entries.len()
        invariant
            i <= widgets.entries.len(),
            widget == Some(w),
            label_of_widget(widgets@, w, 0) == label_of_widget(widgets@, w, i as int),
        decreases widgets.entries.len() - i,
    {
        assert(widgets@[i as int] == (widgets.entries@[i as int].0@, widgets.entries@[i as int].1));
        if widgets.entries[i].1 == w {
            return Some(widgets.entries[i].0.clone());
        }
        i = i + 1;
    }
    None
}

/// Keeps the widget of a window's web view.
pub fn register_webkit_widget(widgets: &mut Table<u64>, label: &str, widget: u64)
    ensures
        final(widgets)@ == table::put(old(widgets)@, label@, widget),
{
    widgets.insert(label.to_owned(), widget);
}

/// The display server is Wayland, as far as the environment says.
pub open spec fn session_is_wayland(has_wayland_display: bool, session_type: Option<Seq<char>>) -> bool {
    has_wayland_display || session_type == Some("wayland"@)
}

/// Whether a click can be injected to reset the web view's pointer: not on
/// Wayland; elsewhere if the injection, which is then tried, succeeds.
pub fn pointer_reset_succeeds(
    has_wayland_display: bool,
    session_type: &Option<String>,
    injected: bool,
) -> (r: bool)
    ensures
        r == (!session_is_wayland(has_wayland_display, text::opt_view(*session_type)) && injected),
{
    let wayland: bool = has_wayland_display || is_label(session_type, "wayland");
    !wayland && injected
}

// ---------------------------------------------------------------------------
// Windows that drags can go to
// ---------------------------------------------------------------------------

/// What is known of a window.
pub struct WindowEntry {
    pub label: String,
    pub width: i32,
    pub height: i32,
}

/// What is known of a window: its label, its width and its height.
pub open spec fn entry_view(e: WindowEntry) -> (Seq<char>, i32, i32) {
    (e.label@, e.width, e.height)
}

/// What is known of windows, by the numbers under which the toolkit has them.
pub struct WindowRegistry {
    pub by_window: HashMap<u64, WindowEntry>,
}

impl View for WindowRegistry {
    type V = Map<u64, (Seq<char>, i32, i32)>;

    open spec fn view(&self) -> Map<u64, (Seq<char>, i32, i32)> {
        self.by_window@.map_values(|e: WindowEntry| entry_view(e))
    }
}

impl WindowRegistry {
    /// No windows.
    pub fn new() -> (r: Self)
        ensures
            r@ == Map::<u64, (Seq<char>, i32, i32)>::empty(),
    {
        broadcast use group_hash_axioms;

        let r = WindowRegistry { by_window: HashMap::new() };
        assert(r@ =~= Map::<u64, (Seq<char>, i32, i32)>::empty());
        r
    }

    /// Notes a window.
    pub fn register_gdk_window(&mut self, window: u64, label: &str, width: i32, height: i32)
        ensures
            final(self)@ == old(self)@.insert(window, (label@, width, height)),
    {
        broadcast use group_hash_axioms;

        let ghost before = self@;
        let e: WindowEntry = WindowEntry { label: label.to_owned(), width, height };
        let _: Option<WindowEntry> = self.by_window.insert(window, e);
        assert(self@ =~= before.insert(window, (label@, width, height)));
    }

    /// Notes the size of a window that is known.
    pub fn update_gdk_window_dimensions(&mut self, window: u64, width: i32, height: i32)
        ensures
            final(self)@ == if old(self)@.contains_key(window) {
                old(self)@.insert(window, (old(self)@[window].0, width, height))
            } else {
                old(self)@
            },
    {
        broadcast use group_hash_axioms;

        let label: Option<String> = match self.by_window.get(&window) {
            Some(e) => Some(e.label.clone()),
            None => None,
        };
        if let Some(label) = label {
            self.register_gdk_window(window, label.as_str(), width, height);
        }
    }
}

// ---------------------------------------------------------------------------
// What is dropped is what arrives
// ---------------------------------------------------------------------------

/// Text that is dropped arrives as plain text, to the character, with whatever
/// else came. A web address arrives as a link too, and as a list of links; HTML
/// arrives as HTML too, made harmless; and nothing else is added.
pub proof fn law_dropped_text_arrives(
    others: Seq<(Seq<char>, Seq<char>)>,
    data_type: Seq<char>,
    s: Seq<char>,
    key: Seq<char>,
)
    ensures
        ({
            let m = with_text(others, data_type, s);
            let link = ("http://"@.is_prefix_of(s) || "https://"@.is_prefix_of(s));
            let html = !link && ("<"@.is_prefix_of(text::trimmed_start(s)) || data_type
                == "text/html"@);
            &&& table::lookup(m, "text/plain"@) == Some(s)
            &&& link && !sanitize::is_dangerous(s) ==> table::lookup(m, "URL"@) == Some(s)
                && table::lookup(m, "text/uri-list"@) == Some(sanitize::list_cleaned(s))
            &&& link && !sanitize::is_dangerous(s) && sanitize::list_is_harmless(s)
                ==> table::lookup(m, "text/uri-list"@) == Some(s)
            &&& html ==> table::lookup(m, "text/html"@) == Some(sanitize::html_sanitized(s))
            &&& key != "text/plain"@ && (!link || sanitize::is_dangerous(s) || (key != "URL"@ && key
                != "text/uri-list"@)) && (!html || key != "text/html"@) ==> table::lookup(m, key)
                == table::lookup(others, key)
        }),
{
    reveal_strlit("text/uri-list");
    reveal_strlit("URL");
    reveal_strlit("text/html");
    reveal_strlit("text/plain");
    assert("text/plain"@.len() == 10 && "text/html"@.len() == 9 && "text/uri-list"@.len() == 13
        && "URL"@.len() == 3);
    let list = sanitize::list_cleaned(s);
    let linked = table::put(others, "text/uri-list"@, list);
    let named = table::put(linked, "URL"@, s);
    let shown = table::put(others, "text/html"@, sanitize::html_sanitized(s));
    table::law_put_then_lookup(others, "text/plain"@, s, key);
    table::law_put_then_lookup(others, "text/uri-list"@, list, key);
    table::law_put_then_lookup(linked, "URL"@, s, key);
    table::law_put_then_lookup(linked, "URL"@, s, "text/uri-list"@);
    table::law_put_then_lookup(named, "text/plain"@, s, key);
    table::law_put_then_lookup(named, "text/plain"@, s, "URL"@);
    table::law_put_then_lookup(named, "text/plain"@, s, "text/uri-list"@);
    table::law_put_then_lookup(others, "text/html"@, sanitize::html_sanitized(s), key);
    table::law_put_then_lookup(shown, "text/plain"@, s, key);
    table::law_put_then_lookup(shown, "text/plain"@, s, "text/html"@);
}

/// Data that is no browser's frame counts as the text that its bytes spell: in
/// UTF-8 behind no mark and without a zero byte, the text itself.
pub proof fn law_dropped_bytes_are_read(
    data_type: Seq<char>,
    s: Seq<char>,
    fallback: Option<Seq<char>>,
)
    requires
        s.len() > 0,
        forall|i: int| 0 <= i < s.len() ==> '\n' <= #[trigger] s[i] <= '~',
        data_type != "application/x-moz-custom-clipdata"@,
        data_type != "chromium/x-web-custom-data"@,
    ensures
        received(data_type, vstd::utf8::encode_utf8(s), fallback) == classified(
            Seq::empty(),
            data_type,
            s,
        ),
{
    lemma_plain_bytes_are_read(s);
    let b = vstd::utf8::encode_utf8(s);
    assert(browser_entries(data_type, b) =~= Seq::empty());
    assert(tiddlers_in(browser_entries(data_type, b)) is None);
    assert(others_in(browser_entries(data_type, b)) =~= Seq::empty());
    assert(received_text(b, fallback) == Some(s));
}

/// Text that is neither a list of files nor tiddlers arrives as text; tiddlers
/// arrive as tiddlers and as text.
pub proof fn law_text_is_text(
    others: Seq<(Seq<char>, Seq<char>)>,
    data_type: Seq<char>,
    s: Seq<char>,
)
    ensures
        !"file://"@.is_prefix_of(s) && data_type != "text/uri-list"@ && data_type
            != "text/vnd.tiddler"@ && !looks_like_tiddlers(s) ==> classified(others, data_type, s)
            == ReceivedView::Content(with_text(others, data_type, s)),
        data_type == "text/vnd.tiddler"@ && !"file://"@.is_prefix_of(s) ==> {
            &&& classified(others, data_type, s) is Content
            &&& table::lookup(classified(others, data_type, s)->Content_0, "text/vnd.tiddler"@)
                == Some(s)
            &&& table::lookup(classified(others, data_type, s)->Content_0, "text/plain"@) == Some(
                s,
            )
        },
        classified(others, data_type, s) is Files ==> "file://"@.is_prefix_of(s) || data_type
            == "text/uri-list"@,
{
    reveal_strlit("text/vnd.tiddler");
    reveal_strlit("text/plain");
    reveal_strlit("text/uri-list");
    assert("text/vnd.tiddler"@.len() == 16 && "text/plain"@.len() == 10 && "text/uri-list"@.len()
        == 13);
    let t = tiddler_content(s);
    assert(t[0].0 == "text/vnd.tiddler"@ && t[1].0 == "text/plain"@);
    table::lemma_position_is(t, "text/vnd.tiddler"@, 0, 0);
    table::lemma_position_is(t, "text/plain"@, 0, 1);
}

/// Of a browser's frame each entry arrives under its type, made harmless by
/// itself, but for its tiddlers, which arrive in their own way.
pub proof fn law_frame_entries_arrive(entries: Seq<(Seq<char>, Seq<char>)>, key: Seq<char>)
    requires
        table::distinct_keys(entries),
    ensures
        table::lookup(others_in(entries), key) == match table::lookup(entries, key) {
            Some(v) => if key == "text/vnd.tiddler"@ {
                None
            } else {
                frame_entry_cleaned(key, v)
            },
            None => None,
        },
        tiddlers_in(entries) == table::lookup(entries, "text/vnd.tiddler"@),
    decreases entries.len(),
{
    let t = "text/vnd.tiddler"@;
    if entries.len() > 0 {
        let front = entries.drop_last();
        let e = entries.last();
        assert forall|i: int, j: int| 0 <= i < j < front.len() implies front[i].0 != front[j].0 by {
            assert(front[i] == entries[i] && front[j] == entries[j]);
        }
        law_frame_entries_arrive(front, key);
        lemma_lookup_behind(entries, key);
        lemma_lookup_behind(entries, t);
        let before = others_in(front);
        if let Some(v) = frame_entry_cleaned(e.0, e.1) {
            table::law_put_then_lookup(before, e.0, v, key);
        }
        lemma_others_are_no_tiddlers(entries);
    }
}

proof fn lemma_lookup_behind(entries: Seq<(Seq<char>, Seq<char>)>, key: Seq<char>)
    requires
        entries.len() > 0,
        table::distinct_keys(entries),
    ensures
        table::lookup(entries, key) == if entries.last().0 == key {
            Some(entries.last().1)
        } else {
            table::lookup(entries.drop_last(), key)
        },
        entries.last().0 == key ==> table::lookup(entries.drop_last(), key) is None,
{
    let front = entries.drop_last();
    let n = entries.len() as int - 1;
    table::lemma_position(front, key, 0);
    if entries.last().0 == key {
        assert forall|j: int| 0 <= j < n implies entries[j].0 != key by {
            assert(entries[n].0 == key);
        }
        table::lemma_position_is(entries, key, 0, n);
        if let Some(i) = table::position(front, key, 0) {
            assert(front[i] == entries[i]);
        }
    } else {
        match table::position(front, key, 0) {
            Some(i) => {
                assert(entries[i] == front[i]);
                assert forall|j: int| 0 <= j < i implies entries[j].0 != key by {
                    assert(entries[j] == front[j]);
                }
                table::lemma_position_is(entries, key, 0, i);
            },
            None => {
                table::lemma_position(entries, key, 0);
                if let Some(i) = table::position(entries, key, 0) {
                    assert(entries[i] == front[i]);
                }
            },
        }
    }
}

/// How a drop is best asked for: as links, as HTML, as text, in this order.
pub open spec fn target_rank(name: Seq<char>) -> int {
    if name == "text/uri-list"@ {
        0
    } else if name == "text/html"@ {
        1
    } else if name == "text/plain"@ {
        2
    } else if name == "UTF8_STRING"@ {
        3
    } else if name == "STRING"@ {
        4
    } else {
        5
    }
}

proof fn lemma_index_of_name(names: Seq<Seq<char>>, name: Seq<char>, from: int)
    requires
        0 <= from,
    ensures
        match index_of_name(names, name, from) {
            Some(i) => from <= i < names.len() && names[i] == name && forall|j: int|
                from <= j < i ==> #[trigger] names[j] != name,
            None => forall|j: int| from <= j < names.len() ==> #[trigger] names[j] != name,
        },
    decreases names.len() - from,
{
    if from < names.len() && names[from] != name {
        lemma_index_of_name(names, name, from + 1);
    }
}

proof fn lemma_ranks(rank: int)
    requires
        0 <= rank < 5,
    ensures
        target_rank(target_name(rank)) == rank,
        forall|s: Seq<char>| #[trigger] target_rank(s) == rank ==> s == target_name(rank),
{
    reveal_strlit("text/uri-list");
    reveal_strlit("text/html");
    reveal_strlit("text/plain");
    reveal_strlit("UTF8_STRING");
    reveal_strlit("STRING");
    assert("text/uri-list"@.len() == 13 && "text/html"@.len() == 9 && "text/plain"@.len() == 10
        && "UTF8_STRING"@.len() == 11 && "STRING"@.len() == 6);
}

proof fn lemma_chosen(targets: Seq<Seq<char>>, rank: int)
    requires
        0 <= rank <= 5,
        forall|j: int| 0 <= j < targets.len() ==> target_rank(#[trigger] targets[j]) >= rank,
    ensures
        match chosen_target(targets, rank) {
            Some(i) => 0 <= i < targets.len() && forall|j: int|
                0 <= j < targets.len() ==> target_rank(targets[i]) <= target_rank(
                    #[trigger] targets[j],
                ) && (j < i ==> target_rank(targets[i]) < target_rank(targets[j])),
            None => targets.len() == 0,
        },
    decreases 5 - rank,
{
    if rank < 5 {
        lemma_ranks(rank);
        lemma_index_of_name(targets, target_name(rank), 0);
        if index_of_name(targets, target_name(rank), 0) is None {
            lemma_chosen(targets, rank + 1);
        }
    }
}

/// A drop is asked for as links where it offers links, else as HTML, else as text;
/// of several equally good offers the first counts. Only where nothing is offered
/// is nothing asked for.
pub proof fn law_best_offer_is_taken(targets: Seq<Seq<char>>)
    ensures
        match chosen_target(targets, 0) {
            Some(i) => 0 <= i < targets.len() && forall|j: int|
                0 <= j < targets.len() ==> target_rank(targets[i]) <= target_rank(
                    #[trigger] targets[j],
                ) && (j < i ==> target_rank(targets[i]) < target_rank(targets[j])),
            None => targets.len() == 0,
        },
{
    lemma_chosen(targets, 0);
}

/// A drag hands its text out in UTF-8 under every name of text, its tiddlers and
/// its address under theirs, and never HTML; what it does not carry is left to
/// the web view.
pub proof fn law_drag_hands_out_what_it_carries(d: OutgoingDragData, charset: Seq<char>)
    ensures
        d.text_plain is Some ==> {
            let bytes = vstd::utf8::encode_utf8(d.text_plain->0@);
            &&& data_for("text/plain"@, d) == ReplyView::Provide("text/plain"@, bytes)
            &&& data_for("text/plain;"@ + charset, d) == ReplyView::Provide("text/plain"@, bytes)
            &&& data_for("TEXT"@, d) == ReplyView::Provide("text/plain"@, bytes)
            &&& data_for("UTF8_STRING"@, d) == ReplyView::Provide("UTF8_STRING"@, bytes)
            &&& data_for("STRING"@, d) == ReplyView::Provide("STRING"@, bytes)
            &&& vstd::utf8::valid_utf8(bytes) && vstd::utf8::decode_utf8(bytes) == d.text_plain->0@
        },
        d.text_vnd_tiddler is Some ==> data_for("text/vnd.tiddler"@, d) == ReplyView::Provide(
            "text/vnd.tiddler"@,
            vstd::utf8::encode_utf8(d.text_vnd_tiddler->0@),
        ),
        d.url is Some ==> data_for("URL"@, d) == ReplyView::Provide(
            "URL"@,
            vstd::utf8::encode_utf8(d.url->0@),
        ) && data_for("text/uri-list"@, d) == ReplyView::Provide(
            "text/uri-list"@,
            vstd::utf8::encode_utf8(d.url->0@),
        ),
        d.url is None && d.text_uri_list is Some ==> data_for("text/uri-list"@, d)
            == ReplyView::Provide(
            "text/uri-list"@,
            vstd::utf8::encode_utf8(d.text_uri_list->0@),
        ),
        data_for("text/html"@, d) == ReplyView::Stop(false),
        data_for("text/html;"@ + charset, d) == ReplyView::Stop(false),
        d.text_plain is None ==> data_for("text/plain"@, d) is Leave,
        d.text_vnd_tiddler is None ==> data_for("text/vnd.tiddler"@, d) is Leave,
        d.url is None ==> data_for("URL"@, d) is Leave,
{
    reveal_strlit("org.webkitgtk.WebKit.custom-pasteboard-data");
    reveal_strlit("text/vnd.tiddler");
    reveal_strlit("text/plain");
    reveal_strlit("text/plain;");
    reveal_strlit("TEXT");
    reveal_strlit("UTF8_STRING");
    reveal_strlit("STRING");
    reveal_strlit("text/html");
    reveal_strlit("text/html;");
    reveal_strlit("text/uri-list");
    reveal_strlit("text/x-moz-url");
    reveal_strlit("URL");
    let p = "text/plain;"@ + charset;
    let h = "text/html;"@ + charset;
    assert(p.subrange(0, 11) =~= "text/plain;"@);
    assert(h.subrange(0, 10) =~= "text/html;"@);
    lemma_differ_at(p, "org.webkitgtk.WebKit.custom-pasteboard-data"@, 0);
    lemma_differ_at(p, "text/vnd.tiddler"@, 5);
    lemma_differ_at(h, "org.webkitgtk.WebKit.custom-pasteboard-data"@, 0);
    lemma_differ_at(h, "text/vnd.tiddler"@, 5);
    lemma_differ_at(h, "text/plain"@, 5);
    lemma_differ_at(h, "TEXT"@, 0);
    lemma_differ_at(h, "UTF8_STRING"@, 0);
    lemma_differ_at(h, "STRING"@, 0);
    assert(!"text/plain;"@.is_prefix_of(h)) by {
        if "text/plain;"@.is_prefix_of(h) {
            assert(h.subrange(0, 11)[5] == "text/plain;"@[5]);
        }
    }
    lemma_names_apart();
    if d.text_plain is Some {
        vstd::utf8::encode_utf8_valid_utf8(d.text_plain->0@);
        vstd::utf8::encode_utf8_decode_utf8(d.text_plain->0@);
    }
}

proof fn lemma_differ_at(a: Seq<char>, b: Seq<char>, i: int)
    requires
        0 <= i < a.len(),
        i < b.len(),
        a[i] != b[i],
    ensures
        a != b,
{
}

proof fn lemma_names_apart()
    ensures
        !"text/plain;"@.is_prefix_of("text/plain"@),
        !"text/plain;"@.is_prefix_of("TEXT"@),
        !"text/plain;"@.is_prefix_of("UTF8_STRING"@),
        !"text/plain;"@.is_prefix_of("STRING"@),
        !"text/plain;"@.is_prefix_of("text/html"@),
        !"text/plain;"@.is_prefix_of("text/uri-list"@),
        !"text/plain;"@.is_prefix_of("URL"@),
        !"text/html;"@.is_prefix_of("text/uri-list"@),
        !"text/html;"@.is_prefix_of("URL"@),
        !"text/html;"@.is_prefix_of("text/html"@),
        "org.webkitgtk.WebKit.custom-pasteboard-data"@.len() == 43,
        "text/vnd.tiddler"@.len() == 16,
        "text/plain"@.len() == 10,
        "TEXT"@.len() == 4,
        "UTF8_STRING"@.len() == 11,
        "STRING"@.len() == 6,
        "text/html"@.len() == 9,
        "text/uri-list"@.len() == 13,
        "text/x-moz-url"@.len() == 14,
        "URL"@.len() == 3,
{
    reveal_strlit("org.webkitgtk.WebKit.custom-pasteboard-data");
    reveal_strlit("text/vnd.tiddler");
    reveal_strlit("text/plain");
    reveal_strlit("text/plain;");
    reveal_strlit("TEXT");
    reveal_strlit("UTF8_STRING");
    reveal_strlit("STRING");
    reveal_strlit("text/html");
    reveal_strlit("text/html;");
    reveal_strlit("text/uri-list");
    reveal_strlit("text/x-moz-url");
    reveal_strlit("URL");
    if "text/plain;"@.is_prefix_of("UTF8_STRING"@) {
        assert("UTF8_STRING"@.subrange(0, 11)[0] == "text/plain;"@[0]);
    }
    if "text/plain;"@.is_prefix_of("text/uri-list"@) {
        assert("text/uri-list"@.subrange(0, 11)[5] == "text/plain;"@[5]);
    }
    if "text/html;"@.is_prefix_of("text/uri-list"@) {
        assert("text/uri-list"@.subrange(0, 10)[5] == "text/html;"@[5]);
    }
}

/// Mozilla's form of a link reads, in UTF-16, as the address, a line break and the
/// title.
pub proof fn law_moz_link_is_read(d: OutgoingDragData)
    requires
        d.text_x_moz_url is Some,
        d.text_plain is Some,
    ensures
        data_for("text/x-moz-url"@, d) is Provide,
        encoding::utf16_lossy(encoding::units_le(data_for("text/x-moz-url"@, d)->Provide_1))
            == d.text_x_moz_url->0@ + "\n"@ + d.text_plain->0@,
{
    lemma_names_apart();
    reveal_strlit("text/plain;");
    reveal_strlit("text/html;");
    reveal_strlit("text/x-moz-url");
    if "text/plain;"@.is_prefix_of("text/x-moz-url"@) {
        assert("text/x-moz-url"@.subrange(0, 11)[5] == "text/plain;"@[5]);
    }
    if "text/html;"@.is_prefix_of("text/x-moz-url"@) {
        assert("text/x-moz-url"@.subrange(0, 10)[5] == "text/html;"@[5]);
    }
    let s = d.text_x_moz_url->0@ + "\n"@ + d.text_plain->0@;
    encoding::law_utf16_round_trip(s);
    encoding::law_units_round_trip(encoding::utf16_units(s));
}

} // verus!
