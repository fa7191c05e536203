//! What the clipboard holds, in the form in which drops are reported too.

use vstd::prelude::*;
use crate::encoding;
use crate::outside;
use crate::sanitize::Platform;
use crate::table;
use crate::table::StringMap;
use crate::text;

verus! {

/// What the clipboard holds: its types in the order in which they were found,
/// and what there is under each.
pub struct ClipboardContentData {
    pub types: Vec<String>,
    pub data: StringMap,
}

impl ClipboardContentData {
    /// The types are those under which there is something, in order.
    pub open spec fn wf(self) -> bool {
        text::views(self.types@) == table::keys_of(self.data@)
    }
}

proof fn lemma_keys_push(m: Seq<(Seq<char>, Seq<char>)>, key: Seq<char>, value: Seq<char>)
    requires
        !table::has_key(m, key),
    ensures
        table::keys_of(table::put(m, key, value)) == table::keys_of(m).push(key),
{
    assert(table::keys_of(m.push((key, value))) =~= table::keys_of(m).push(key));
}

/// What was found with one type more, unless it was found before.
pub open spec fn with_type(
    m: Seq<(Seq<char>, Seq<char>)>,
    mime: Seq<char>,
    value: Seq<char>,
) -> Seq<(Seq<char>, Seq<char>)> {
    if table::has_key(m, mime) {
        m
    } else {
        table::put(m, mime, value)
    }
}

impl ClipboardContentData {
    /// Nothing.
    pub fn new() -> (r: ClipboardContentData)
        ensures
            r.wf(),
            r.data@.len() == 0,
    {
        let r = ClipboardContentData { types: Vec::new(), data: StringMap::new() };
        assert(text::views(r.types@) =~= table::keys_of(r.data@));
        r
    }

    fn add_type(&mut self, mime: &str, value: String)
        requires
            old(self).wf(),
        ensures
            final(self).wf(),
            final(self).data@ == with_type(old(self).data@, mime@, value@),
    {
        if self.data.contains_key(mime) {
            return;
        }
        let ghost m = self.data@;
        let ghost before = text::views(self.types@);
        proof {
            lemma_keys_push(m, mime@, value@);
        }
        let name: String = mime.to_owned();
        self.types.push(name);
        assert(text::views(self.types@) =~= before.push(mime@));
        self.data.insert(mime.to_owned(), value);
    }
}

// ---------------------------------------------------------------------------
// Linux
// ---------------------------------------------------------------------------

/// Bytes in which every second byte of the first two units is zero, as of
/// little-endian UTF-16.
pub open spec fn seems_wide_le(b: Seq<u8>) -> bool {
    b.len() >= 4 && b.len() % 2 == 0 && b[1] == 0 && b[3] == 0 && b[0] != 0 && b[2] != 0
}

/// Bytes in which every second byte of the first two units is zero, as of
/// big-endian UTF-16.
pub open spec fn seems_wide_be(b: Seq<u8>) -> bool {
    b.len() >= 4 && b.len() % 2 == 0 && b[0] == 0 && b[2] == 0 && b[1] != 0 && b[3] != 0
}

/// The text of units that hold no half pair alone.
pub open spec fn whole_text(u: Seq<u16>) -> Option<Seq<char>> {
    if encoding::utf16_valid(u) {
        Some(encoding::utf16_lossy(u))
    } else {
        None
    }
}

/// The text of bytes in UTF-8.
pub open spec fn utf8_text(b: Seq<u8>) -> Option<Seq<char>> {
    if vstd::utf8::valid_utf8(b) {
        Some(vstd::utf8::decode_utf8(b))
    } else {
        None
    }
}

/// The text of bytes of unknown encoding: by a byte order mark, or by the look
/// of UTF-16, or as UTF-8.
pub open spec fn clipboard_text(b: Seq<u8>) -> Option<Seq<char>> {
    if b.len() == 0 {
        None
    } else if encoding::has_bom_utf8(b) {
        utf8_text(b.skip(3))
    } else if encoding::has_bom_le(b) && b.len() % 2 == 0 {
        whole_text(encoding::units_le(b.skip(2)))
    } else if encoding::has_bom_be(b) && b.len() % 2 == 0 {
        whole_text(encoding::units_be(b.skip(2)))
    } else if seems_wide_le(b) && whole_text(encoding::units_le(b)) is Some {
        whole_text(encoding::units_le(b))
    } else if seems_wide_be(b) && whole_text(encoding::units_be(b)) is Some {
        whole_text(encoding::units_be(b))
    } else {
        utf8_text(b)
    }
}

fn tail(b: &[u8], n: usize) -> (r: &[u8])
    requires
        n <= b.len(),
    ensures
        r@ == b@.skip(n as int),
{
    let r = vstd::slice::slice_subrange(b, n, b.len());
    assert(r@ =~= b@.skip(n as int));
    r
}

/// The text of bytes of unknown encoding, where they are text.
pub fn decode_text(raw_data: &[u8]) -> (r: Option<String>)
    ensures
        text::opt_view(r) == clipboard_text(raw_data@),
{
    let n: usize = raw_data.len();
    if n == 0 {
        return None;
    }
    if n >= 3 && raw_data[0] == 0xEF && raw_data[1] == 0xBB && raw_data[2] == 0xBF {
        return outside::utf8_strict(tail(raw_data, 3));
    }
    if n >= 2 && raw_data[0] == 0xFF && raw_data[1] == 0xFE && n % 2 == 0 {
        let u: Vec<u16> = encoding::to_units_le(tail(raw_data, 2));
        return encoding::from_utf16(u.as_slice());
    }
    if n >= 2 && raw_data[0] == 0xFE && raw_data[1] == 0xFF && n % 2 == 0 {
        let u: Vec<u16> = encoding::to_units_be(tail(raw_data, 2));
        return encoding::from_utf16(u.as_slice());
    }
    if n >= 4 && n % 2 == 0 {
        if raw_data[1] == 0 && raw_data[3] == 0 && raw_data[0] != 0 && raw_data[2] != 0 {
            let u: Vec<u16> = encoding::to_units_le(raw_data);
            if let Some(s) = encoding::from_utf16(u.as_slice()) {
                return Some(s);
            }
        }
        if raw_data[0] == 0 && raw_data[2] == 0 && raw_data[1] != 0 && raw_data[3] != 0 {
            let u: Vec<u16> = encoding::to_units_be(raw_data);
            if let Some(s) = encoding::from_utf16(u.as_slice()) {
                return Some(s);
            }
        }
    }
    outside::utf8_strict(raw_data)
}

/// The text of a clipboard answer: UTF-8, unless it holds a zero byte.
pub open spec fn answer_text(b: Seq<u8>) -> Option<Seq<char>> {
    if b.contains(0) {
        clipboard_text(b)
    } else {
        utf8_text(b)
    }
}

/// The type under which the answer to a clipboard format is reported.
pub open spec fn reported_type(format: Seq<char>) -> Seq<char> {
    if format == "UTF8_STRING"@ || format == "STRING"@ {
        "text/plain"@
    } else {
        format
    }
}

/// What was found with the answer to one format more, where it is text.
pub open spec fn with_answer(
    m: Seq<(Seq<char>, Seq<char>)>,
    format: Seq<char>,
    raw: Seq<u8>,
) -> Seq<(Seq<char>, Seq<char>)> {
    match answer_text(raw) {
        Some(s) => if s.len() > 0 {
            with_type(m, reported_type(format), s)
        } else {
            m
        },
        None => m,
    }
}

/// The formats that are asked for, in order: lists of files first.
pub open spec fn clipboard_format(i: int) -> Seq<char> {
    if i == 0 {
        "text/uri-list"@
    } else if i == 1 {
        "x-special/gnome-copied-files"@
    } else if i == 2 {
        "x-special/kde-copied-files"@
    } else if i == 3 {
        "x-special/KDE-copied-files"@
    } else if i == 4 {
        "x-special/mate-copied-files"@
    } else if i == 5 {
        "text/vnd.tiddler"@
    } else if i == 6 {
        "text/html"@
    } else if i == 7 {
        "text/plain"@
    } else if i == 8 {
        "UTF8_STRING"@
    } else {
        "STRING"@
    }
}

/// What was found with the answers to the first `n` formats.
pub open spec fn with_answers(answers: Seq<Vec<u8>>, n: int) -> Seq<(Seq<char>, Seq<char>)>
    decreases n,
{
    if n <= 0 {
        Seq::empty()
    } else {
        with_answer(with_answers(answers, n - 1), clipboard_format(n - 1), answers[n - 1]@)
    }
}

/// What the clipboard holds: the answers to the formats, or else the text that
/// the toolkit made of it.
pub open spec fn linux_content(answers: Seq<Vec<u8>>, fallback: Option<Seq<char>>) -> Seq<
    (Seq<char>, Seq<char>),
> {
    let m = with_answers(answers, answers.len() as int);
    match fallback {
        Some(s) => if m.len() == 0 && s.len() > 0 {
            with_type(m, "text/plain"@, s)
        } else {
            m
        },
        None => m,
    }
}

/// The formats that are asked for, in order.
pub fn formats_to_try() -> (r: Vec<String>)
    ensures
        r.len() == 10,
        forall|i: int| 0 <= i < 10 ==> (#[trigger] r@[i])@ == clipboard_format(i),
{
    let mut out: Vec<String> = Vec::new();
    out.push("text/uri-list".to_owned());
    out.push("x-special/gnome-copied-files".to_owned());
    out.push("x-special/kde-copied-files".to_owned());
    out.push("x-special/KDE-copied-files".to_owned());
    out.push("x-special/mate-copied-files".to_owned());
    out.push("text/vnd.tiddler".to_owned());
    out.push("text/html".to_owned());
    out.push("text/plain".to_owned());
    out.push("UTF8_STRING".to_owned());
    out.push("STRING".to_owned());
    out
}

fn holds_zero(b: &[u8]) -> (r: bool)
    ensures
        r == b@.contains(0),
{
    let mut i: usize = 0;
    while i < b.len()
        invariant
            i <= b.len(),
            forall|j: int| 0 <= j < i ==> b@[j] != 0,
        decreases b.len() - i,
    {
        if b[i] == 0 {
            return true;
        }
        i = i + 1;
    }
    false
}

fn read_answer(b: &[u8]) -> (r: Option<String>)
    ensures
        text::opt_view(r) == answer_text(b@),
{
    if holds_zero(b) {
        decode_text(b)
    } else {
        outside::utf8_strict(b)
    }
}

/// What the clipboard holds. `answers` are what came back for the formats, in the
/// order in which they are asked for, without bytes where nothing did; `fallback`
/// is the text that the toolkit makes of the clipboard.
pub fn get_clipboard_content_linux(answers: &Vec<Vec<u8>>, fallback: Option<String>) -> (r:
    ClipboardContentData)
    requires
        answers@.len() <= 10,
    ensures
        r.wf(),
        r.data@ == linux_content(answers@, text::opt_view(fallback)),
{
    let formats: Vec<String> = formats_to_try();
    let mut c: ClipboardContentData = ClipboardContentData::new();
    let mut i: usize = 0;
    assert(c.data@ =~= with_answers(answers@, 0));
    while i < answers.len()
        invariant
            i <= answers.len() <= 10,
            formats.len() == 10,
            forall|j: int| 0 <= j < 10 ==> (#[trigger] formats@[j])@ == clipboard_format(j),
            c.wf(),
            c.data@ == with_answers(answers@, i as int),
        decreases answers.len() - i,
    {
        let format: &str = formats[i].as_str();
        if let Some(s) = read_answer(answers[i].as_slice()) {
            if !s.as_str().is_empty() {
                let mime: &str = if text::same(format, "UTF8_STRING") || text::same(
                    format,
                    "STRING",
                ) {
                    "text/plain"
                } else {
                    format
                };
                c.add_type(mime, s);
            }
        }
        i = i + 1;
    }
    if let Some(s) = fallback {
        if c.data.len() == 0 && !s.as_str().is_empty() {
            c.add_type("text/plain", s);
        }
    }
    c
}

proof fn lemma_marked_le(body: Seq<u8>, s: Seq<char>)
    requires
        body.len() % 2 == 0,
        encoding::utf16_valid(encoding::units_le(body)),
        encoding::utf16_lossy(encoding::units_le(body)) == s,
    ensures
        clipboard_text(seq![0xFFu8, 0xFEu8] + body) == Some(s),
        body.contains(0) ==> answer_text(seq![0xFFu8, 0xFEu8] + body) == Some(s),
{
    let b = seq![0xFFu8, 0xFEu8] + body;
    assert(b.skip(2) =~= body);
    assert(b.len() == 2 + body.len());
    if body.contains(0) {
        let i = choose|i: int| 0 <= i < body.len() && body[i] == 0;
        assert(b[i + 2] == 0);
    }
}

proof fn lemma_marked_be(body: Seq<u8>, s: Seq<char>)
    requires
        body.len() % 2 == 0,
        encoding::utf16_valid(encoding::units_be(body)),
        encoding::utf16_lossy(encoding::units_be(body)) == s,
    ensures
        clipboard_text(seq![0xFEu8, 0xFFu8] + body) == Some(s),
        body.contains(0) ==> answer_text(seq![0xFEu8, 0xFFu8] + body) == Some(s),
{
    let b = seq![0xFEu8, 0xFFu8] + body;
    assert(b.skip(2) =~= body);
    assert(b.len() == 2 + body.len());
    if body.contains(0) {
        let i = choose|i: int| 0 <= i < body.len() && body[i] == 0;
        assert(b[i + 2] == 0);
    }
}

/// Text in UTF-16 behind a byte order mark is read as what it is: behind FF FE
/// with the low byte of each unit first, behind FE FF with the high byte first.
/// An answer from the clipboard is read so where it holds a zero byte, as
/// UTF-16 of Latin text does.
pub proof fn law_marked_text_is_pasted(s: Seq<char>)
    ensures
        clipboard_text(seq![0xFFu8, 0xFEu8] + encoding::bytes_le(encoding::utf16_units(s))) == Some(
            s,
        ),
        clipboard_text(seq![0xFEu8, 0xFFu8] + encoding::bytes_be(encoding::utf16_units(s))) == Some(
            s,
        ),
        encoding::bytes_le(encoding::utf16_units(s)).contains(0) ==> answer_text(
            seq![0xFFu8, 0xFEu8] + encoding::bytes_le(encoding::utf16_units(s)),
        ) == Some(s),
        encoding::bytes_be(encoding::utf16_units(s)).contains(0) ==> answer_text(
            seq![0xFEu8, 0xFFu8] + encoding::bytes_be(encoding::utf16_units(s)),
        ) == Some(s),
{
    let u = encoding::utf16_units(s);
    encoding::law_units_round_trip(u);
    encoding::law_utf16_round_trip(s);
    lemma_marked_le(encoding::bytes_le(u), s);
    lemma_marked_be(encoding::bytes_be(u), s);
}

/// Text in UTF-8 behind its byte order mark is read as what it is.
pub proof fn law_marked_utf8_is_pasted(s: Seq<char>)
    ensures
        clipboard_text(seq![0xEFu8, 0xBBu8, 0xBFu8] + vstd::utf8::encode_utf8(s)) == Some(s),
{
    let e = vstd::utf8::encode_utf8(s);
    let b = seq![0xEFu8, 0xBBu8, 0xBFu8] + e;
    vstd::utf8::encode_utf8_valid_utf8(s);
    vstd::utf8::encode_utf8_decode_utf8(s);
    assert(b.skip(3) =~= e);
    assert(b[0] == 0xEF && b[1] == 0xBB && b[2] == 0xBF);
}

/// Text in UTF-8 without a zero byte, as most applications offer it, is read as
/// what it is.
pub proof fn law_plain_text_is_pasted(s: Seq<char>)
    requires
        !vstd::utf8::encode_utf8(s).contains(0),
    ensures
        answer_text(vstd::utf8::encode_utf8(s)) == Some(s),
{
    vstd::utf8::encode_utf8_valid_utf8(s);
    vstd::utf8::encode_utf8_decode_utf8(s);
}

proof fn lemma_latin_start(s: Seq<char>)
    requires
        s.len() >= 2,
        0 < s[0] as int && (s[0] as int) < 256,
        0 < s[1] as int && (s[1] as int) < 256,
    ensures
        encoding::utf16_units(s).len() >= 2,
        encoding::utf16_units(s)[0] == s[0] as int,
        encoding::utf16_units(s)[1] == s[1] as int,
{
    reveal_with_fuel(encoding::utf16_units, 3);
    let t = s.skip(1);
    assert(t[0] == s[1]);
    assert(encoding::utf16_units(s) =~= encoding::char_units(s[0]) + encoding::utf16_units(t));
    assert(encoding::utf16_units(t) =~= encoding::char_units(t[0]) + encoding::utf16_units(
        t.skip(1),
    ));
}

/// Text in UTF-16 without a mark is read as what it is, in either byte order,
/// where it begins with two characters of Latin-1 that are not NUL.
pub proof fn law_wide_text_is_pasted(s: Seq<char>)
    requires
        s.len() >= 2,
        0 < s[0] as int && (s[0] as int) < 256,
        0 < s[1] as int && (s[1] as int) < 256,
    ensures
        answer_text(encoding::bytes_le(encoding::utf16_units(s))) == Some(s),
        answer_text(encoding::bytes_be(encoding::utf16_units(s))) == Some(s),
{
    let u = encoding::utf16_units(s);
    let le = encoding::bytes_le(u);
    let be = encoding::bytes_be(u);
    lemma_latin_start(s);
    encoding::law_units_round_trip(u);
    encoding::law_utf16_round_trip(s);
    assert(le.len() == 2 * u.len() && be.len() == 2 * u.len());
    assert(le[0] == u[0] % 256 && le[1] == u[0] / 256 && le[2] == u[1] % 256 && le[3] == u[1]
        / 256);
    assert(be[0] == u[0] / 256 && be[1] == u[0] % 256 && be[2] == u[1] / 256 && be[3] == u[1]
        % 256);
    assert(le[1] == 0 && be[0] == 0);
}

/// The answer to the format is text.
pub open spec fn answers_text(answers: Seq<Vec<u8>>, i: int) -> bool {
    answer_text(answers[i]@) is Some && answer_text(answers[i]@)->0.len() > 0
}

proof fn lemma_answer_found(answers: Seq<Vec<u8>>, i: int, n: int)
    requires
        0 <= i < answers.len(),
        0 <= n <= answers.len(),
        answers_text(answers, i),
        forall|j: int|
            0 <= j < i && #[trigger] answers_text(answers, j) ==> reported_type(clipboard_format(j))
                != reported_type(clipboard_format(i)),
    ensures
        n <= i ==> !table::has_key(with_answers(answers, n), reported_type(clipboard_format(i))),
        n > i ==> table::lookup(with_answers(answers, n), reported_type(clipboard_format(i)))
            == answer_text(answers[i]@),
    decreases n,
{
    let mime = reported_type(clipboard_format(i));
    if n > 0 {
        lemma_answer_found(answers, i, n - 1);
        let before = with_answers(answers, n - 1);
        if answers_text(answers, n - 1) {
            let other = reported_type(clipboard_format(n - 1));
            table::law_put_then_lookup(before, other, answer_text(answers[n - 1]@)->0, mime);
        }
    }
}

proof fn lemma_formats_apart()
    ensures
        forall|i: int, j: int|
            #![trigger clipboard_format(i), clipboard_format(j)]
            0 <= i < j < 10 && i < 7 ==> reported_type(clipboard_format(i)) != reported_type(
                clipboard_format(j),
            ),
        forall|i: int| 7 <= i < 10 ==> reported_type(#[trigger] clipboard_format(i)) == "text/plain"@,
        forall|i: int| 0 <= i < 7 ==> reported_type(#[trigger] clipboard_format(i)) == clipboard_format(i),
{
    reveal_strlit("text/uri-list");
    reveal_strlit("x-special/gnome-copied-files");
    reveal_strlit("x-special/kde-copied-files");
    reveal_strlit("x-special/KDE-copied-files");
    reveal_strlit("x-special/mate-copied-files");
    reveal_strlit("text/vnd.tiddler");
    reveal_strlit("text/html");
    reveal_strlit("text/plain");
    reveal_strlit("UTF8_STRING");
    reveal_strlit("STRING");
    assert("text/uri-list"@.len() == 13 && "x-special/gnome-copied-files"@.len() == 28
        && "x-special/kde-copied-files"@.len() == 26 && "x-special/KDE-copied-files"@.len() == 26
        && "x-special/mate-copied-files"@.len() == 27 && "text/vnd.tiddler"@.len() == 16
        && "text/html"@.len() == 9 && "text/plain"@.len() == 10 && "UTF8_STRING"@.len() == 11
        && "STRING"@.len() == 6);
    assert("x-special/kde-copied-files"@[10] == 'k' && "x-special/KDE-copied-files"@[10] == 'K');
}

/// The clipboard is asked for lists of files, tiddlers, HTML and text. What it
/// answers is reported under the type that was asked for, plain text under
/// `text/plain` whichever of its three names was asked for; of several answers
/// for one type the first that is text counts.
pub proof fn law_first_answer_is_reported(
    answers: Seq<Vec<u8>>,
    fallback: Option<Seq<char>>,
    i: int,
)
    requires
        0 <= i < answers.len() <= 10,
        answer_text(answers[i]@) is Some,
        answer_text(answers[i]@)->0.len() > 0,
        forall|j: int| 7 <= j < i ==> !#[trigger] answers_text(answers, j),
    ensures
        table::lookup(
            linux_content(answers, fallback),
            seq![
                "text/uri-list"@,
                "x-special/gnome-copied-files"@,
                "x-special/kde-copied-files"@,
                "x-special/KDE-copied-files"@,
                "x-special/mate-copied-files"@,
                "text/vnd.tiddler"@,
                "text/html"@,
                "text/plain"@,
                "text/plain"@,
                "text/plain"@,
            ][i],
        ) == answer_text(answers[i]@),
{
    lemma_formats_apart();
    assert(answers_text(answers, i));
    lemma_answer_found(answers, i, answers.len() as int);
    let mime = reported_type(clipboard_format(i));
    table::lemma_position(with_answers(answers, answers.len() as int), mime, 0);
}

proof fn lemma_answers_come_from(answers: Seq<Vec<u8>>, n: int, k: int)
    requires
        0 <= n <= answers.len(),
        0 <= k < with_answers(answers, n).len(),
    ensures
        with_answers(answers, n)[k].1.len() > 0,
        exists|i: int|
            0 <= i < n && #[trigger] answers_text(answers, i) && with_answers(answers, n)[k] == (
                reported_type(clipboard_format(i)),
                answer_text(answers[i]@)->0,
            ),
    decreases n,
{
    if n > 0 {
        let before = with_answers(answers, n - 1);
        if k < before.len() {
            lemma_answers_come_from(answers, n - 1, k);
            if answers_text(answers, n - 1) {
                assert(with_answers(answers, n)[k] == before[k]);
            }
        } else {
            assert(answers_text(answers, n - 1));
        }
    }
}

/// Everything that is reported is text that the clipboard answered with, or, where
/// no answer was text, what the toolkit made of it; and that is reported then.
pub proof fn law_only_answers_are_reported(
    answers: Seq<Vec<u8>>,
    fallback: Option<Seq<char>>,
    k: int,
)
    requires
        answers.len() <= 10,
    ensures
        0 <= k < linux_content(answers, fallback).len() ==> {
            let e = linux_content(answers, fallback)[k];
            e.1.len() > 0 && ((exists|i: int|
                0 <= i < answers.len() && #[trigger] answers_text(answers, i) && e.1
                    == answer_text(answers[i]@)->0) || fallback == Some(e.1))
        },
        (forall|i: int| 0 <= i < answers.len() ==> !#[trigger] answers_text(answers, i)) ==> linux_content(
            answers,
            fallback,
        ) == (if fallback is Some && fallback->0.len() > 0 {
            seq![("text/plain"@, fallback->0)]
        } else {
            Seq::empty()
        }),
{
    let n = answers.len() as int;
    let m = with_answers(answers, n);
    if 0 <= k < m.len() {
        lemma_answers_come_from(answers, n, k);
    }
    if forall|i: int| 0 <= i < answers.len() ==> !#[trigger] answers_text(answers, i) {
        if m.len() > 0 {
            lemma_answers_come_from(answers, n, 0);
        }
        assert(m =~= Seq::empty());
        if fallback is Some && fallback->0.len() > 0 {
            assert(linux_content(answers, fallback) =~= seq![("text/plain"@, fallback->0)]);
        }
    }
}

// ---------------------------------------------------------------------------
// Windows
// ---------------------------------------------------------------------------

/// A path of the file system as a file URI.
pub open spec fn file_uri(path: Seq<char>) -> Seq<char> {
    "file:///"@ + text::char_replaced(path, '\\', '/')
}

/// The URIs of the paths that are not empty, one on each line.
pub open spec fn file_uris(paths: Seq<Vec<u16>>) -> Seq<char>
    decreases paths.len(),
{
    if paths.len() == 0 {
        Seq::empty()
    } else {
        let before = file_uris(paths.drop_last());
        let path = encoding::utf16_lossy(paths.last()@);
        if path.len() == 0 {
            before
        } else if before.len() == 0 {
            file_uri(path)
        } else {
            before + "\n"@ + file_uri(path)
        }
    }
}

/// The URIs of the paths, one on each line.
pub fn uri_list_of_paths(paths: &Vec<Vec<u16>>) -> (r: String)
    ensures
        r@ == file_uris(paths@),
{
    let mut out: String = String::new();
    let mut i: usize = 0;
    assert(out@ =~= file_uris(paths@.take(0)));
    while i < paths.len()
        invariant
            i <= paths.len(),
            out@ == file_uris(paths@.take(i as int)),
        decreases paths.len() - i,
    {
        assert(paths@.take(i + 1).drop_last() =~= paths@.take(i as int));
        assert(paths@.take(i + 1).last() == paths@[i as int]);
        let path: String = encoding::from_utf16_lossy(paths[i].as_slice());
        if !path.as_str().is_empty() {
            let forward: String = text::replace_char(path.as_str(), '\\', '/');
            let uri: String = text::concat("file:///", forward.as_str());
            let first: bool = out.as_str().is_empty();
            if !first {
                out.append("\n");
            }
            out.append(uri.as_str());
            assert(first ==> out@ =~= uri@);
        }
        i = i + 1;
    }
    assert(paths@.take(i as int) =~= paths@);
    out
}

/// The end marker of a fragment stands before the end of its start marker.
pub open spec fn markers_cross(html: Seq<char>) -> bool {
    match (
        text::index_of_sub(html, "<!--StartFragment-->"@, 0),
        text::index_of_sub(html, "<!--EndFragment-->"@, 0),
    ) {
        (Some(i), Some(j)) => j < i + 20,
        _ => false,
    }
}

/// Whether the end marker of a fragment stands before the end of its start
/// marker.
pub fn fragment_markers_cross(html: &str) -> (r: bool)
    ensures
        r == markers_cross(html@),
{
    proof {
        reveal_strlit("<!--StartFragment-->");
    }
    match (text::find_sub(html, "<!--StartFragment-->"), text::find_sub(html, "<!--EndFragment-->")) {
        (Some(i), Some(j)) => j < i + 20,
        _ => false,
    }
}

/// The fragment of HTML from the clipboard: what stands between its markers;
/// all of it where there is no start marker, and nothing where only the end
/// marker is missing.
pub open spec fn clipboard_fragment(html: Seq<char>) -> Option<Seq<char>> {
    match text::index_of_sub(html, "<!--StartFragment-->"@, 0) {
        Some(i) => match text::index_of_sub(html, "<!--EndFragment-->"@, 0) {
            Some(j) => Some(html.subrange(i + 20, j)),
            None => None,
        },
        None => if html.len() > 0 {
            Some(html)
        } else {
            None
        },
    }
}

fn fragment(html: &str) -> (r: Option<String>)
    requires
        !markers_cross(html@),
    ensures
        text::opt_view(r) == clipboard_fragment(html@),
{
    proof {
        reveal_strlit("<!--StartFragment-->");
    }
    match text::find_sub(html, "<!--StartFragment-->") {
        Some(i) => match text::find_sub(html, "<!--EndFragment-->") {
            Some(j) => Some(html.substring_char(i + 20, j).to_owned()),
            None => None,
        },
        None => {
            if html.is_empty() {
                None
            } else {
                Some(html.to_owned())
            }
        },
    }
}

/// What the HTML format of the clipboard holds, up to its terminating zero.
pub fn clipboard_html_text(bytes: &[u8]) -> (r: String)
    ensures
        r@ == outside::utf8_lossy_decoded(bytes@.take(encoding::zero_byte(bytes@, 0))),
{
    let mut n: usize = 0;
    while n < bytes.len() && bytes[n] != 0
        invariant
            n <= bytes.len(),
            encoding::zero_byte(bytes@, 0) == encoding::zero_byte(bytes@, n as int),
        decreases bytes.len() - n,
    {
        n = n + 1;
    }
    let head: &[u8] = vstd::slice::slice_subrange(bytes, 0, n);
    assert(head@ =~= bytes@.take(n as int));
    outside::utf8_lossy(head)
}

/// What the clipboard holds: its files, the fragment of its HTML, and its text.
pub open spec fn windows_content(
    paths: Seq<Vec<u16>>,
    html: Option<Seq<char>>,
    units: Option<Seq<u16>>,
) -> Seq<(Seq<char>, Seq<char>)> {
    let m0 = Seq::<(Seq<char>, Seq<char>)>::empty();
    let m1 = if file_uris(paths).len() > 0 {
        with_type(m0, "text/uri-list"@, file_uris(paths))
    } else {
        m0
    };
    let m2 = match html {
        Some(h) => match clipboard_fragment(h) {
            Some(f) => with_type(m1, "text/html"@, f),
            None => m1,
        },
        None => m1,
    };
    match units {
        Some(u) => {
            let s = encoding::utf16_lossy(encoding::until_zero(u));
            if s.len() > 0 {
                with_type(m2, "text/plain"@, s)
            } else {
                m2
            }
        },
        None => m2,
    }
}

/// What the clipboard holds, where its HTML is text. `paths` are the paths of its
/// files, `html` the text of its HTML format, and `units` its Unicode text.
pub fn windows_clipboard(
    paths: &Vec<Vec<u16>>,
    html: Option<String>,
    units: Option<Vec<u16>>,
) -> (r: ClipboardContentData)
    requires
        html is Some ==> !markers_cross(html->0@),
    ensures
        r.wf(),
        r.data@ == windows_content(
            paths@,
            text::opt_view(html),
            match units {
                Some(u) => Some(u@),
                None => None,
            },
        ),
{
    let mut c: ClipboardContentData = ClipboardContentData::new();
    assert(c.data@ =~= Seq::empty());
    let list: String = uri_list_of_paths(paths);
    if !list.as_str().is_empty() {
        c.add_type("text/uri-list", list);
    }
    if let Some(h) = html {
        if let Some(f) = fragment(h.as_str()) {
            c.add_type("text/html", f);
        }
    }
    if let Some(u) = units {
        let cut: Vec<u16> = encoding::take_until_zero(u.as_slice());
        let s: String = encoding::from_utf16_lossy(cut.as_slice());
        if !s.as_str().is_empty() {
            c.add_type("text/plain", s);
        }
    }
    c
}

/// The text of bytes of the clipboard's HTML format, up to their terminating
/// zero.
pub open spec fn html_text(html: Option<Vec<u8>>) -> Option<Seq<char>> {
    match html {
        Some(b) => Some(
            outside::utf8_lossy_decoded(b@.take(encoding::zero_byte(b@, 0))),
        ),
        None => None,
    }
}

/// What the clipboard holds. `paths` are the paths of its files, `html` the bytes
/// of its HTML format, and `units` its Unicode text. Gives nothing where the
/// markers in the HTML cross.
pub fn get_clipboard_content_windows(
    paths: &Vec<Vec<u16>>,
    html: Option<Vec<u8>>,
    units: Option<Vec<u16>>,
) -> (r: Option<ClipboardContentData>)
    ensures
        r is None <==> (html is Some && markers_cross(html_text(html)->0)),
        match r {
            Some(c) => c.wf() && c.data@ == windows_content(
                paths@,
                html_text(html),
                match units {
                    Some(u) => Some(u@),
                    None => None,
                },
            ),
            None => true,
        },
{
    let decoded: Option<String> = match &html {
        Some(b) => {
            let h: String = clipboard_html_text(b.as_slice());
            if fragment_markers_cross(h.as_str()) {
                return None;
            }
            Some(h)
        },
        None => None,
    };
    Some(windows_clipboard(paths, decoded, units))
}

/// A text as it is put on the clipboard: in UTF-16, with a terminating zero.
pub fn clipboard_units(s: &str) -> (r: Vec<u16>)
    ensures
        r@ == encoding::utf16_units(s@).push(0),
{
    let mut u: Vec<u16> = encoding::to_utf16(s);
    u.push(0);
    u
}

/// Text without NUL that is put on the clipboard is what is read from it.
pub proof fn law_copied_text_is_pasted(s: Seq<char>)
    requires
        s.len() > 0,
        forall|i: int| 0 <= i < s.len() ==> s[i] != '\0',
    ensures
        windows_content(Seq::empty(), None, Some(encoding::utf16_units(s).push(0))) == seq![
            ("text/plain"@, s),
        ],
{
    encoding::lemma_units_not_zero(s);
    encoding::lemma_until_zero_push(encoding::utf16_units(s));
    encoding::law_utf16_round_trip(s);
    let m = Seq::<(Seq<char>, Seq<char>)>::empty();
    assert(with_type(m, "text/plain"@, s) =~= seq![("text/plain"@, s)]);
}

// ---------------------------------------------------------------------------
// macOS
// ---------------------------------------------------------------------------

/// The pasteboard types that are asked for, in order.
pub open spec fn pasteboard_type(i: int) -> Seq<char> {
    if i == 0 {
        "public.html"@
    } else if i == 1 {
        "Apple HTML pasteboard type"@
    } else if i == 2 {
        "public.utf8-plain-text"@
    } else if i == 3 {
        "NSStringPboardType"@
    } else {
        "public.plain-text"@
    }
}

/// The type under which the answer to a pasteboard type is reported.
pub open spec fn pasteboard_mime(i: int) -> Seq<char> {
    if i < 2 {
        "text/html"@
    } else {
        "text/plain"@
    }
}

/// The pasteboard types that are asked for, in order.
pub fn pasteboard_types() -> (r: Vec<String>)
    ensures
        r.len() == 5,
        forall|i: int| 0 <= i < 5 ==> (#[trigger] r@[i])@ == pasteboard_type(i),
{
    let mut out: Vec<String> = Vec::new();
    out.push("public.html".to_owned());
    out.push("Apple HTML pasteboard type".to_owned());
    out.push("public.utf8-plain-text".to_owned());
    out.push("NSStringPboardType".to_owned());
    out.push("public.plain-text".to_owned());
    out
}

/// What was found with the first `n` answers.
pub open spec fn with_strings(
    m: Seq<(Seq<char>, Seq<char>)>,
    answers: Seq<Option<String>>,
    n: int,
) -> Seq<(Seq<char>, Seq<char>)>
    decreases n,
{
    if n <= 0 {
        m
    } else {
        let before = with_strings(m, answers, n - 1);
        match answers[n - 1] {
            Some(s) => if s@.len() > 0 {
                with_type(before, pasteboard_mime(n - 1), s@)
            } else {
                before
            },
            None => before,
        }
    }
}

/// What the clipboard holds: the file that was copied, and what the pasteboard
/// types brought.
pub open spec fn macos_content(file_url: Option<Seq<char>>, answers: Seq<Option<String>>) -> Seq<
    (Seq<char>, Seq<char>),
> {
    let m0 = Seq::<(Seq<char>, Seq<char>)>::empty();
    let m1 = match file_url {
        Some(u) => if "file://"@.is_prefix_of(u) {
            with_type(m0, "text/uri-list"@, u)
        } else {
            m0
        },
        None => m0,
    };
    with_strings(m1, answers, answers.len() as int)
}

/// What the clipboard holds. `file_url` is its `public.file-url` and `answers`
/// what came back for the pasteboard types, in order.
pub fn get_clipboard_content_macos(file_url: Option<String>, answers: &Vec<Option<String>>) -> (r:
    ClipboardContentData)
    ensures
        r.wf(),
        r.data@ == macos_content(text::opt_view(file_url), answers@),
{
    let mut c: ClipboardContentData = ClipboardContentData::new();
    assert(c.data@ =~= Seq::empty());
    if let Some(u) = file_url {
        if text::starts_with(u.as_str(), "file://") {
            c.add_type("text/uri-list", u);
        }
    }
    let ghost m = c.data@;
    let mut i: usize = 0;
    while i < answers.len()
        invariant
            i <= answers.len(),
            c.wf(),
            c.data@ == with_strings(m, answers@, i as int),
        decreases answers.len() - i,
    {
        if let Some(s) = &answers[i] {
            if !s.as_str().is_empty() {
                let mime: &str = if i < 2 {
                    "text/html"
                } else {
                    "text/plain"
                };
                c.add_type(mime, s.clone());
            }
        }
        i = i + 1;
    }
    c
}

/// Why the clipboard cannot be had on the platform, where it cannot.
pub fn clipboard_fault(platform: Platform) -> (r: Option<String>)
    ensures
        text::opt_view(r) == if platform == Platform::Android {
            Some("Clipboard not implemented on Android"@)
        } else {
            None
        },
{
    if platform == Platform::Android {
        Some("Clipboard not implemented on Android".to_owned())
    } else {
        None
    }
}

proof fn lemma_with_type_distinct(m: Seq<(Seq<char>, Seq<char>)>, mime: Seq<char>, value: Seq<char>)
    requires
        table::distinct_keys(m),
    ensures
        table::distinct_keys(with_type(m, mime, value)),
{
    table::law_put_then_lookup(m, mime, value, mime);
}

proof fn lemma_answers_distinct(answers: Seq<Vec<u8>>, n: int)
    ensures
        table::distinct_keys(with_answers(answers, n)),
    decreases n,
{
    if n > 0 {
        lemma_answers_distinct(answers, n - 1);
        if let Some(s) = answer_text(answers[n - 1]@) {
            lemma_with_type_distinct(
                with_answers(answers, n - 1),
                reported_type(clipboard_format(n - 1)),
                s,
            );
        }
    }
}

proof fn lemma_strings_distinct(
    m: Seq<(Seq<char>, Seq<char>)>,
    answers: Seq<Option<String>>,
    n: int,
)
    requires
        table::distinct_keys(m),
    ensures
        table::distinct_keys(with_strings(m, answers, n)),
    decreases n,
{
    if n > 0 {
        lemma_strings_distinct(m, answers, n - 1);
        if let Some(s) = answers[n - 1] {
            lemma_with_type_distinct(
                with_strings(m, answers, n - 1),
                pasteboard_mime(n - 1),
                s@,
            );
        }
    }
}

/// No type is reported twice, on any system.
pub proof fn law_types_are_distinct(
    answers: Seq<Vec<u8>>,
    fallback: Option<Seq<char>>,
    paths: Seq<Vec<u16>>,
    html: Option<Seq<char>>,
    units: Option<Seq<u16>>,
    file_url: Option<Seq<char>>,
    strings: Seq<Option<String>>,
)
    ensures
        table::distinct_keys(linux_content(answers, fallback)),
        table::distinct_keys(windows_content(paths, html, units)),
        table::distinct_keys(macos_content(file_url, strings)),
{
    let none = Seq::<(Seq<char>, Seq<char>)>::empty();
    lemma_answers_distinct(answers, answers.len() as int);
    if let Some(s) = fallback {
        lemma_with_type_distinct(with_answers(answers, answers.len() as int), "text/plain"@, s);
    }
    lemma_with_type_distinct(none, "text/uri-list"@, file_uris(paths));
    let listed = if file_uris(paths).len() > 0 {
        with_type(none, "text/uri-list"@, file_uris(paths))
    } else {
        none
    };
    let shown = match html {
        Some(h) => match clipboard_fragment(h) {
            Some(f) => with_type(listed, "text/html"@, f),
            None => listed,
        },
        None => listed,
    };
    if html is Some && clipboard_fragment(html->0) is Some {
        lemma_with_type_distinct(listed, "text/html"@, clipboard_fragment(html->0)->0);
    }
    if let Some(u) = units {
        lemma_with_type_distinct(
            shown,
            "text/plain"@,
            encoding::utf16_lossy(encoding::until_zero(u)),
        );
    }
    if let Some(u) = file_url {
        lemma_with_type_distinct(none, "text/uri-list"@, u);
    }
    let first = match file_url {
        Some(u) => if "file://"@.is_prefix_of(u) {
            with_type(none, "text/uri-list"@, u)
        } else {
            none
        },
        None => none,
    };
    lemma_strings_distinct(first, strings, strings.len() as int);
}

// ---------------------------------------------------------------------------
// What was copied is what is pasted
// ---------------------------------------------------------------------------

proof fn lemma_found_at(s: Seq<char>, pat: Seq<char>, from: int, i: int)
    requires
        0 <= from <= i,
        text::occurs_at(s, pat, i),
        forall|k: int| from <= k < i ==> !#[trigger] text::occurs_at(s, pat, k),
    ensures
        text::index_of_sub(s, pat, from) == Some(i),
    decreases i - from,
{
    text::lemma_index_of_sub(s, pat, from);
    if from < i {
        lemma_found_at(s, pat, from + 1, i);
    }
}

/// Of HTML on the clipboard what stands between the first start marker and the
/// first end marker is pasted.
pub proof fn law_fragment_is_pasted(head: Seq<char>, fragment: Seq<char>, tail: Seq<char>)
    requires
        forall|k: int|
            0 <= k < head.len() ==> !#[trigger] text::occurs_at(
                head + "<!--StartFragment-->"@ + fragment + "<!--EndFragment-->"@ + tail,
                "<!--StartFragment-->"@,
                k,
            ),
        forall|k: int|
            0 <= k < head.len() + "<!--StartFragment-->"@.len() + fragment.len()
                ==> !#[trigger] text::occurs_at(
                head + "<!--StartFragment-->"@ + fragment + "<!--EndFragment-->"@ + tail,
                "<!--EndFragment-->"@,
                k,
            ),
    ensures
        clipboard_fragment(head + "<!--StartFragment-->"@ + fragment + "<!--EndFragment-->"@ + tail)
            == Some(fragment),
        !markers_cross(head + "<!--StartFragment-->"@ + fragment + "<!--EndFragment-->"@ + tail),
{
    let start = "<!--StartFragment-->"@;
    let end = "<!--EndFragment-->"@;
    reveal_strlit("<!--StartFragment-->");
    assert(start.len() == 20);
    let h = head + start + fragment + end + tail;
    let n = head.len() as int;
    let m = n + 20 + fragment.len();
    assert(h.subrange(n, n + start.len()) =~= start);
    lemma_found_at(h, start, 0, n);
    assert(h.subrange(m, m + end.len()) =~= end);
    lemma_found_at(h, end, 0, m);
    assert(h.subrange(n + 20, m) =~= fragment);
}

/// HTML without a start marker is pasted as it is.
pub proof fn law_unmarked_html_is_pasted(h: Seq<char>)
    requires
        h.len() > 0,
        !text::has_sub(h, "<!--StartFragment-->"@),
    ensures
        clipboard_fragment(h) == Some(h),
{
    text::lemma_has_sub(h, "<!--StartFragment-->"@);
}

/// The URI of a file has `file:///` before the path and a slash for each
/// backslash in it; every other character of the path stands in it as it is.
pub proof fn law_file_uri_keeps_the_path(path: Seq<char>, i: int)
    requires
        0 <= i < path.len(),
    ensures
        file_uri(path).len() == 8 + path.len(),
        "file:///"@.is_prefix_of(file_uri(path)),
        file_uri(path)[8 + i] == (if path[i] == '\\' {
            '/'
        } else {
            path[i]
        }),
{
    reveal_strlit("file:///");
    assert(file_uri(path).subrange(0, 8) =~= "file:///"@);
}

/// The files on the clipboard are listed one on each line, all of them, in their
/// order: two lists of files make the list of the first, a line break and the
/// list of the second.
pub proof fn law_all_files_are_pasted(a: Seq<Vec<u16>>, b: Seq<Vec<u16>>)
    ensures
        file_uris(a + b) == (if file_uris(a).len() == 0 {
            file_uris(b)
        } else if file_uris(b).len() == 0 {
            file_uris(a)
        } else {
            file_uris(a) + "\n"@ + file_uris(b)
        }),
        b.len() == 1 && encoding::utf16_lossy(b[0]@).len() > 0 ==> file_uris(b) == file_uri(
            encoding::utf16_lossy(b[0]@),
        ),
    decreases b.len(),
{
    reveal_strlit("file:///");
    reveal_strlit("\n");
    if b.len() == 0 {
        assert(a + b =~= a);
        assert(file_uris(b) =~= Seq::empty());
    } else {
        law_all_files_are_pasted(a, b.drop_last());
        assert((a + b).drop_last() =~= a + b.drop_last());
        assert((a + b).last() == b.last());
        let path = encoding::utf16_lossy(b.last()@);
        if path.len() > 0 {
            assert(file_uri(path).len() > 0);
            let fa = file_uris(a);
            let fb = file_uris(b.drop_last());
            if fa.len() > 0 && fb.len() > 0 {
                assert(fa + "\n"@ + fb + "\n"@ + file_uri(path) =~= fa + "\n"@ + (fb + "\n"@
                    + file_uri(path)));
            }
        }
        if b.len() == 1 {
            assert(b.drop_last() =~= Seq::empty());
            assert(file_uris(b.drop_last()) =~= Seq::empty());
            assert(b.last() == b[0]);
        }
    }
}

/// Each format of the clipboard is reported under its own type: its files, its
/// HTML and its text; and there is no other type.
pub proof fn law_windows_formats_are_reported(
    paths: Seq<Vec<u16>>,
    html: Option<Seq<char>>,
    units: Option<Seq<u16>>,
    key: Seq<char>,
)
    ensures
        table::lookup(windows_content(paths, html, units), key) == if key == "text/uri-list"@ {
            if file_uris(paths).len() > 0 {
                Some(file_uris(paths))
            } else {
                None
            }
        } else if key == "text/html"@ {
            match html {
                Some(h) => clipboard_fragment(h),
                None => None,
            }
        } else if key == "text/plain"@ && units is Some && encoding::utf16_lossy(
            encoding::until_zero(units->0),
        ).len() > 0 {
            Some(encoding::utf16_lossy(encoding::until_zero(units->0)))
        } else {
            None
        },
{
    reveal_strlit("text/uri-list");
    reveal_strlit("text/html");
    reveal_strlit("text/plain");
    assert("text/plain"@.len() == 10 && "text/html"@.len() == 9 && "text/uri-list"@.len() == 13);
    let m0 = Seq::<(Seq<char>, Seq<char>)>::empty();
    let list = file_uris(paths);
    lemma_type_added(m0, "text/uri-list"@, list, key);
    lemma_type_added(m0, "text/uri-list"@, list, "text/html"@);
    lemma_type_added(m0, "text/uri-list"@, list, "text/plain"@);
    let m1 = if list.len() > 0 {
        with_type(m0, "text/uri-list"@, list)
    } else {
        m0
    };
    let m2 = if html is Some && clipboard_fragment(html->0) is Some {
        lemma_type_added(m1, "text/html"@, clipboard_fragment(html->0)->0, key);
        lemma_type_added(m1, "text/html"@, clipboard_fragment(html->0)->0, "text/plain"@);
        with_type(m1, "text/html"@, clipboard_fragment(html->0)->0)
    } else {
        m1
    };
    if units is Some {
        let s = encoding::utf16_lossy(encoding::until_zero(units->0));
        lemma_type_added(m2, "text/plain"@, s, key);
    }
}

proof fn lemma_type_added(
    m: Seq<(Seq<char>, Seq<char>)>,
    mime: Seq<char>,
    value: Seq<char>,
    key: Seq<char>,
)
    ensures
        table::lookup(with_type(m, mime, value), key) == if key == mime && !table::has_key(m, mime) {
            Some(value)
        } else {
            table::lookup(m, key)
        },
        m.len() == 0 ==> table::lookup(m, key) is None,
{
    if !table::has_key(m, mime) {
        table::law_put_then_lookup(m, mime, value, key);
    }
    table::lemma_position(m, key, 0);
}

/// The answer to the pasteboard type is text.
pub open spec fn is_answered(answers: Seq<Option<String>>, i: int) -> bool {
    answers[i] is Some && answers[i]->0@.len() > 0
}

proof fn lemma_string_found(
    m: Seq<(Seq<char>, Seq<char>)>,
    answers: Seq<Option<String>>,
    i: int,
    n: int,
)
    requires
        0 <= i < answers.len(),
        0 <= n <= answers.len(),
        is_answered(answers, i),
        forall|j: int|
            0 <= j < i && #[trigger] is_answered(answers, j) ==> pasteboard_mime(j)
                != pasteboard_mime(i),
        !table::has_key(m, pasteboard_mime(i)),
    ensures
        n <= i ==> !table::has_key(with_strings(m, answers, n), pasteboard_mime(i)),
        n > i ==> table::lookup(with_strings(m, answers, n), pasteboard_mime(i)) == Some(
            answers[i]->0@,
        ),
    decreases n,
{
    if n > 0 {
        lemma_string_found(m, answers, i, n - 1);
        let before = with_strings(m, answers, n - 1);
        if is_answered(answers, n - 1) {
            lemma_type_added(before, pasteboard_mime(n - 1), answers[n - 1]->0@, pasteboard_mime(i));
        }
    }
}

proof fn lemma_list_kept(
    m: Seq<(Seq<char>, Seq<char>)>,
    answers: Seq<Option<String>>,
    n: int,
    key: Seq<char>,
)
    requires
        0 <= n <= answers.len(),
        key != "text/html"@,
        key != "text/plain"@,
    ensures
        table::lookup(with_strings(m, answers, n), key) == table::lookup(m, key),
    decreases n,
{
    if n > 0 {
        lemma_list_kept(m, answers, n - 1, key);
        if is_answered(answers, n - 1) {
            lemma_type_added(
                with_strings(m, answers, n - 1),
                pasteboard_mime(n - 1),
                answers[n - 1]->0@,
                key,
            );
        }
    }
}

/// The first answer to a type of HTML is reported as HTML, the first answer to a
/// type of text as text, and the file that was copied as a list of one, where its
/// URL is a file's.
pub proof fn law_pasteboard_answers_are_reported(
    file_url: Option<Seq<char>>,
    answers: Seq<Option<String>>,
    i: int,
)
    requires
        0 <= i < answers.len() <= 5,
        is_answered(answers, i),
        forall|j: int| 0 <= j < i && (j >= 2 || i < 2) ==> !#[trigger] is_answered(answers, j),
    ensures
        table::lookup(macos_content(file_url, answers), if i < 2 {
            "text/html"@
        } else {
            "text/plain"@
        }) == Some(answers[i]->0@),
        table::lookup(macos_content(file_url, answers), "text/uri-list"@) == (if file_url is Some
            && "file://"@.is_prefix_of(file_url->0) {
            file_url
        } else {
            None
        }),
{
    reveal_strlit("text/uri-list");
    reveal_strlit("text/html");
    reveal_strlit("text/plain");
    assert("text/plain"@.len() == 10 && "text/html"@.len() == 9 && "text/uri-list"@.len() == 13);
    let m0 = Seq::<(Seq<char>, Seq<char>)>::empty();
    let m1 = if file_url is Some && "file://"@.is_prefix_of(file_url->0) {
        with_type(m0, "text/uri-list"@, file_url->0)
    } else {
        m0
    };
    if file_url is Some {
        lemma_type_added(m0, "text/uri-list"@, file_url->0, "text/uri-list"@);
        lemma_type_added(m0, "text/uri-list"@, file_url->0, "text/html"@);
        lemma_type_added(m0, "text/uri-list"@, file_url->0, "text/plain"@);
    }
    lemma_string_found(m1, answers, i, answers.len() as int);
    lemma_list_kept(m1, answers, answers.len() as int, "text/uri-list"@);
}

} // verus!
