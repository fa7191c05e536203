//! Tiddlers as files and as JSON: the `.tid` format, the names of tiddler files,
//! and the objects in which tiddlers are sent.

use vstd::prelude::*;
use crate::outside;
use crate::table;
use crate::table::{StringMap, Table};
use crate::text;

verus! {

// ---------------------------------------------------------------------------
// Tiddlers
// ---------------------------------------------------------------------------

/// The value of a field: a text, or any other JSON value in its written form.
pub enum FieldValue {
    Text(String),
    Json(String),
}

/// The value of a field.
pub ghost enum FieldView {
    Text(Seq<char>),
    Json(Seq<char>),
}

impl View for FieldValue {
    type V = FieldView;

    open spec fn view(&self) -> FieldView {
        match self {
            FieldValue::Text(s) => FieldView::Text(s@),
            FieldValue::Json(s) => FieldView::Json(s@),
        }
    }
}

/// A tiddler as it is sent: its title, and its other fields.
pub struct TiddlerJson {
    pub title: String,
    pub fields: Table<FieldValue>,
}

/// What a value reads as on a line of a file.
pub open spec fn plain_form(v: FieldView) -> Seq<char> {
    match v {
        FieldView::Text(s) => s,
        FieldView::Json(s) => s,
    }
}

/// What a value reads as in a JSON object.
pub open spec fn json_form(v: FieldView) -> Seq<char> {
    match v {
        FieldView::Text(s) => outside::json_quoted(s),
        FieldView::Json(s) => s,
    }
}

/// The members of a JSON object with the fields.
pub open spec fn members(m: Seq<(Seq<char>, FieldView)>) -> Seq<Seq<char>> {
    m.map_values(|e: (Seq<char>, FieldView)| outside::json_quoted(e.0) + ":"@ + json_form(e.1))
}

/// A JSON object with the fields.
pub open spec fn json_object(m: Seq<(Seq<char>, FieldView)>) -> Seq<char> {
    "{"@ + text::joined(members(m), ","@) + "}"@
}

/// A JSON array of what is written.
pub open spec fn json_array(items: Seq<Seq<char>>) -> Seq<char> {
    "["@ + text::joined(items, ","@) + "]"@
}

/// Fields that are all texts.
pub open spec fn text_fields(m: Seq<(Seq<char>, Seq<char>)>) -> Seq<(Seq<char>, FieldView)> {
    m.map_values(|e: (Seq<char>, Seq<char>)| (e.0, FieldView::Text(e.1)))
}

fn member(key: &str, v: &FieldValue) -> (r: String)
    ensures
        r@ == outside::json_quoted(key@) + ":"@ + json_form(v@),
{
    let name: String = outside::json_string(key);
    match v {
        FieldValue::Text(s) => {
            let quoted: String = outside::json_string(s.as_str());
            text::concat3(name.as_str(), ":", quoted.as_str())
        },
        FieldValue::Json(s) => text::concat3(name.as_str(), ":", s.as_str()),
    }
}

/// The JSON object with the fields.
pub fn to_json_object(m: &Table<FieldValue>) -> (r: String)
    ensures
        r@ == json_object(m@),
{
    let mut parts: Vec<String> = Vec::new();
    let ghost all = members(m@);
    let mut i: usize = 0;
    assert(text::views(parts@) =~= all.take(0));
    while i < m.entries.len()
        invariant
            i <= m.entries.len(),
            all == members(m@),
            text::views(parts@) == all.take(i as int),
        decreases m.entries.len() - i,
    {
        let ghost before = parts@;
        let part: String = member(m.entries[i].0.as_str(), &m.entries[i].1);
        assert(m@[i as int] == (m.entries@[i as int].0@, m.entries@[i as int].1@));
        assert(all[i as int] == part@);
        parts.push(part);
        assert(text::views(parts@) =~= text::views(before).push(part@));
        i = i + 1;
        assert(all.take(i as int) =~= all.take(i - 1).push(all[i - 1]));
    }
    assert(all.take(i as int) =~= all);
    let inner: String = text::join(&parts, ",");
    text::concat3("{", inner.as_str(), "}")
}

/// The JSON array of what is written.
pub fn to_json_array(items: &Vec<String>) -> (r: String)
    ensures
        r@ == json_array(text::views(items@)),
{
    let inner: String = text::join(items, ",");
    text::concat3("[", inner.as_str(), "]")
}

/// Fields that are all texts.
pub fn as_fields(m: &StringMap) -> (r: Table<FieldValue>)
    ensures
        r@ == text_fields(m@),
{
    let mut out: Table<FieldValue> = Table::new();
    let mut i: usize = 0;
    assert(out@ =~= text_fields(m@).take(0));
    while i < m.entries.len()
        invariant
            i <= m.entries.len(),
            out@ == text_fields(m@).take(i as int),
        decreases m.entries.len() - i,
    {
        let ghost before = out@;
        let key: String = m.entries[i].0.clone();
        let value: FieldValue = FieldValue::Text(m.entries[i].1.clone());
        assert(m@[i as int] == (m.entries@[i as int].0@, m.entries@[i as int].1@));
        out.entries.push((key, value));
        assert(out@ =~= before.push((key@, value@)));
        i = i + 1;
        assert(text_fields(m@).take(i as int) =~= text_fields(m@).take(i - 1).push(
            text_fields(m@)[i - 1],
        ));
    }
    assert(text_fields(m@).take(i as int) =~= text_fields(m@));
    out
}

// ---------------------------------------------------------------------------
// Reading a tiddler file
// ---------------------------------------------------------------------------

/// The place of the first empty line, not before `from`; the number of lines
/// where there is none.
pub open spec fn first_empty(lines: Seq<Seq<char>>, from: int) -> int
    decreases lines.len() - from,
{
    if from >= lines.len() {
        lines.len() as int
    } else if lines[from].len() == 0 {
        from
    } else {
        first_empty(lines, from + 1)
    }
}

/// The fields on the lines of a header: what stands before the first colon of a
/// line names the field, what follows is its value. A line without a colon is
/// passed over.
pub open spec fn header_fields(lines: Seq<Seq<char>>) -> Seq<(Seq<char>, Seq<char>)>
    decreases lines.len(),
{
    if lines.len() == 0 {
        Seq::empty()
    } else {
        let before = header_fields(lines.drop_last());
        let line = lines.last();
        match text::index_of(line, ':', 0) {
            Some(i) => table::put(
                before,
                text::trimmed(line.take(i)),
                text::trimmed(line.skip(i + 1)),
            ),
            None => before,
        }
    }
}

/// The fields of a tiddler file, its text among them: the header is what stands
/// before the first empty line, the text is what follows, where anything does.
pub open spec fn file_fields(content: Seq<char>) -> Seq<(Seq<char>, Seq<char>)> {
    let lines = text::lines_of(content);
    let e = first_empty(lines, 0);
    let fields = header_fields(lines.take(e));
    if e + 1 < lines.len() {
        table::put(fields, "text"@, text::joined(lines.skip(e + 1), "\n"@))
    } else {
        fields
    }
}

/// The title and, where there is one, the revision among the fields.
pub open spec fn skinny_fields(m: Seq<(Seq<char>, Seq<char>)>) -> Seq<(Seq<char>, Seq<char>)> {
    let a = match table::lookup(m, "title"@) {
        Some(t) => seq![("title"@, t)],
        None => Seq::empty(),
    };
    match table::lookup(m, "revision"@) {
        Some(v) => a.push(("revision"@, v)),
        None => a,
    }
}

/// The header of a tiddler file alone.
pub open spec fn file_header(content: Seq<char>) -> Seq<(Seq<char>, Seq<char>)> {
    let lines = text::lines_of(content);
    header_fields(lines.take(first_empty(lines, 0)))
}

/// The tiddler in a file: its fields, or in short only its title and revision;
/// nothing where the header names no title.
pub open spec fn parsed_tid(content: Seq<char>, skinny: bool) -> Option<Seq<(Seq<char>, Seq<char>)>> {
    if !table::has_key(file_header(content), "title"@) {
        None
    } else if skinny {
        Some(skinny_fields(file_header(content)))
    } else {
        Some(file_fields(content))
    }
}

fn parse_header(lines: &Vec<String>, n: usize) -> (r: StringMap)
    requires
        n <= lines.len(),
    ensures
        r@ == header_fields(text::views(lines@).take(n as int)),
{
    let ghost all = text::views(lines@);
    let mut out: StringMap = StringMap::new();
    let mut i: usize = 0;
    assert(out@ =~= header_fields(all.take(0)));
    while i < n
        invariant
            i <= n <= lines.len(),
            all == text::views(lines@),
            out@ == header_fields(all.take(i as int)),
        decreases n - i,
    {
        let line: &str = lines[i].as_str();
        assert(all.take(i + 1).drop_last() =~= all.take(i as int));
        assert(all.take(i + 1).last() == line@);
        if let Some(k) = text::find_char(line, ':') {
            let key: &str = text::trim(text::take(line, k));
            let value: &str = text::trim(text::skip(line, k + 1));
            out.insert(key.to_owned(), value.to_owned());
        }
        i = i + 1;
    }
    out
}

fn tail_lines(lines: &Vec<String>, from: usize) -> (r: Vec<String>)
    requires
        from <= lines.len(),
    ensures
        text::views(r@) == text::views(lines@).skip(from as int),
{
    let ghost all = text::views(lines@);
    let mut out: Vec<String> = Vec::new();
    let mut i: usize = from;
    assert(text::views(out@) =~= all.subrange(from as int, from as int));
    while i < lines.len()
        invariant
            from <= i <= lines.len(),
            all == text::views(lines@),
            text::views(out@) == all.subrange(from as int, i as int),
        decreases lines.len() - i,
    {
        let ghost before = out@;
        let line: String = lines[i].clone();
        assert(all[i as int] == line@);
        out.push(line);
        assert(text::views(out@) =~= text::views(before).push(line@));
        i = i + 1;
        assert(all.subrange(from as int, i as int) =~= all.subrange(from as int, i - 1).push(
            all[i - 1],
        ));
    }
    assert(all.subrange(from as int, i as int) =~= all.skip(from as int));
    out
}

/// The tiddler in a file; with `skinny`, only its title and revision.
pub fn parse_tid_file(content: &str, skinny: bool) -> (r: Option<StringMap>)
    ensures
        match r {
            Some(m) => parsed_tid(content@, skinny) == Some(m@),
            None => parsed_tid(content@, skinny) is None,
        },
{
    let lines: Vec<String> = text::lines(content);
    let ghost all = text::views(lines@);
    let mut e: usize = 0;
    while e < lines.len() && !lines[e].as_str().is_empty()
        invariant
            e <= lines.len(),
            all == text::views(lines@),
            first_empty(all, 0) == first_empty(all, e as int),
        decreases lines.len() - e,
    {
        assert(all[e as int] == lines@[e as int]@);
        e = e + 1;
    }
    assert(e < lines.len() ==> all[e as int] == lines@[e as int]@);
    assert(first_empty(all, 0) == e);
    let mut fields: StringMap = parse_header(&lines, e);
    if !fields.contains_key("title") {
        return None;
    }
    if skinny {
        let mut short: StringMap = StringMap::new();
        assert(short@ =~= Seq::empty());
        if let Some(t) = fields.get("title") {
            short.insert("title".to_owned(), t.clone());
            assert(short@ =~= seq![("title"@, t@)]);
        }
        proof {
            reveal_strlit("title");
            reveal_strlit("revision");
            assert("title"@.len() != "revision"@.len());
            table::lemma_position(short@, "revision"@, 0);
        }
        if let Some(v) = fields.get("revision") {
            short.insert("revision".to_owned(), v.clone());
        }
        return Some(short);
    }
    if e < lines.len() && e + 1 < lines.len() {
        let body: Vec<String> = tail_lines(&lines, e + 1);
        let s: String = text::join(&body, "\n");
        fields.insert("text".to_owned(), s);
    }
    Some(fields)
}

// ---------------------------------------------------------------------------
// Writing a tiddler file
// ---------------------------------------------------------------------------

/// The lines for the fields: a name and a value each, the title and the text
/// left out.
pub open spec fn field_lines(m: Seq<(Seq<char>, FieldView)>) -> Seq<Seq<char>>
    decreases m.len(),
{
    if m.len() == 0 {
        Seq::empty()
    } else {
        let before = field_lines(m.drop_last());
        let e = m.last();
        if e.0 == "text"@ || e.0 == "title"@ {
            before
        } else {
            before.push(e.0 + ": "@ + plain_form(e.1))
        }
    }
}

/// The text among the fields: the last one under that name, where it is a text.
pub open spec fn text_field(m: Seq<(Seq<char>, FieldView)>) -> Option<Seq<char>>
    decreases m.len(),
{
    if m.len() == 0 {
        None
    } else if m.last().0 == "text"@ {
        match m.last().1 {
            FieldView::Text(s) => Some(s),
            FieldView::Json(_) => None,
        }
    } else {
        text_field(m.drop_last())
    }
}

/// A tiddler as a file: its title, its other fields, an empty line, and its
/// text.
pub open spec fn tid_content(title: Seq<char>, m: Seq<(Seq<char>, FieldView)>) -> Seq<char> {
    let head = seq!["title: "@ + title] + field_lines(m) + seq![""@];
    text::joined(
        match text_field(m) {
            Some(s) => head.push(s),
            None => head,
        },
        "\n"@,
    )
}

/// The tiddler as a file.
pub fn tiddler_to_tid(tiddler: &TiddlerJson) -> (r: String)
    ensures
        r@ == tid_content(tiddler.title@, tiddler.fields@),
{
    let mut lines: Vec<String> = Vec::new();
    let first: String = text::concat("title: ", tiddler.title.as_str());
    lines.push(first);
    let m: &Table<FieldValue> = &tiddler.fields;
    let mut body: Option<String> = None;
    let mut i: usize = 0;
    assert(text::views(lines@) =~= seq![first@] + field_lines(m@.take(0)));
    while i < m.entries.len()
        invariant
            i <= m.entries.len(),
            text::views(lines@) == seq![first@] + field_lines(m@.take(i as int)),
            text::opt_view(body) == text_field(m@.take(i as int)),
        decreases m.entries.len() - i,
    {
        let ghost before = text::views(lines@);
        let key: &str = m.entries[i].0.as_str();
        assert(m@.take(i + 1).drop_last() =~= m@.take(i as int));
        assert(m@.take(i + 1).last() == (key@, m.entries@[i as int].1@));
        if text::same(key, "text") {
            body = match &m.entries[i].1 {
                FieldValue::Text(s) => Some(s.clone()),
                FieldValue::Json(_) => None,
            };
        } else if !text::same(key, "title") {
            let value: &str = match &m.entries[i].1 {
                FieldValue::Text(s) => s.as_str(),
                FieldValue::Json(s) => s.as_str(),
            };
            let line: String = text::concat3(key, ": ", value);
            lines.push(line);
            assert(text::views(lines@) =~= before.push(line@));
            assert(before.push(line@) =~= seq![first@] + field_lines(m@.take(i as int)).push(line@));
        }
        i = i + 1;
    }
    assert(m@.take(i as int) =~= m@);
    let ghost before = text::views(lines@);
    let empty: String = "".to_owned();
    lines.push(empty);
    assert(text::views(lines@) =~= seq![first@] + field_lines(m@) + seq![""@]);
    if let Some(s) = body {
        let ghost head = text::views(lines@);
        lines.push(s);
        assert(text::views(lines@) =~= head.push(s@));
    }
    text::join(&lines, "\n")
}

// ---------------------------------------------------------------------------
// Names of tiddler files
// ---------------------------------------------------------------------------

/// The character has no place in a file name.
pub open spec fn is_forbidden(c: char) -> bool {
    c == '/' || c == '\\' || c == ':' || c == '*' || c == '?' || c == '"' || c == '<' || c == '>'
        || c == '|'
}

/// The name of the file for a title, without its extension: forbidden
/// characters, and a dollar sign at the front, become underscores.
pub open spec fn filename_of(title: Seq<char>) -> Seq<char> {
    if title.len() == 0 {
        "_unnamed"@
    } else {
        Seq::new(
            title.len(),
            |i: int|
                if is_forbidden(title[i]) || (i == 0 && title[i] == '$') {
                    '_'
                } else {
                    title[i]
                },
        )
    }
}

/// The name of the file for a title, without its extension.
pub fn title_to_filename(title: &str) -> (r: String)
    ensures
        r@ == filename_of(title@),
{
    let v: Vec<char> = text::chars_of(title);
    if v.len() == 0 {
        return "_unnamed".to_owned();
    }
    let mut out: String = String::new();
    let mut i: usize = 0;
    while i < v.len()
        invariant
            i <= v.len(),
            v@ == title@,
            v.len() > 0,
            out@ == filename_of(title@).take(i as int),
        decreases v.len() - i,
    {
        let c: char = v[i];
        let bad: bool = c == '/' || c == '\\' || c == ':' || c == '*' || c == '?' || c == '"' || c
            == '<' || c == '>' || c == '|';
        if bad || (i == 0 && c == '$') {
            out.push('_');
        } else {
            out.push(c);
        }
        i = i + 1;
        assert(out@ =~= filename_of(title@).take(i as int));
    }
    assert(filename_of(title@).take(i as int) =~= filename_of(title@));
    out
}

/// The name of a tiddler's file is never empty, holds no forbidden character,
/// and does not begin with a dollar sign.
pub proof fn law_filenames_are_safe(title: Seq<char>)
    ensures
        filename_of(title).len() > 0,
        forall|i: int| 0 <= i < filename_of(title).len() ==> !is_forbidden(
            #[trigger] filename_of(title)[i],
        ),
        filename_of(title)[0] != '$',
{
    reveal_strlit("_unnamed");
}

/// A title is read off its file's name: the name of a title that is not empty
/// has as many characters as the title, and the same character wherever the
/// title has none of `/ \\ : * ? " < > |` and no dollar sign at the front;
/// there it has an underscore.
pub proof fn law_filenames_keep_the_title(title: Seq<char>)
    requires
        title.len() > 0,
    ensures
        filename_of(title).len() == title.len(),
        forall|i: int|
            0 <= i < title.len() && !seq!['/', '\\', ':', '*', '?', '"', '<', '>', '|'].contains(
                title[i],
            ) && !(i == 0 && title[i] == '$') ==> #[trigger] filename_of(title)[i] == title[i],
        forall|i: int|
            0 <= i < title.len() && (seq!['/', '\\', ':', '*', '?', '"', '<', '>', '|'].contains(
                title[i],
            ) || (i == 0 && title[i] == '$')) ==> #[trigger] filename_of(title)[i] == '_',
{
    let bad = seq!['/', '\\', ':', '*', '?', '"', '<', '>', '|'];
    assert forall|c: char| bad.contains(c) == is_forbidden(c) by {
        if is_forbidden(c) {
            assert(bad[0] == '/' && bad[1] == '\\' && bad[2] == ':' && bad[3] == '*' && bad[4]
                == '?' && bad[5] == '"' && bad[6] == '<' && bad[7] == '>' && bad[8] == '|');
        }
    }
}

/// Two titles that a file system takes as they are, with no dollar sign at the
/// front, are kept in two files.
pub proof fn law_titles_have_their_own_files(a: Seq<char>, b: Seq<char>)
    requires
        a != b,
        a.len() > 0,
        b.len() > 0,
        a[0] != '$',
        b[0] != '$',
        forall|i: int|
            0 <= i < a.len() ==> !seq!['/', '\\', ':', '*', '?', '"', '<', '>', '|'].contains(
                #[trigger] a[i],
            ),
        forall|i: int|
            0 <= i < b.len() ==> !seq!['/', '\\', ':', '*', '?', '"', '<', '>', '|'].contains(
                #[trigger] b[i],
            ),
    ensures
        filename_of(a) == a,
        filename_of(b) == b,
        filename_of(a) != filename_of(b),
{
    law_filenames_keep_the_title(a);
    law_filenames_keep_the_title(b);
    assert(filename_of(a) =~= a);
    assert(filename_of(b) =~= b);
}

// ---------------------------------------------------------------------------
// What is written is read
// ---------------------------------------------------------------------------

/// A title or value that a line of a header keeps: on one line, without white
/// space at its ends.
pub open spec fn keeps_on_line(s: Seq<char>) -> bool {
    text::trimmed(s) == s && !s.contains('\n')
}

/// A name that a line of a header keeps.
pub open spec fn keeps_as_name(s: Seq<char>) -> bool {
    keeps_on_line(s) && !s.contains(':')
}

/// Every field but the title and the text is one that a header keeps.
pub open spec fn keeps_in_header(m: Seq<(Seq<char>, FieldView)>) -> bool {
    forall|i: int|
        0 <= i < m.len() && (#[trigger] m[i]).0 != "text"@ && m[i].0 != "title"@ ==> keeps_as_name(
            m[i].0,
        ) && keeps_on_line(plain_form(m[i].1))
}

/// A text that a file keeps: not empty, and the same when its lines are read
/// and joined.
pub open spec fn keeps_as_body(s: Seq<char>) -> bool {
    s.len() > 0 && text::joined(text::lines_of(s), "\n"@) == s
}

/// The fields that a header gives back: the title first, then the others.
pub open spec fn given_back(title: Seq<char>, m: Seq<(Seq<char>, FieldView)>) -> Seq<
    (Seq<char>, Seq<char>),
>
    decreases m.len(),
{
    if m.len() == 0 {
        seq![("title"@, title)]
    } else {
        let before = given_back(title, m.drop_last());
        let e = m.last();
        if e.0 == "text"@ || e.0 == "title"@ {
            before
        } else {
            table::put(before, e.0, plain_form(e.1))
        }
    }
}

/// The parts with a newline behind each.
spec fn ended(parts: Seq<Seq<char>>) -> Seq<char>
    decreases parts.len(),
{
    if parts.len() == 0 {
        Seq::empty()
    } else {
        parts[0] + "\n"@ + ended(parts.skip(1))
    }
}

proof fn lemma_joined_push(parts: Seq<Seq<char>>, last: Seq<char>)
    ensures
        text::joined(parts.push(last), "\n"@) == ended(parts) + last,
    decreases parts.len(),
{
    let all = parts.push(last);
    if parts.len() == 0 {
        assert(all[0] == last);
        assert(ended(parts) + last =~= last);
    } else {
        assert(all.skip(1) =~= parts.skip(1).push(last));
        lemma_joined_push(parts.skip(1), last);
        assert(text::joined(all, "\n"@) =~= ended(parts) + last);
    }
}

spec fn is_line(s: Seq<char>) -> bool {
    !s.contains('\n') && !(s.len() > 0 && s.last() == '\r')
}

proof fn lemma_lines_of_ended(parts: Seq<Seq<char>>, rest: Seq<char>)
    requires
        forall|i: int| 0 <= i < parts.len() ==> is_line(#[trigger] parts[i]),
    ensures
        text::lines_of(ended(parts) + rest) == parts + text::lines_of(rest),
    decreases parts.len(),
{
    reveal_strlit("\n");
    let s = ended(parts) + rest;
    if parts.len() == 0 {
        assert(s =~= rest);
        assert(parts + text::lines_of(rest) =~= text::lines_of(rest));
    } else {
        let p = parts[0];
        let tail = ended(parts.skip(1)) + rest;
        assert(is_line(parts[0]));
        assert forall|i: int| 0 <= i < parts.skip(1).len() implies is_line(
            #[trigger] parts.skip(1)[i],
        ) by {
            assert(is_line(parts[i + 1]));
        }
        lemma_lines_of_ended(parts.skip(1), rest);
        assert(s =~= p + "\n"@ + tail);
        let k = p.len() as int;
        text::lemma_index_of(s, '\n', 0);
        assert(s[k] == '\n');
        assert forall|j: int| 0 <= j < k implies s[j] != '\n' by {
            assert(s[j] == p[j]);
            assert(p.contains(p[j]));
        }
        assert(text::index_of(s, '\n', 0) == Some(k));
        assert(s.take(k) =~= p);
        assert(s.skip(k + 1) =~= tail);
        assert(text::lines_of(s) == seq![p] + text::lines_of(tail));
        assert(seq![p] + (parts.skip(1) + text::lines_of(rest)) =~= parts + text::lines_of(rest));
    }
}

proof fn lemma_trim_keeps(s: Seq<char>)
    requires
        text::trimmed(s) == s,
    ensures
        s.len() > 0 ==> !text::is_space(s.last()),
        text::trimmed(seq![' '] + s) == s,
{
    let t = seq![' '] + s;
    assert(t.skip(1) =~= s);
    assert(text::trimmed_start(t) == text::trimmed_start(s));
    if s.len() > 0 {
        let a = text::trimmed_start(s);
        lemma_trimmed_start_len(s);
        lemma_trimmed_end_len(a);
        assert(a.len() == s.len());
        assert(a == s);
        if text::is_space(s.last()) {
            lemma_trimmed_end_len(s.drop_last());
            assert(text::trimmed_end(s) == text::trimmed_end(s.drop_last()));
        }
    }
}

proof fn lemma_trimmed_start_len(s: Seq<char>)
    ensures
        text::trimmed_start(s).len() <= s.len(),
        text::trimmed_start(s).len() == s.len() ==> text::trimmed_start(s) == s,
    decreases s.len(),
{
    if s.len() > 0 && text::is_space(s[0]) {
        lemma_trimmed_start_len(s.skip(1));
    }
}

proof fn lemma_trimmed_end_len(s: Seq<char>)
    ensures
        text::trimmed_end(s).len() <= s.len(),
    decreases s.len(),
{
    if s.len() > 0 && text::is_space(s.last()) {
        lemma_trimmed_end_len(s.drop_last());
    }
}

proof fn lemma_header_line(key: Seq<char>, value: Seq<char>)
    requires
        keeps_as_name(key),
        keeps_on_line(value),
    ensures
        ({
            let line = key + ": "@ + value;
            &&& is_line(line)
            &&& line.len() > 0
            &&& text::index_of(line, ':', 0) == Some(key.len() as int)
            &&& text::trimmed(line.take(key.len() as int)) == key
            &&& text::trimmed(line.skip(key.len() as int + 1)) == value
        }),
{
    reveal_strlit(": ");
    let line = key + ": "@ + value;
    let k = key.len() as int;
    text::lemma_index_of(line, ':', 0);
    assert(line[k] == ':');
    assert forall|j: int| 0 <= j < k implies line[j] != ':' by {
        assert(line[j] == key[j]);
        assert(key.contains(key[j]));
    }
    assert(line.take(k) =~= key);
    assert(line.skip(k + 1) =~= seq![' '] + value);
    lemma_trim_keeps(value);
    assert forall|j: int| 0 <= j < line.len() implies line[j] != '\n' by {
        if j < k {
            assert(key.contains(key[j]));
        } else if j >= k + 2 {
            assert(line[j] == value[j - k - 2]);
            assert(value.contains(value[j - k - 2]));
        }
    }
    if value.len() > 0 {
        assert(line.last() == value.last());
    } else {
        assert(line.last() == ' ');
    }
}

proof fn lemma_field_lines(title: Seq<char>, m: Seq<(Seq<char>, FieldView)>)
    requires
        keeps_on_line(title),
        keeps_in_header(m),
    ensures
        ({
            let lines = seq!["title: "@ + title] + field_lines(m);
            &&& forall|i: int| 0 <= i < lines.len() ==> is_line(#[trigger] lines[i])
                && lines[i].len() > 0
            &&& header_fields(lines) == given_back(title, m)
        }),
    decreases m.len(),
{
    reveal_strlit("title");
    reveal_strlit("title: ");
    reveal_strlit(": ");
    let first = "title: "@ + title;
    let lines = seq![first] + field_lines(m);
    if m.len() == 0 {
        assert("title: "@ =~= "title"@ + ": "@);
        assert(first =~= "title"@ + ": "@ + title);
        assert(text::trimmed_start("title"@) == "title"@);
        assert(text::trimmed_end("title"@) == "title"@);
        assert(keeps_as_name("title"@));
        lemma_header_line("title"@, title);
        assert(lines =~= seq![first]);
        assert(lines.drop_last() =~= Seq::empty());
        let none = Seq::<(Seq<char>, Seq<char>)>::empty();
        assert(header_fields(lines.drop_last()) == none);
        assert(header_fields(lines) == table::put(none, "title"@, title));
        assert(header_fields(lines) =~= given_back(title, m));
    } else {
        let rest = m.drop_last();
        let e = m.last();
        assert forall|i: int|
            0 <= i < rest.len() && (#[trigger] rest[i]).0 != "text"@ && rest[i].0
                != "title"@ implies keeps_as_name(rest[i].0) && keeps_on_line(
            plain_form(rest[i].1),
        ) by {
            assert(rest[i] == m[i]);
        }
        lemma_field_lines(title, rest);
        let before = seq![first] + field_lines(rest);
        if e.0 == "text"@ || e.0 == "title"@ {
        } else {
            assert(m[m.len() - 1] == e);
            lemma_header_line(e.0, plain_form(e.1));
            let line = e.0 + ": "@ + plain_form(e.1);
            assert(lines =~= before.push(line));
            assert(lines.drop_last() =~= before);
            assert(lines.last() == line);
            assert forall|i: int| 0 <= i < lines.len() implies is_line(#[trigger] lines[i])
                && lines[i].len() > 0 by {
                if i < before.len() {
                    assert(lines[i] == before[i]);
                }
            }
        }
    }
}

proof fn lemma_first_empty(lines: Seq<Seq<char>>, from: int, e: int)
    requires
        0 <= from <= e <= lines.len(),
        forall|i: int| from <= i < e ==> (#[trigger] lines[i]).len() > 0,
        e < lines.len() ==> lines[e].len() == 0,
    ensures
        first_empty(lines, from) == e,
    decreases e - from,
{
    if from < e {
        assert(lines[from].len() > 0);
        lemma_first_empty(lines, from + 1, e);
    }
}

proof fn lemma_given_back_title(title: Seq<char>, m: Seq<(Seq<char>, FieldView)>)
    ensures
        table::lookup(given_back(title, m), "title"@) == Some(title),
    decreases m.len(),
{
    if m.len() == 0 {
        table::lemma_position_is(given_back(title, m), "title"@, 0, 0);
    } else {
        lemma_given_back_title(title, m.drop_last());
        let e = m.last();
        if e.0 != "text"@ && e.0 != "title"@ {
            table::law_put_then_lookup(
                given_back(title, m.drop_last()),
                e.0,
                plain_form(e.1),
                "title"@,
            );
        }
    }
}

/// A tiddler that is written to a file is read back from it, text and all,
/// where its title and fields keep on a line and its text keeps as a body.
pub proof fn law_written_tiddler_is_read(title: Seq<char>, m: Seq<(Seq<char>, FieldView)>)
    requires
        keeps_on_line(title),
        keeps_in_header(m),
        text_field(m) is Some ==> keeps_as_body(text_field(m)->0),
    ensures
        parsed_tid(tid_content(title, m), false) == Some(
            match text_field(m) {
                Some(s) => table::put(given_back(title, m), "text"@, s),
                None => given_back(title, m),
            },
        ),
        parsed_tid(tid_content(title, m), true) == Some(skinny_fields(given_back(title, m))),
        table::lookup(given_back(title, m), "title"@) == Some(title),
{
    reveal_strlit("");
    let head = seq!["title: "@ + title] + field_lines(m);
    let n = head.len() as int;
    let c = tid_content(title, m);
    lemma_field_lines(title, m);
    lemma_given_back_title(title, m);
    match text_field(m) {
        Some(s) => {
            let parts = head + seq![""@];
            lemma_joined_push(parts, s);
            assert(c == ended(parts) + s);
            assert forall|i: int| 0 <= i < parts.len() implies is_line(#[trigger] parts[i]) by {
                if i < n {
                    assert(parts[i] == head[i]);
                }
            }
            lemma_lines_of_ended(parts, s);
            let lines = text::lines_of(c);
            assert(lines == parts + text::lines_of(s));
            assert forall|i: int| 0 <= i < n implies (#[trigger] lines[i]).len() > 0 by {
                assert(lines[i] == head[i]);
            }
            assert(lines[n] == ""@);
            lemma_first_empty(lines, 0, n);
            assert(lines.take(n) =~= head);
            assert(lines.skip(n + 1) =~= text::lines_of(s));
            assert(text::lines_of(s).len() > 0);
        },
        None => {
            assert(head + seq![""@] =~= head.push(""@));
            lemma_joined_push(head, ""@);
            assert(c == ended(head) + ""@);
            lemma_lines_of_ended(head, ""@);
            let lines = text::lines_of(c);
            assert(text::lines_of(""@) =~= Seq::empty());
            assert(lines =~= head);
            assert forall|i: int| 0 <= i < n implies (#[trigger] lines[i]).len() > 0 by {
                assert(lines[i] == head[i]);
            }
            lemma_first_empty(lines, 0, n);
            assert(lines.take(n) =~= head);
        },
    }
}

/// An object holds its fields, each as its name and its value in JSON, in their
/// order; two objects' fields one after the other make the fields of both.
pub proof fn law_objects_hold_their_fields(
    a: Seq<(Seq<char>, FieldView)>,
    b: Seq<(Seq<char>, FieldView)>,
    key: Seq<char>,
    value: Seq<char>,
)
    ensures
        members(a + b) == members(a) + members(b),
        json_object(seq![(key, FieldView::Text(value))]) == "{"@ + (outside::json_quoted(key) + ":"@
            + outside::json_quoted(value)) + "}"@,
        json_object(seq![(key, FieldView::Json(value))]) == "{"@ + (outside::json_quoted(key) + ":"@
            + value) + "}"@,
        json_object(Seq::empty()) == "{"@ + Seq::empty() + "}"@,
{
    assert(members(a + b) =~= members(a) + members(b));
    let x = seq![(key, FieldView::Text(value))];
    let y = seq![(key, FieldView::Json(value))];
    assert(members(x) =~= seq![outside::json_quoted(key) + ":"@ + outside::json_quoted(value)]);
    assert(members(y) =~= seq![outside::json_quoted(key) + ":"@ + value]);
    let none = Seq::<(Seq<char>, FieldView)>::empty();
    assert(members(none) =~= Seq::empty());
}

/// In short a tiddler is its title and its revision, as its header has them; and
/// there is a tiddler in short exactly where there is one.
pub proof fn law_short_tiddler_has_title_and_revision(content: Seq<char>, key: Seq<char>)
    ensures
        parsed_tid(content, true) is Some <==> parsed_tid(content, false) is Some,
        parsed_tid(content, true) is Some ==> {
            let m = parsed_tid(content, true)->0;
            &&& table::lookup(m, "title"@) == table::lookup(file_header(content), "title"@)
            &&& table::lookup(m, "revision"@) == table::lookup(file_header(content), "revision"@)
            &&& key != "title"@ && key != "revision"@ ==> table::lookup(m, key) is None
        },
{
    reveal_strlit("title");
    reveal_strlit("revision");
    assert("title"@.len() == 5 && "revision"@.len() == 8);
    if parsed_tid(content, true) is Some {
        let h = file_header(content);
        let m = skinny_fields(h);
        table::lemma_position(h, "title"@, 0);
        let t = table::lookup(h, "title"@)->0;
        assert(m[0] == ("title"@, t));
        table::lemma_position_is(m, "title"@, 0, 0);
        table::lemma_position(m, key, 0);
        table::lemma_position(m, "revision"@, 0);
        if let Some(v) = table::lookup(h, "revision"@) {
            assert(m[1] == ("revision"@, v));
            table::lemma_position_is(m, "revision"@, 0, 1);
        }
    }
}

/// A line of a header gives the field before its first colon the value behind it,
/// both without the white space around them, whatever stood there before; a line
/// without a colon gives nothing.
pub proof fn law_header_lines_give_fields(
    lines: Seq<Seq<char>>,
    name: Seq<char>,
    value: Seq<char>,
    other: Seq<char>,
)
    requires
        !name.contains(':'),
    ensures
        ({
            let m = header_fields(lines.push(name.push(':') + value));
            &&& table::lookup(m, text::trimmed(name)) == Some(text::trimmed(value))
            &&& other != text::trimmed(name) ==> table::lookup(m, other) == table::lookup(
                header_fields(lines),
                other,
            )
        }),
        header_fields(lines.push(name)) == header_fields(lines),
{
    let line = name.push(':') + value;
    let all = lines.push(line);
    assert(all.drop_last() =~= lines);
    assert(all.last() == line);
    text::lemma_index_of(line, ':', 0);
    let n = name.len() as int;
    assert(line[n] == ':');
    match text::index_of(line, ':', 0) {
        Some(i) => {
            if i < n {
                assert(line[i] == name[i]);
            }
        },
        None => {},
    }
    assert(line.take(n) =~= name);
    assert(line.skip(n + 1) =~= value);
    table::law_put_then_lookup(
        header_fields(lines),
        text::trimmed(name),
        text::trimmed(value),
        other,
    );
    text::lemma_index_of(name, ':', 0);
    assert(lines.push(name).drop_last() =~= lines);
    assert(lines.push(name).last() == name);
}

} // verus!
