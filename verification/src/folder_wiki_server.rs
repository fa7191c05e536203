//! The HTTP servers for wikis on Android: which request asks for what, what is
//! answered, and which servers run.

use vstd::prelude::*;
use crate::mime;
use crate::outside;
use crate::sanitize;
use crate::table;
use crate::table::Table;
use crate::text;
use crate::tid;
use crate::tid::{FieldValue, TiddlerJson};

verus! {

// ---------------------------------------------------------------------------
// What a request asks for
// ---------------------------------------------------------------------------

/// The methods that matter.
#[derive(Clone, Copy, PartialEq, Eq, Structural)]
pub enum Method {
    Get,
    Put,
    Delete,
    Other,
}

/// What a request to the server of a folder wiki asks for.
pub enum Route {
    /// The wiki's page.
    Wiki,
    Status,
    /// All tiddlers, or their titles and revisions alone.
    TiddlerList { skinny: bool },
    Tiddler(String),
    SaveTiddler(String),
    DeleteTiddler(String),
    /// A file in the wiki's folder.
    StaticFile,
    NotFound,
}

/// What a request to the server of a folder wiki asks for.
pub ghost enum RouteView {
    Wiki,
    Status,
    TiddlerList(bool),
    Tiddler(Seq<char>),
    SaveTiddler(Seq<char>),
    DeleteTiddler(Seq<char>),
    StaticFile,
    NotFound,
}

impl View for Route {
    type V = RouteView;

    open spec fn view(&self) -> RouteView {
        match self {
            Route::Wiki => RouteView::Wiki,
            Route::Status => RouteView::Status,
            Route::TiddlerList { skinny } => RouteView::TiddlerList(*skinny),
            Route::Tiddler(t) => RouteView::Tiddler(t@),
            Route::SaveTiddler(t) => RouteView::SaveTiddler(t@),
            Route::DeleteTiddler(t) => RouteView::DeleteTiddler(t@),
            Route::StaticFile => RouteView::StaticFile,
            Route::NotFound => RouteView::NotFound,
        }
    }
}

/// A title as a URL has it; empty where it cannot be decoded.
pub open spec fn url_title(s: Seq<char>) -> Seq<char> {
    match outside::url_decoded(s) {
        Some(t) => t,
        None => ""@,
    }
}

/// The URL names a tiddler of the recipe.
pub open spec fn names_recipe_tiddler(url: Seq<char>) -> bool {
    "/recipes/default/tiddlers/"@.is_prefix_of(url)
}

/// A request for tiddlers is one for their titles alone.
pub open spec fn wants_skinny(url: Seq<char>) -> bool {
    text::has_sub(url, "fat=0"@) || text::has_sub(url, "skinny=1"@)
}

/// What a request asks for.
pub open spec fn route_of(method: Method, url: Seq<char>) -> RouteView {
    match method {
        Method::Get => if url == "/"@ || url == "/index.html"@ {
            RouteView::Wiki
        } else if url == "/status"@ {
            RouteView::Status
        } else if url == "/recipes/default/tiddlers.json"@
            || "/recipes/default/tiddlers.json?"@.is_prefix_of(url) {
            RouteView::TiddlerList(wants_skinny(url))
        } else if names_recipe_tiddler(url) {
            RouteView::Tiddler(url_title(url.skip(26)))
        } else if !"/recipes/"@.is_prefix_of(url) && !"/bags/"@.is_prefix_of(url) {
            RouteView::StaticFile
        } else {
            RouteView::NotFound
        },
        Method::Put => if names_recipe_tiddler(url) {
            RouteView::SaveTiddler(url_title(url.skip(26)))
        } else if "/bags/default/tiddlers/"@.is_prefix_of(url) {
            RouteView::SaveTiddler(url_title(url.skip(23)))
        } else {
            RouteView::NotFound
        },
        Method::Delete => if names_recipe_tiddler(url) {
            RouteView::DeleteTiddler(url_title(url.skip(26)))
        } else {
            RouteView::NotFound
        },
        Method::Other => RouteView::NotFound,
    }
}

fn decode_title(s: &str) -> (r: String)
    ensures
        r@ == url_title(s@),
{
    match outside::url_decode(s) {
        Some(t) => t,
        None => "".to_owned(),
    }
}

/// What a request asks for.
pub fn handle_request(method: Method, url: &str) -> (r: Route)
    ensures
        r@ == route_of(method, url@),
{
    proof {
        reveal_strlit("/recipes/default/tiddlers/");
        reveal_strlit("/bags/default/tiddlers/");
    }
    match method {
        Method::Get => {
            if text::same(url, "/") || text::same(url, "/index.html") {
                Route::Wiki
            } else if text::same(url, "/status") {
                Route::Status
            } else if text::same(url, "/recipes/default/tiddlers.json") || text::starts_with(
                url,
                "/recipes/default/tiddlers.json?",
            ) {
                Route::TiddlerList {
                    skinny: text::contains(url, "fat=0") || text::contains(url, "skinny=1"),
                }
            } else if text::starts_with(url, "/recipes/default/tiddlers/") {
                Route::Tiddler(decode_title(text::skip(url, 26)))
            } else if !text::starts_with(url, "/recipes/") && !text::starts_with(url, "/bags/") {
                Route::StaticFile
            } else {
                Route::NotFound
            }
        },
        Method::Put => {
            if text::starts_with(url, "/recipes/default/tiddlers/") {
                Route::SaveTiddler(decode_title(text::skip(url, 26)))
            } else if text::starts_with(url, "/bags/default/tiddlers/") {
                Route::SaveTiddler(decode_title(text::skip(url, 23)))
            } else {
                Route::NotFound
            }
        },
        Method::Delete => {
            if text::starts_with(url, "/recipes/default/tiddlers/") {
                Route::DeleteTiddler(decode_title(text::skip(url, 26)))
            } else {
                Route::NotFound
            }
        },
        Method::Other => Route::NotFound,
    }
}

/// Reading, saving and deleting under the same URL of the recipe speak of the
/// same tiddler.
pub proof fn law_one_url_one_tiddler(url: Seq<char>)
    requires
        names_recipe_tiddler(url),
    ensures
        exists|t: Seq<char>|
            route_of(Method::Get, url) == RouteView::Tiddler(t) && #[trigger] route_of(
                Method::Put,
                url,
            ) == RouteView::SaveTiddler(t) && route_of(Method::Delete, url)
                == RouteView::DeleteTiddler(t),
{
    reveal_strlit("/recipes/default/tiddlers/");
    reveal_strlit("/recipes/default/tiddlers.json");
    reveal_strlit("/recipes/default/tiddlers.json?");
    reveal_strlit("/");
    reveal_strlit("/index.html");
    reveal_strlit("/status");
    let p = "/recipes/default/tiddlers/"@;
    assert(p.len() == 26);
    assert(url.subrange(0, 26) == p);
    assert(url[25] == p[25] && p[25] == '/');
    assert("/recipes/default/tiddlers.json"@[25] == '.');
    assert("/recipes/default/tiddlers.json?"@[25] == '.');
    if "/recipes/default/tiddlers.json?"@.is_prefix_of(url) {
        let q = "/recipes/default/tiddlers.json?"@;
        assert(url.subrange(0, q.len() as int)[25] == q[25]);
    }
    let t = url_title(url.skip(26));
    assert(route_of(Method::Get, url) == RouteView::Tiddler(t));
    assert(route_of(Method::Put, url) == RouteView::SaveTiddler(t));
}

/// A title that is escaped behind the path of the recipe's tiddlers, or of the
/// bag's, is the title of the tiddler that is read, saved and deleted.
pub proof fn law_urls_name_titles(title: Seq<char>)
    ensures
        ({
            let recipe = "/recipes/default/tiddlers/"@ + outside::url_encoded(title);
            let bag = "/bags/default/tiddlers/"@ + outside::url_encoded(title);
            &&& route_of(Method::Get, recipe) == RouteView::Tiddler(title)
            &&& route_of(Method::Put, recipe) == RouteView::SaveTiddler(title)
            &&& route_of(Method::Delete, recipe) == RouteView::DeleteTiddler(title)
            &&& route_of(Method::Put, bag) == RouteView::SaveTiddler(title)
        }),
{
    reveal_strlit("/recipes/default/tiddlers/");
    reveal_strlit("/bags/default/tiddlers/");
    let e = outside::url_encoded(title);
    let p = "/recipes/default/tiddlers/"@;
    let q = "/bags/default/tiddlers/"@;
    outside::law_url_round_trip(title);
    assert((p + e).skip(26) =~= e);
    assert((q + e).skip(23) =~= e);
    assert((p + e).subrange(0, 26) =~= p);
    assert((q + e).subrange(0, 23) =~= q);
    assert(q.is_prefix_of(q + e));
    assert(!p.is_prefix_of(q + e)) by {
        if p.is_prefix_of(q + e) {
            assert((q + e).subrange(0, 26)[1] == p[1]);
            assert((q + e)[1] == q[1]);
        }
    }
    law_one_url_one_tiddler(p + e);
}

// ---------------------------------------------------------------------------
// What is answered
// ---------------------------------------------------------------------------

/// An answer: its status, its type where it has one, and its body.
pub struct Reply {
    pub status: u16,
    pub content_type: Option<String>,
    pub body: String,
}

/// The answer has the status, the type and the body.
pub open spec fn replies(r: Reply, status: u16, content_type: Option<Seq<char>>, body: Seq<char>) -> bool {
    r.status == status && text::opt_view(r.content_type) == content_type && r.body@ == body
}

/// What is answered where all went well, or why it did not: a status, a type and
/// a body.
pub ghost enum Answer {
    /// The wiki's page.
    Page(Seq<char>),
    /// What is written in JSON.
    Data(Seq<char>),
    /// It was saved, and nothing is to be said of it.
    Saved(Seq<char>),
    /// It was saved.
    Done,
    /// It is not there.
    Missing(Seq<char>),
    /// It failed.
    Failed(Seq<char>),
}

/// The status of an answer.
pub open spec fn status_of(a: Answer) -> u16 {
    match a {
        Answer::Page(_) | Answer::Data(_) | Answer::Done => 200,
        Answer::Saved(_) => 204,
        Answer::Missing(_) => 404,
        Answer::Failed(_) => 500,
    }
}

/// The body of an answer.
pub open spec fn body_of(a: Answer) -> Seq<char> {
    match a {
        Answer::Page(b) | Answer::Data(b) | Answer::Saved(b) | Answer::Missing(b) | Answer::Failed(
            b,
        ) => b,
        Answer::Done => "OK"@,
    }
}

/// The reply is the answer.
pub open spec fn answers(r: Reply, a: Answer) -> bool {
    r.status == status_of(a) && r.body@ == body_of(a) && (a is Page ==> text::opt_view(r.content_type)
        == Some("text/html; charset=utf-8"@)) && (a is Data ==> text::opt_view(r.content_type)
        == Some("application/json"@))
}

fn plain_reply(status: u16, body: &str) -> (r: Reply)
    ensures
        replies(r, status, None, body@),
{
    Reply { status, content_type: None, body: body.to_owned() }
}

fn json_reply(body: String) -> (r: Reply)
    ensures
        replies(r, 200, Some("application/json"@), body@),
{
    Reply { status: 200, content_type: Some("application/json".to_owned()), body }
}

/// The wiki's page.
pub fn serve_wiki_html(html: &str) -> (r: Reply)
    ensures
        replies(r, 200, Some("text/html; charset=utf-8"@), html@),
        answers(r, Answer::Page(html@)),
{
    Reply {
        status: 200,
        content_type: Some("text/html; charset=utf-8".to_owned()),
        body: html.to_owned(),
    }
}

/// What the server says of itself.
pub fn serve_status() -> (r: Reply)
    ensures
        replies(
            r,
            200,
            Some("application/json"@),
            "{\"username\":\"GUEST\",\"anonymous\":true,\"read_only\":false,\"space\":{\"recipe\":\"default\"},\"tiddlywiki_version\":\"5.3.6\"}"@,
        ),
{
    json_reply(
        "{\"username\":\"GUEST\",\"anonymous\":true,\"read_only\":false,\"space\":{\"recipe\":\"default\"},\"tiddlywiki_version\":\"5.3.6\"}".to_owned(),
    )
}

/// What there is no answer to.
pub fn not_found() -> (r: Reply)
    ensures
        replies(r, 404, None, "Not Found"@),
        answers(r, Answer::Missing("Not Found"@)),
{
    plain_reply(404, "Not Found")
}

/// A tiddler from a `.json` file as a list has it: all its fields, or its title
/// and revision alone.
pub open spec fn listed_json(title: Seq<char>, m: Seq<(Seq<char>, tid::FieldView)>, skinny: bool) -> Seq<
    (Seq<char>, tid::FieldView),
> {
    let first = seq![("title"@, tid::FieldView::Text(title))];
    if skinny {
        match table::lookup(m, "revision"@) {
            Some(v) => first.push(("revision"@, v)),
            None => first,
        }
    } else {
        with_fields(first, m)
    }
}

/// The fields put in, one after another.
pub open spec fn with_fields(
    acc: Seq<(Seq<char>, tid::FieldView)>,
    m: Seq<(Seq<char>, tid::FieldView)>,
) -> Seq<(Seq<char>, tid::FieldView)>
    decreases m.len(),
{
    if m.len() == 0 {
        acc
    } else {
        table::put(with_fields(acc, m.drop_last()), m.last().0, m.last().1)
    }
}

fn copy_value(v: &FieldValue) -> (r: FieldValue)
    ensures
        r@ == v@,
{
    match v {
        FieldValue::Text(s) => FieldValue::Text(s.clone()),
        FieldValue::Json(s) => FieldValue::Json(s.clone()),
    }
}

/// A tiddler from a `.json` file as a list has it.
pub fn list_json_tiddler(t: &TiddlerJson, skinny: bool) -> (r: Table<FieldValue>)
    ensures
        r@ == listed_json(t.title@, t.fields@, skinny),
{
    let mut out: Table<FieldValue> = Table::new();
    let title: FieldValue = FieldValue::Text(t.title.clone());
    out.insert("title".to_owned(), title);
    assert(out@ =~= seq![("title"@, tid::FieldView::Text(t.title@))]);
    let ghost first = out@;
    if skinny {
        proof {
            reveal_strlit("title");
            reveal_strlit("revision");
            assert("title"@.len() != "revision"@.len());
            table::lemma_position(out@, "revision"@, 0);
        }
        if let Some(v) = t.fields.get("revision") {
            out.insert("revision".to_owned(), copy_value(v));
        }
        return out;
    }
    let m: &Table<FieldValue> = &t.fields;
    let mut i: usize = 0;
    while i < m.entries.len()
        invariant
            i <= m.entries.len(),
            out@ == with_fields(first, m@.take(i as int)),
        decreases m.entries.len() - i,
    {
        assert(m@.take(i + 1).drop_last() =~= m@.take(i as int));
        assert(m@.take(i + 1).last() == (m.entries@[i as int].0@, m.entries@[i as int].1@));
        out.insert(m.entries[i].0.clone(), copy_value(&m.entries[i].1));
        i = i + 1;
    }
    assert(m@.take(i as int) =~= m@);
    out
}

/// How a file in the tiddlers' directory counts.
#[derive(Clone, Copy, PartialEq, Eq, Structural)]
pub enum TiddlerFileKind {
    Tid,
    Json,
    Skip,
}

/// A file counts by its name: `.tid` files, and `.json` files but those of the
/// system.
pub open spec fn file_kind(name: Seq<char>, is_dir: bool) -> TiddlerFileKind {
    if is_dir {
        TiddlerFileKind::Skip
    } else if ".tid"@.is_suffix_of(name) {
        TiddlerFileKind::Tid
    } else if ".json"@.is_suffix_of(name) && !"$"@.is_prefix_of(name) {
        TiddlerFileKind::Json
    } else {
        TiddlerFileKind::Skip
    }
}

/// How a file in the tiddlers' directory counts.
pub fn tiddler_file_kind(name: &str, is_dir: bool) -> (r: TiddlerFileKind)
    ensures
        r == file_kind(name@, is_dir),
{
    if is_dir {
        TiddlerFileKind::Skip
    } else if text::ends_with(name, ".tid") {
        TiddlerFileKind::Tid
    } else if text::ends_with(name, ".json") && !text::starts_with(name, "$") {
        TiddlerFileKind::Json
    } else {
        TiddlerFileKind::Skip
    }
}

/// A file of the tiddlers' directory that was read.
pub enum TiddlerFile {
    /// The content of a `.tid` file.
    Tid(String),
    /// What a `.json` file holds.
    Json(TiddlerJson),
}

/// The JSON object for a file, where it holds a tiddler.
pub open spec fn listed_file(f: TiddlerFile, skinny: bool) -> Option<Seq<char>> {
    match f {
        TiddlerFile::Tid(c) => match tid::parsed_tid(c@, skinny) {
            Some(m) => Some(tid::json_object(tid::text_fields(m))),
            None => None,
        },
        TiddlerFile::Json(t) => Some(
            tid::json_object(listed_json(t.title@, t.fields@, skinny)),
        ),
    }
}

/// The JSON objects for the files that hold a tiddler, in order.
pub open spec fn listed_files(files: Seq<TiddlerFile>, skinny: bool) -> Seq<Seq<char>>
    decreases files.len(),
{
    if files.len() == 0 {
        Seq::empty()
    } else {
        let before = listed_files(files.drop_last(), skinny);
        match listed_file(files.last(), skinny) {
            Some(o) => before.push(o),
            None => before,
        }
    }
}

fn list_file(f: &TiddlerFile, skinny: bool) -> (r: Option<String>)
    ensures
        text::opt_view(r) == listed_file(*f, skinny),
{
    match f {
        TiddlerFile::Tid(c) => match tid::parse_tid_file(c.as_str(), skinny) {
            Some(m) => {
                let fields: Table<FieldValue> = tid::as_fields(&m);
                Some(tid::to_json_object(&fields))
            },
            None => None,
        },
        TiddlerFile::Json(t) => {
            let fields: Table<FieldValue> = list_json_tiddler(t, skinny);
            Some(tid::to_json_object(&fields))
        },
    }
}

/// The list of tiddlers: an empty one where the wiki has no directory for them,
/// else one of all the files that hold a tiddler.
pub fn serve_tiddler_list(files: Option<Vec<TiddlerFile>>, skinny: bool) -> (r: Reply)
    ensures
        replies(
            r,
            200,
            Some("application/json"@),
            match files {
                Some(f) => tid::json_array(listed_files(f@, skinny)),
                None => "[]"@,
            },
        ),
{
    let files: Vec<TiddlerFile> = match files {
        Some(f) => f,
        None => {
            return json_reply("[]".to_owned());
        },
    };
    let mut items: Vec<String> = Vec::new();
    let mut i: usize = 0;
    assert(text::views(items@) =~= listed_files(files@.take(0), skinny));
    while i < files.len()
        invariant
            i <= files.len(),
            text::views(items@) == listed_files(files@.take(i as int), skinny),
        decreases files.len() - i,
    {
        let ghost before = items@;
        assert(files@.take(i + 1).drop_last() =~= files@.take(i as int));
        assert(files@.take(i + 1).last() == files@[i as int]);
        if let Some(o) = list_file(&files[i], skinny) {
            items.push(o);
            assert(text::views(items@) =~= text::views(before).push(o@));
        }
        i = i + 1;
    }
    assert(files@.take(i as int) =~= files@);
    json_reply(tid::to_json_array(&items))
}

/// The names of the files in which a tiddler may be, in the order in which they
/// are tried.
pub fn tiddler_files(title: &str) -> (r: (String, String))
    ensures
        r.0@ == tid::filename_of(title@) + ".tid"@,
        r.1@ == tid::filename_of(title@) + ".json"@,
{
    let name: String = tid::title_to_filename(title);
    (text::concat(name.as_str(), ".tid"), text::concat(name.as_str(), ".json"))
}

/// What is answered to a request for a tiddler: what its `.tid` file holds, or
/// else its `.json` file as it is, or that it was not found.
pub open spec fn tiddler_reply(tid_file: Option<Seq<char>>, json_file: Option<Seq<char>>) -> (
    u16,
    Option<Seq<char>>,
    Seq<char>,
) {
    let from_tid = match tid_file {
        Some(c) => tid::parsed_tid(c, false),
        None => None,
    };
    match from_tid {
        Some(m) => (200, Some("application/json"@), tid::json_object(tid::text_fields(m))),
        None => match json_file {
            Some(c) => (200, Some("application/json"@), c),
            None => (404, None, "Tiddler not found"@),
        },
    }
}

/// What is answered to a request for a tiddler. The arguments are what could be
/// read of its two files; nothing where the wiki has no directory for them.
pub fn serve_tiddler(tid_file: Option<String>, json_file: Option<String>) -> (r: Reply)
    ensures
        ({
            let a = tiddler_reply(text::opt_view(tid_file), text::opt_view(json_file));
            replies(r, a.0, a.1, a.2)
        }),
{
    if let Some(c) = tid_file {
        if let Some(m) = tid::parse_tid_file(c.as_str(), false) {
            let fields: Table<FieldValue> = tid::as_fields(&m);
            return json_reply(tid::to_json_object(&fields));
        }
    }
    match json_file {
        Some(c) => json_reply(c),
        None => plain_reply(404, "Tiddler not found"),
    }
}

/// What marks the state of a saved tiddler.
pub open spec fn etag_of(title: Seq<char>) -> Seq<char> {
    "\"default/"@ + outside::url_encoded("default"@) + "/"@ + outside::url_encoded(title) + ":\""@
}

/// What marks the state of a saved tiddler.
pub fn etag(title: &str) -> (r: String)
    ensures
        r@ == etag_of(title@),
{
    let bag: String = outside::url_encode("default");
    let name: String = outside::url_encode(title);
    let mut out: String = text::concat3("\"default/", bag.as_str(), "/");
    out.append(name.as_str());
    out.append(":\"");
    out
}

/// Where and what to write to save a tiddler, and what is answered then.
pub struct SavePlan {
    pub file_name: String,
    pub content: String,
    pub etag: String,
}

/// How a tiddler is saved under the title.
pub fn save_tiddler(title: &str, tiddler: &TiddlerJson) -> (r: SavePlan)
    ensures
        r.file_name@ == tid::filename_of(title@) + ".tid"@,
        r.content@ == tid::tid_content(tiddler.title@, tiddler.fields@),
        r.etag@ == etag_of(title@),
        file_kind(r.file_name@, false) == TiddlerFileKind::Tid,
{
    proof {
        law_tiddler_files_are_listed(title@);
    }
    SavePlan {
        file_name: tiddler_files(title).0,
        content: tid::tiddler_to_tid(tiddler),
        etag: etag(title),
    }
}

/// What is answered to a saved tiddler: that it was, with what was sent.
pub fn saved_reply(body: String) -> (r: Reply)
    ensures
        replies(r, 204, None, body@),
        answers(r, Answer::Saved(body@)),
{
    Reply { status: 204, content_type: None, body }
}

/// What is answered to saving or deleting where the wiki has no directory for
/// tiddlers.
pub fn no_directory_reply() -> (r: Reply)
    ensures
        replies(r, 500, None, "Tiddlers directory not found"@),
        answers(r, Answer::Failed("Tiddlers directory not found"@)),
{
    plain_reply(500, "Tiddlers directory not found")
}

/// Which of a tiddler's files is deleted, by their URIs.
pub open spec fn deleted_file(tid_uri: Option<Seq<char>>, json_uri: Option<Seq<char>>) -> Option<
    Seq<char>,
> {
    match tid_uri {
        Some(u) => Some(u),
        None => json_uri,
    }
}

/// What an optional string holds.
pub open spec fn str_view(o: Option<&str>) -> Option<Seq<char>> {
    match o {
        Some(s) => Some(s@),
        None => None,
    }
}

/// Which of a tiddler's files is deleted: the `.tid` file, or else the `.json`
/// file.
pub fn delete_tiddler<'a>(tid_uri: Option<&'a str>, json_uri: Option<&'a str>) -> (r: Option<&'a str>)
    ensures
        match r {
            Some(u) => if tid_uri is Some {
                u@ == tid_uri->0@
            } else {
                json_uri is Some && u@ == json_uri->0@
            },
            None => tid_uri is None && json_uri is None,
        },
        str_view(r) == deleted_file(str_view(tid_uri), str_view(json_uri)),
{
    match tid_uri {
        Some(u) => Some(u),
        None => json_uri,
    }
}

/// What is answered to a deletion.
pub fn deleted_reply() -> (r: Reply)
    ensures
        replies(r, 204, None, ""@),
        answers(r, Answer::Saved(""@)),
{
    plain_reply(204, "")
}

/// A tiddler that was saved and keeps in a file is what is answered to a
/// request for it.
pub proof fn law_saved_tiddler_is_served(title: Seq<char>, m: Seq<(Seq<char>, tid::FieldView)>)
    requires
        tid::keeps_on_line(title),
        tid::keeps_in_header(m),
        tid::text_field(m) is Some ==> tid::keeps_as_body(tid::text_field(m)->0),
    ensures
        tiddler_reply(Some(tid::tid_content(title, m)), None) == (
            200u16,
            Some("application/json"@),
            tid::json_object(
                tid::text_fields(
                    match tid::text_field(m) {
                        Some(s) => table::put(tid::given_back(title, m), "text"@, s),
                        None => tid::given_back(title, m),
                    },
                ),
            ),
        ),
{
    tid::law_written_tiddler_is_read(title, m);
}

// ---------------------------------------------------------------------------
// Files in the wiki's folder
// ---------------------------------------------------------------------------

/// A part of a path as a URL has it, decoded where it can be.
pub open spec fn path_part(s: Seq<char>) -> Seq<char> {
    match outside::url_decoded(s) {
        Some(t) => t,
        None => s,
    }
}

/// The parts of a path between its slashes, without the empty ones, decoded.
pub open spec fn path_components(parts: Seq<Seq<char>>) -> Seq<Seq<char>>
    decreases parts.len(),
{
    if parts.len() == 0 {
        Seq::empty()
    } else {
        let before = path_components(parts.drop_last());
        if parts.last().len() == 0 {
            before
        } else {
            before.push(path_part(parts.last()))
        }
    }
}

/// The directories to go through, from the wiki's folder on, and then the file;
/// nothing where the path names none.
pub fn serve_static_file(path: &str) -> (r: Vec<String>)
    ensures
        text::views(r@) == path_components(
            text::split_of(text::trimmed_start_char(path@, '/'), '/'),
        ),
{
    let parts: Vec<String> = text::split_char(text::trim_start_char(path, '/'), '/');
    let ghost all = text::views(parts@);
    let mut out: Vec<String> = Vec::new();
    let mut i: usize = 0;
    assert(text::views(out@) =~= path_components(all.take(0)));
    while i < parts.len()
        invariant
            i <= parts.len(),
            all == text::views(parts@),
            text::views(out@) == path_components(all.take(i as int)),
        decreases parts.len() - i,
    {
        let ghost before = out@;
        let part: &str = parts[i].as_str();
        assert(all.take(i + 1).drop_last() =~= all.take(i as int));
        assert(all.take(i + 1).last() == part@);
        if !part.is_empty() {
            let decoded: String = match outside::url_decode(part) {
                Some(t) => t,
                None => part.to_owned(),
            };
            out.push(decoded);
            assert(text::views(out@) =~= text::views(before).push(decoded@));
        }
        i = i + 1;
    }
    assert(all.take(i as int) =~= all);
    out
}

// ---------------------------------------------------------------------------
// The server of a single-file wiki
// ---------------------------------------------------------------------------

/// What a request to the server of a single-file wiki asks for.
pub enum SingleRoute {
    Wiki,
    Save,
    /// A file by its encoded path.
    File(String),
    /// A file by its encoded path from the wiki's directory on.
    Relative(String),
    NotFound,
}

/// What a request to the server of a single-file wiki asks for.
pub ghost enum SingleRouteView {
    Wiki,
    Save,
    File(Seq<char>),
    Relative(Seq<char>),
    NotFound,
}

impl View for SingleRoute {
    type V = SingleRouteView;

    open spec fn view(&self) -> SingleRouteView {
        match self {
            SingleRoute::Wiki => SingleRouteView::Wiki,
            SingleRoute::Save => SingleRouteView::Save,
            SingleRoute::File(p) => SingleRouteView::File(p@),
            SingleRoute::Relative(p) => SingleRouteView::Relative(p@),
            SingleRoute::NotFound => SingleRouteView::NotFound,
        }
    }
}

/// What a request to the server of a single-file wiki asks for.
pub open spec fn single_route_of(method: Method, url: Seq<char>) -> SingleRouteView {
    if (url == "/"@ || url == "/index.html"@) && method == Method::Get {
        SingleRouteView::Wiki
    } else if (url == "/"@ || url == "/save"@) && method == Method::Put {
        SingleRouteView::Save
    } else if "/_file/"@.is_prefix_of(url) {
        SingleRouteView::File(url.skip(7))
    } else if "/_relative/"@.is_prefix_of(url) {
        SingleRouteView::Relative(url.skip(11))
    } else {
        SingleRouteView::NotFound
    }
}

/// What a request to the server of a single-file wiki asks for.
pub fn route_single_file(method: Method, url: &str) -> (r: SingleRoute)
    ensures
        r@ == single_route_of(method, url@),
{
    proof {
        reveal_strlit("/_file/");
        reveal_strlit("/_relative/");
    }
    if (text::same(url, "/") || text::same(url, "/index.html")) && method == Method::Get {
        return SingleRoute::Wiki;
    }
    if (text::same(url, "/") || text::same(url, "/save")) && method == Method::Put {
        return SingleRoute::Save;
    }
    if let Some(p) = text::strip_prefix(url, "/_file/") {
        return SingleRoute::File(p.to_owned());
    }
    if let Some(p) = text::strip_prefix(url, "/_relative/") {
        return SingleRoute::Relative(p.to_owned());
    }
    SingleRoute::NotFound
}

/// The address at which a GET delivers the page is one at which a PUT saves it:
/// the root. Besides, a PUT saves at `/save`, and no other request does; a GET
/// delivers the page at `/index.html` too, and no other request does.
pub proof fn law_page_is_saved_where_it_is_delivered(method: Method, url: Seq<char>)
    ensures
        single_route_of(method, url) == SingleRouteView::Save <==> method == Method::Put && (url
            == "/"@ || url == "/save"@),
        single_route_of(method, url) == SingleRouteView::Wiki <==> method == Method::Get && (url
            == "/"@ || url == "/index.html"@),
        single_route_of(Method::Get, "/"@) == SingleRouteView::Wiki,
        single_route_of(Method::Put, "/"@) == SingleRouteView::Save,
{
}

/// An address below `/_file/` or `/_relative/` asks, by every method, for the
/// file that the rest of the address names; every other address that neither
/// delivers nor saves the page is unknown.
pub proof fn law_files_are_named_by_their_address(method: Method, name: Seq<char>, url: Seq<char>)
    ensures
        single_route_of(method, "/_file/"@ + name) == SingleRouteView::File(name),
        single_route_of(method, "/_relative/"@ + name) == SingleRouteView::Relative(name),
        single_route_of(method, url) matches SingleRouteView::File(p) ==> url == "/_file/"@ + p,
        single_route_of(method, url) matches SingleRouteView::Relative(p) ==> url
            == "/_relative/"@ + p,
        (forall|p: Seq<char>| url != #[trigger] ("/_file/"@ + p)) && (forall|p: Seq<char>|
            url != #[trigger] ("/_relative/"@ + p)) && method != Method::Get && method
            != Method::Put ==> single_route_of(method, url) == SingleRouteView::NotFound,
{
    reveal_strlit("/");
    reveal_strlit("/save");
    reveal_strlit("/index.html");
    reveal_strlit("/_file/");
    reveal_strlit("/_relative/");
    let f = "/_file/"@ + name;
    let r = "/_relative/"@ + name;
    assert(f.skip(7) =~= name);
    assert(r.skip(11) =~= name);
    assert(f[1] == '_' && r[1] == '_' && r[2] == 'r' && f[2] == 'f');
    assert(!"/_file/"@.is_prefix_of(r)) by {
        if "/_file/"@.is_prefix_of(r) {
            assert("/_file/"@[2] == r.take(7)[2]);
        }
    }
    assert("/_file/"@.is_prefix_of(f));
    assert("/_relative/"@.is_prefix_of(r));
    if "/_file/"@.is_prefix_of(url) {
        assert(url =~= "/_file/"@ + url.skip(7));
    }
    if "/_relative/"@.is_prefix_of(url) {
        assert(url =~= "/_relative/"@ + url.skip(11));
    }
}

/// What is answered to a wiki that was to be saved.
pub open spec fn save_answer(result: Result<(), Seq<char>>) -> Answer {
    match result {
        Ok(_) => Answer::Done,
        Err(e) => Answer::Failed(e),
    }
}

/// What is answered to a wiki that was to be saved: that it was, or why not.
pub fn save_reply(result: Result<(), String>) -> (r: Reply)
    ensures
        match result {
            Ok(_) => replies(r, 200, None, "OK"@),
            Err(e) => replies(r, 500, None, e@),
        },
        answers(r, save_answer(match result {
            Ok(_) => Ok(()),
            Err(e) => Err(e@),
        })),
{
    match result {
        Ok(_) => plain_reply(200, "OK"),
        Err(e) => Reply { status: 500, content_type: None, body: e },
    }
}

/// A wiki of one file that is served: where it is, what it holds, and its
/// directory, where that can be reached.
pub struct SingleFileContext {
    pub wiki_path: String,
    pub wiki_content: String,
    pub wiki_dir: Option<String>,
}

/// What is served after a wiki was to be saved: the new content, once it was
/// read and written, and else the old.
pub open spec fn served_content(
    before: Seq<char>,
    body: Result<Seq<char>, Seq<char>>,
    written: bool,
) -> Seq<char> {
    match body {
        Ok(b) => if written {
            b
        } else {
            before
        },
        Err(_) => before,
    }
}

/// What a result holds.
pub open spec fn unit_view(r: Result<(), String>) -> Result<(), Seq<char>> {
    match r {
        Ok(_) => Ok(()),
        Err(e) => Err(e@),
    }
}

/// What saving a wiki comes to: it was read and written, or why not.
pub open spec fn save_outcome(body: Result<Seq<char>, Seq<char>>, written: Result<(), Seq<char>>) -> Result<
    (),
    Seq<char>,
> {
    match body {
        Err(e) => Err("Failed to read request body: "@ + e),
        Ok(_) => written,
    }
}

/// Saves a wiki of one file. `body` is what was sent, and `written` what became
/// of writing it; only what was written is served from then on.
pub fn handle_save_request(
    context: &mut SingleFileContext,
    body: Result<String, String>,
    written: Result<(), String>,
) -> (r: Result<(), String>)
    ensures
        final(context).wiki_path@ == old(context).wiki_path@,
        final(context).wiki_dir == old(context).wiki_dir,
        final(context).wiki_content@ == served_content(
            old(context).wiki_content@,
            text::result_view(body),
            written is Ok,
        ),
        match (body, written, r) {
            (Err(e), _, Err(f)) => f@ == "Failed to read request body: "@ + e@,
            (Ok(_), Err(e), Err(f)) => f@ == e@,
            (Ok(_), Ok(_), Ok(_)) => true,
            _ => false,
        },
        unit_view(r) == save_outcome(text::result_view(body), unit_view(written)),
{
    match body {
        Err(e) => Err(text::concat("Failed to read request body: ", e.as_str())),
        Ok(b) => match written {
            Err(e) => Err(e),
            Ok(_) => {
                context.wiki_content = b;
                Ok(())
            },
        },
    }
}

/// A wiki that was saved is what is served next, and one that could not be saved
/// stays as it was; both by the page that is answered.
pub proof fn law_saved_wiki_is_served(before: Seq<char>, body: Seq<char>, page: Reply, written: bool)
    requires
        replies(
            page,
            200,
            Some("text/html; charset=utf-8"@),
            served_content(before, Ok(body), written),
        ),
    ensures
        written ==> page.body@ == body,
        !written ==> page.body@ == before,
{
}

/// What is answered where a file cannot be had.
pub fn file_not_found() -> (r: Reply)
    ensures
        replies(r, 404, None, "File not found"@),
        answers(r, Answer::Missing("File not found"@)),
{
    plain_reply(404, "File not found")
}

/// The path is one of the storage framework's, which the file system does not
/// know.
pub open spec fn is_saf(path: Seq<char>) -> bool {
    "content://"@.is_prefix_of(path) || "{"@.is_prefix_of(path)
}

/// Whether the path is one of the storage framework's.
pub fn is_saf_path(path: &str) -> (r: bool)
    ensures
        r == is_saf(path@),
{
    text::starts_with(path, "content://") || text::starts_with(path, "{")
}

/// A file that is to be served.
pub struct ServedFile {
    pub path: String,
    /// The storage framework has it.
    pub saf: bool,
    pub mime: String,
}

/// Why an encoded path is refused.
#[derive(Clone, Copy, PartialEq, Eq, Structural)]
pub enum PathFault {
    NotBase64,
    NotUtf8,
    NoDirectory,
    NotDecodable,
}

/// A file by the bytes of its path.
pub open spec fn external_file(bytes: Option<Seq<u8>>) -> Result<Seq<char>, PathFault> {
    match bytes {
        None => Err(PathFault::NotBase64),
        Some(b) => if vstd::utf8::valid_utf8(b) {
            Ok(vstd::utf8::decode_utf8(b))
        } else {
            Err(PathFault::NotUtf8)
        },
    }
}

/// The file is that of the path, with the MIME type of its name.
pub open spec fn serves(f: ServedFile, path: Seq<char>) -> bool {
    f.path@ == path && f.saf == is_saf(path) && f.mime@ == mime::mime_of_file(
        mime::after_last(path, '/'),
    )
}

/// A file by the bytes of its path, where the path could be decoded.
pub fn file_of_bytes(bytes: Option<Vec<u8>>) -> (r: Result<ServedFile, PathFault>)
    ensures
        ({
            let path = external_file(
                match bytes {
                    Some(b) => Some(b@),
                    None => None,
                },
            );
            match r {
                Ok(f) => path is Ok && serves(f, path->Ok_0),
                Err(e) => path == Err::<Seq<char>, PathFault>(e),
            }
        }),
{
    let b: Vec<u8> = match bytes {
        Some(b) => b,
        None => {
            return Err(PathFault::NotBase64);
        },
    };
    match outside::utf8_strict(b.as_slice()) {
        None => Err(PathFault::NotUtf8),
        Some(path) => {
            let saf: bool = is_saf_path(path.as_str());
            let mime: String = mime::guess_mime_type(mime::part_after_last(path.as_str(), '/'));
            Ok(ServedFile { path, saf, mime })
        },
    }
}

/// A file by its path in base64.
pub fn serve_external_file(encoded_path: &str) -> (r: Result<ServedFile, PathFault>)
    ensures
        ({
            let path = external_file(outside::base64url_decoded(encoded_path@));
            match r {
                Ok(f) => path is Ok && serves(f, path->Ok_0),
                Err(e) => path == Err::<Seq<char>, PathFault>(e),
            }
        }),
{
    file_of_bytes(outside::base64url_decode(encoded_path))
}

/// The path from a directory on: a path from the root stands for itself.
pub open spec fn path_from(dir: Seq<char>, path: Seq<char>) -> Seq<char> {
    if "/"@.is_prefix_of(path) {
        path
    } else if dir.len() == 0 || dir.last() == '/' {
        dir + path
    } else {
        dir.push('/') + path
    }
}

/// The path from a directory on.
pub fn join_path(dir: &str, path: &str) -> (r: String)
    ensures
        r@ == path_from(dir@, path@),
{
    if text::starts_with(path, "/") {
        return path.to_owned();
    }
    let n: usize = dir.unicode_len();
    let mut out: String = dir.to_owned();
    if n > 0 && dir.get_char(n - 1) != '/' {
        out.push('/');
    }
    out.append(path);
    out
}

/// A file of the wiki's directory.
pub struct RelativeFile {
    /// The storage framework has the directory; then the file is to be found
    /// there by its name, and else it is at the path.
    pub saf: bool,
    pub name: String,
    pub path: String,
    pub mime: String,
}

/// The path and the MIME type of a file of the wiki's directory, by its encoded
/// path.
pub open spec fn relative_file(encoded_path: Seq<char>, wiki_dir: Option<Seq<char>>) -> Result<
    (Seq<char>, Seq<char>),
    PathFault,
> {
    match wiki_dir {
        None => Err(PathFault::NoDirectory),
        Some(d) => match outside::url_decoded(encoded_path) {
            None => Err(PathFault::NotDecodable),
            Some(n) => Ok((path_from(d, n), mime::mime_of_file(n))),
        },
    }
}

/// A file of the wiki's directory by its encoded path.
pub fn serve_relative_file(encoded_path: &str, wiki_dir: Option<&str>) -> (r: Result<
    RelativeFile,
    PathFault,
>)
    ensures
        match r {
            Ok(f) => {
                &&& wiki_dir is Some
                &&& outside::url_decoded(encoded_path@) == Some(f.name@)
                &&& f.saf == is_saf(wiki_dir->0@)
                &&& f.path@ == path_from(wiki_dir->0@, f.name@)
                &&& f.mime@ == mime::mime_of_file(f.name@)
            },
            Err(PathFault::NoDirectory) => wiki_dir is None,
            Err(PathFault::NotDecodable) => wiki_dir is Some && outside::url_decoded(
                encoded_path@,
            ) is None,
            Err(_) => false,
        },
        (match r {
            Ok(f) => Ok((f.path@, f.mime@)),
            Err(e) => Err(e),
        }) == relative_file(encoded_path@, str_view(wiki_dir)),
{
    let dir: &str = match wiki_dir {
        Some(d) => d,
        None => {
            return Err(PathFault::NoDirectory);
        },
    };
    match outside::url_decode(encoded_path) {
        None => Err(PathFault::NotDecodable),
        Some(name) => {
            let path: String = join_path(dir, name.as_str());
            let mime: String = mime::guess_mime_type(name.as_str());
            Ok(RelativeFile { saf: is_saf_path(dir), name, path, mime })
        },
    }
}

// ---------------------------------------------------------------------------
// Servers that run
// ---------------------------------------------------------------------------

/// The first port that is tried.
pub const FIRST_PORT: u16 = 39000;

/// The port behind the last one that is tried.
pub const END_PORT: u16 = 40000;

/// The port to try after the given one, or the first; none where all were
/// tried.
pub open spec fn port_to_try(tried: Option<u16>) -> Option<int> {
    match tried {
        None => Some(FIRST_PORT as int),
        Some(t) => if t < FIRST_PORT {
            Some(FIRST_PORT as int)
        } else if t + 1 < END_PORT {
            Some(t + 1)
        } else {
            None
        },
    }
}

/// The port to try after the given one, or the first; none where all were
/// tried.
pub fn find_available_port(tried: Option<u16>) -> (r: Result<u16, String>)
    ensures
        match r {
            Ok(p) => FIRST_PORT <= p < END_PORT && match tried {
                None => p == FIRST_PORT,
                Some(t) => if FIRST_PORT <= t {
                    p == t + 1
                } else {
                    p == FIRST_PORT
                },
            },
            Err(e) => tried is Some && tried->0 >= END_PORT - 1 && e@
                == "No available ports found"@,
        },
        (match r {
            Ok(p) => Some(p as int),
            Err(_) => None,
        }) == port_to_try(tried),
{
    match tried {
        None => Ok(FIRST_PORT),
        Some(t) => {
            if t < FIRST_PORT {
                Ok(FIRST_PORT)
            } else if t >= END_PORT - 1 {
                Err("No available ports found".to_owned())
            } else {
                Ok(t + 1)
            }
        },
    }
}

/// The address of a server.
pub open spec fn server_url(port: u16) -> Seq<char> {
    "http://127.0.0.1:"@ + text::decimal(port as nat)
}

/// The address of a server.
pub fn url(port: u16) -> (r: String)
    ensures
        r@ == server_url(port),
{
    let n: String = text::to_decimal(port as u64);
    text::concat("http://127.0.0.1:", n.as_str())
}

/// What starting a server for the wiki comes to: the address of the one that
/// runs, or else that of the one that was started, or why none could be.
pub open spec fn start_outcome(
    servers: Seq<(Seq<char>, u16)>,
    key: Seq<char>,
    started: Result<u16, String>,
) -> Result<Seq<char>, Seq<char>> {
    match table::lookup(servers, key) {
        Some(p) => Ok(server_url(p)),
        None => match started {
            Ok(p) => Ok(server_url(p)),
            Err(e) => Err(e@),
        },
    }
}

/// The servers that run then.
pub open spec fn servers_after_start(
    servers: Seq<(Seq<char>, u16)>,
    key: Seq<char>,
    started: Result<u16, String>,
) -> Seq<(Seq<char>, u16)> {
    match table::lookup(servers, key) {
        Some(_) => servers,
        None => match started {
            Ok(p) => table::put(servers, key, p),
            Err(_) => servers,
        },
    }
}

/// The address of the server for the wiki, where one runs.
pub fn running_url(servers: &Table<u16>, key: &str) -> (r: Option<String>)
    ensures
        text::opt_view(r) == match table::lookup(servers@, key@) {
            Some(p) => Some(server_url(p)),
            None => None,
        },
{
    match servers.get(key) {
        Some(p) => Some(url(*p)),
        None => None,
    }
}

fn start(servers: &mut Table<u16>, key: &str, started: Result<u16, String>) -> (r: Result<
    String,
    String,
>)
    ensures
        text::result_view(r) == start_outcome(old(servers)@, key@, started),
        final(servers)@ == servers_after_start(old(servers)@, key@, started),
{
    if let Some(u) = running_url(&*servers, key) {
        return Ok(u);
    }
    match started {
        Ok(p) => {
            servers.insert(key.to_owned(), p);
            Ok(url(p))
        },
        Err(e) => Err(e),
    }
}

/// Starts the server of a folder wiki, unless one runs. `started` is what
/// starting one brought: its port, or why it could not be.
pub fn start_server(servers: &mut Table<u16>, folder_uri: &str, started: Result<u16, String>) -> (r:
    Result<String, String>)
    ensures
        text::result_view(r) == start_outcome(old(servers)@, folder_uri@, started),
        final(servers)@ == servers_after_start(old(servers)@, folder_uri@, started),
{
    start(servers, folder_uri, started)
}

/// Takes the server of a folder wiki off the list. Gives the port of the one to
/// stop.
pub fn stop_server(servers: &mut Table<u16>, folder_uri: &str) -> (r: Option<u16>)
    ensures
        r == table::lookup(old(servers)@, folder_uri@),
        final(servers)@ == table::without(old(servers)@, folder_uri@),
{
    servers.remove(folder_uri)
}

/// The ports in a table.
pub open spec fn ports_of(m: Seq<(Seq<char>, u16)>) -> Seq<u16> {
    m.map_values(|e: (Seq<char>, u16)| e.1)
}

/// Takes all servers off the list. Gives the ports of those to stop.
pub fn stop_all_servers(servers: &mut Table<u16>) -> (r: Vec<u16>)
    ensures
        r@ == ports_of(old(servers)@),
        final(servers)@.len() == 0,
{
    let ghost all = ports_of(servers@);
    let mut ports: Vec<u16> = Vec::new();
    let mut i: usize = 0;
    while i < servers.entries.len()
        invariant
            i <= servers.entries.len(),
            *servers == *old(servers),
            all == ports_of(servers@),
            ports@ == all.take(i as int),
        decreases servers.entries.len() - i,
    {
        assert(servers@[i as int] == (servers.entries@[i as int].0@, servers.entries@[i as int].1));
        ports.push(servers.entries[i].1);
        i = i + 1;
        assert(ports@ =~= all.take(i as int));
    }
    assert(all.take(i as int) =~= all);
    servers.entries = Vec::new();
    assert(servers@ =~= Seq::empty());
    ports
}

/// Starts the server of a single-file wiki, unless one runs.
pub fn start_single_file_server(
    servers: &mut Table<u16>,
    wiki_path: &str,
    started: Result<u16, String>,
) -> (r: Result<String, String>)
    ensures
        text::result_view(r) == start_outcome(old(servers)@, wiki_path@, started),
        final(servers)@ == servers_after_start(old(servers)@, wiki_path@, started),
{
    start(servers, wiki_path, started)
}

/// Takes the server of a single-file wiki off the list. Gives the port of the
/// one to stop.
pub fn stop_single_file_server(servers: &mut Table<u16>, wiki_path: &str) -> (r: Option<u16>)
    ensures
        r == table::lookup(old(servers)@, wiki_path@),
        final(servers)@ == table::without(old(servers)@, wiki_path@),
{
    servers.remove(wiki_path)
}

/// A wiki whose server runs is given the same address again, whatever starting
/// another would bring, and no second server is listed for it.
pub proof fn law_one_server_for_a_wiki(
    servers: Seq<(Seq<char>, u16)>,
    key: Seq<char>,
    first: Result<u16, String>,
    second: Result<u16, String>,
)
    requires
        first is Ok,
    ensures
        ({
            let after = servers_after_start(servers, key, first);
            &&& start_outcome(after, key, second) == start_outcome(servers, key, first)
            &&& servers_after_start(after, key, second) == after
            &&& table::distinct_keys(servers) ==> table::distinct_keys(after)
        }),
{
    table::law_put_then_lookup(servers, key, first->Ok_0, key);
}

/// A wiki whose server was stopped has none.
pub proof fn law_stopped_server_is_gone(servers: Seq<(Seq<char>, u16)>, key: Seq<char>, other: Seq<char>)
    requires
        table::distinct_keys(servers),
    ensures
        table::lookup(table::without(servers, key), key) is None,
        other != key ==> table::lookup(table::without(servers, key), other) == table::lookup(
            servers,
            other,
        ),
{
    table::law_without_then_lookup(servers, key, other);
}

// ---------------------------------------------------------------------------
// What the servers are for
// ---------------------------------------------------------------------------

/// The files in which tiddlers are kept are those that a list of tiddlers reads:
/// the `.tid` file of every title as a tiddler file, and its `.json` file too.
pub proof fn law_tiddler_files_are_listed(title: Seq<char>)
    ensures
        file_kind(tid::filename_of(title) + ".tid"@, false) == TiddlerFileKind::Tid,
        file_kind(tid::filename_of(title) + ".json"@, false) == TiddlerFileKind::Json,
        file_kind(tid::filename_of(title) + ".tid"@, true) == TiddlerFileKind::Skip,
{
    let name = tid::filename_of(title);
    tid::law_filenames_are_safe(title);
    reveal_strlit(".tid");
    reveal_strlit(".json");
    reveal_strlit("$");
    let a = name + ".tid"@;
    let b = name + ".json"@;
    assert(a.subrange(a.len() - 4, a.len() as int) =~= ".tid"@);
    assert(b.subrange(b.len() - 5, b.len() as int) =~= ".json"@);
    if ".tid"@.is_suffix_of(b) {
        assert(b.subrange(b.len() - 4, b.len() as int)[3] == ".tid"@[3]);
        assert(b[b.len() - 1] == 'n');
    }
    if "$"@.is_prefix_of(b) {
        assert(b.subrange(0, 1)[0] == '$');
        assert(b[0] == name[0]);
    }
}

/// A GET delivers the page at the root and at `/index.html`, what the server says
/// of itself at `/status`, and the list of tiddlers below the recipe, in short
/// where the request says so; every other address outside the recipe and the bag
/// is that of a file.
pub proof fn law_folder_is_delivered(url: Seq<char>, query: Seq<char>)
    ensures
        route_of(Method::Get, "/"@) == RouteView::Wiki,
        route_of(Method::Get, "/index.html"@) == RouteView::Wiki,
        route_of(Method::Get, "/status"@) == RouteView::Status,
        route_of(Method::Get, "/recipes/default/tiddlers.json?"@ + query) == RouteView::TiddlerList(
            text::has_sub("/recipes/default/tiddlers.json?"@ + query, "fat=0"@) || text::has_sub(
                "/recipes/default/tiddlers.json?"@ + query,
                "skinny=1"@,
            ),
        ),
        route_of(Method::Get, "/recipes/default/tiddlers.json"@) is TiddlerList,
        url != "/"@ && url != "/index.html"@ && url != "/status"@ && !"/recipes/"@.is_prefix_of(url)
            && !"/bags/"@.is_prefix_of(url) ==> route_of(Method::Get, url) == RouteView::StaticFile,
        "/recipes/"@.is_prefix_of(url) || "/bags/"@.is_prefix_of(url) ==> route_of(Method::Get, url)
            != RouteView::StaticFile,
        route_of(Method::Get, url) == RouteView::Wiki ==> url == "/"@ || url == "/index.html"@,
{
    reveal_strlit("/");
    reveal_strlit("/index.html");
    reveal_strlit("/status");
    reveal_strlit("/recipes/");
    reveal_strlit("/bags/");
    reveal_strlit("/recipes/default/tiddlers.json");
    reveal_strlit("/recipes/default/tiddlers.json?");
    reveal_strlit("/recipes/default/tiddlers/");
    let list = "/recipes/default/tiddlers.json?"@;
    let u = list + query;
    assert(u.subrange(0, list.len() as int) =~= list);
    assert("/"@.len() == 1 && "/index.html"@.len() == 11 && "/status"@.len() == 7);
    assert(u.len() >= 31);
    assert("/recipes/default/tiddlers.json"@.len() == 30);
    if "/recipes/"@.is_prefix_of(url) {
        assert(url.subrange(0, 9)[1] == "/recipes/"@[1]);
        assert(url[1] == 'r');
        assert("/index.html"@[1] == 'i' && "/status"@[1] == 's');
    }
    if "/bags/"@.is_prefix_of(url) {
        assert(url.subrange(0, 6)[1] == "/bags/"@[1]);
        assert(url[1] == 'b');
        assert("/index.html"@[1] == 'i' && "/status"@[1] == 's');
    }
    if "/recipes/default/tiddlers.json?"@.is_prefix_of(url) {
        let p = "/recipes/default/tiddlers.json?"@;
        assert forall|i: int| 0 <= i < 9 implies url[i] == "/recipes/"@[i] by {
            assert(url.subrange(0, p.len() as int)[i] == p[i]);
        }
        assert(url.subrange(0, 9) =~= "/recipes/"@);
    }
    if url == "/recipes/default/tiddlers.json"@ {
        assert(url.subrange(0, 9) =~= "/recipes/"@);
    }
    if names_recipe_tiddler(url) {
        let p = "/recipes/default/tiddlers/"@;
        assert forall|i: int| 0 <= i < 9 implies url[i] == "/recipes/"@[i] by {
            assert(url.subrange(0, p.len() as int)[i] == p[i]);
        }
        assert(url.subrange(0, 9) =~= "/recipes/"@);
    }
}

/// Only a PUT saves, only a DELETE deletes, and both only below the tiddlers of
/// the recipe or, for a PUT, of the bag; no other method does anything.
pub proof fn law_only_tiddlers_are_changed(method: Method, url: Seq<char>)
    ensures
        route_of(method, url) is SaveTiddler <==> method == Method::Put && (
        "/recipes/default/tiddlers/"@.is_prefix_of(url) || "/bags/default/tiddlers/"@.is_prefix_of(
            url,
        )),
        route_of(method, url) is DeleteTiddler <==> method == Method::Delete
            && "/recipes/default/tiddlers/"@.is_prefix_of(url),
        method == Method::Other ==> route_of(method, url) == RouteView::NotFound,
        method != Method::Get ==> !(route_of(method, url) is Wiki) && !(route_of(method, url) is Tiddler)
            && !(route_of(method, url) is TiddlerList) && !(route_of(method, url) is StaticFile),
{
}

/// The list of tiddlers holds every file that holds a tiddler, in the order of the
/// files: the lists of two folders one after the other are the list of both.
pub proof fn law_every_tiddler_is_listed(a: Seq<TiddlerFile>, b: Seq<TiddlerFile>, skinny: bool)
    ensures
        listed_files(a + b, skinny) == listed_files(a, skinny) + listed_files(b, skinny),
        b.len() == 1 ==> listed_files(b, skinny) == match listed_file(b[0], skinny) {
            Some(o) => seq![o],
            None => Seq::empty(),
        },
    decreases b.len(),
{
    if b.len() == 0 {
        assert(a + b =~= a);
        assert(listed_files(b, skinny) =~= Seq::empty());
        assert(listed_files(a + b, skinny) =~= listed_files(a, skinny) + listed_files(b, skinny));
    } else {
        law_every_tiddler_is_listed(a, b.drop_last(), skinny);
        assert((a + b).drop_last() =~= a + b.drop_last());
        assert((a + b).last() == b.last());
        assert(listed_files(a + b, skinny) =~= listed_files(a, skinny) + listed_files(b, skinny));
        if b.len() == 1 {
            assert(b.drop_last() =~= Seq::empty());
            assert(listed_files(b.drop_last(), skinny) =~= Seq::empty());
            assert(listed_files(b, skinny) =~= match listed_file(b[0], skinny) {
                Some(o) => seq![o],
                None => Seq::empty(),
            });
        }
    }
}

proof fn lemma_fields_under(
    acc: Seq<(Seq<char>, tid::FieldView)>,
    m: Seq<(Seq<char>, tid::FieldView)>,
    key: Seq<char>,
)
    requires
        table::distinct_keys(m),
    ensures
        table::lookup(with_fields(acc, m), key) == match table::lookup(m, key) {
            Some(v) => Some(v),
            None => table::lookup(acc, key),
        },
    decreases m.len(),
{
    table::lemma_position(m, key, 0);
    if m.len() > 0 {
        let front = m.drop_last();
        let e = m.last();
        let n = m.len() as int - 1;
        assert forall|i: int, j: int| 0 <= i < j < front.len() implies front[i].0 != front[j].0 by {
            assert(front[i] == m[i] && front[j] == m[j]);
        }
        lemma_fields_under(acc, front, key);
        table::law_put_then_lookup(with_fields(acc, front), e.0, e.1, key);
        table::lemma_position(front, key, 0);
        if e.0 == key {
            assert forall|j: int| 0 <= j < n implies m[j].0 != key by {
                assert(m[n].0 == key);
            }
            table::lemma_position_is(m, key, 0, n);
        } else if let Some(i) = table::position(front, key, 0) {
            assert(m[i] == front[i]);
            assert forall|j: int| 0 <= j < i implies m[j].0 != key by {
                assert(m[j] == front[j]);
            }
            table::lemma_position_is(m, key, 0, i);
        } else if let Some(i) = table::position(m, key, 0) {
            assert(m[i] == front[i]);
        }
    }
}

/// A tiddler of a `.json` file is listed with its title and all its fields; in
/// short with its title and its revision, and nothing else.
pub proof fn law_listed_tiddler_keeps_its_fields(
    title: Seq<char>,
    m: Seq<(Seq<char>, tid::FieldView)>,
    key: Seq<char>,
)
    requires
        table::distinct_keys(m),
    ensures
        table::lookup(m, "title"@) is None ==> table::lookup(listed_json(title, m, false), "title"@)
            == Some(tid::FieldView::Text(title)),
        key != "title"@ ==> table::lookup(listed_json(title, m, false), key) == table::lookup(m, key),
        table::lookup(listed_json(title, m, true), "title"@) == Some(tid::FieldView::Text(title)),
        table::lookup(listed_json(title, m, true), "revision"@) == table::lookup(m, "revision"@),
        key != "title"@ && key != "revision"@ ==> table::lookup(listed_json(title, m, true), key)
            is None,
{
    reveal_strlit("title");
    reveal_strlit("revision");
    assert("title"@.len() == 5 && "revision"@.len() == 8);
    let first = seq![("title"@, tid::FieldView::Text(title))];
    lemma_fields_under(first, m, key);
    lemma_fields_under(first, m, "title"@);
    reveal_with_fuel(table::position, 4);
    assert(first[0].0 == "title"@);
    table::lemma_position_is(first, "title"@, 0, 0);
    if key != "title"@ {
        table::lemma_position(first, key, 0);
    }
    table::lemma_position(first, "revision"@, 0);
    if let Some(v) = table::lookup(m, "revision"@) {
        let two = first.push(("revision"@, v));
        assert(two[0] == first[0] && two[1] == ("revision"@, v));
        table::lemma_position_is(two, "title"@, 0, 0);
        table::lemma_position_is(two, "revision"@, 0, 1);
        if key != "title"@ && key != "revision"@ {
            table::lemma_position(two, key, 0);
        }
    }
}

/// A tiddler that is in no `.tid` file is served from its `.json` file as that
/// is, and one that is in neither file was not found.
pub proof fn law_other_file_is_served(json_file: Seq<char>)
    ensures
        tiddler_reply(None, Some(json_file)) == (200u16, Some("application/json"@), json_file),
        tiddler_reply(None, None) == (404u16, None::<Seq<char>>, "Tiddler not found"@),
        tiddler_reply(None, None).0 != tiddler_reply(None, Some(json_file)).0,
{
}

/// Two tiddlers never have the same mark.
pub proof fn law_marks_are_distinct(a: Seq<char>, b: Seq<char>)
    requires
        etag_of(a) == etag_of(b),
    ensures
        a == b,
{
    reveal_strlit(":\"");
    let pre = "\"default/"@ + outside::url_encoded("default"@) + "/"@;
    let x = outside::url_encoded(a);
    let y = outside::url_encoded(b);
    assert(etag_of(a) =~= pre + x + ":\""@);
    assert(etag_of(b) =~= pre + y + ":\""@);
    assert(x.len() == y.len());
    assert forall|i: int| 0 <= i < x.len() implies x[i] == y[i] by {
        assert(etag_of(a)[pre.len() + i] == x[i]);
        assert(etag_of(b)[pre.len() + i] == y[i]);
    }
    assert(x =~= y);
    outside::law_url_round_trip(a);
    outside::law_url_round_trip(b);
}

proof fn lemma_components_of_two(a: Seq<Seq<char>>, b: Seq<Seq<char>>)
    ensures
        path_components(a + b) == path_components(a) + path_components(b),
    decreases b.len(),
{
    if b.len() == 0 {
        assert(a + b =~= a);
        assert(path_components(a + b) =~= path_components(a) + path_components(b));
    } else {
        lemma_components_of_two(a, b.drop_last());
        assert((a + b).drop_last() =~= a + b.drop_last());
        assert((a + b).last() == b.last());
        assert(path_components(a + b) =~= path_components(a) + path_components(b));
    }
}

/// The parts of a path are decoded one by one and kept in their order; empty ones
/// count for nothing, and the escaped form of a name counts as that name.
pub proof fn law_path_parts_are_decoded(
    before: Seq<Seq<char>>,
    name: Seq<char>,
    behind: Seq<Seq<char>>,
)
    requires
        name.len() > 0,
    ensures
        path_components(before + seq![outside::url_encoded(name)] + behind) == path_components(
            before,
        ) + seq![name] + path_components(behind),
        path_components(before + seq![Seq::<char>::empty()] + behind) == path_components(before)
            + path_components(behind),
{
    let e = outside::url_encoded(name);
    outside::law_url_round_trip(name);
    lemma_encoded_is_filled(name);
    let none = Seq::<char>::empty();
    lemma_components_of_two(before + seq![e], behind);
    lemma_components_of_two(before, seq![e]);
    lemma_components_of_two(before + seq![none], behind);
    lemma_components_of_two(before, seq![none]);
    reveal_with_fuel(path_components, 2);
    assert(seq![e].drop_last() =~= Seq::empty());
    assert(seq![none].drop_last() =~= Seq::empty());
    assert(path_components(seq![e]) =~= seq![name]);
    assert(path_components(seq![none]) =~= Seq::empty());
}

proof fn lemma_encoded_is_filled(name: Seq<char>)
    requires
        name.len() > 0,
    ensures
        outside::url_encoded(name).len() > 0,
{
    outside::law_url_round_trip(name);
    if outside::url_encoded(name).len() == 0 {
        let none = Seq::<char>::empty();
        assert(outside::url_encoded(name) =~= none);
        assert(vstd::utf8::encode_utf8(none) =~= Seq::<u8>::empty());
        assert(outside::percent_decoded(Seq::<u8>::empty()) =~= Seq::<u8>::empty());
        assert(vstd::utf8::decode_utf8(Seq::<u8>::empty()) =~= none);
        assert(outside::url_decoded(none) == Some(none));
    }
}

/// A file of the wiki's directory lies below that directory, at the path that
/// the address names; a path from the root stands for itself.
pub proof fn law_relative_files_lie_below(dir: Seq<char>, name: Seq<char>)
    requires
        dir.len() > 0,
    ensures
        !(name.len() > 0 && name[0] == '/') && dir.last() != '/' ==> path_from(dir, name) == dir + seq![
            '/',
        ] + name && sanitize::lies_in(path_from(dir, name), dir),
        !(name.len() > 0 && name[0] == '/') && dir.last() == '/' ==> path_from(dir, name) == dir
            + name,
        name.len() > 0 && name[0] == '/' ==> path_from(dir, name) == name,
{
    reveal_strlit("/");
    if name.len() > 0 && name[0] == '/' {
        assert(name.subrange(0, 1) =~= "/"@);
    }
    if "/"@.is_prefix_of(name) {
        assert(name.subrange(0, 1)[0] == '/');
    }
    assert(dir.push('/') + name =~= dir + seq!['/'] + name);
    sanitize::law_what_is_below_lies_in(dir, name, dir, dir);
}

/// A file is found by its path: the bytes of every path lead to that path. Bytes
/// that are no text, and no bytes, lead to none.
pub proof fn law_paths_are_found(path: Seq<char>, bytes: Seq<u8>)
    ensures
        external_file(Some(vstd::utf8::encode_utf8(path))) == Ok::<Seq<char>, PathFault>(path),
        external_file(None) == Err::<Seq<char>, PathFault>(PathFault::NotBase64),
        !vstd::utf8::valid_utf8(bytes) ==> external_file(Some(bytes)) == Err::<
            Seq<char>,
            PathFault,
        >(PathFault::NotUtf8),
{
    vstd::utf8::encode_utf8_valid_utf8(path);
    vstd::utf8::encode_utf8_decode_utf8(path);
}

/// A path from the root is the file system's; a content URI, and what is written
/// as a JSON object, are the storage framework's.
pub proof fn law_paths_have_one_home(rest: Seq<char>)
    ensures
        is_saf("content://"@ + rest),
        is_saf(seq!['{'] + rest),
        !is_saf(seq!['/'] + rest),
        !is_saf(Seq::empty()),
{
    reveal_strlit("content://");
    reveal_strlit("{");
    let a = "content://"@ + rest;
    let b = seq!['{'] + rest;
    let c = seq!['/'] + rest;
    assert(a.subrange(0, 10) =~= "content://"@);
    assert(b.subrange(0, 1) =~= "{"@);
    if "content://"@.is_prefix_of(c) {
        assert(c.subrange(0, 10)[0] == 'c');
    }
    if "{"@.is_prefix_of(c) {
        assert(c.subrange(0, 1)[0] == '{');
    }
}

/// Every server has its own address: no two ports share one.
pub proof fn law_servers_have_their_own_address(a: u16, b: u16)
    requires
        server_url(a) == server_url(b),
    ensures
        a == b,
{
    let p = "http://127.0.0.1:"@;
    let x = text::decimal(a as nat);
    let y = text::decimal(b as nat);
    assert((p + x).len() == p.len() + x.len());
    assert((p + y).len() == p.len() + y.len());
    assert forall|i: int| 0 <= i < x.len() implies x[i] == y[i] by {
        assert(server_url(a)[p.len() + i] == x[i]);
        assert(server_url(b)[p.len() + i] == y[i]);
    }
    assert(x =~= y);
    text::law_decimals_are_distinct(a as nat, b as nat);
}

/// A tiddler that is deleted loses the file from which it is read first: its `.tid`
/// file where it has one, else its `.json` file. Nothing is deleted exactly where
/// it has neither.
pub proof fn law_deletion_takes_the_first_file(tid_uri: Seq<char>, json_uri: Option<Seq<char>>)
    ensures
        deleted_file(Some(tid_uri), json_uri) == Some(tid_uri),
        deleted_file(None, json_uri) == json_uri,
        deleted_file(None, None) is None,
{
}

/// What succeeded is answered with a status of success, and what failed is not; a
/// wiki that was to be saved is answered by what came of it.
pub proof fn law_status_tells_success(a: Answer, e: Seq<char>, body: Seq<char>)
    ensures
        200 <= status_of(a) < 300 <==> !(a is Missing) && !(a is Failed),
        400 <= status_of(a) <==> a is Missing || a is Failed,
        status_of(Answer::Missing(e)) == 404,
        status_of(save_answer(save_outcome(Ok(body), Ok(())))) == 200,
        status_of(save_answer(save_outcome(Ok(body), Err(e)))) == 500,
        body_of(save_answer(save_outcome(Ok(body), Err(e)))) == e,
        status_of(save_answer(save_outcome(Err(e), Ok(())))) == 500,
        body_of(Answer::Page(body)) == body,
        body_of(Answer::Data(body)) == body,
{
}

/// The page is served as it is, as HTML.
pub proof fn law_page_is_served(r: Reply, html: Seq<char>)
    requires
        answers(r, Answer::Page(html)),
    ensures
        r.status == 200,
        r.body@ == html,
        text::opt_view(r.content_type) == Some("text/html; charset=utf-8"@),
{
}

/// The escaped name of every file of the wiki's directory leads to that file, under
/// the type of its name.
pub proof fn law_escaped_names_lead_to_files(dir: Seq<char>, name: Seq<char>)
    requires
        dir.len() > 0,
        dir.last() != '/',
        name.len() > 0,
        name[0] != '/',
    ensures
        relative_file(outside::url_encoded(name), Some(dir)) == Ok::<(Seq<char>, Seq<char>), PathFault>(
            (dir + seq!['/'] + name, mime::mime_of_file(name)),
        ),
        relative_file(outside::url_encoded(name), None) == Err::<(Seq<char>, Seq<char>), PathFault>(
            PathFault::NoDirectory,
        ),
{
    outside::law_url_round_trip(name);
    law_relative_files_lie_below(dir, name);
}

/// The ports from 39000 to 39999 are tried one after the other, each of them once,
/// and no other is.
pub proof fn law_all_ports_are_tried(port: u16)
    ensures
        port_to_try(None) == Some(39000int),
        39000 <= port < 39999 ==> port_to_try(Some(port)) == Some(port + 1),
        port_to_try(Some(39999)) is None,
        port_to_try(Some(port)) is Some ==> 39000 <= port_to_try(Some(port))->0 < 40000,
{
}

} // verus!
