//! Android's storage framework: its URIs, what is shown of them, and what is
//! decided about backups and attachments.

use vstd::prelude::*;
use crate::mime;
use crate::outside;
use crate::text;

verus! {

// ---------------------------------------------------------------------------
// Stored URIs
// ---------------------------------------------------------------------------

/// What a stored URI in JSON holds: the document's own URI, and that of the tree
/// to which access was granted.
pub struct UriFields {
    pub uri: Option<String>,
    pub tree: Option<String>,
}

/// What a stored URI in JSON holds.
pub ghost struct FieldsView {
    pub uri: Option<Seq<char>>,
    pub tree: Option<Seq<char>>,
}

impl View for UriFields {
    type V = FieldsView;

    open spec fn view(&self) -> FieldsView {
        FieldsView { uri: text::opt_view(self.uri), tree: text::opt_view(self.tree) }
    }
}

/// What a stored URI holds, where it is JSON.
pub open spec fn opt_fields(f: Option<UriFields>) -> Option<FieldsView> {
    match f {
        Some(g) => Some(g@),
        None => None,
    }
}

/// What a stored URI in JSON holds, or the report of what is wrong with it.
pub open spec fn parsed_fields(json: Seq<char>) -> Result<FieldsView, Seq<char>> {
    match outside::json_parsed(json) {
        Ok(j) => Ok(
            FieldsView {
                uri: outside::json_member_text(j, "uri"@),
                tree: outside::json_member_text(j, "documentTopTreeUri"@),
            },
        ),
        Err(e) => Err(e),
    }
}

/// What a stored URI in JSON holds, where it can be read.
pub open spec fn readable_fields(json: Seq<char>) -> Option<FieldsView> {
    match parsed_fields(json) {
        Ok(f) => Some(f),
        Err(_) => None,
    }
}

proof fn lemma_stored_pair(uri: Seq<char>, tree: Seq<char>)
    requires
        outside::is_json_plain(uri),
        outside::is_json_plain(tree),
    ensures
        stored_uri_of(uri, tree) == outside::json_pair(
            "uri"@,
            Some(uri),
            "documentTopTreeUri"@,
            Some(tree),
        ),
{
    reveal_strlit("uri");
    reveal_strlit("documentTopTreeUri");
    reveal_strlit("{\"uri\":\"");
    reveal_strlit("\",\"documentTopTreeUri\":\"");
    reveal_strlit("\"}");
    reveal_strlit("{");
    reveal_strlit(":");
    reveal_strlit(",");
    reveal_strlit("}");
    outside::lemma_json_plain(uri);
    outside::lemma_json_plain(tree);
    outside::lemma_json_plain("uri"@);
    outside::lemma_json_plain("documentTopTreeUri"@);
    assert(stored_uri_of(uri, tree) =~= outside::json_pair(
        "uri"@,
        Some(uri),
        "documentTopTreeUri"@,
        Some(tree),
    ));
}

proof fn lemma_wrapped_pair(uri: Seq<char>)
    requires
        outside::is_json_plain(uri),
        !is_json_uri(uri),
    ensures
        uri_json_of(uri) == outside::json_pair("uri"@, Some(uri), "documentTopTreeUri"@, None),
{
    reveal_strlit("uri");
    reveal_strlit("documentTopTreeUri");
    reveal_strlit("{\"uri\":\"");
    reveal_strlit("\",\"documentTopTreeUri\":null}");
    reveal_strlit("null");
    reveal_strlit("{");
    reveal_strlit(":");
    reveal_strlit(",");
    reveal_strlit("}");
    outside::lemma_json_plain(uri);
    outside::lemma_json_plain("uri"@);
    outside::lemma_json_plain("documentTopTreeUri"@);
    assert(uri_json_of(uri) =~= outside::json_pair(
        "uri"@,
        Some(uri),
        "documentTopTreeUri"@,
        None,
    ));
}

/// What a stored URI in JSON holds, or the report of what is wrong with it. What
/// was stored is read again: a wiki with its tree, and, without quotes and the
/// like in them, a document with its tree, and a document alone.
pub fn read_fields(json: &str) -> (r: Result<UriFields, String>)
    ensures
        match r {
            Ok(f) => parsed_fields(json@) == Ok::<FieldsView, Seq<char>>(f@),
            Err(e) => parsed_fields(json@) == Err::<FieldsView, Seq<char>>(e@),
        },
        forall|uri: Seq<char>, tree: Option<Seq<char>>|
            json@ == #[trigger] granted_json(uri, tree) ==> r is Ok && r->Ok_0@ == (FieldsView {
                uri: Some(uri),
                tree,
            }),
        forall|uri: Seq<char>, tree: Seq<char>|
            json@ == #[trigger] stored_uri_of(uri, tree) && outside::is_json_plain(uri)
                && outside::is_json_plain(tree) ==> r is Ok && r->Ok_0@ == (FieldsView {
                uri: Some(uri),
                tree: Some(tree),
            }),
        forall|uri: Seq<char>|
            json@ == #[trigger] uri_json_of(uri) && outside::is_json_plain(uri) && !is_json_uri(uri)
                ==> r is Ok && r->Ok_0@ == (FieldsView { uri: Some(uri), tree: None }),
{
    let parsed: Result<serde_json::Value, String> = outside::json_parse(json);
    proof {
        reveal_strlit("uri");
        reveal_strlit("documentTopTreeUri");
        assert("uri"@.len() != "documentTopTreeUri"@.len());
        assert forall|uri: Seq<char>, tree: Option<Seq<char>>|
            json@ == #[trigger] granted_json(uri, tree) implies parsed is Ok
            && outside::json_member_text(outside::json_of(parsed->Ok_0), "uri"@) == Some(uri)
            && outside::json_member_text(outside::json_of(parsed->Ok_0), "documentTopTreeUri"@)
            == tree by {
            assert(json@ == outside::json_pair("documentTopTreeUri"@, tree, "uri"@, Some(uri)));
        }
        assert forall|uri: Seq<char>, tree: Seq<char>|
            json@ == #[trigger] stored_uri_of(uri, tree) && outside::is_json_plain(uri)
                && outside::is_json_plain(tree) implies parsed is Ok && outside::json_member_text(
            outside::json_of(parsed->Ok_0),
            "uri"@,
        ) == Some(uri) && outside::json_member_text(
            outside::json_of(parsed->Ok_0),
            "documentTopTreeUri"@,
        ) == Some(tree) by {
            lemma_stored_pair(uri, tree);
        }
        assert forall|uri: Seq<char>|
            json@ == #[trigger] uri_json_of(uri) && outside::is_json_plain(uri) && !is_json_uri(
                uri,
            ) implies parsed is Ok && outside::json_member_text(
            outside::json_of(parsed->Ok_0),
            "uri"@,
        ) == Some(uri) && outside::json_member_text(
            outside::json_of(parsed->Ok_0),
            "documentTopTreeUri"@,
        ) is None by {
            lemma_wrapped_pair(uri);
        }
    }
    match parsed {
        Ok(v) => Ok(
            UriFields {
                uri: outside::json_get_text(&v, "uri"),
                tree: outside::json_get_text(&v, "documentTopTreeUri"),
            },
        ),
        Err(e) => Err(e),
    }
}

fn try_fields(json: &str) -> (r: Option<UriFields>)
    ensures
        opt_fields(r) == readable_fields(json@),
{
    match read_fields(json) {
        Ok(f) => Some(f),
        Err(_) => None,
    }
}

/// The stored form is JSON.
pub open spec fn is_json_uri(uri: Seq<char>) -> bool {
    "{"@.is_prefix_of(text::trimmed(uri))
}

/// The stored form of a document and its tree.
pub open spec fn stored_uri_of(uri: Seq<char>, tree: Seq<char>) -> Seq<char> {
    "{\"uri\":\""@ + uri + "\",\"documentTopTreeUri\":\""@ + tree + "\"}"@
}

/// The stored form of a URI as JSON: a plain one is wrapped.
pub open spec fn uri_json_of(uri: Seq<char>) -> Seq<char> {
    if is_json_uri(uri) {
        uri
    } else {
        "{\"uri\":\""@ + uri + "\",\"documentTopTreeUri\":null}"@
    }
}

/// Whether the stored form is JSON.
pub fn is_json(uri: &str) -> (r: bool)
    ensures
        r == is_json_uri(uri@),
{
    text::starts_with(text::trim(uri), "{")
}

/// The stored form of a URI as JSON.
pub fn parse_uri(uri: &str) -> (r: String)
    ensures
        r@ == uri_json_of(uri@),
{
    if is_json(uri) {
        uri.to_owned()
    } else {
        text::concat3("{\"uri\":\"", uri, "\",\"documentTopTreeUri\":null}")
    }
}

fn stored_uri(uri: &str, tree: &str) -> (r: String)
    ensures
        r@ == stored_uri_of(uri@, tree@),
{
    let mut out: String = text::concat3("{\"uri\":\"", uri, "\",\"documentTopTreeUri\":\"");
    out.append(tree);
    out.append("\"}");
    out
}

/// A prefixed report of a failure.
fn failed<T>(prefix: &str, r: Result<T, String>) -> (out: Result<T, String>)
    ensures
        match (r, out) {
            (Ok(a), Ok(b)) => a == b,
            (Err(e), Err(f)) => f@ == prefix@ + e@,
            _ => false,
        },
{
    match r {
        Ok(v) => Ok(v),
        Err(e) => Err(text::concat(prefix, e.as_str())),
    }
}

/// Why a URI could not be read.
pub fn unreadable_uri(uri: &str, reason: &str) -> (r: String)
    ensures
        r@ == (if is_json_uri(uri@) {
            "Failed to parse FileUri JSON: "@
        } else {
            "Failed to create FileUri from URI: "@
        }) + reason@,
{
    if is_json(uri) {
        text::concat("Failed to parse FileUri JSON: ", reason)
    } else {
        text::concat("Failed to create FileUri from URI: ", reason)
    }
}

/// What reading a document comes to: it is opened, and then read.
pub fn read_document<T>(opened: Result<(), String>, read: Result<T, String>) -> (r: Result<
    T,
    String,
>)
    ensures
        match (opened, read, r) {
            (Err(e), _, Err(f)) => f@ == "Failed to open file for reading: "@ + e@,
            (Ok(_), Err(e), Err(f)) => f@ == "Failed to read file: "@ + e@,
            (Ok(_), Ok(a), Ok(b)) => a == b,
            _ => false,
        },
{
    match failed("Failed to open file for reading: ", opened) {
        Err(e) => Err(e),
        Ok(_) => failed("Failed to read file: ", read),
    }
}

/// What writing a document comes to: it is opened, and then written.
pub fn write_document(opened: Result<(), String>, written: Result<(), String>) -> (r: Result<
    (),
    String,
>)
    ensures
        match (opened, written, r) {
            (Err(e), _, Err(f)) => f@ == "Failed to open file for writing: "@ + e@,
            (Ok(_), Err(e), Err(f)) => f@ == "Failed to write file: "@ + e@,
            (Ok(_), Ok(_), Ok(_)) => true,
            _ => false,
        },
{
    match failed("Failed to open file for writing: ", opened) {
        Err(e) => Err(e),
        Ok(_) => failed("Failed to write file: ", written),
    }
}

/// The size of a document, or that it could not be had.
pub fn get_document_size(len: Result<u64, String>) -> (r: Result<u64, String>)
    ensures
        match (len, r) {
            (Ok(a), Ok(b)) => a == b,
            (Err(e), Err(f)) => f@ == "Failed to get file size: "@ + e@,
            _ => false,
        },
{
    failed("Failed to get file size: ", len)
}

/// Whether a document exists: its URI could be read, and its name be had.
pub fn document_exists(uri_ok: bool, has_name: bool) -> (r: bool)
    ensures
        r == (uri_ok && has_name),
{
    uri_ok && has_name
}

/// Whether there is permission for a URI: it can be read, and its name be had.
pub fn has_permission(uri_ok: bool, has_name: bool) -> (r: bool)
    ensures
        r == (uri_ok && has_name),
{
    uri_ok && has_name
}

/// The permissions with that for a URI among them, each in its stored form as
/// JSON.
pub open spec fn with_permission(permissions: Seq<Seq<char>>, uri: Seq<char>) -> Seq<Seq<char>> {
    if permissions.contains(uri_json_of(uri)) {
        permissions
    } else {
        permissions.push(uri_json_of(uri))
    }
}

fn has_string(v: &Vec<String>, s: &str) -> (r: bool)
    ensures
        r == text::views(v@).contains(s@),
{
    let mut i: usize = 0;
    while i < v.len()
        invariant
            i <= v.len(),
            forall|k: int| 0 <= k < i ==> text::views(v@)[k] != s@,
        decreases v.len() - i,
    {
        if text::same(v[i].as_str(), s) {
            assert(text::views(v@)[i as int] == s@);
            return true;
        }
        i = i + 1;
    }
    false
}

/// Keeps permission for a URI, or says that the system did not grant it, by what
/// asking for it came to.
pub fn persist_permission(
    permissions: &mut Vec<String>,
    uri: &str,
    granted: Result<(), String>,
) -> (r: Result<(), String>)
    ensures
        text::views(final(permissions)@) == match granted {
            Ok(_) => with_permission(text::views(old(permissions)@), uri@),
            Err(_) => text::views(old(permissions)@),
        },
        match (granted, r) {
            (Ok(_), Ok(_)) => true,
            (Err(e), Err(f)) => f@ == "Failed to persist permission: "@ + e@,
            _ => false,
        },
{
    match granted {
        Ok(_) => {
            let stored: String = parse_uri(uri);
            if !has_string(&*permissions, stored.as_str()) {
                let ghost before = text::views(permissions@);
                permissions.push(stored);
                assert(text::views(permissions@) =~= before.push(stored@));
            }
            Ok(())
        },
        Err(e) => Err(text::concat("Failed to persist permission: ", e.as_str())),
    }
}

/// Gives up permission for a URI: the system does not allow that, so nothing
/// changes.
pub fn release_permission(permissions: &mut Vec<String>, _uri: &str)
    ensures
        final(permissions)@ == old(permissions)@,
{
}

/// The permissions that were kept, each in its stored form as JSON.
pub fn get_persisted_permissions(permissions: &Vec<String>) -> (r: Result<Vec<String>, String>)
    ensures
        r is Ok,
        text::views(r->Ok_0@) == text::views(permissions@),
{
    let mut out: Vec<String> = Vec::new();
    let mut i: usize = 0;
    assert(text::views(out@) =~= text::views(permissions@).take(0));
    while i < permissions.len()
        invariant
            i <= permissions.len(),
            text::views(out@) == text::views(permissions@).take(i as int),
        decreases permissions.len() - i,
    {
        let ghost before = text::views(out@);
        out.push(permissions[i].clone());
        assert(text::views(out@) =~= before.push(text::views(permissions@)[i as int]));
        assert(text::views(out@) =~= text::views(permissions@).take(i + 1));
        i = i + 1;
    }
    assert(text::views(permissions@).take(i as int) =~= text::views(permissions@));
    Ok(out)
}

/// A permission that was kept is among those that are kept, and stays there when
/// another is kept.
pub proof fn law_permissions_stay(
    permissions: Seq<Seq<char>>,
    uri: Seq<char>,
    other: Seq<char>,
)
    ensures
        with_permission(permissions, uri).contains(uri_json_of(uri)),
        with_permission(with_permission(permissions, uri), other).contains(uri_json_of(uri)),
{
    let one = with_permission(permissions, uri);
    if !permissions.contains(uri_json_of(uri)) {
        assert(one[permissions.len() as int] == uri_json_of(uri));
    }
    let two = with_permission(one, other);
    let i = choose|i: int| 0 <= i < one.len() && one[i] == uri_json_of(uri);
    assert(two[i] == one[i]);
}

/// Deleting a document, or that it failed.
pub fn delete_document(removed: Result<(), String>) -> (r: Result<(), String>)
    ensures
        match (removed, r) {
            (Ok(_), Ok(_)) => true,
            (Err(e), Err(f)) => f@ == "Failed to delete document: "@ + e@,
            _ => false,
        },
{
    failed("Failed to delete document: ", removed)
}

/// The MIME type with which a document is created: none for a file, so that the
/// system leaves its name alone.
pub fn creation_type(directory: bool) -> (r: Option<String>)
    ensures
        text::opt_view(r) == if directory {
            Some("vnd.android.document/directory"@)
        } else {
            None
        },
{
    if directory {
        Some("vnd.android.document/directory".to_owned())
    } else {
        None
    }
}

/// A document that is to be created in a directory, of the MIME type where one
/// is given.
pub struct CreateRequest {
    pub parent: String,
    pub name: String,
    pub mime: Option<String>,
}

/// What is to be created.
pub ghost struct CreateView {
    pub parent: Seq<char>,
    pub name: Seq<char>,
    pub mime: Option<Seq<char>>,
}

impl View for CreateRequest {
    type V = CreateView;

    open spec fn view(&self) -> CreateView {
        CreateView {
            parent: self.parent@,
            name: self.name@,
            mime: text::opt_view(self.mime),
        }
    }
}

/// A file with the name in the directory. Its type is not handed on, so that the
/// system leaves its name alone.
pub open spec fn file_in(parent: Seq<char>, name: Seq<char>) -> CreateView {
    CreateView { parent, name, mime: None }
}

/// A directory with the name in the directory.
pub open spec fn directory_in(parent: Seq<char>, name: Seq<char>) -> CreateView {
    CreateView { parent, name, mime: Some("vnd.android.document/directory"@) }
}

/// How a file is created.
pub fn create_file(parent: &str, name: &str) -> (r: CreateRequest)
    ensures
        r@ == file_in(parent@, name@),
{
    CreateRequest { parent: parent.to_owned(), name: name.to_owned(), mime: creation_type(false) }
}

/// How a directory is created.
pub fn create_directory(parent: &str, name: &str) -> (r: CreateRequest)
    ensures
        r@ == directory_in(parent@, name@),
{
    CreateRequest { parent: parent.to_owned(), name: name.to_owned(), mime: creation_type(true) }
}

/// The URI of a new file, or that it could not be created.
pub fn file_created(created: Result<String, String>) -> (r: Result<String, String>)
    ensures
        match (created, r) {
            (Ok(a), Ok(b)) => a@ == b@,
            (Err(e), Err(f)) => f@ == "Failed to create file: "@ + e@,
            _ => false,
        },
{
    failed("Failed to create file: ", created)
}

/// The URI of a new directory, or that it could not be created.
pub fn directory_created(created: Result<String, String>) -> (r: Result<String, String>)
    ensures
        match (created, r) {
            (Ok(a), Ok(b)) => a@ == b@,
            (Err(e), Err(f)) => f@ == "Failed to create directory: "@ + e@,
            _ => false,
        },
{
    failed("Failed to create directory: ", created)
}

/// The name of a document, or that it could not be had.
pub fn get_display_name(name: Result<String, String>) -> (r: Result<String, String>)
    ensures
        match (name, r) {
            (Ok(a), Ok(b)) => a@ == b@,
            (Err(e), Err(f)) => f@ == "Failed to get file name: "@ + e@,
            _ => false,
        },
{
    failed("Failed to get file name: ", name)
}

// ---------------------------------------------------------------------------
// Directories
// ---------------------------------------------------------------------------

/// An entry of a directory.
pub struct DirEntry {
    pub name: String,
    pub uri: String,
    pub is_dir: bool,
    /// The size in bytes, zero for a directory.
    pub size: u64,
}

/// The first entry, not before `from`, with the name; with `dirs`, the first
/// directory.
pub open spec fn entry_index(entries: Seq<DirEntry>, name: Seq<char>, dirs: bool, from: int) -> Option<int>
    decreases entries.len() - from,
{
    if from < 0 || from >= entries.len() {
        None
    } else if entries[from].name@ == name && (!dirs || entries[from].is_dir) {
        Some(from)
    } else {
        entry_index(entries, name, dirs, from + 1)
    }
}

/// The URI of the first entry with the name; with `dirs`, of the first
/// directory.
pub open spec fn entry_uri(entries: Seq<DirEntry>, name: Seq<char>, dirs: bool) -> Option<Seq<char>> {
    match entry_index(entries, name, dirs, 0) {
        Some(i) => Some(entries[i].uri@),
        None => None,
    }
}

/// What a search in a directory comes to: the failure to list it, or the entry.
pub open spec fn search_outcome(
    entries: Result<Vec<DirEntry>, String>,
    name: Seq<char>,
    dirs: bool,
) -> Result<Option<Seq<char>>, Seq<char>> {
    match entries {
        Ok(v) => Ok(entry_uri(v@, name, dirs)),
        Err(e) => Err(e@),
    }
}

/// What the outcome of a search holds.
pub open spec fn search_view(r: Result<Option<String>, String>) -> Result<Option<Seq<char>>, Seq<char>> {
    match r {
        Ok(o) => Ok(text::opt_view(o)),
        Err(e) => Err(e@),
    }
}

fn find_entry(entries: &Vec<DirEntry>, name: &str, dirs: bool) -> (r: Option<usize>)
    ensures
        match r {
            Some(i) => i < entries.len() && entry_index(entries@, name@, dirs, 0) == Some(i as int),
            None => entry_index(entries@, name@, dirs, 0) is None,
        },
{
    let mut i: usize = 0;
    while i < entries.len()
        invariant
            i <= entries.len(),
            entry_index(entries@, name@, dirs, 0) == entry_index(entries@, name@, dirs, i as int),
        decreases entries.len() - i,
    {
        if text::same(entries[i].name.as_str(), name) && (!dirs || entries[i].is_dir) {
            return Some(i);
        }
        i = i + 1;
    }
    None
}

fn search(entries: &Result<Vec<DirEntry>, String>, name: &str, dirs: bool) -> (r: Result<
    Option<String>,
    String,
>)
    ensures
        search_view(r) == search_outcome(*entries, name@, dirs),
{
    match entries {
        Ok(v) => match find_entry(v, name, dirs) {
            Some(i) => Ok(Some(v[i].uri.clone())),
            None => Ok(None),
        },
        Err(e) => Err(e.clone()),
    }
}

/// The URI of the file or directory with the name, by what listing its parent
/// brought.
pub fn find_in_directory(entries: &Result<Vec<DirEntry>, String>, name: &str) -> (r: Result<
    Option<String>,
    String,
>)
    ensures
        search_view(r) == search_outcome(*entries, name@, false),
{
    search(entries, name, false)
}

/// The URI of the directory with the name, by what listing its parent brought.
pub fn find_subdirectory(entries: &Result<Vec<DirEntry>, String>, name: &str) -> (r: Result<
    Option<String>,
    String,
>)
    ensures
        search_view(r) == search_outcome(*entries, name@, true),
{
    search(entries, name, true)
}

/// What is to be done to have a directory.
pub enum DirectoryStep {
    /// It is there, at the URI.
    Found(String),
    /// It is to be created.
    Create(CreateRequest),
    Failed(String),
}

/// What is to be done to have the directory with the name in another, by what
/// listing that one brought: it is created only where it was looked for and is
/// not there.
pub fn find_or_create_subdirectory(
    parent: &str,
    name: &str,
    entries: &Result<Vec<DirEntry>, String>,
) -> (r: DirectoryStep)
    ensures
        match search_outcome(*entries, name@, true) {
            Err(e) => r matches DirectoryStep::Failed(f) && f@ == e,
            Ok(Some(u)) => r matches DirectoryStep::Found(v) && v@ == u,
            Ok(None) => r matches DirectoryStep::Create(c) && c@ == directory_in(parent@, name@),
        },
{
    match search(entries, name, true) {
        Err(e) => DirectoryStep::Failed(e),
        Ok(Some(u)) => DirectoryStep::Found(u),
        Ok(None) => DirectoryStep::Create(create_directory(parent, name)),
    }
}

/// Where the content of a file goes.
pub enum FilePlace {
    /// To the file that is there, at the URI.
    At(String),
    /// To a file that is to be created.
    Create(CreateRequest),
}

/// Where the content of the file with the name in a directory goes, by what
/// looking for it came to: a file that was not found, or could not be looked for,
/// is created.
pub fn place_file(parent: &str, name: &str, found: Result<Option<String>, String>) -> (r: FilePlace)
    ensures
        match search_view(found) {
            Ok(Some(u)) => r matches FilePlace::At(v) && v@ == u,
            _ => r matches FilePlace::Create(c) && c@ == file_in(parent@, name@),
        },
{
    match found {
        Ok(Some(u)) => FilePlace::At(u),
        _ => FilePlace::Create(create_file(parent, name)),
    }
}

/// What the storage framework says of a URI.
pub struct KindFacts {
    /// The application is up, and the URI could be read.
    pub reachable: bool,
    pub mime: Option<String>,
    /// It can be opened as a file.
    pub opens: bool,
    /// It can be listed as a directory.
    pub lists: bool,
}

/// The URI that tells whether a stored one is that of a tree.
pub open spec fn raw_uri(uri: Seq<char>, fields: Option<FieldsView>) -> Seq<char> {
    if is_json_uri(uri) {
        match fields {
            Some(f) => match f.uri {
                Some(u) => u,
                None => ""@,
            },
            None => ""@,
        }
    } else {
        uri
    }
}

/// The URI is that of a directory: a tree always is; else its MIME type tells,
/// unless there is none or one that says nothing; else whether it opens as a
/// file, and then whether it can be listed.
pub open spec fn is_directory_uri(uri: Seq<char>, fields: Option<FieldsView>, k: KindFacts) -> bool {
    if text::has_sub(raw_uri(uri, fields), "/tree/"@) {
        true
    } else if !k.reachable {
        false
    } else {
        let by_look = !k.opens && k.lists;
        match k.mime {
            Some(m) => if m@ == "vnd.android.document/directory"@ {
                true
            } else if m@.len() > 0 && m@ != "application/octet-stream"@ {
                false
            } else {
                by_look
            },
            None => by_look,
        }
    }
}

/// Whether the URI is that of a directory, by what the stored form holds where
/// it is JSON.
pub fn is_directory_by(uri: &str, fields: &Option<UriFields>, k: &KindFacts) -> (r: bool)
    ensures
        r == is_directory_uri(uri@, opt_fields(*fields), *k),
{
    let raw: &str = if is_json(uri) {
        match fields {
            Some(f) => match &f.uri {
                Some(u) => u.as_str(),
                None => "",
            },
            None => "",
        }
    } else {
        uri
    };
    if text::contains(raw, "/tree/") {
        return true;
    }
    if !k.reachable {
        return false;
    }
    if let Some(m) = &k.mime {
        if text::same(m.as_str(), "vnd.android.document/directory") {
            return true;
        }
        if !m.as_str().is_empty() && !text::same(m.as_str(), "application/octet-stream") {
            return false;
        }
    }
    !k.opens && k.lists
}

/// Whether the URI is that of a directory.
pub fn is_directory(uri: &str, k: &KindFacts) -> (r: bool)
    ensures
        r == is_directory_uri(uri@, readable_fields(uri@), *k),
{
    let fields: Option<UriFields> = try_fields(uri);
    is_directory_by(uri, &fields, k)
}

// ---------------------------------------------------------------------------
// The parent of a document
// ---------------------------------------------------------------------------

/// The document's path in a URI: what follows `/document/`.
pub open spec fn doc_path(uri: Seq<char>) -> Option<Seq<char>> {
    match text::index_of_sub(uri, "/document/"@, 0) {
        Some(i) => Some(uri.skip(i + 10)),
        None => None,
    }
}

/// A separator of an encoded path stands at `i`.
pub open spec fn separator_at(s: Seq<char>, i: int) -> bool {
    0 <= i && i + 3 <= s.len() && s[i] == '%' && s[i + 1] == '2' && (s[i + 2] == 'F' || s[i + 2]
        == 'f')
}

/// The place of the last separator before `end`.
pub open spec fn last_separator(s: Seq<char>, end: int) -> Option<int>
    decreases end,
{
    if end <= 0 {
        None
    } else if separator_at(s, end - 1) {
        Some(end - 1)
    } else {
        last_separator(s, end - 1)
    }
}

/// An encoded path without its last part.
pub open spec fn parent_path(s: Seq<char>) -> Option<Seq<char>> {
    match last_separator(s, s.len() as int) {
        Some(i) => Some(s.take(i)),
        None => None,
    }
}

/// What stands before `/document/` in a URI; all of it where that is missing.
pub open spec fn before_document(uri: Seq<char>) -> Seq<char> {
    match text::index_of_sub(uri, "/document/"@, 0) {
        Some(i) => uri.take(i),
        None => uri,
    }
}

/// The parent's path of a document.
pub open spec fn doc_parent(uri: Seq<char>) -> Option<Seq<char>> {
    match doc_path(uri) {
        Some(d) => parent_path(d),
        None => None,
    }
}

/// The parent under a root: its URI there, stored with the root as its tree.
pub open spec fn parent_under(root: Seq<char>, path: Seq<char>) -> Seq<char> {
    stored_uri_of(root + "/document/"@ + path, root)
}

/// A tree to which access was granted.
pub open spec fn granted_tree(f: FieldsView) -> Option<Seq<char>> {
    match f.tree {
        Some(t) => if t.len() > 0 && t != "null"@ && text::has_sub(t, "/tree/"@) {
            Some(before_document(t))
        } else {
            None
        },
        None => None,
    }
}

/// The parent of a document, by what its stored form holds.
pub open spec fn parent_by_fields(f: FieldsView) -> Option<Seq<char>> {
    let main = match f.uri {
        Some(u) => u,
        None => ""@,
    };
    match doc_parent(main) {
        Some(p) => Some(
            parent_under(
                match granted_tree(f) {
                    Some(t) => t,
                    None => before_document(main),
                },
                p,
            ),
        ),
        None => None,
    }
}

/// The parent of a document: under the tree to which access was granted, where
/// there is one, and else beside the document.
pub open spec fn parent_uri(uri: Seq<char>, fields: Option<FieldsView>) -> Option<Seq<char>> {
    let by_fields = match fields {
        Some(f) => if is_json_uri(uri) {
            parent_by_fields(f)
        } else {
            None
        },
        None => None,
    };
    match by_fields {
        Some(p) => Some(p),
        None => if "content://"@.is_prefix_of(uri) {
            match doc_parent(uri) {
                Some(p) => Some(parent_under(before_document(uri), p)),
                None => None,
            }
        } else {
            None
        },
    }
}

fn parent_of_path(s: &str) -> (r: Option<String>)
    ensures
        text::opt_view(r) == parent_path(s@),
{
    let v: Vec<char> = text::chars_of(s);
    let mut i: usize = v.len();
    while i > 0
        invariant
            i <= v.len(),
            v@ == s@,
            last_separator(s@, s@.len() as int) == last_separator(s@, i as int),
        decreases i,
    {
        let j: usize = i - 1;
        if v.len() - j >= 3 && v[j] == '%' && v[j + 1] == '2' && (v[j + 2] == 'F' || v[j + 2]
            == 'f') {
            return Some(text::take(s, j).to_owned());
        }
        i = j;
    }
    None
}

fn parent_of_doc(uri: &str) -> (r: Option<String>)
    ensures
        text::opt_view(r) == doc_parent(uri@),
{
    proof {
        reveal_strlit("/document/");
    }
    match text::find_sub(uri, "/document/") {
        Some(i) => parent_of_path(text::skip(uri, i + 10)),
        None => None,
    }
}

fn root_of(uri: &str) -> (r: &str)
    ensures
        r@ == before_document(uri@),
{
    match text::find_sub(uri, "/document/") {
        Some(i) => text::take(uri, i),
        None => uri,
    }
}

fn parent_in(root: &str, path: &str) -> (r: String)
    ensures
        r@ == parent_under(root@, path@),
{
    let uri: String = text::concat3(root, "/document/", path);
    stored_uri(uri.as_str(), root)
}

fn parent_from_fields(f: &UriFields) -> (r: Option<String>)
    ensures
        text::opt_view(r) == parent_by_fields(f@),
{
    let main: &str = match &f.uri {
        Some(u) => u.as_str(),
        None => "",
    };
    match parent_of_doc(main) {
        Some(p) => {
            if let Some(t) = &f.tree {
                if !t.as_str().is_empty() && !text::same(t.as_str(), "null") && text::contains(
                    t.as_str(),
                    "/tree/",
                ) {
                    return Some(parent_in(root_of(t.as_str()), p.as_str()));
                }
            }
            Some(parent_in(root_of(main), p.as_str()))
        },
        None => None,
    }
}

/// The stored form of a document's parent, by what the stored form of the
/// document holds where it is JSON.
pub fn parent_uri_by(uri: &str, fields: &Option<UriFields>) -> (r: Result<String, String>)
    ensures
        text::result_view(r) == match parent_uri(uri@, opt_fields(*fields)) {
            Some(p) => Ok(p),
            None => Err("Cannot determine parent URI"@),
        },
{
    if is_json(uri) {
        if let Some(f) = fields {
            if let Some(p) = parent_from_fields(f) {
                return Ok(p);
            }
        }
    }
    if text::starts_with(uri, "content://") {
        if let Some(p) = parent_of_doc(uri) {
            return Ok(parent_in(root_of(uri), p.as_str()));
        }
    }
    Err("Cannot determine parent URI".to_owned())
}

/// The stored form of a document's parent. `rewritten` is the stored form of the
/// document as the storage framework writes it again, where it could read it.
pub fn get_parent_uri(uri: &str, rewritten: Option<&str>) -> (r: Result<String, String>)
    ensures
        text::result_view(r) == match parent_uri(
            uri@,
            match rewritten {
                Some(json) => readable_fields(json@),
                None => None,
            },
        ) {
            Some(p) => Ok(p),
            None => Err("Cannot determine parent URI"@),
        },
{
    let fields: Option<UriFields> = match rewritten {
        Some(json) => try_fields(json),
        None => None,
    };
    parent_uri_by(uri, &fields)
}

// ---------------------------------------------------------------------------
// What is shown of a URI
// ---------------------------------------------------------------------------

/// All characters are decimal digits.
pub open spec fn all_digits(s: Seq<char>) -> bool {
    forall|i: int| 0 <= i < s.len() ==> '0' <= #[trigger] s[i] <= '9'
}

/// A path with the escapes that were left in it replaced.
pub open spec fn tidied(s: Seq<char>) -> Seq<char> {
    text::sub_replaced(text::sub_replaced(s, "%2F"@, "/"@), "%20"@, " "@)
}

/// What follows the first colon, tidied.
pub open spec fn after_colon(s: Seq<char>) -> Option<Seq<char>> {
    match text::index_of(s, ':', 0) {
        Some(i) => Some(tidied(s.skip(i + 1))),
        None => None,
    }
}

/// The path that a document's part of a URI shows: what follows the colon,
/// unless it is empty or a bare number.
pub open spec fn document_part(uri: Seq<char>) -> Option<Seq<char>> {
    match doc_path(uri) {
        Some(d) => match after_colon(d) {
            Some(p) => if p.len() > 0 && !all_digits(p) {
                Some(p)
            } else {
                None
            },
            None => None,
        },
        None => None,
    }
}

/// The path that a tree's part of a URI shows.
pub open spec fn tree_part(uri: Seq<char>) -> Option<Seq<char>> {
    match text::index_of_sub(uri, "/tree/"@, 0) {
        Some(i) => match after_colon(before_document(uri.skip(i + 6))) {
            Some(p) => if p.len() > 0 {
                Some(p)
            } else {
                None
            },
            None => None,
        },
        None => None,
    }
}

/// The name of the place that a URI's provider stands for.
pub open spec fn provider_part(uri: Seq<char>) -> Option<Seq<char>> {
    if text::has_sub(uri, "downloads.documents"@) {
        Some("Downloads"@)
    } else if text::has_sub(uri, "media/"@) {
        if text::has_sub(uri, "/images/"@) {
            Some("Pictures"@)
        } else if text::has_sub(uri, "/video/"@) {
            Some("Videos"@)
        } else if text::has_sub(uri, "/audio/"@) {
            Some("Music"@)
        } else {
            None
        }
    } else {
        None
    }
}

/// The path that a URI shows of itself: that of the document, or else of the
/// tree, or else the name of the provider's place.
pub open spec fn saf_path(uri: Seq<char>) -> Option<Seq<char>> {
    match outside::url_decoded(uri) {
        None => None,
        Some(d) => match document_part(d) {
            Some(p) => Some(p),
            None => match tree_part(d) {
                Some(p) => Some(p),
                None => provider_part(d),
            },
        },
    }
}

fn digits_only(s: &str) -> (r: bool)
    ensures
        r == all_digits(s@),
{
    let v: Vec<char> = text::chars_of(s);
    let mut i: usize = 0;
    while i < v.len()
        invariant
            i <= v.len(),
            v@ == s@,
            forall|j: int| 0 <= j < i ==> '0' <= #[trigger] s@[j] <= '9',
        decreases v.len() - i,
    {
        if v[i] < '0' || v[i] > '9' {
            return false;
        }
        i = i + 1;
    }
    true
}

fn colon_part(s: &str) -> (r: Option<String>)
    ensures
        text::opt_view(r) == after_colon(s@),
{
    proof {
        reveal_strlit("%2F");
        reveal_strlit("%20");
    }
    match text::find_char(s, ':') {
        Some(i) => {
            let slashed: String = text::replace_sub(text::skip(s, i + 1), "%2F", "/");
            Some(text::replace_sub(slashed.as_str(), "%20", " "))
        },
        None => None,
    }
}

/// The path that a decoded URI shows of itself.
pub fn path_of_decoded(d: &str) -> (r: Option<String>)
    ensures
        text::opt_view(r) == match document_part(d@) {
            Some(p) => Some(p),
            None => match tree_part(d@) {
                Some(p) => Some(p),
                None => provider_part(d@),
            },
        },
{
    proof {
        reveal_strlit("/document/");
        reveal_strlit("/tree/");
    }
    if let Some(i) = text::find_sub(d, "/document/") {
        if let Some(p) = colon_part(text::skip(d, i + 10)) {
            if !p.as_str().is_empty() && !digits_only(p.as_str()) {
                return Some(p);
            }
        }
    }
    if let Some(i) = text::find_sub(d, "/tree/") {
        if let Some(p) = colon_part(root_of(text::skip(d, i + 6))) {
            if !p.as_str().is_empty() {
                return Some(p);
            }
        }
    }
    if text::contains(d, "downloads.documents") {
        return Some("Downloads".to_owned());
    }
    if text::contains(d, "media/") {
        if text::contains(d, "/images/") {
            return Some("Pictures".to_owned());
        } else if text::contains(d, "/video/") {
            return Some("Videos".to_owned());
        } else if text::contains(d, "/audio/") {
            return Some("Music".to_owned());
        }
    }
    None
}

/// The path that a URI shows of itself.
pub fn extract_path_from_saf_uri(uri: &str) -> (r: Option<String>)
    ensures
        text::opt_view(r) == saf_path(uri@),
{
    match outside::url_decode(uri) {
        Some(d) => path_of_decoded(d.as_str()),
        None => None,
    }
}

/// The number that decimal digits stand for.
pub open spec fn digits_value(s: Seq<char>) -> nat
    decreases s.len(),
{
    if s.len() == 0 {
        0
    } else {
        10 * digits_value(s.drop_last()) + (s.last() as int - 48) as nat
    }
}

/// The whole number of 64 bits that the text stands for: digits, with a sign
/// before them or without.
pub open spec fn parsed_i64(s: Seq<char>) -> Option<int> {
    let negative = s.len() > 0 && s[0] == '-';
    let digits = if s.len() > 0 && (s[0] == '-' || s[0] == '+') {
        s.skip(1)
    } else {
        s
    };
    let n = if negative {
        -(digits_value(digits) as int)
    } else {
        digits_value(digits) as int
    };
    if digits.len() > 0 && all_digits(digits) && i64::MIN <= n <= i64::MAX {
        Some(n)
    } else {
        None
    }
}

/// The whole number of 64 bits that the text stands for.
pub fn parse_i64(s: &str) -> (r: Option<i64>)
    ensures
        match r {
            Some(n) => parsed_i64(s@) == Some(n as int),
            None => parsed_i64(s@) is None,
        },
{
    let v: Vec<char> = text::chars_of(s);
    let n: usize = v.len();
    let negative: bool = n > 0 && v[0] == '-';
    let start: usize = if n > 0 && (v[0] == '-' || v[0] == '+') {
        1
    } else {
        0
    };
    let ghost digits = s@.skip(start as int);
    assert(start == 0 ==> digits =~= s@);
    if start == n {
        return None;
    }
    let limit: u64 = if negative {
        0x8000_0000_0000_0000
    } else {
        0x7fff_ffff_ffff_ffff
    };
    let mut value: u64 = 0;
    let mut i: usize = start;
    let mut big: bool = false;
    assert(digits.take(0) =~= Seq::empty());
    while i < n
        invariant
            start <= i <= n,
            n == v.len(),
            v@ == s@,
            digits == s@.skip(start as int),
            start == if s@.len() > 0 && (s@[0] == '-' || s@[0] == '+') {
                1int
            } else {
                0
            },
            start == 0 ==> digits == s@,
            limit == 0x8000_0000_0000_0000 || limit == 0x7fff_ffff_ffff_ffff,
            forall|j: int| 0 <= j < i - start ==> '0' <= #[trigger] digits[j] <= '9',
            !big ==> value == digits_value(digits.take(i - start)) && value <= limit,
            big ==> digits_value(digits.take(i - start)) > limit,
        decreases n - i,
    {
        let c: char = v[i];
        assert(digits[i - start] == c);
        if c < '0' || c > '9' {
            assert(!all_digits(digits));
            return None;
        }
        let d: u64 = (c as u8 - 48) as u64;
        let ghost k = i - start;
        assert(digits.take(k + 1).drop_last() =~= digits.take(k));
        assert(digits.take(k + 1).last() == c);
        assert(digits_value(digits.take(k + 1)) == 10 * digits_value(digits.take(k)) + d);
        if !big {
            if value > (limit - d) / 10 {
                big = true;
            } else {
                value = 10 * value + d;
            }
        }
        i = i + 1;
    }
    assert(digits.take(n - start) =~= digits);
    assert(all_digits(digits));
    if big {
        return None;
    }
    if negative {
        if value == 0x8000_0000_0000_0000 {
            return Some(i64::MIN);
        }
        let m: i64 = value as i64;
        Some(-m)
    } else {
        Some(value as i64)
    }
}

/// A whole number in decimal.
pub open spec fn integer(n: int) -> Seq<char> {
    if n < 0 {
        seq!['-'] + text::decimal((-n) as nat)
    } else {
        text::decimal(n as nat)
    }
}

fn to_integer(n: i64) -> (r: String)
    ensures
        r@ == integer(n as int),
{
    if n < 0 {
        let m: u64 = if n == i64::MIN {
            0x8000_0000_0000_0000
        } else {
            (-n) as u64
        };
        let digits: String = text::to_decimal(m);
        let r: String = text::concat("-", digits.as_str());
        proof {
            reveal_strlit("-");
        }
        assert(r@ =~= seq!['-'] + digits@);
        r
    } else {
        text::to_decimal(n as u64)
    }
}

/// The number that a document's part of a decoded URI gives in the media store.
pub open spec fn media_number(d: Seq<char>) -> Option<int> {
    match doc_path(d) {
        None => None,
        Some(p) => if "msf:"@.is_prefix_of(p) {
            parsed_i64(p.skip(4))
        } else if "document:"@.is_prefix_of(p) {
            parsed_i64(p.skip(9))
        } else if "document%3A"@.is_prefix_of(p) || "document%3a"@.is_prefix_of(p) {
            parsed_i64(p.skip(11))
        } else if all_digits(p) && p.len() > 0 {
            parsed_i64(p)
        } else {
            None
        },
    }
}

/// The number of a document in the media store, by its URI with its escapes
/// decoded.
pub fn media_id(decoded: &str) -> (r: Option<i64>)
    ensures
        match r {
            Some(n) => media_number(decoded@) == Some(n as int),
            None => media_number(decoded@) is None,
        },
{
    proof {
        reveal_strlit("/document/");
        reveal_strlit("msf:");
        reveal_strlit("document:");
        reveal_strlit("document%3A");
        reveal_strlit("document%3a");
    }
    let p: &str = match text::find_sub(decoded, "/document/") {
        Some(i) => text::skip(decoded, i + 10),
        None => {
            return None;
        },
    };
    if let Some(t) = text::strip_prefix(p, "msf:") {
        parse_i64(t)
    } else if let Some(t) = text::strip_prefix(p, "document:") {
        parse_i64(t)
    } else if text::starts_with(p, "document%3A") || text::starts_with(p, "document%3a") {
        parse_i64(text::skip(p, 11))
    } else if digits_only(p) && !p.is_empty() {
        parse_i64(p)
    } else {
        None
    }
}

/// A URI with its escapes decoded, or as it is where they cannot be.
pub open spec fn decoded_or_same(uri: Seq<char>) -> Seq<char> {
    match outside::url_decoded(uri) {
        Some(d) => d,
        None => uri,
    }
}

/// The URI of a document in the media store, where it has one.
pub fn media_uri(uri: &str) -> (r: Option<String>)
    ensures
        text::opt_view(r) == match media_number(decoded_or_same(uri@)) {
            Some(n) => Some("content://media/external/file/"@ + integer(n)),
            None => None,
        },
{
    let decoded: String = match outside::url_decode(uri) {
        Some(d) => d,
        None => uri.to_owned(),
    };
    match media_id(decoded.as_str()) {
        Some(n) => {
            let number: String = to_integer(n);
            Some(text::concat("content://media/external/file/", number.as_str()))
        },
        None => None,
    }
}

/// A path without the place where the shared storage is mounted.
pub open spec fn without_mount(path: Seq<char>) -> Seq<char> {
    if "/storage/emulated/0/"@.is_prefix_of(path) {
        path.skip(20)
    } else if "/storage/self/primary/"@.is_prefix_of(path) {
        path.skip(22)
    } else if "/sdcard/"@.is_prefix_of(path) {
        path.skip(8)
    } else {
        path
    }
}

/// A path without the place where the shared storage is mounted.
pub fn strip_mount(path: &str) -> (r: String)
    ensures
        r@ == without_mount(path@),
{
    proof {
        reveal_strlit("/storage/emulated/0/");
        reveal_strlit("/storage/self/primary/");
        reveal_strlit("/sdcard/");
    }
    if let Some(t) = text::strip_prefix(path, "/storage/emulated/0/") {
        t.to_owned()
    } else if let Some(t) = text::strip_prefix(path, "/storage/self/primary/") {
        t.to_owned()
    } else if let Some(t) = text::strip_prefix(path, "/sdcard/") {
        t.to_owned()
    } else {
        path.to_owned()
    }
}

/// A row of the media store.
pub struct MediaRow {
    pub data: Option<String>,
    pub relative_path: Option<String>,
    pub display_name: Option<String>,
}

/// A directory and a name in it.
pub open spec fn dir_and_name(dir: Seq<char>, name: Seq<char>) -> Seq<char> {
    text::trimmed_end_char(dir, '/') + if name.len() == 0 {
        Seq::empty()
    } else {
        "/"@ + name
    }
}

/// The path that a row of the media store shows: its full path, or else its
/// directory with its name.
pub open spec fn row_path(row: MediaRow) -> Option<Seq<char>> {
    if row.data is Some && row.data->0@.len() > 0 {
        Some(without_mount(row.data->0@))
    } else {
        match row.relative_path {
            Some(d) => if d@.len() > 0 {
                match row.display_name {
                    Some(n) => Some(dir_and_name(d@, n@)),
                    None => Some(d@),
                }
            } else {
                None
            },
            None => None,
        }
    }
}

/// The path that the system's tables show: by what is known of the URI itself, or
/// else by the row of the media store, where the document is in it.
pub open spec fn column_path(
    uri: Seq<char>,
    row: Option<MediaRow>,
    data: Option<Seq<char>>,
) -> Option<Seq<char>> {
    let by_row = match (media_number(decoded_or_same(uri)), row) {
        (Some(_), Some(m)) => row_path(m),
        _ => None,
    };
    match data {
        Some(d) => if d.len() > 0 {
            Some(without_mount(d))
        } else {
            by_row
        },
        None => by_row,
    }
}

fn path_of_row(row: &MediaRow) -> (r: Option<String>)
    ensures
        text::opt_view(r) == row_path(*row),
{
    if let Some(d) = &row.data {
        if !d.as_str().is_empty() {
            return Some(strip_mount(d.as_str()));
        }
    }
    if let Some(d) = &row.relative_path {
        if !d.as_str().is_empty() {
            return match &row.display_name {
                Some(n) => {
                    let mut out: String = text::trim_end_char(d.as_str(), '/').to_owned();
                    if !n.as_str().is_empty() {
                        let name: String = text::concat("/", n.as_str());
                        out.append(name.as_str());
                    }
                    assert(out@ =~= dir_and_name(d@, n@));
                    Some(out)
                },
                None => Some(d.clone()),
            };
        }
    }
    None
}

/// The path that the system's tables show of a URI. `row` is the row in the media
/// store of the document's URI there, where it has one, and `data` what the path
/// column says of the URI itself.
pub fn query_data_column(uri: &str, row: &Option<MediaRow>, data: &Option<String>) -> (r: Result<
    String,
    String,
>)
    ensures
        text::result_view(r) == match column_path(uri@, *row, text::opt_view(*data)) {
            Some(p) => Ok(p),
            None => Err("_data not available from any URI"@),
        },
{
    if let Some(d) = data {
        if !d.as_str().is_empty() {
            return Ok(strip_mount(d.as_str()));
        }
    }
    if let (Some(_), Some(m)) = (media_uri(uri), row) {
        if let Some(p) = path_of_row(m) {
            return Ok(p);
        }
    }
    Err("_data not available from any URI".to_owned())
}

/// The URI's last forty bytes, if it has more than fifty, begin with a
/// character.
pub open spec fn can_shorten(uri: Seq<char>) -> bool {
    let b = vstd::utf8::encode_utf8(uri);
    b.len() > 50 ==> vstd::utf8::is_char_boundary(b, b.len() - 40)
}

/// A long URI by its last forty bytes.
pub open spec fn shortened(uri: Seq<char>) -> Seq<char> {
    let b = vstd::utf8::encode_utf8(uri);
    if b.len() > 50 {
        "..."@ + vstd::utf8::decode_utf8(b.skip(b.len() - 40))
    } else {
        uri
    }
}

/// Whether a long URI can be cut to its last forty bytes.
pub fn uri_can_be_shortened(uri: &str) -> (r: bool)
    ensures
        r == can_shorten(uri@),
{
    let n: usize = uri.as_bytes().len();
    n <= 50 || uri.is_char_boundary(n - 40)
}

/// A long URI by its last forty bytes.
pub fn shorten_uri(uri: &str) -> (r: String)
    requires
        can_shorten(uri@),
    ensures
        r@ == shortened(uri@),
{
    let n: usize = uri.as_bytes().len();
    if n > 50 {
        let parts: (&str, &str) = uri.split_at(n - 40);
        proof {
            let b = vstd::utf8::encode_utf8(uri@);
            vstd::utf8::encode_utf8_decode_utf8(parts.1@);
            assert(b.skip(b.len() - 40) =~= b.subrange(n - 40, n as int));
        }
        text::concat("...", parts.1)
    } else {
        uri.to_owned()
    }
}

/// What is shown of a URI: the path that it shows of itself; or its tree's with
/// the document's name; or what the system's tables say; or the name alone; or
/// the URI, cut short.
pub open spec fn display_path(
    uri: Seq<char>,
    tree: Option<Seq<char>>,
    name: Option<Seq<char>>,
    column: Option<Seq<char>>,
) -> Option<Seq<char>> {
    match saf_path(uri) {
        Some(p) => Some(p),
        None => {
            let tree_path = match tree {
                Some(t) => saf_path(t),
                None => None,
            };
            if tree_path is Some && name is Some {
                Some(text::trimmed_end_char(tree_path->0, '/') + "/"@ + name->0)
            } else if column is Some {
                column
            } else {
                name
            }
        },
    }
}

/// The document's own URI and its tree's, by what the stored form holds.
pub open spec fn shown_uri(uri_json: Seq<char>, fields: Option<FieldsView>) -> (
    Seq<char>,
    Option<Seq<char>>,
) {
    match fields {
        Some(f) => if "{"@.is_prefix_of(uri_json) {
            (
                match f.uri {
                    Some(u) => u,
                    None => uri_json,
                },
                f.tree,
            )
        } else {
            (uri_json, None)
        },
        None => (uri_json, None),
    }
}

/// What is shown of a stored URI, but for its own text, by what the stored form
/// holds where it is JSON.
pub open spec fn shown_path(
    uri_json: Seq<char>,
    fields: Option<FieldsView>,
    name: Option<Seq<char>>,
    column: Option<Seq<char>>,
) -> Option<Seq<char>> {
    display_path(shown_uri(uri_json, fields).0, shown_uri(uri_json, fields).1, name, column)
}

/// What is shown of a stored URI. `fields` is what the stored form holds where
/// it is JSON, `name` the document's name, and `column` what the system's
/// tables say.
pub fn display_path_by(
    uri_json: &str,
    fields: &Option<UriFields>,
    name: &Option<String>,
    column: &Option<String>,
) -> (r: String)
    requires
        shown_path(uri_json@, opt_fields(*fields), text::opt_view(*name), text::opt_view(*column))
            is None ==> can_shorten(shown_uri(uri_json@, opt_fields(*fields)).0),
    ensures
        r@ == match shown_path(
            uri_json@,
            opt_fields(*fields),
            text::opt_view(*name),
            text::opt_view(*column),
        ) {
            Some(p) => p,
            None => shortened(shown_uri(uri_json@, opt_fields(*fields)).0),
        },
{
    let mut uri: &str = uri_json;
    let mut tree: Option<&str> = None;
    if text::starts_with(uri_json, "{") {
        if let Some(f) = fields {
            if let Some(u) = &f.uri {
                uri = u.as_str();
            }
            if let Some(t) = &f.tree {
                tree = Some(t.as_str());
            }
        }
    }
    if let Some(p) = extract_path_from_saf_uri(uri) {
        return p;
    }
    if let Some(t) = tree {
        if let Some(p) = extract_path_from_saf_uri(t) {
            if let Some(n) = name {
                return text::concat3(text::trim_end_char(p.as_str(), '/'), "/", n.as_str());
            }
        }
    }
    if let Some(p) = column {
        return p.clone();
    }
    if let Some(n) = name {
        return n.clone();
    }
    shorten_uri(uri)
}

/// What is shown of a stored URI. `name` is the document's name, and `column`
/// what the system's tables say. Nothing is shown where the URI would have to be
/// cut inside a character.
pub fn get_display_path(uri_json: &str, name: &Option<String>, column: &Option<String>) -> (r:
    Option<String>)
    ensures
        ({
            let fields = readable_fields(uri_json@);
            text::opt_view(r) == match shown_path(
                uri_json@,
                fields,
                text::opt_view(*name),
                text::opt_view(*column),
            ) {
                Some(p) => Some(p),
                None => if can_shorten(shown_uri(uri_json@, fields).0) {
                    Some(shortened(shown_uri(uri_json@, fields).0))
                } else {
                    None
                },
            }
        }),
{
    let fields: Option<UriFields> = try_fields(uri_json);
    let mut uri: &str = uri_json;
    if text::starts_with(uri_json, "{") {
        if let Some(f) = &fields {
            if let Some(u) = &f.uri {
                uri = u.as_str();
            }
        }
    }
    if extract_path_from_saf_uri(uri).is_none() && column.is_none() && name.is_none()
        && !uri_can_be_shortened(uri) {
        return None;
    }
    Some(display_path_by(uri_json, &fields, name, column))
}

/// The URI that a file manager is asked to open for a wiki: its tree's, or else
/// its own.
pub open spec fn reveal_uri(path: Seq<char>, fields: Result<FieldsView, Seq<char>>) -> Result<
    Seq<char>,
    Seq<char>,
> {
    if !is_json_uri(path) {
        Ok(path)
    } else {
        match fields {
            Err(e) => Err("Failed to parse path JSON: "@ + e),
            Ok(f) => if f.tree is Some && f.tree->0.len() > 0 && f.tree->0 != "null"@ {
                Ok(f.tree->0)
            } else {
                match f.uri {
                    Some(u) => Ok(u),
                    None => Err("No valid URI found in path JSON"@),
                }
            },
        }
    }
}

/// A URI that can be viewed: that of a tree becomes that of a document.
pub open spec fn viewable(uri: Seq<char>) -> Seq<char> {
    if text::has_sub(uri, "/tree/"@) && !text::has_sub(uri, "/document/"@) {
        let i = text::index_of_sub(uri, "/tree/"@, 0)->0;
        uri.take(i) + "/document/"@ + uri.skip(i + 6)
    } else {
        uri
    }
}

fn view_uri(uri: &str) -> (r: String)
    ensures
        r@ == viewable(uri@),
{
    proof {
        reveal_strlit("/tree/");
        text::lemma_has_sub(uri@, "/tree/"@);
    }
    if !text::contains(uri, "/document/") {
        if let Some(i) = text::find_sub(uri, "/tree/") {
            return text::concat3(text::take(uri, i), "/document/", text::skip(uri, i + 6));
        }
    }
    uri.to_owned()
}

/// What a stored URI holds, or the report of what is wrong with it.
pub open spec fn result_fields(f: Result<UriFields, String>) -> Result<FieldsView, Seq<char>> {
    match f {
        Ok(g) => Ok(g@),
        Err(e) => Err(e@),
    }
}

/// The URI that a file manager is asked to open for a wiki, or why there is
/// none, by what the stored form holds where it is JSON.
pub fn uri_to_reveal(path_json: &str, fields: &Result<UriFields, String>) -> (r: Result<
    String,
    String,
>)
    ensures
        text::result_view(r) == match reveal_uri(path_json@, result_fields(*fields)) {
            Ok(u) => Ok(viewable(u)),
            Err(e) => Err(e),
        },
{
    if !is_json(path_json) {
        return Ok(view_uri(path_json));
    }
    match fields {
        Err(e) => Err(text::concat("Failed to parse path JSON: ", e.as_str())),
        Ok(f) => {
            if let Some(t) = &f.tree {
                if !t.as_str().is_empty() && !text::same(t.as_str(), "null") {
                    return Ok(view_uri(t.as_str()));
                }
            }
            match &f.uri {
                Some(u) => Ok(view_uri(u.as_str())),
                None => Err("No valid URI found in path JSON".to_owned()),
            }
        },
    }
}

/// The URI that a file manager is asked to open for a wiki, or why there is
/// none.
pub fn reveal_in_file_manager(path_json: &str) -> (r: Result<String, String>)
    ensures
        text::result_view(r) == match reveal_uri(path_json@, parsed_fields(path_json@)) {
            Ok(u) => Ok(viewable(u)),
            Err(e) => Err(e),
        },
{
    let fields: Result<UriFields, String> = read_fields(path_json);
    uri_to_reveal(path_json, &fields)
}

// ---------------------------------------------------------------------------
// Pickers
// ---------------------------------------------------------------------------

/// What a picker that offers a wiki brought.
pub open spec fn picked_outcome(picked: Result<Option<String>, String>, prefix: Seq<char>) -> Result<
    Option<Seq<char>>,
    Seq<char>,
> {
    match picked {
        Ok(Some(u)) => Ok(Some(u@)),
        Ok(None) => Ok(None),
        Err(e) => Err(prefix + e@),
    }
}

/// The directory that was picked, or that the picker failed.
pub fn pick_directory(picked: Result<Option<String>, String>) -> (r: Result<Option<String>, String>)
    ensures
        search_view(r) == picked_outcome(picked, "Directory picker failed: "@),
{
    failed("Directory picker failed: ", picked)
}

/// The directory that was picked, where a file could be created in it for a
/// test; else that it cannot be written to, or that the picker failed.
pub fn pick_directory_with_write(picked: Result<Option<String>, String>, writable: bool) -> (r:
    Result<Option<String>, String>)
    ensures
        search_view(r) == match picked_outcome(picked, "Directory picker failed: "@) {
            Ok(Some(u)) => if writable {
                Ok(Some(u))
            } else {
                Err(
                    "The selected folder does not have write permission. Please try selecting the folder again, or choose a different location."@,
                )
            },
            other => other,
        },
{
    match failed("Directory picker failed: ", picked) {
        Ok(Some(u)) => {
            if writable {
                Ok(Some(u))
            } else {
                Err(
                    "The selected folder does not have write permission. Please try selecting the folder again, or choose a different location.".to_owned(),
                )
            }
        },
        Ok(None) => Ok(None),
        Err(e) => Err(e),
    }
}

/// The name of the file that tests whether a directory can be written to.
pub fn write_test_name(millis: u64) -> (r: String)
    ensures
        r@ == ".tiddlydesktop_write_test_"@ + text::decimal(millis as nat),
{
    let n: String = text::to_decimal(millis);
    text::concat(".tiddlydesktop_write_test_", n.as_str())
}

/// A wiki's stored form: its own URI, and that of the tree it is in, where
/// access was granted.
pub open spec fn granted_json(uri: Seq<char>, tree: Option<Seq<char>>) -> Seq<char> {
    outside::json_pair("documentTopTreeUri"@, tree, "uri"@, Some(uri))
}

/// The stored form of a wiki that was picked, and of
/// the folder that was picked for its attachments, if any.
pub fn pick_wiki_file_with_folder_access(
    file: Result<Option<String>, String>,
    folder: Result<Option<String>, String>,
) -> (r: Result<Option<String>, String>)
    ensures
        search_view(r) == picked_wiki(file, folder, "File picker failed: "@),
{
    wiki_with_folder(file, folder, "File picker failed: ")
}

/// The stored form of a wiki that was saved under a new name, and of the folder
/// that was picked for its attachments, if any.
pub fn save_wiki_file(
    file: Result<Option<String>, String>,
    folder: Result<Option<String>, String>,
) -> (r: Result<Option<String>, String>)
    ensures
        search_view(r) == picked_wiki(file, folder, "Save dialog failed: "@),
{
    wiki_with_folder(file, folder, "Save dialog failed: ")
}

/// What picking a wiki and then a folder comes to: what failed first; nothing
/// where no wiki was picked; else the wiki's stored form, without a tree where
/// no folder was picked.
pub open spec fn picked_wiki(
    file: Result<Option<String>, String>,
    folder: Result<Option<String>, String>,
    prefix: Seq<char>,
) -> Result<Option<Seq<char>>, Seq<char>> {
    match picked_outcome(file, prefix) {
        Ok(Some(u)) => match picked_outcome(folder, "Folder picker failed: "@) {
            Ok(tree) => Ok(Some(granted_json(u, tree))),
            Err(e) => Err(e),
        },
        other => other,
    }
}

fn wiki_with_folder(
    file: Result<Option<String>, String>,
    folder: Result<Option<String>, String>,
    prefix: &str,
) -> (r: Result<Option<String>, String>)
    ensures
        search_view(r) == picked_wiki(file, folder, prefix@),
{
    let uri: String = match failed(prefix, file) {
        Ok(Some(u)) => u,
        Ok(None) => {
            return Ok(None);
        },
        Err(e) => {
            return Err(e);
        },
    };
    match failed("Folder picker failed: ", folder) {
        Ok(tree) => {
            let shown: String = match &tree {
                Some(t) => outside::json_string(t.as_str()),
                None => "null".to_owned(),
            };
            let quoted: String = outside::json_string(uri.as_str());
            let tree_name: String = outside::json_string("documentTopTreeUri");
            let uri_name: String = outside::json_string("uri");
            let mut out: String = text::concat3("{", tree_name.as_str(), ":");
            out.append(shown.as_str());
            out.append(",");
            out.append(uri_name.as_str());
            out.append(":");
            out.append(quoted.as_str());
            out.append("}");
            Ok(Some(out))
        },
        Err(e) => Err(e),
    }
}

// ---------------------------------------------------------------------------
// Backups
// ---------------------------------------------------------------------------

/// The first string comes before the second or is it, by their code points.
pub open spec fn not_after(a: Seq<char>, b: Seq<char>) -> bool
    decreases a.len(),
{
    if a.len() == 0 {
        true
    } else if b.len() == 0 {
        false
    } else if a[0] == b[0] {
        not_after(a.skip(1), b.skip(1))
    } else {
        a[0] < b[0]
    }
}

/// The name of a backup that is made at the time.
pub open spec fn backup_name_of(stem: Seq<char>, timestamp: Seq<char>) -> Seq<char> {
    stem + "_"@ + timestamp + ".html"@
}

/// The name is that of a backup of the wiki with the stem: between the stem and
/// the extension stands the time at which it was made.
pub open spec fn is_backup_name(name: Seq<char>, stem: Seq<char>) -> bool {
    let timestamp = name.skip(stem.len() as int + 1).take(14);
    name.len() == stem.len() + 20 && name == backup_name_of(stem, timestamp) && outside::is_stamp(
        timestamp,
    )
}

/// The file is a backup of the wiki with the stem.
pub open spec fn is_backup(e: DirEntry, stem: Seq<char>) -> bool {
    !e.is_dir && is_backup_name(e.name@, stem)
}

/// The name of a backup that is made at the time.
pub fn backup_name(stem: &str, timestamp: &str) -> (r: String)
    ensures
        r@ == backup_name_of(stem@, timestamp@),
{
    let mut out: String = text::concat3(stem, "_", timestamp);
    out.append(".html");
    out
}

fn has_stamp(s: &str) -> (r: bool)
    ensures
        r == outside::is_stamp(s@),
{
    let v: Vec<char> = text::chars_of(s);
    if v.len() != 14 {
        return false;
    }
    let mut i: usize = 0;
    while i < v.len()
        invariant
            i <= v.len(),
            v.len() == 14,
            v@ == s@,
            forall|k: int| 0 <= k < i ==> '0' <= #[trigger] s@[k] <= '9',
        decreases v.len() - i,
    {
        if v[i] < '0' || v[i] > '9' {
            assert(!('0' <= s@[i as int] <= '9'));
            return false;
        }
        i = i + 1;
    }
    true
}

/// Whether the name is that of a backup of the wiki with the stem.
pub fn names_backup(name: &str, stem: &str) -> (r: bool)
    ensures
        r == is_backup_name(name@, stem@),
{
    let n: usize = name.unicode_len();
    let m: usize = stem.unicode_len();
    if n < 20 || n - 20 != m {
        return false;
    }
    let timestamp: &str = text::take(text::skip(name, m + 1), 14);
    if !has_stamp(timestamp) {
        return false;
    }
    let whole: String = backup_name(stem, timestamp);
    text::same(whole.as_str(), name)
}

/// A backup, by its name and its URI.
pub ghost struct Backup {
    pub name: Seq<char>,
    pub uri: Seq<char>,
}

/// The place for a name in a list that runs from the last name to the first:
/// behind every name that does not come before it.
pub open spec fn place_for(sorted: Seq<Backup>, name: Seq<char>, from: int) -> int
    decreases sorted.len() - from,
{
    if from >= sorted.len() {
        sorted.len() as int
    } else if not_after(name, sorted[from].name) {
        place_for(sorted, name, from + 1)
    } else {
        from
    }
}

/// The backups of the wiki among the entries, from the last name to the first.
pub open spec fn backups_of(entries: Seq<DirEntry>, stem: Seq<char>) -> Seq<Backup>
    decreases entries.len(),
{
    if entries.len() == 0 {
        Seq::empty()
    } else {
        let before = backups_of(entries.drop_last(), stem);
        let e = entries.last();
        if is_backup(e, stem) {
            before.insert(
                place_for(before, e.name@, 0),
                (Backup { name: e.name@, uri: e.uri@ }),
            )
        } else {
            before
        }
    }
}

/// What the pairs of a name and a URI hold.
pub open spec fn backup_views(v: Seq<(String, String)>) -> Seq<Backup> {
    v.map_values(|e: (String, String)| (Backup { name: e.0@, uri: e.1@ }))
}

/// The URIs of the backups that are too many.
pub open spec fn surplus(entries: Seq<DirEntry>, stem: Seq<char>, keep: nat) -> Seq<Seq<char>> {
    let all = backups_of(entries, stem);
    if keep == 0 || keep >= all.len() {
        Seq::empty()
    } else {
        all.skip(keep as int).map_values(|b: Backup| b.uri)
    }
}

/// Whether the first string comes before the second or is it.
pub fn comes_not_after(a: &str, b: &str) -> (r: bool)
    ensures
        r == not_after(a@, b@),
{
    let x: Vec<char> = text::chars_of(a);
    let y: Vec<char> = text::chars_of(b);
    let mut i: usize = 0;
    assert(x@.skip(0) =~= a@);
    assert(y@.skip(0) =~= b@);
    while i < x.len() && i < y.len()
        invariant
            i <= x.len(),
            i <= y.len(),
            not_after(a@, b@) == not_after(x@.skip(i as int), y@.skip(i as int)),
        decreases x.len() - i,
    {
        assert(x@.skip(i as int)[0] == x@[i as int]);
        assert(y@.skip(i as int)[0] == y@[i as int]);
        assert(x@.skip(i as int).skip(1) =~= x@.skip(i + 1));
        assert(y@.skip(i as int).skip(1) =~= y@.skip(i + 1));
        if x[i] != y[i] {
            return x[i] < y[i];
        }
        i = i + 1;
    }
    i == x.len()
}

fn find_place(sorted: &Vec<(String, String)>, name: &str) -> (r: usize)
    ensures
        r == place_for(backup_views(sorted@), name@, 0),
        r <= sorted.len(),
{
    let ghost all = backup_views(sorted@);
    let mut i: usize = 0;
    while i < sorted.len()
        invariant
            i <= sorted.len(),
            all == backup_views(sorted@),
            place_for(all, name@, 0) == place_for(all, name@, i as int),
        decreases sorted.len() - i,
    {
        assert(all[i as int].name == sorted@[i as int].0@);
        if !comes_not_after(name, sorted[i].0.as_str()) {
            return i;
        }
        i = i + 1;
    }
    i
}

fn sort_backups(entries: &Vec<DirEntry>, stem: &str) -> (r: Vec<(String, String)>)
    ensures
        backup_views(r@) == backups_of(entries@, stem@),
{
    let mut out: Vec<(String, String)> = Vec::new();
    let mut i: usize = 0;
    assert(backup_views(out@) =~= backups_of(entries@.take(0), stem@));
    while i < entries.len()
        invariant
            i <= entries.len(),
            backup_views(out@) == backups_of(entries@.take(i as int), stem@),
        decreases entries.len() - i,
    {
        let e: &DirEntry = &entries[i];
        let ghost before = backup_views(out@);
        assert(entries@.take(i + 1).drop_last() =~= entries@.take(i as int));
        assert(entries@.take(i + 1).last() == *e);
        if !e.is_dir && names_backup(e.name.as_str(), stem) {
            let p: usize = find_place(&out, e.name.as_str());
            let item: (String, String) = (e.name.clone(), e.uri.clone());
            out.insert(p, item);
            assert(backup_views(out@) =~= before.insert(
                p as int,
                (Backup { name: e.name@, uri: e.uri@ }),
            ));
        }
        i = i + 1;
    }
    assert(entries@.take(i as int) =~= entries@);
    out
}

/// The backups of a wiki that are to be deleted, so that the `keep` with the
/// last names stay; none where `keep` is zero, which means without limit.
pub fn cleanup_old_backups(
    entries: Result<Vec<DirEntry>, String>,
    filename_stem: &str,
    keep: usize,
) -> (r: Result<Vec<String>, String>)
    ensures
        match r {
            Ok(v) => text::views(v@) == match entries {
                Ok(e) => surplus(e@, filename_stem@, keep as nat),
                Err(_) => Seq::empty(),
            } && (keep == 0 || entries is Ok),
            Err(e) => keep != 0 && entries is Err && e@ == entries->Err_0@,
        },
{
    if keep == 0 {
        let none: Vec<String> = Vec::new();
        assert(text::views(none@) =~= Seq::empty());
        return Ok(none);
    }
    let entries: Vec<DirEntry> = match entries {
        Ok(v) => v,
        Err(e) => {
            return Err(e);
        },
    };
    let sorted: Vec<(String, String)> = sort_backups(&entries, filename_stem);
    let ghost all = backup_views(sorted@);
    let ghost uris = all.map_values(|b: Backup| b.uri);
    let mut out: Vec<String> = Vec::new();
    let mut i: usize = keep;
    if keep >= sorted.len() {
        assert(text::views(out@) =~= Seq::empty());
        return Ok(out);
    }
    assert(text::views(out@) =~= uris.subrange(keep as int, keep as int));
    while i < sorted.len()
        invariant
            keep <= i <= sorted.len(),
            all == backup_views(sorted@),
            uris == all.map_values(|b: Backup| b.uri),
            text::views(out@) == uris.subrange(keep as int, i as int),
        decreases sorted.len() - i,
    {
        let ghost before = out@;
        let u: String = sorted[i].1.clone();
        assert(uris[i as int] == u@);
        out.push(u);
        assert(text::views(out@) =~= text::views(before).push(u@));
        i = i + 1;
        assert(uris.subrange(keep as int, i as int) =~= uris.subrange(keep as int, i - 1).push(
            uris[i - 1],
        ));
    }
    assert(uris.subrange(keep as int, i as int) =~= all.skip(keep as int).map_values(
        |b: Backup| b.uri,
    ));
    Ok(out)
}

/// The list runs from the last name to the first.
pub open spec fn is_descending(s: Seq<Backup>) -> bool {
    forall|i: int, j: int| 0 <= i <= j < s.len() ==> not_after(s[j].name, s[i].name)
}

proof fn lemma_not_after_self(a: Seq<char>)
    ensures
        not_after(a, a),
    decreases a.len(),
{
    if a.len() > 0 {
        lemma_not_after_self(a.skip(1));
    }
}

proof fn lemma_not_after_total(a: Seq<char>, b: Seq<char>)
    ensures
        not_after(a, b) || not_after(b, a),
    decreases a.len(),
{
    if a.len() > 0 && b.len() > 0 && a[0] == b[0] {
        lemma_not_after_total(a.skip(1), b.skip(1));
    }
}

proof fn lemma_not_after_chain(a: Seq<char>, b: Seq<char>, c: Seq<char>)
    requires
        not_after(a, b),
        not_after(b, c),
    ensures
        not_after(a, c),
    decreases a.len(),
{
    if a.len() > 0 && a[0] == b[0] && b[0] == c[0] {
        lemma_not_after_chain(a.skip(1), b.skip(1), c.skip(1));
    }
}

proof fn lemma_place(sorted: Seq<Backup>, name: Seq<char>, from: int)
    requires
        0 <= from <= sorted.len(),
    ensures
        from <= place_for(sorted, name, from) <= sorted.len(),
        forall|i: int| from <= i < place_for(sorted, name, from) ==> not_after(
            name,
            #[trigger] sorted[i].name,
        ),
        place_for(sorted, name, from) < sorted.len() ==> !not_after(
            name,
            sorted[place_for(sorted, name, from)].name,
        ),
    decreases sorted.len() - from,
{
    if from < sorted.len() && not_after(name, sorted[from].name) {
        lemma_place(sorted, name, from + 1);
    }
}

proof fn lemma_insert_descending(s: Seq<Backup>, b: Backup)
    requires
        is_descending(s),
    ensures
        is_descending(s.insert(place_for(s, b.name, 0), b)),
{
    let p = place_for(s, b.name, 0);
    let t = s.insert(p, b);
    lemma_place(s, b.name, 0);
    assert forall|i: int, j: int| 0 <= i <= j < t.len() implies not_after(t[j].name, t[i].name) by {
        lemma_not_after_self(t[i].name);
        if i < p && j == p {
            assert(t[i] == s[i]);
        } else if i == p && j > p {
            assert(t[j] == s[j - 1]);
            lemma_not_after_total(b.name, s[p].name);
            assert(not_after(s[p].name, b.name));
            assert(not_after(s[j - 1].name, s[p].name));
            lemma_not_after_chain(s[j - 1].name, s[p].name, b.name);
        } else if i < p && j > p {
            assert(t[i] == s[i] && t[j] == s[j - 1]);
        } else if i > p {
            assert(t[i] == s[i - 1] && t[j] == s[j - 1]);
        } else if j < p {
            assert(t[i] == s[i] && t[j] == s[j]);
        }
    }
}

proof fn lemma_backups_descending(entries: Seq<DirEntry>, stem: Seq<char>)
    ensures
        is_descending(backups_of(entries, stem)),
    decreases entries.len(),
{
    if entries.len() > 0 {
        lemma_backups_descending(entries.drop_last(), stem);
        let e = entries.last();
        if is_backup(e, stem) {
            lemma_insert_descending(
                backups_of(entries.drop_last(), stem),
                (Backup { name: e.name@, uri: e.uri@ }),
            );
        }
    }
}

/// With a limit, that many backups stay, or all where there are fewer; and no
/// backup that goes has a later name than one that stays.
pub proof fn law_latest_backups_stay(entries: Seq<DirEntry>, stem: Seq<char>, keep: nat)
    requires
        keep > 0,
    ensures
        ({
            let all = backups_of(entries, stem);
            let n = if keep < all.len() {
                keep
            } else {
                all.len()
            };
            &&& surplus(entries, stem, keep).len() == all.len() - n
            &&& forall|i: int| n <= i < all.len() ==> surplus(entries, stem, keep)[i - n]
                == #[trigger] all[i].uri
            &&& forall|i: int, j: int|
                0 <= i < n && n <= j < all.len() ==> not_after(
                    (#[trigger] all[j]).name,
                    (#[trigger] all[i]).name,
                )
        }),
{
    lemma_backups_descending(entries, stem);
}

/// A zero limit deletes nothing.
pub proof fn law_zero_keeps_all(entries: Seq<DirEntry>, stem: Seq<char>)
    ensures
        surplus(entries, stem, 0).len() == 0,
{
}

/// The name of a backup that is made now.
pub fn create_backup(filename_stem: &str) -> (r: String)
    ensures
        exists|timestamp: Seq<char>|
            r@ == #[trigger] backup_name_of(filename_stem@, timestamp) && outside::is_time(
                timestamp,
            ),
{
    let timestamp: String = outside::local_time("%Y%m%d%H%M%S");
    backup_name(filename_stem, timestamp.as_str())
}

/// A file that was named as a backup of the wiki is one.
pub proof fn law_made_backups_are_backups(e: DirEntry, stem: Seq<char>, timestamp: Seq<char>)
    requires
        !e.is_dir,
        outside::is_stamp(timestamp),
        e.name@ == backup_name_of(stem, timestamp),
    ensures
        is_backup(e, stem),
{
    reveal_strlit("_");
    reveal_strlit(".html");
    assert(e.name@.skip(stem.len() as int + 1).take(14) =~= timestamp);
}

/// A backup belongs to one wiki: none of another wiki's in the same directory is
/// taken for it.
pub proof fn law_backups_belong_to_one_wiki(e: DirEntry, stem: Seq<char>, other: Seq<char>)
    requires
        is_backup(e, stem),
        is_backup(e, other),
    ensures
        stem == other,
{
    let n = e.name@;
    assert(stem =~= n.take(n.len() - 20));
    assert(other =~= n.take(n.len() - 20));
}

proof fn lemma_not_after_common(a: Seq<char>, b: Seq<char>, c: Seq<char>)
    ensures
        not_after(a + b, a + c) == not_after(b, c),
    decreases a.len(),
{
    if a.len() > 0 {
        assert((a + b).skip(1) =~= a.skip(1) + b);
        assert((a + c).skip(1) =~= a.skip(1) + c);
        lemma_not_after_common(a.skip(1), b, c);
    } else {
        assert(a + b =~= b);
        assert(a + c =~= c);
    }
}

proof fn lemma_not_after_tail(a: Seq<char>, b: Seq<char>, t: Seq<char>)
    requires
        a.len() == b.len(),
    ensures
        not_after(a + t, b + t) == not_after(a, b),
    decreases a.len(),
{
    if a.len() > 0 {
        assert((a + t).skip(1) =~= a.skip(1) + t);
        assert((b + t).skip(1) =~= b.skip(1) + t);
        lemma_not_after_tail(a.skip(1), b.skip(1), t);
    } else {
        assert(a + t =~= t);
        assert(b + t =~= t);
        lemma_not_after_common(t, Seq::empty(), Seq::empty());
        assert(t + Seq::<char>::empty() =~= t);
    }
}

/// The names of a wiki's backups stand in the order of the times at which they
/// were made.
pub proof fn law_backup_names_follow_time(stem: Seq<char>, a: Seq<char>, b: Seq<char>)
    requires
        outside::is_stamp(a),
        outside::is_stamp(b),
    ensures
        not_after(backup_name_of(stem, a), backup_name_of(stem, b)) == not_after(a, b),
{
    let h = stem + "_"@;
    assert(backup_name_of(stem, a) =~= h + (a + ".html"@));
    assert(backup_name_of(stem, b) =~= h + (b + ".html"@));
    lemma_not_after_common(h, a + ".html"@, b + ".html"@);
    lemma_not_after_tail(a, b, ".html"@);
}

/// What the storage answers.
pub enum StorageReply {
    Entries(Result<Vec<DirEntry>, String>),
    Content(Result<Vec<u8>, String>),
    Created(Result<String, String>),
    Written(Result<(), String>),
}

/// What is to be done next in copying a document.
pub enum CopyStep {
    /// The document at the URI is read.
    Read(String),
    /// The copy is created, for the content.
    Create(CreateRequest, Vec<u8>),
    /// The content is written to the copy at the URI.
    Write(String, Vec<u8>),
    /// The copy is at the URI.
    Done(String),
    Failed(String),
}

/// The step follows the given one after the answer. One that the answer does not
/// belong to stays.
pub open spec fn copy_follows(
    dest_dir: Seq<char>,
    dest_name: Seq<char>,
    step: CopyStep,
    reply: StorageReply,
    next: CopyStep,
) -> bool {
    match (step, reply) {
        (CopyStep::Read(_), StorageReply::Content(Ok(c))) => next matches CopyStep::Create(
            request,
            content,
        ) && request@ == file_in(dest_dir, dest_name) && content@ == c@,
        (CopyStep::Read(_), StorageReply::Content(Err(e))) => next matches CopyStep::Failed(f)
            && f@ == e@,
        (
            CopyStep::Create(_, c),
            StorageReply::Created(Ok(u)),
        ) => next matches CopyStep::Write(uri, content) && uri@ == u@ && content@ == c@,
        (
            CopyStep::Create(_, _),
            StorageReply::Created(Err(e)),
        ) => next matches CopyStep::Failed(f) && f@ == "Failed to create file: "@ + e@,
        (CopyStep::Write(u, _), StorageReply::Written(Ok(_))) => next matches CopyStep::Done(uri)
            && uri@ == u@,
        (
            CopyStep::Write(_, _),
            StorageReply::Written(Err(e)),
        ) => next matches CopyStep::Failed(f) && f@ == e@,
        _ => next == step,
    }
}

/// Copying a document begins with reading it.
pub fn copy_document(source_uri: &str) -> (r: CopyStep)
    ensures
        r matches CopyStep::Read(u) && u@ == source_uri@,
{
    CopyStep::Read(source_uri.to_owned())
}

/// What is to be done next in copying a document into a directory. The copy is
/// created under the name once the document was read, and what was read is
/// written to it.
pub fn copy_next(dest_dir: &str, dest_name: &str, step: CopyStep, reply: StorageReply) -> (r:
    CopyStep)
    ensures
        copy_follows(dest_dir@, dest_name@, step, reply, r),
{
    match (step, reply) {
        (CopyStep::Read(_), StorageReply::Content(Ok(content))) => CopyStep::Create(
            create_file(dest_dir, dest_name),
            content,
        ),
        (CopyStep::Read(_), StorageReply::Content(Err(e))) => CopyStep::Failed(e),
        (
            CopyStep::Create(_, content),
            StorageReply::Created(Ok(uri)),
        ) => CopyStep::Write(uri, content),
        (CopyStep::Create(_, _), StorageReply::Created(Err(e))) => CopyStep::Failed(
            text::concat("Failed to create file: ", e.as_str()),
        ),
        (CopyStep::Write(uri, _), StorageReply::Written(Ok(_))) => CopyStep::Done(uri),
        (CopyStep::Write(_, _), StorageReply::Written(Err(e))) => CopyStep::Failed(e),
        (step, _) => step,
    }
}

/// What was read of the document is what is written to the copy, which stands
/// under the name in the directory; its URI is the outcome.
pub proof fn law_copies_hold_what_was_read(
    dest_dir: Seq<char>,
    dest_name: Seq<char>,
    steps: Seq<CopyStep>,
    content: Vec<u8>,
    uri: String,
)
    requires
        steps.len() == 4,
        steps[0] is Read,
        copy_follows(dest_dir, dest_name, steps[0], StorageReply::Content(Ok(content)), steps[1]),
        copy_follows(dest_dir, dest_name, steps[1], StorageReply::Created(Ok(uri)), steps[2]),
        copy_follows(dest_dir, dest_name, steps[2], StorageReply::Written(Ok(())), steps[3]),
    ensures
        steps[1] matches CopyStep::Create(request, _) && request@ == file_in(dest_dir, dest_name),
        steps[2] matches CopyStep::Write(u, c) && u@ == uri@ && c@ == content@,
        steps[3] matches CopyStep::Done(u) && u@ == uri@,
{
}

/// Where the backups of a wiki go.
pub enum BackupPlace {
    /// The directory that the user chose.
    Custom(String),
    /// The directory with the name in the one whose stored form is given, which is
    /// created where it is missing.
    InTree { parent: String, name: String },
    /// Nowhere: there is no access to the wiki's directory.
    Nowhere,
}

/// Where the backups of a wiki go.
pub ghost enum BackupPlaceView {
    Custom(Seq<char>),
    InTree(Seq<char>, Seq<char>),
    Nowhere,
}

impl View for BackupPlace {
    type V = BackupPlaceView;

    open spec fn view(&self) -> BackupPlaceView {
        match self {
            BackupPlace::Custom(d) => BackupPlaceView::Custom(d@),
            BackupPlace::InTree { parent, name } => BackupPlaceView::InTree(parent@, name@),
            BackupPlace::Nowhere => BackupPlaceView::Nowhere,
        }
    }
}

/// The tree to which access was granted with a wiki.
pub open spec fn wiki_tree(wiki_uri: Seq<char>, fields: Option<FieldsView>) -> Option<Seq<char>> {
    match fields {
        Some(f) => match f.tree {
            Some(t) => if "{"@.is_prefix_of(wiki_uri) && t.len() > 0 {
                Some(t)
            } else {
                None
            },
            None => None,
        },
        None => None,
    }
}

/// The stored form of the directory that holds a wiki, where there is access to
/// the tree: by the path of the wiki in it, and else the tree itself.
pub open spec fn wiki_directory(f: FieldsView, tree: Seq<char>) -> Seq<char> {
    let main = match f.uri {
        Some(u) => u,
        None => ""@,
    };
    match (doc_parent(main), granted_tree(f)) {
        (Some(p), Some(root)) => parent_under(root, p),
        _ => stored_uri_of(tree, tree),
    }
}

/// Where the backups of a wiki go: where the user chose, or else to `.backups`
/// beside it, as far as there is access.
pub open spec fn backup_place(
    wiki_uri: Seq<char>,
    fields: Option<FieldsView>,
    custom: Option<Seq<char>>,
) -> BackupPlaceView {
    match custom {
        Some(d) => BackupPlaceView::Custom(d),
        None => match wiki_tree(wiki_uri, fields) {
            Some(t) => BackupPlaceView::InTree(wiki_directory(fields->0, t), ".backups"@),
            None => BackupPlaceView::Nowhere,
        },
    }
}

fn directory_of_wiki(f: &UriFields, tree: &str) -> (r: String)
    ensures
        r@ == wiki_directory(f@, tree@),
{
    let main: &str = match &f.uri {
        Some(u) => u.as_str(),
        None => "",
    };
    if let Some(p) = parent_of_doc(main) {
        if let Some(t) = &f.tree {
            if !t.as_str().is_empty() && !text::same(t.as_str(), "null") && text::contains(
                t.as_str(),
                "/tree/",
            ) {
                return parent_in(root_of(t.as_str()), p.as_str());
            }
        }
    }
    stored_uri(tree, tree)
}

fn tree_of<'a>(wiki_uri: &str, fields: &'a Option<UriFields>) -> (r: Option<&'a str>)
    ensures
        match r {
            Some(t) => wiki_tree(wiki_uri@, opt_fields(*fields)) == Some(t@),
            None => wiki_tree(wiki_uri@, opt_fields(*fields)) is None,
        },
{
    if text::starts_with(wiki_uri, "{") {
        if let Some(f) = fields {
            if let Some(t) = &f.tree {
                if !t.as_str().is_empty() {
                    return Some(t.as_str());
                }
            }
        }
    }
    None
}

/// Where the backups of a wiki go. `fields` is what the stored form of the wiki
/// holds where it is JSON.
pub fn backup_directory_by(
    wiki_uri: &str,
    fields: &Option<UriFields>,
    custom_backup_dir: Option<&str>,
) -> (r: BackupPlace)
    ensures
        r@ == backup_place(
            wiki_uri@,
            opt_fields(*fields),
            match custom_backup_dir {
                Some(d) => Some(d@),
                None => None,
            },
        ),
{
    if let Some(d) = custom_backup_dir {
        return BackupPlace::Custom(d.to_owned());
    }
    if let Some(t) = tree_of(wiki_uri, fields) {
        if let Some(f) = fields {
            return BackupPlace::InTree {
                parent: directory_of_wiki(f, t),
                name: ".backups".to_owned(),
            };
        }
    }
    BackupPlace::Nowhere
}

/// Where the backups of a wiki go.
pub fn get_backup_directory(wiki_uri: &str, custom_backup_dir: Option<&str>) -> (r: BackupPlace)
    ensures
        r@ == backup_place(
            wiki_uri@,
            readable_fields(wiki_uri@),
            match custom_backup_dir {
                Some(d) => Some(d@),
                None => None,
            },
        ),
{
    let fields: Option<UriFields> = try_fields(wiki_uri);
    backup_directory_by(wiki_uri, &fields, custom_backup_dir)
}

// ---------------------------------------------------------------------------
// Attachments
// ---------------------------------------------------------------------------

/// The stored form of the directory in which a wiki's attachments are kept, or
/// that there is no access to it, by what the stored form of the wiki holds
/// where it is JSON.
pub fn attachments_parent_by(wiki_uri: &str, fields: &Option<UriFields>) -> (r: Result<
    String,
    String,
>)
    ensures
        text::result_view(r) == match wiki_tree(wiki_uri@, opt_fields(*fields)) {
            Some(t) => Ok(stored_uri_of(t, t)),
            None => Err(
                "No tree access for wiki - cannot create attachments folder. Re-open wiki via folder picker."@,
            ),
        },
{
    match tree_of(wiki_uri, fields) {
        Some(t) => Ok(stored_uri(t, t)),
        None => Err(
            "No tree access for wiki - cannot create attachments folder. Re-open wiki via folder picker.".to_owned(),
        ),
    }
}

/// The stored form of the directory in which a wiki's attachments are kept, or
/// that there is no access to it.
pub fn attachments_parent(wiki_uri: &str) -> (r: Result<String, String>)
    ensures
        text::result_view(r) == match wiki_tree(wiki_uri@, readable_fields(wiki_uri@)) {
            Some(t) => Ok(stored_uri_of(t, t)),
            None => Err(
                "No tree access for wiki - cannot create attachments folder. Re-open wiki via folder picker."@,
            ),
        },
{
    let fields: Option<UriFields> = try_fields(wiki_uri);
    attachments_parent_by(wiki_uri, &fields)
}

/// A name up to its last dot, and from there on.
pub open spec fn split_extension(name: Seq<char>) -> (Seq<char>, Seq<char>) {
    match text::last_index_of(name, '.') {
        Some(i) => (name.take(i), name.skip(i)),
        None => (name, ""@),
    }
}

/// A name with something put in before its extension.
pub open spec fn marked_name(name: Seq<char>, mark: Seq<char>) -> Seq<char> {
    split_extension(name).0 + "-"@ + mark + split_extension(name).1
}

/// An entry has the name.
pub open spec fn is_taken(entries: Seq<DirEntry>, name: Seq<char>) -> bool {
    entry_index(entries, name, false, 0) is Some
}

/// The first name with a number, from `n` on and below a thousand, that no entry
/// has.
pub open spec fn first_free(entries: Seq<DirEntry>, name: Seq<char>, n: nat) -> Option<Seq<char>>
    decreases 1000 - n,
{
    if n >= 1000 {
        None
    } else if !is_taken(entries, marked_name(name, text::decimal(n))) {
        Some(marked_name(name, text::decimal(n)))
    } else {
        first_free(entries, name, n + 1)
    }
}

/// The name under which an attachment is kept: its own, where it is free or
/// taken by the same content; else the first free one with a number; else one
/// with the time.
pub open spec fn unique_name(
    entries: Seq<DirEntry>,
    name: Seq<char>,
    identical: bool,
    timestamp: Seq<char>,
) -> Seq<char> {
    if !is_taken(entries, name) || identical {
        name
    } else {
        match first_free(entries, name, 1) {
            Some(c) => c,
            None => marked_name(name, timestamp),
        }
    }
}

fn mark_name(name: &str, mark: &str) -> (r: String)
    ensures
        r@ == marked_name(name@, mark@),
{
    let mut out: String;
    match text::rfind_char(name, '.') {
        Some(i) => {
            out = text::concat3(text::take(name, i), "-", mark);
            out.append(text::skip(name, i));
        },
        None => {
            out = text::concat3(name, "-", mark);
            out.append("");
        },
    }
    out
}

/// The name under which an attachment is kept. `identical` says that the entry
/// with its own name holds the same content.
pub fn find_unique_filename(
    entries: &Vec<DirEntry>,
    filename: &str,
    identical: bool,
    timestamp: &str,
) -> (r: String)
    ensures
        r@ == unique_name(entries@, filename@, identical, timestamp@),
{
    if find_entry(entries, filename, false).is_none() || identical {
        return filename.to_owned();
    }
    let mut n: u64 = 1;
    while n < 1000
        invariant
            1 <= n <= 1000,
            is_taken(entries@, filename@) && !identical,
            first_free(entries@, filename@, 1) == first_free(entries@, filename@, n as nat),
        decreases 1000 - n,
    {
        let number: String = text::to_decimal(n);
        let candidate: String = mark_name(filename, number.as_str());
        if find_entry(entries, candidate.as_str(), false).is_none() {
            return candidate;
        }
        n = n + 1;
    }
    mark_name(filename, timestamp)
}

proof fn lemma_first_free(entries: Seq<DirEntry>, name: Seq<char>, n: nat)
    ensures
        match first_free(entries, name, n) {
            Some(c) => !is_taken(entries, c),
            None => true,
        },
    decreases 1000 - n,
{
    if n < 1000 {
        lemma_first_free(entries, name, n + 1);
    }
}

/// An attachment takes no name that other content has, as long as a number below
/// a thousand is free.
pub proof fn law_attachments_overwrite_nothing(
    entries: Seq<DirEntry>,
    name: Seq<char>,
    timestamp: Seq<char>,
)
    requires
        first_free(entries, name, 1) is Some,
    ensures
        !is_taken(entries, unique_name(entries, name, false, timestamp)),
{
    lemma_first_free(entries, name, 1);
}

/// How an attachment is kept.
pub struct AttachmentPlan {
    pub name: String,
    /// The path by which the wiki knows it.
    pub path: String,
    /// It is to be written; else it is there already.
    pub write: bool,
    pub mime: String,
}

/// How an attachment is kept, where the time is given.
pub fn plan_attachment_at(
    entries: &Vec<DirEntry>,
    filename: &str,
    identical: bool,
    timestamp: &str,
) -> (r: AttachmentPlan)
    ensures
        r.name@ == unique_name(entries@, filename@, identical, timestamp@),
        r.path@ == "./attachments/"@ + r.name@,
        r.write == !(is_taken(entries@, filename@) && identical),
        r.mime@ == attachment_mime(r.name@),
{
    let taken: bool = find_entry(entries, filename, false).is_some();
    let name: String = find_unique_filename(entries, filename, identical, timestamp);
    let path: String = text::concat("./attachments/", name.as_str());
    let mime: String = guess_mime_type(name.as_str());
    AttachmentPlan { name, path, write: !(taken && identical), mime }
}

/// What is to be done next in keeping an attachment of a wiki. What is not yet at
/// hand of its content is read from `source`.
pub enum AttachStep {
    /// The directory that is to hold the attachments' is listed.
    ListParent { parent: String, source: Source },
    /// The attachments' directory is created.
    CreateDirectory { request: CreateRequest, source: Source },
    /// The content is read from the URI.
    ReadSource { uri: String, dir: String },
    /// The attachments' directory is listed.
    ListDirectory { dir: String, content: Vec<u8> },
    /// The entry with the attachment's name is read.
    ReadTaken { uri: String, dir: String, entries: Vec<DirEntry>, content: Vec<u8> },
    /// The attachment's file is created.
    Create { request: CreateRequest, content: Vec<u8>, path: String },
    /// The content is written to the URI.
    Write { uri: String, content: Vec<u8>, path: String },
    /// The wiki knows the attachment by the path.
    Done(String),
    Failed(String),
}

/// Where the content of an attachment comes from.
pub enum Source {
    Uri(String),
    Content(Vec<u8>),
}

/// The step goes on once the attachments' directory is there: the content is
/// read, where it is not at hand, and then the directory listed.
pub open spec fn goes_on_in(dir: Seq<char>, source: Source, next: AttachStep) -> bool {
    match source {
        Source::Uri(u) => next matches AttachStep::ReadSource { uri, dir: d } && uri@ == u@ && d@
            == dir,
        Source::Content(c) => next matches AttachStep::ListDirectory { dir: d, content } && d@
            == dir && content@ == c@,
    }
}

/// The step creates the attachment's file under the name that it is kept under,
/// or ends where the same content is there already.
pub open spec fn places(
    dir: Seq<char>,
    entries: Seq<DirEntry>,
    filename: Seq<char>,
    identical: bool,
    content: Seq<u8>,
    timestamp: Seq<char>,
    next: AttachStep,
) -> bool {
    let name = unique_name(entries, filename, identical, timestamp);
    if is_taken(entries, filename) && identical {
        next matches AttachStep::Done(path) && path@ == "./attachments/"@ + filename
    } else {
        next matches AttachStep::Create { request, content: c, path } && request@ == file_in(
            dir,
            name,
        ) && c@ == content && path@ == "./attachments/"@ + name
    }
}

/// The step follows the given one after the answer. A directory that cannot be
/// listed counts as empty, and an entry that cannot be read as other content.
/// One that the answer does not belong to stays.
pub open spec fn attach_follows(
    filename: Seq<char>,
    step: AttachStep,
    reply: StorageReply,
    timestamp: Seq<char>,
    next: AttachStep,
) -> bool {
    match (step, reply) {
        (
            AttachStep::ListParent { parent, source },
            StorageReply::Entries(entries),
        ) => match search_outcome(entries, "attachments"@, true) {
            Err(e) => next matches AttachStep::Failed(f) && f@ == e,
            Ok(Some(dir)) => goes_on_in(dir, source, next),
            Ok(None) => next matches AttachStep::CreateDirectory { request, source: t }
                && request@ == directory_in(parent@, "attachments"@) && t == source,
        },
        (
            AttachStep::CreateDirectory { source, .. },
            StorageReply::Created(Ok(dir)),
        ) => goes_on_in(dir@, source, next),
        (
            AttachStep::CreateDirectory { .. },
            StorageReply::Created(Err(e)),
        ) => next matches AttachStep::Failed(f) && f@ == "Failed to create directory: "@ + e@,
        (
            AttachStep::ReadSource { dir, .. },
            StorageReply::Content(Ok(content)),
        ) => goes_on_in(dir@, Source::Content(content), next),
        (
            AttachStep::ReadSource { .. },
            StorageReply::Content(Err(e)),
        ) => next matches AttachStep::Failed(f) && f@ == e@,
        (
            AttachStep::ListDirectory { dir, content },
            StorageReply::Entries(Ok(entries)),
        ) => match entry_uri(entries@, filename, false) {
            Some(u) => next matches AttachStep::ReadTaken { uri, dir: d, entries: es, content: c }
                && uri@ == u && d@ == dir@ && es@ == entries@ && c@ == content@,
            None => places(dir@, entries@, filename, false, content@, timestamp, next),
        },
        (
            AttachStep::ListDirectory { dir, content },
            StorageReply::Entries(Err(_)),
        ) => places(dir@, Seq::empty(), filename, false, content@, timestamp, next),
        (
            AttachStep::ReadTaken { dir, entries, content, .. },
            StorageReply::Content(taken),
        ) => places(
            dir@,
            entries@,
            filename,
            taken is Ok && taken->Ok_0@ == content@,
            content@,
            timestamp,
            next,
        ),
        (
            AttachStep::Create { content, path, .. },
            StorageReply::Created(Ok(u)),
        ) => next matches AttachStep::Write { uri, content: c, path: p } && uri@ == u@ && c@
            == content@ && p@ == path@,
        (
            AttachStep::Create { .. },
            StorageReply::Created(Err(e)),
        ) => next matches AttachStep::Failed(f) && f@ == "Failed to create file: "@ + e@,
        (
            AttachStep::Write { path, .. },
            StorageReply::Written(Ok(_)),
        ) => next matches AttachStep::Done(p) && p@ == path@,
        (
            AttachStep::Write { .. },
            StorageReply::Written(Err(e)),
        ) => next matches AttachStep::Failed(f) && f@ == e@,
        _ => next == step,
    }
}

fn same_bytes(a: &Vec<u8>, b: &Vec<u8>) -> (r: bool)
    ensures
        r == (a@ == b@),
{
    if a.len() != b.len() {
        return false;
    }
    let mut i: usize = 0;
    while i < a.len()
        invariant
            i <= a.len(),
            a.len() == b.len(),
            forall|k: int| 0 <= k < i ==> a@[k] == b@[k],
        decreases a.len() - i,
    {
        if a[i] != b[i] {
            return false;
        }
        i = i + 1;
    }
    assert(a@ =~= b@);
    true
}

fn go_on_in(dir: String, source: Source) -> (r: AttachStep)
    ensures
        goes_on_in(dir@, source, r),
{
    match source {
        Source::Uri(uri) => AttachStep::ReadSource { uri, dir },
        Source::Content(content) => AttachStep::ListDirectory { dir, content },
    }
}

fn place_attachment(
    dir: String,
    entries: &Vec<DirEntry>,
    filename: &str,
    identical: bool,
    content: Vec<u8>,
    timestamp: &str,
) -> (r: AttachStep)
    ensures
        places(dir@, entries@, filename@, identical, content@, timestamp@, r),
{
    let plan: AttachmentPlan = plan_attachment_at(entries, filename, identical, timestamp);
    if plan.write {
        AttachStep::Create {
            request: create_file(dir.as_str(), plan.name.as_str()),
            content,
            path: plan.path,
        }
    } else {
        AttachStep::Done(plan.path)
    }
}

/// Keeping a copy of a document as an attachment of a wiki begins with listing
/// the directory that is to hold the attachments'; it fails where there is no
/// access to that.
pub fn copy_attachment_to_wiki(wiki_uri: &str, source_uri: &str) -> (r: AttachStep)
    ensures
        match wiki_tree(wiki_uri@, readable_fields(wiki_uri@)) {
            Some(t) => r matches AttachStep::ListParent { parent, source } && parent@
                == stored_uri_of(t, t) && (source matches Source::Uri(u) && u@ == source_uri@),
            None => r matches AttachStep::Failed(e) && e@
                == "No tree access for wiki - cannot create attachments folder. Re-open wiki via folder picker."@,
        },
{
    match attachments_parent(wiki_uri) {
        Ok(parent) => AttachStep::ListParent { parent, source: Source::Uri(source_uri.to_owned()) },
        Err(e) => AttachStep::Failed(e),
    }
}

/// Keeping content as an attachment of a wiki begins in the same way.
pub fn save_attachment_content(wiki_uri: &str, content: Vec<u8>) -> (r: AttachStep)
    ensures
        match wiki_tree(wiki_uri@, readable_fields(wiki_uri@)) {
            Some(t) => r matches AttachStep::ListParent { parent, source } && parent@
                == stored_uri_of(t, t) && (source matches Source::Content(c) && c@ == content@),
            None => r matches AttachStep::Failed(e) && e@
                == "No tree access for wiki - cannot create attachments folder. Re-open wiki via folder picker."@,
        },
{
    match attachments_parent(wiki_uri) {
        Ok(parent) => AttachStep::ListParent { parent, source: Source::Content(content) },
        Err(e) => AttachStep::Failed(e),
    }
}

/// What is to be done next in keeping an attachment, where the time is given.
pub fn attach_next_at(filename: &str, step: AttachStep, reply: StorageReply, timestamp: &str) -> (r:
    AttachStep)
    ensures
        attach_follows(filename@, step, reply, timestamp@, r),
{
    match (step, reply) {
        (
            AttachStep::ListParent { parent, source },
            StorageReply::Entries(entries),
        ) => match find_or_create_subdirectory(parent.as_str(), "attachments", &entries) {
            DirectoryStep::Failed(e) => AttachStep::Failed(e),
            DirectoryStep::Found(dir) => go_on_in(dir, source),
            DirectoryStep::Create(request) => AttachStep::CreateDirectory { request, source },
        },
        (
            AttachStep::CreateDirectory { source, .. },
            StorageReply::Created(Ok(dir)),
        ) => go_on_in(dir, source),
        (
            AttachStep::CreateDirectory { .. },
            StorageReply::Created(Err(e)),
        ) => AttachStep::Failed(text::concat("Failed to create directory: ", e.as_str())),
        (
            AttachStep::ReadSource { dir, .. },
            StorageReply::Content(Ok(content)),
        ) => go_on_in(dir, Source::Content(content)),
        (AttachStep::ReadSource { .. }, StorageReply::Content(Err(e))) => AttachStep::Failed(e),
        (
            AttachStep::ListDirectory { dir, content },
            StorageReply::Entries(Ok(entries)),
        ) => match find_entry(&entries, filename, false) {
            Some(i) => {
                let uri: String = entries[i].uri.clone();
                AttachStep::ReadTaken { uri, dir, entries, content }
            },
            None => place_attachment(dir, &entries, filename, false, content, timestamp),
        },
        (
            AttachStep::ListDirectory { dir, content },
            StorageReply::Entries(Err(_)),
        ) => {
            let none: Vec<DirEntry> = Vec::new();
            place_attachment(dir, &none, filename, false, content, timestamp)
        },
        (
            AttachStep::ReadTaken { dir, entries, content, .. },
            StorageReply::Content(taken),
        ) => {
            let identical: bool = match &taken {
                Ok(t) => same_bytes(t, &content),
                Err(_) => false,
            };
            place_attachment(dir, &entries, filename, identical, content, timestamp)
        },
        (
            AttachStep::Create { content, path, .. },
            StorageReply::Created(Ok(uri)),
        ) => AttachStep::Write { uri, content, path },
        (AttachStep::Create { .. }, StorageReply::Created(Err(e))) => AttachStep::Failed(
            text::concat("Failed to create file: ", e.as_str()),
        ),
        (
            AttachStep::Write { path, .. },
            StorageReply::Written(Ok(_)),
        ) => AttachStep::Done(path),
        (AttachStep::Write { .. }, StorageReply::Written(Err(e))) => AttachStep::Failed(e),
        (step, _) => step,
    }
}

/// What is to be done next in keeping an attachment. The time, for the case that
/// no number is free, is that of now.
pub fn attach_next(filename: &str, step: AttachStep, reply: StorageReply) -> (r: AttachStep)
    ensures
        exists|timestamp: Seq<char>| #[trigger]
            attach_follows(filename@, step, reply, timestamp, r) && outside::is_time(timestamp),
{
    let timestamp: String = outside::local_time("%Y%m%d%H%M%S");
    attach_next_at(filename, step, reply, timestamp.as_str())
}

/// The MIME type for a file extension in lower case, of those that attachments
/// have.
pub open spec fn attachment_mime_for(ext: Seq<char>) -> Seq<char> {
    if ext == "png"@ {
        "image/png"@
    } else if ext == "jpg"@ || ext == "jpeg"@ {
        "image/jpeg"@
    } else if ext == "gif"@ {
        "image/gif"@
    } else if ext == "webp"@ {
        "image/webp"@
    } else if ext == "svg"@ {
        "image/svg+xml"@
    } else if ext == "bmp"@ {
        "image/bmp"@
    } else if ext == "ico"@ {
        "image/x-icon"@
    } else if ext == "pdf"@ {
        "application/pdf"@
    } else if ext == "mp3"@ {
        "audio/mpeg"@
    } else if ext == "wav"@ {
        "audio/wav"@
    } else if ext == "ogg"@ {
        "audio/ogg"@
    } else if ext == "mp4"@ {
        "video/mp4"@
    } else if ext == "webm"@ {
        "video/webm"@
    } else if ext == "txt"@ {
        "text/plain"@
    } else if ext == "json"@ {
        "application/json"@
    } else if ext == "xml"@ {
        "application/xml"@
    } else if ext == "html"@ || ext == "htm"@ {
        "text/html"@
    } else if ext == "css"@ {
        "text/css"@
    } else if ext == "js"@ {
        "application/javascript"@
    } else {
        "application/octet-stream"@
    }
}

/// The MIME type of an attachment, by its name.
pub open spec fn attachment_mime(name: Seq<char>) -> Seq<char> {
    attachment_mime_for(outside::lowercase(mime::after_last(name, '.')))
}

/// The MIME type for a file extension in lower case, of those that attachments
/// have.
pub fn mime_for_attachment(ext: &str) -> (r: &'static str)
    ensures
        r@ == attachment_mime_for(ext@),
{
    if text::same(ext, "png") {
        "image/png"
    } else if text::same(ext, "jpg") || text::same(ext, "jpeg") {
        "image/jpeg"
    } else if text::same(ext, "gif") {
        "image/gif"
    } else if text::same(ext, "webp") {
        "image/webp"
    } else if text::same(ext, "svg") {
        "image/svg+xml"
    } else if text::same(ext, "bmp") {
        "image/bmp"
    } else if text::same(ext, "ico") {
        "image/x-icon"
    } else if text::same(ext, "pdf") {
        "application/pdf"
    } else if text::same(ext, "mp3") {
        "audio/mpeg"
    } else if text::same(ext, "wav") {
        "audio/wav"
    } else if text::same(ext, "ogg") {
        "audio/ogg"
    } else if text::same(ext, "mp4") {
        "video/mp4"
    } else if text::same(ext, "webm") {
        "video/webm"
    } else if text::same(ext, "txt") {
        "text/plain"
    } else if text::same(ext, "json") {
        "application/json"
    } else if text::same(ext, "xml") {
        "application/xml"
    } else if text::same(ext, "html") || text::same(ext, "htm") {
        "text/html"
    } else if text::same(ext, "css") {
        "text/css"
    } else if text::same(ext, "js") {
        "application/javascript"
    } else {
        "application/octet-stream"
    }
}

/// The MIME type of an attachment, by its name.
pub fn guess_mime_type(filename: &str) -> (r: String)
    ensures
        r@ == attachment_mime(filename@),
{
    let ext: String = outside::to_lowercase(mime::part_after_last(filename, '.'));
    mime_for_attachment(ext.as_str()).to_owned()
}

// ---------------------------------------------------------------------------
// What the storage is asked for
// ---------------------------------------------------------------------------

/// The entry has the name and, with `dirs`, is a directory.
pub open spec fn is_sought(e: DirEntry, name: Seq<char>, dirs: bool) -> bool {
    e.name@ == name && (dirs ==> e.is_dir)
}

proof fn lemma_entry_index(entries: Seq<DirEntry>, name: Seq<char>, dirs: bool, from: int)
    requires
        0 <= from,
    ensures
        match entry_index(entries, name, dirs, from) {
            Some(i) => from <= i < entries.len() && is_sought(entries[i], name, dirs) && forall|
                j: int,
            |
                from <= j < i ==> !is_sought(#[trigger] entries[j], name, dirs),
            None => forall|j: int|
                from <= j < entries.len() ==> !is_sought(#[trigger] entries[j], name, dirs),
        },
    decreases entries.len() - from,
{
    if from < entries.len() && !is_sought(entries[from], name, dirs) {
        lemma_entry_index(entries, name, dirs, from + 1);
    }
}

/// An entry is found by its name: the first that has it and, where a directory is
/// sought, is one. Nothing is found exactly where there is none.
pub proof fn law_first_entry_is_found(entries: Seq<DirEntry>, name: Seq<char>, dirs: bool, i: int)
    requires
        0 <= i < entries.len(),
        entries[i].name@ == name,
        dirs ==> entries[i].is_dir,
        forall|j: int| 0 <= j < i ==> !is_sought(#[trigger] entries[j], name, dirs),
    ensures
        entry_uri(entries, name, dirs) == Some(entries[i].uri@),
        entry_uri(entries.take(i), name, dirs) is None,
{
    lemma_entry_index(entries, name, dirs, 0);
    assert(is_sought(entries[i], name, dirs));
    match entry_index(entries, name, dirs, 0) {
        Some(k) => {
            assert(is_sought(entries[k], name, dirs));
        },
        None => {},
    }
    lemma_entry_index(entries.take(i), name, dirs, 0);
    if let Some(k) = entry_index(entries.take(i), name, dirs, 0) {
        assert(entries.take(i)[k] == entries[k]);
    }
}

proof fn lemma_found_at(s: Seq<char>, pat: Seq<char>, from: int, i: int)
    requires
        0 <= from <= i,
        text::occurs_at(s, pat, i),
        forall|k: int| from <= k < i ==> !#[trigger] text::occurs_at(s, pat, k),
    ensures
        text::index_of_sub(s, pat, from) == Some(i),
    decreases i - from,
{
    text::lemma_index_of_sub(s, pat, from);
    if from < i {
        lemma_found_at(s, pat, from + 1, i);
    }
}

proof fn lemma_doc_path(root: Seq<char>, path: Seq<char>)
    requires
        forall|k: int|
            0 <= k < root.len() ==> !#[trigger] text::occurs_at(
                root + "/document/"@ + path,
                "/document/"@,
                k,
            ),
    ensures
        doc_path(root + "/document/"@ + path) == Some(path),
        before_document(root + "/document/"@ + path) == root,
{
    reveal_strlit("/document/");
    let d = "/document/"@;
    let uri = root + d + path;
    let n = root.len() as int;
    assert(uri.subrange(n, n + d.len()) =~= d);
    lemma_found_at(uri, d, 0, n);
    assert(uri.skip(n + 10) =~= path);
    assert(uri.take(n) =~= root);
}

proof fn lemma_last_separator(s: Seq<char>, i: int, end: int)
    requires
        0 <= i < end <= s.len(),
        separator_at(s, i),
        forall|k: int| i < k < end ==> !#[trigger] separator_at(s, k),
    ensures
        last_separator(s, end) == Some(i),
    decreases end - i,
{
    if i < end - 1 {
        assert(!separator_at(s, end - 1));
        lemma_last_separator(s, i, end - 1);
    }
}

/// The parent of a document is what its encoded path is without its last part, in
/// the same tree: the wiki beside `name` in `folder` has `folder` for its parent.
pub proof fn law_parent_is_the_folder(root: Seq<char>, folder: Seq<char>, name: Seq<char>)
    requires
        "content://"@.is_prefix_of(root),
        !name.contains('%'),
        forall|k: int|
            0 <= k < root.len() ==> !#[trigger] text::occurs_at(
                root + "/document/"@ + (folder + "%2F"@ + name),
                "/document/"@,
                k,
            ),
    ensures
        parent_uri(root + "/document/"@ + (folder + "%2F"@ + name), None) == Some(
            parent_under(root, folder),
        ),
{
    reveal_strlit("/document/");
    reveal_strlit("%2F");
    let path = folder + "%2F"@ + name;
    let uri = root + "/document/"@ + path;
    lemma_doc_path(root, path);
    let n = folder.len() as int;
    assert(path[n] == '%' && path[n + 1] == '2' && path[n + 2] == 'F');
    assert forall|k: int| n < k < path.len() implies !#[trigger] separator_at(path, k) by {
        if separator_at(path, k) && k >= n + 3 {
            assert(path[k] == name[k - n - 3]);
            assert(name.contains('%'));
        }
    }
    lemma_last_separator(path, n, path.len() as int);
    assert(path.take(n) =~= folder);
    let c = "content://"@;
    assert(c.is_prefix_of(uri)) by {
        assert forall|i: int| 0 <= i < c.len() implies uri[i] == c[i] by {
            assert(root.subrange(0, c.len() as int)[i] == c[i]);
        }
        assert(uri.subrange(0, c.len() as int) =~= c);
    }
}

/// Where access was granted to a tree, the parent of a document lies in that tree;
/// else it lies where the document does.
pub proof fn law_parent_lies_in_the_granted_tree(f: FieldsView, path: Seq<char>)
    requires
        f.uri is Some,
        doc_parent(f.uri->0) == Some(path),
    ensures
        f.tree is Some && f.tree->0.len() > 0 && f.tree->0 != "null"@ && text::has_sub(
            f.tree->0,
            "/tree/"@,
        ) ==> parent_by_fields(f) == Some(parent_under(before_document(f.tree->0), path)),
        f.tree is None ==> parent_by_fields(f) == Some(
            parent_under(before_document(f.uri->0), path),
        ),
{
}

proof fn lemma_nothing_to_tidy(s: Seq<char>)
    requires
        !s.contains('%'),
    ensures
        tidied(s) == s,
{
    reveal_strlit("%2F");
    reveal_strlit("%20");
    lemma_no_escape(s, "%2F"@);
    lemma_no_escape(s, "%20"@);
}

proof fn lemma_no_escape(s: Seq<char>, pat: Seq<char>)
    requires
        !s.contains('%'),
        pat.len() > 0,
        pat[0] == '%',
    ensures
        !text::has_sub(s, pat),
        text::index_of_sub(s, pat, 0) is None,
{
    text::lemma_index_of_sub(s, pat, 0);
    text::lemma_has_sub(s, pat);
    if let Some(i) = text::index_of_sub(s, pat, 0) {
        assert(s.subrange(i, i + pat.len())[0] == pat[0]);
        assert(s[i] == '%');
    }
}

/// What is shown of a document is its path on its volume: what follows the colon
/// in its part of the URI.
pub proof fn law_document_shows_its_path(root: Seq<char>, volume: Seq<char>, path: Seq<char>)
    requires
        forall|k: int|
            0 <= k < root.len() ==> !#[trigger] text::occurs_at(
                root + "/document/"@ + (volume.push(':') + path),
                "/document/"@,
                k,
            ),
        !volume.contains(':'),
        !path.contains('%'),
        path.len() > 0,
        !all_digits(path),
    ensures
        document_part(root + "/document/"@ + (volume.push(':') + path)) == Some(path),
{
    let d = volume.push(':') + path;
    lemma_doc_path(root, d);
    let n = volume.len() as int;
    assert forall|k: int| 0 <= k < n implies d[k] != ':' by {
        assert(d[k] == volume[k]);
    }
    assert(d[n] == ':');
    lemma_first_colon(d, 0, n);
    assert(d.skip(n + 1) =~= path);
    lemma_nothing_to_tidy(path);
}

proof fn lemma_first_colon(s: Seq<char>, from: int, i: int)
    requires
        0 <= from <= i < s.len(),
        s[i] == ':',
        forall|j: int| from <= j < i ==> s[j] != ':',
    ensures
        text::index_of(s, ':', from) == Some(i),
    decreases i - from,
{
    if from < i {
        lemma_first_colon(s, from + 1, i);
    }
}

proof fn lemma_digits_read(n: nat)
    ensures
        digits_value(text::decimal(n)) == n,
        all_digits(text::decimal(n)),
        text::decimal(n).len() > 0,
        text::decimal(n)[0] != '-',
        text::decimal(n)[0] != '+',
    decreases n,
{
    reveal_with_fuel(digits_value, 2);
    let s = text::decimal(n);
    if n < 10 {
        let d = text::digit(n as int);
        assert(d as int == n + 48);
        assert(s.drop_last() =~= Seq::empty());
        assert(s.last() == d);
    } else {
        lemma_digits_read(n / 10);
        let d = text::digit((n % 10) as int);
        assert(d as int == n % 10 + 48);
        assert(s.drop_last() =~= text::decimal(n / 10));
        assert(s.last() == d);
        assert forall|i: int| 0 <= i < s.len() implies '0' <= #[trigger] s[i] <= '9' by {
            if i < s.len() - 1 {
                assert(s[i] == text::decimal(n / 10)[i]);
            }
        }
        assert(s[0] == text::decimal(n / 10)[0]);
    }
}

/// Every number of the media store is read as it is written, whatever its sign;
/// so the number in a document's URI leads to the document of that number.
pub proof fn law_numbers_are_read(n: i64)
    ensures
        parsed_i64(integer(n as int)) == Some(n as int),
{
    let m = n as int;
    if m < 0 {
        lemma_digits_read((-m) as nat);
        let s = integer(m);
        assert(s[0] == '-');
        assert(s.skip(1) =~= text::decimal((-m) as nat));
    } else {
        lemma_digits_read(m as nat);
    }
}

/// A path is shown without the place where the shared storage is mounted,
/// whichever of its names that has; any other path is shown as it is.
pub proof fn law_mounts_are_not_shown(rest: Seq<char>)
    ensures
        without_mount("/storage/emulated/0/"@ + rest) == rest,
        without_mount("/storage/self/primary/"@ + rest) == rest,
        without_mount("/sdcard/"@ + rest) == rest,
        !"/storage/emulated/0/"@.is_prefix_of(rest) && !"/storage/self/primary/"@.is_prefix_of(rest)
            && !"/sdcard/"@.is_prefix_of(rest) ==> without_mount(rest) == rest,
{
    reveal_strlit("/storage/emulated/0/");
    reveal_strlit("/storage/self/primary/");
    reveal_strlit("/sdcard/");
    let a = "/storage/emulated/0/"@ + rest;
    let b = "/storage/self/primary/"@ + rest;
    let c = "/sdcard/"@ + rest;
    assert(a.subrange(0, 20) =~= "/storage/emulated/0/"@);
    assert(b.subrange(0, 22) =~= "/storage/self/primary/"@);
    assert(c.subrange(0, 8) =~= "/sdcard/"@);
    assert(a.skip(20) =~= rest);
    assert(b.skip(22) =~= rest);
    assert(c.skip(8) =~= rest);
    if "/storage/emulated/0/"@.is_prefix_of(b) {
        assert(b.subrange(0, 20)[9] == 'e');
    }
    if "/storage/emulated/0/"@.is_prefix_of(c) {
        assert(c.subrange(0, 20)[2] == 't');
    }
    if "/storage/self/primary/"@.is_prefix_of(c) {
        assert(c.subrange(0, 22)[2] == 't');
    }
}

proof fn lemma_place_for(sorted: Seq<Backup>, name: Seq<char>, from: int)
    requires
        0 <= from <= sorted.len(),
    ensures
        from <= place_for(sorted, name, from) <= sorted.len(),
    decreases sorted.len() - from,
{
    if from < sorted.len() && not_after(name, sorted[from].name) {
        lemma_place_for(sorted, name, from + 1);
    }
}

/// The backup of an entry.
pub open spec fn backup_entry(e: DirEntry) -> Backup {
    Backup { name: e.name@, uri: e.uri@ }
}

/// How many of the entries are backups of the wiki.
pub open spec fn backup_count(entries: Seq<DirEntry>, stem: Seq<char>) -> nat
    decreases entries.len(),
{
    if entries.len() == 0 {
        0
    } else {
        backup_count(entries.drop_last(), stem) + if is_backup(entries.last(), stem) {
            1nat
        } else {
            0
        }
    }
}

/// Every backup of the wiki is known, each once, and nothing else is taken for
/// one.
pub proof fn law_all_backups_are_known(entries: Seq<DirEntry>, stem: Seq<char>)
    ensures
        backups_of(entries, stem).len() == backup_count(entries, stem),
        forall|i: int|
            0 <= i < entries.len() && is_backup(#[trigger] entries[i], stem) ==> backups_of(
                entries,
                stem,
            ).contains(backup_entry(entries[i])),
        forall|k: int|
            0 <= k < backups_of(entries, stem).len() ==> exists|i: int|
                0 <= i < entries.len() && is_backup(#[trigger] entries[i], stem)
                    && #[trigger] backups_of(entries, stem)[k] == backup_entry(entries[i]),
    decreases entries.len(),
{
    if entries.len() > 0 {
        let front = entries.drop_last();
        law_all_backups_are_known(front, stem);
        let before = backups_of(front, stem);
        let all = backups_of(entries, stem);
        let e = entries.last();
        let n = entries.len() as int - 1;
        assert(entries[n] == e);
        if is_backup(e, stem) {
            let p = place_for(before, e.name@, 0);
            lemma_place_for(before, e.name@, 0);
            assert(all == before.insert(p, backup_entry(e)));
            assert(all[p] == backup_entry(e));
            assert forall|i: int|
                0 <= i < entries.len() && is_backup(#[trigger] entries[i], stem) implies all.contains(
                backup_entry(entries[i]),
            ) by {
                if i < n {
                    assert(front[i] == entries[i]);
                    let k = choose|k: int|
                        0 <= k < before.len() && before[k] == backup_entry(front[i]);
                    if k < p {
                        assert(all[k] == before[k]);
                    } else {
                        assert(all[k + 1] == before[k]);
                    }
                }
            }
            assert forall|k: int| 0 <= k < all.len() implies exists|i: int|
                0 <= i < entries.len() && is_backup(#[trigger] entries[i], stem)
                    && #[trigger] all[k] == backup_entry(entries[i]) by {
                if k == p {
                    assert(is_backup(entries[n], stem) && all[k] == backup_entry(entries[n]));
                } else {
                    let j = if k < p {
                        k
                    } else {
                        k - 1
                    };
                    assert(all[k] == before[j]);
                    let i = choose|i: int|
                        0 <= i < front.len() && is_backup(#[trigger] front[i], stem)
                            && #[trigger] before[j] == backup_entry(front[i]);
                    assert(entries[i] == front[i]);
                }
            }
        } else {
            assert forall|i: int|
                0 <= i < entries.len() && is_backup(#[trigger] entries[i], stem) implies all.contains(
                backup_entry(entries[i]),
            ) by {
                assert(front[i] == entries[i]);
            }
            assert forall|k: int| 0 <= k < all.len() implies exists|i: int|
                0 <= i < entries.len() && is_backup(#[trigger] entries[i], stem)
                    && #[trigger] all[k] == backup_entry(entries[i]) by {
                let i = choose|i: int|
                    0 <= i < front.len() && is_backup(#[trigger] front[i], stem)
                        && #[trigger] before[k] == backup_entry(front[i]);
                assert(entries[i] == front[i]);
            }
        }
    }
}

/// Backups go where the user chose, whatever the wiki; else to the directory
/// `.backups` in the one that holds the wiki, in the tree to which access was
/// granted; without access, nowhere.
pub proof fn law_backups_stay_with_the_wiki(
    wiki_uri: Seq<char>,
    f: FieldsView,
    custom: Seq<char>,
    path: Seq<char>,
)
    ensures
        backup_place(wiki_uri, Some(f), Some(custom)) == BackupPlaceView::Custom(custom),
        backup_place(wiki_uri, None, None) == BackupPlaceView::Nowhere,
        f.tree is None ==> backup_place(wiki_uri, Some(f), None) == BackupPlaceView::Nowhere,
        f.tree is Some && f.tree->0.len() > 0 && f.tree->0 != "null"@ && text::has_sub(
            f.tree->0,
            "/tree/"@,
        ) && f.uri is Some && doc_parent(f.uri->0) == Some(path) && "{"@.is_prefix_of(wiki_uri)
            ==> backup_place(wiki_uri, Some(f), None) == BackupPlaceView::InTree(
            parent_under(before_document(f.tree->0), path),
            ".backups"@,
        ),
{
}

proof fn lemma_first_free_is_least(entries: Seq<DirEntry>, name: Seq<char>, n: nat, m: nat)
    requires
        n <= m < 1000,
        !is_taken(entries, marked_name(name, text::decimal(m))),
        forall|k: nat| n <= k < m ==> is_taken(entries, #[trigger] marked_name(name, text::decimal(k))),
    ensures
        first_free(entries, name, n) == Some(marked_name(name, text::decimal(m))),
    decreases m - n,
{
    if n < m {
        assert(is_taken(entries, marked_name(name, text::decimal(n))));
        lemma_first_free_is_least(entries, name, n + 1, m);
    }
}

/// An attachment keeps its name where that is free, or holds the same content
/// already; else it gets the least number, from one on, whose name is free.
pub proof fn law_attachments_keep_their_names(
    entries: Seq<DirEntry>,
    name: Seq<char>,
    timestamp: Seq<char>,
    m: nat,
)
    requires
        1 <= m < 1000,
        !is_taken(entries, marked_name(name, text::decimal(m))),
        forall|k: nat| 1 <= k < m ==> is_taken(entries, #[trigger] marked_name(name, text::decimal(k))),
    ensures
        unique_name(entries, name, true, timestamp) == name,
        !is_taken(entries, name) ==> unique_name(entries, name, false, timestamp) == name,
        is_taken(entries, name) ==> unique_name(entries, name, false, timestamp) == marked_name(
            name,
            text::decimal(m),
        ),
{
    lemma_first_free_is_least(entries, name, 1, m);
}

/// The mark of a name goes before its extension, which is what its last dot
/// begins; a name without a dot gets it at the end.
pub proof fn law_marks_go_before_the_extension(stem: Seq<char>, ext: Seq<char>, mark: Seq<char>)
    requires
        !ext.contains('.'),
    ensures
        marked_name(stem.push('.') + ext, mark) == stem + "-"@ + mark + (seq!['.'] + ext),
        marked_name(ext, mark) == ext + "-"@ + mark,
{
    reveal_strlit("");
    let name = stem.push('.') + ext;
    let n = stem.len() as int;
    text::lemma_last_index_of(name, '.');
    assert(name[n] == '.');
    match text::last_index_of(name, '.') {
        Some(i) => {
            if i > n {
                assert(name[i] == ext[i - n - 1]);
            }
        },
        None => {},
    }
    assert(name.take(n) =~= stem);
    assert(name.skip(n) =~= seq!['.'] + ext);
    text::lemma_last_index_of(ext, '.');
    assert(ext + "-"@ + mark + ""@ =~= ext + "-"@ + mark);
}

/// The types of attachments are those of files: where an attachment's extension
/// has a type of its own, it is the type under which such a file is served.
pub proof fn law_attachments_have_the_types_of_files(ext: Seq<char>)
    ensures
        attachment_mime_for(ext) == mime::mime_for(ext) || attachment_mime_for(ext)
            == "application/octet-stream"@,
        attachment_mime_for("png"@) == mime::mime_for("png"@),
        attachment_mime_for("jpg"@) == mime::mime_for("jpg"@),
        attachment_mime_for("jpeg"@) == mime::mime_for("jpeg"@),
        attachment_mime_for("gif"@) == mime::mime_for("gif"@),
        attachment_mime_for("webp"@) == mime::mime_for("webp"@),
        attachment_mime_for("svg"@) == mime::mime_for("svg"@),
        attachment_mime_for("bmp"@) == mime::mime_for("bmp"@),
        attachment_mime_for("ico"@) == mime::mime_for("ico"@),
        attachment_mime_for("pdf"@) == mime::mime_for("pdf"@),
        attachment_mime_for("mp3"@) == mime::mime_for("mp3"@),
        attachment_mime_for("wav"@) == mime::mime_for("wav"@),
        attachment_mime_for("ogg"@) == mime::mime_for("ogg"@),
        attachment_mime_for("mp4"@) == mime::mime_for("mp4"@),
        attachment_mime_for("webm"@) == mime::mime_for("webm"@),
        attachment_mime_for("txt"@) == mime::mime_for("txt"@),
        attachment_mime_for("json"@) == mime::mime_for("json"@),
        attachment_mime_for("xml"@) == mime::mime_for("xml"@),
        attachment_mime_for("html"@) == mime::mime_for("html"@),
        attachment_mime_for("htm"@) == mime::mime_for("htm"@),
        attachment_mime_for("css"@) == mime::mime_for("css"@),
        attachment_mime_for("js"@) == mime::mime_for("js"@),
{
    mime::lemma_weights();
}

/// What was read of an attachment's source is what is written to its file, in the
/// directory of attachments, under the name by which the wiki knows it.
pub proof fn law_attachments_hold_what_was_read(
    filename: Seq<char>,
    steps: Seq<AttachStep>,
    content: Vec<u8>,
    entries: Vec<DirEntry>,
    uri: String,
    timestamp: Seq<char>,
)
    requires
        steps.len() == 5,
        steps[0] is ReadSource,
        entry_uri(entries@, filename, false) is None,
        attach_follows(
            filename,
            steps[0],
            StorageReply::Content(Ok(content)),
            timestamp,
            steps[1],
        ),
        attach_follows(
            filename,
            steps[1],
            StorageReply::Entries(Ok(entries)),
            timestamp,
            steps[2],
        ),
        attach_follows(filename, steps[2], StorageReply::Created(Ok(uri)), timestamp, steps[3]),
        attach_follows(filename, steps[3], StorageReply::Written(Ok(())), timestamp, steps[4]),
    ensures
        steps[2] matches AttachStep::Create { request, .. } && request@ == file_in(
            steps[0]->ReadSource_dir@,
            filename,
        ),
        steps[3] matches AttachStep::Write { uri: u, content: c, .. } && u@ == uri@ && c@
            == content@,
        steps[4] matches AttachStep::Done(path) && path@ == "./attachments/"@ + filename,
{
}

/// A tree is always a directory; what is not there is none; what has a type of its
/// own is a directory exactly if that is the type of directories.
pub proof fn law_types_tell_directories(uri: Seq<char>, fields: Option<FieldsView>, k: KindFacts)
    ensures
        text::has_sub(raw_uri(uri, fields), "/tree/"@) ==> is_directory_uri(uri, fields, k),
        !text::has_sub(raw_uri(uri, fields), "/tree/"@) && !k.reachable ==> !is_directory_uri(
            uri,
            fields,
            k,
        ),
        !text::has_sub(raw_uri(uri, fields), "/tree/"@) && k.reachable && k.mime is Some
            && k.mime->0@.len() > 0 && k.mime->0@ != "application/octet-stream"@ ==> (
        is_directory_uri(uri, fields, k) <==> k.mime->0@ == "vnd.android.document/directory"@),
        !text::has_sub(raw_uri(uri, fields), "/tree/"@) && k.reachable && k.mime is None ==> (
        is_directory_uri(uri, fields, k) <==> !k.opens && k.lists),
        !is_json_uri(uri) ==> raw_uri(uri, fields) == uri,
{
}

/// A tree is viewed as the document of the same name; a URI of a document is
/// viewed as it is.
pub proof fn law_trees_are_viewed_as_documents(root: Seq<char>, name: Seq<char>)
    requires
        forall|k: int|
            0 <= k < root.len() ==> !#[trigger] text::occurs_at(
                root + "/tree/"@ + name,
                "/tree/"@,
                k,
            ),
    ensures
        !text::has_sub(root + "/tree/"@ + name, "/document/"@) ==> viewable(root + "/tree/"@ + name)
            == root + "/document/"@ + name,
        text::has_sub(root, "/document/"@) ==> viewable(root) == root,
{
    reveal_strlit("/tree/");
    let t = "/tree/"@;
    let uri = root + t + name;
    let n = root.len() as int;
    assert(uri.subrange(n, n + t.len()) =~= t);
    assert(text::occurs_at(uri, t, n));
    lemma_found_at(uri, t, 0, n);
    text::lemma_has_sub(uri, t);
    assert(uri.take(n) =~= root);
    assert(uri.skip(n + 6) =~= name);
}

} // verus!
