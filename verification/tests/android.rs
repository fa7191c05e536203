use tiddlydesktop::multicast::{LockStep, MulticastLock};
use tiddlydesktop::node_bridge;
use tiddlydesktop::node_bridge::{
    FileTimes, Found, Link, LocalCopy, OuterFacts, OuterLink, PluginEntry, PluginList, StartEvent,
    StartStep, Step, SyncWatcher, Walk,
};
use tiddlydesktop::saf;
use tiddlydesktop::saf::{
    AttachStep, BackupPlace, CopyStep, DirEntry, DirectoryStep, FilePlace, KindFacts, MediaRow, Source,
    StorageReply, UriFields,
};
use tiddlydesktop::table::{StringMap, Table};
use tiddlydesktop::wiki_activity;
use tiddlydesktop::wiki_activity::{Extra, Launch, Rgb};

fn some(s: &str) -> Option<String> {
    Some(s.to_string())
}

fn owned(items: &[&str]) -> Vec<String> {
    items.iter().map(|s| s.to_string()).collect()
}

fn fields(uri: &str, tree: Option<&str>) -> Option<UriFields> {
    Some(UriFields { uri: some(uri), tree: tree.map(|t| t.to_string()) })
}

fn json(uri: &str, tree: &str) -> String {
    format!("{{\"uri\":\"{}\",\"documentTopTreeUri\":\"{}\"}}", uri, tree)
}

fn file(name: &str) -> DirEntry {
    DirEntry { name: name.to_string(), uri: format!("uri:{}", name), is_dir: false, size: 1 }
}

fn dir(name: &str) -> DirEntry {
    DirEntry { name: name.to_string(), uri: format!("dir:{}", name), is_dir: true, size: 0 }
}

const DOC: &str = "content://auth/tree/primary%3AWikis/document/primary%3AWikis%2Fa.html";

#[test]
fn uris_are_stored_as_json() {
    assert_eq!(
        saf::parse_uri("content://x"),
        "{\"uri\":\"content://x\",\"documentTopTreeUri\":null}"
    );
    assert_eq!(saf::parse_uri(" {\"uri\":\"x\"}"), " {\"uri\":\"x\"}");
    assert_eq!(saf::unreadable_uri("{", "bad"), "Failed to parse FileUri JSON: bad");
    assert_eq!(saf::unreadable_uri("x", "bad"), "Failed to create FileUri from URI: bad");
}

#[test]
fn parents_are_found() {
    let stored = json(DOC, "content://auth/tree/primary%3AWikis");
    assert_eq!(
        saf::get_parent_uri(&stored, Some(&stored)),
        Ok(json(
            "content://auth/tree/primary%3AWikis/document/primary%3AWikis",
            "content://auth/tree/primary%3AWikis"
        ))
    );
    assert!(saf::get_parent_uri(&stored, None).is_err());
    assert_eq!(
        saf::get_parent_uri("content://auth/document/a%2fb%2Fc", None),
        Ok(json("content://auth/document/a%2fb", "content://auth"))
    );
    assert_eq!(
        saf::get_parent_uri("content://auth/document/abc", None),
        Err("Cannot determine parent URI".to_string())
    );
    assert_eq!(
        saf::parent_uri_by("{}", &fields("content://auth/document/a%2Fb", Some("null"))),
        Ok(json("content://auth/document/a", "content://auth"))
    );
}

#[test]
fn stored_uris_are_read_again() {
    let odd = "a \"quoted\" \\ \u{1} é";
    let picked = saf::pick_wiki_file_with_folder_access(Ok(some(odd)), Ok(some("t\n"))).unwrap().unwrap();
    let read = saf::read_fields(&picked).ok().unwrap();
    assert_eq!((read.uri, read.tree), (some(odd), some("t\n")));
    let picked = saf::save_wiki_file(Ok(some(odd)), Ok(None)).unwrap().unwrap();
    let read = saf::read_fields(&picked).ok().unwrap();
    assert_eq!((read.uri, read.tree), (some(odd), None));
    let read = saf::read_fields(&saf::parse_uri("content://x")).ok().unwrap();
    assert_eq!((read.uri, read.tree), (some("content://x"), None));
    let parent = saf::get_parent_uri("content://auth/document/a%2Fb", None).unwrap();
    let read = saf::read_fields(&parent).ok().unwrap();
    assert_eq!((read.uri, read.tree), (some("content://auth/document/a"), some("content://auth")));
    assert!(saf::read_fields("content://x").is_err());
    let read = saf::read_fields("{\"uri\":1}").ok().unwrap();
    assert_eq!((read.uri, read.tree), (None, None));
}

#[test]
fn paths_of_uris_are_shown() {
    assert_eq!(saf::extract_path_from_saf_uri(DOC), some("Wikis/a.html"));
    assert_eq!(
        saf::extract_path_from_saf_uri("content://auth/tree/primary%3ADocs%20x"),
        some("Docs x")
    );
    assert_eq!(saf::extract_path_from_saf_uri("content://auth/document/msf%3A123"), None);
    assert_eq!(
        saf::extract_path_from_saf_uri("content://com.android.providers.downloads.documents/document/12"),
        some("Downloads")
    );
    assert_eq!(saf::extract_path_from_saf_uri("content://media/external/images/media/1"), some("Pictures"));
    assert_eq!(saf::extract_path_from_saf_uri("content://media/external/video/media/1"), some("Videos"));
    assert_eq!(saf::extract_path_from_saf_uri("content://media/external/audio/media/1"), some("Music"));
    assert_eq!(saf::extract_path_from_saf_uri("content://x/%FF"), None);
    assert_eq!(saf::path_of_decoded("x/document/a:b%2Fc"), some("b/c"));
}

#[test]
fn numbers_are_parsed_as_std_does() {
    for s in ["", "+", "-", "0", "-0", "+7", "007", "12a", "9223372036854775807", "9223372036854775808",
        "-9223372036854775808", "-9223372036854775809", "99999999999999999999999", " 1", "--1"] {
        assert_eq!(saf::parse_i64(s), s.parse::<i64>().ok(), "{:?}", s);
    }
    assert_eq!(saf::media_id("x/document/msf:42"), Some(42));
    assert_eq!(saf::media_id("x/document/document:-3"), Some(-3));
    assert_eq!(saf::media_id("x/document/document%3a5"), Some(5));
    assert_eq!(saf::media_id("x/document/77"), Some(77));
    assert_eq!(saf::media_id("x/document/"), None);
    assert_eq!(saf::media_id("x/document/raw:/a"), None);
    assert_eq!(
        saf::media_uri("content://a/document/msf%3A042"),
        some("content://media/external/file/42")
    );
    assert_eq!(
        saf::media_uri("content://a/document/msf:-9223372036854775808"),
        some("content://media/external/file/-9223372036854775808")
    );
}

const MEDIA: &str = "content://a/document/msf%3A7";

#[test]
fn tables_of_the_system_are_asked() {
    let row = |data: Option<&str>, path: Option<&str>, name: Option<&str>| {
        Some(MediaRow {
            data: data.map(|s| s.to_string()),
            relative_path: path.map(|s| s.to_string()),
            display_name: name.map(|s| s.to_string()),
        })
    };
    assert_eq!(
        saf::query_data_column(MEDIA, &row(Some("/storage/emulated/0/a/b"), None, None), &None),
        Ok("a/b".to_string())
    );
    assert_eq!(
        saf::query_data_column(MEDIA, &row(Some(""), Some("Download/"), Some("x.html")), &None),
        Ok("Download/x.html".to_string())
    );
    assert_eq!(
        saf::query_data_column(MEDIA, &row(None, Some("Download/"), Some("")), &None),
        Ok("Download".to_string())
    );
    assert_eq!(
        saf::query_data_column(MEDIA, &row(None, Some("Download/"), None), &None),
        Ok("Download/".to_string())
    );
    assert_eq!(saf::query_data_column(MEDIA, &None, &some("/sdcard/x")), Ok("x".to_string()));
    assert_eq!(
        saf::query_data_column(MEDIA, &row(Some("/sdcard/m"), None, None), &some("/sdcard/x")),
        Ok("x".to_string())
    );
    assert_eq!(
        saf::query_data_column(MEDIA, &row(None, None, None), &some("")),
        Err("_data not available from any URI".to_string())
    );
    assert_eq!(
        saf::query_data_column("content://x", &row(Some("/a"), None, None), &some("/b")),
        Ok("/b".to_string())
    );
    assert_eq!(saf::strip_mount("/storage/self/primary/a"), "a");
    assert_eq!(saf::strip_mount("/other"), "/other");
}

#[test]
fn display_paths_fall_back() {
    assert_eq!(saf::get_display_path(DOC, &None, &None), some("Wikis/a.html"));
    let opaque = json("content://x/1", "content://auth/tree/primary%3AWikis/");
    assert_eq!(saf::get_display_path(&opaque, &some("a.html"), &None), some("Wikis/a.html"));
    assert_eq!(saf::get_display_path("content://x/1", &some("n"), &some("c")), some("c"));
    assert_eq!(saf::get_display_path("content://x/1", &some("n"), &None), some("n"));
    assert_eq!(saf::get_display_path("content://x/1", &None, &None), some("content://x/1"));
    let long = format!("content://{}", "y".repeat(60));
    let short = format!("...{}", "y".repeat(40));
    assert_eq!(saf::get_display_path(&long, &None, &None), some(&short));
    assert_eq!(saf::display_path_by(&long, &None, &None, &None), short);
    assert!(saf::uri_can_be_shortened(&long));
    assert_eq!(saf::shorten_uri("short"), "short");
    let odd = format!("{}{}", "é".repeat(20), "x".repeat(39));
    assert!(!saf::uri_can_be_shortened(&odd));
    assert_eq!(saf::get_display_path(&odd, &None, &None), None);
}

#[test]
fn file_managers_get_documents() {
    assert_eq!(
        saf::reveal_in_file_manager("content://a/tree/x"),
        Ok("content://a/document/x".to_string())
    );
    assert!(saf::reveal_in_file_manager("{").unwrap_err().starts_with("Failed to parse path JSON: "));
    assert_eq!(
        saf::uri_to_reveal("{", &Err("bad".to_string())),
        Err("Failed to parse path JSON: bad".to_string())
    );
    assert_eq!(
        saf::reveal_in_file_manager(&json("u", "content://a/tree/x/document/y")),
        Ok("content://a/tree/x/document/y".to_string())
    );
    assert_eq!(saf::reveal_in_file_manager(&json("u", "null")), Ok("u".to_string()));
    assert_eq!(
        saf::reveal_in_file_manager("{}"),
        Err("No valid URI found in path JSON".to_string())
    );
}

#[test]
fn directories_are_told_from_files() {
    let facts = |mime: Option<&str>, opens: bool, lists: bool| KindFacts {
        reachable: true,
        mime: mime.map(|m| m.to_string()),
        opens,
        lists,
    };
    assert!(saf::is_directory("content://a/tree/x", &facts(Some("text/html"), true, false)));
    assert!(saf::is_directory("u", &facts(Some("vnd.android.document/directory"), true, false)));
    assert!(!saf::is_directory("u", &facts(Some("text/html"), false, true)));
    assert!(saf::is_directory("u", &facts(Some("application/octet-stream"), false, true)));
    assert!(!saf::is_directory("u", &facts(None, true, true)));
    assert!(!saf::is_directory("u", &facts(None, false, false)));
    let unreachable = KindFacts { reachable: false, mime: None, opens: false, lists: true };
    assert!(!saf::is_directory("u", &unreachable));
    assert!(saf::is_directory(&json("a/tree/b", ""), &unreachable));
    assert!(!saf::is_directory("{a/tree/b}", &unreachable));
    assert!(saf::is_directory_by("{x}", &fields("a/tree/b", None), &unreachable));
}

#[test]
fn entries_are_found_by_name() {
    let list = || Ok(vec![file("a"), dir("b"), file("b")]);
    assert_eq!(saf::find_in_directory(&list(), "b"), Ok(some("dir:b")));
    assert_eq!(saf::find_in_directory(&list(), "c"), Ok(None));
    assert_eq!(saf::find_subdirectory(&list(), "a"), Ok(None));
    assert_eq!(saf::find_subdirectory(&Err("x".to_string()), "a"), Err("x".to_string()));
    match saf::find_or_create_subdirectory("p", "c", &list()) {
        DirectoryStep::Create(request) => {
            assert_eq!((request.parent.as_str(), request.name.as_str()), ("p", "c"));
            assert_eq!(request.mime, some("vnd.android.document/directory"));
        }
        _ => panic!("not created"),
    }
    assert!(matches!(
        saf::find_or_create_subdirectory("p", "b", &list()),
        DirectoryStep::Found(u) if u == "dir:b"
    ));
    assert!(matches!(
        saf::find_or_create_subdirectory("p", "b", &Err("x".to_string())),
        DirectoryStep::Failed(e) if e == "x"
    ));
}

#[test]
fn failures_are_reported() {
    let e = || "x".to_string();
    assert_eq!(saf::get_document_size(Err(e())), Err("Failed to get file size: x".to_string()));
    assert_eq!(saf::get_document_size(Ok(5)), Ok(5));
    assert_eq!(saf::delete_document(Err(e())), Err("Failed to delete document: x".to_string()));
    assert_eq!(saf::file_created(Err(e())), Err("Failed to create file: x".to_string()));
    assert_eq!(saf::directory_created(Err(e())), Err("Failed to create directory: x".to_string()));
    assert_eq!(saf::get_display_name(Err(e())), Err("Failed to get file name: x".to_string()));
    assert_eq!(
        saf::read_document(Err(e()), Ok::<u8, String>(1)),
        Err("Failed to open file for reading: x".to_string())
    );
    assert_eq!(
        saf::read_document::<u8>(Ok(()), Err(e())),
        Err("Failed to read file: x".to_string())
    );
    assert_eq!(
        saf::write_document(Err(e()), Ok(())),
        Err("Failed to open file for writing: x".to_string())
    );
    assert_eq!(saf::write_document(Ok(()), Err(e())), Err("Failed to write file: x".to_string()));
    assert!(saf::document_exists(true, true));
    assert!(!saf::document_exists(false, true));
    assert!(saf::has_permission(true, true));
    assert_eq!(saf::creation_type(false), None);
    assert_eq!(saf::creation_type(true), some("vnd.android.document/directory"));
    let place = |found| saf::place_file("p", "n", found);
    assert!(matches!(place(Ok(some("u"))), FilePlace::At(u) if u == "u"));
    for found in [Ok(None), Err(e())] {
        assert!(matches!(place(found), FilePlace::Create(c) if c.parent == "p" && c.name == "n"));
    }
    let made = saf::create_file("p", "n");
    assert_eq!((made.parent.as_str(), made.name.as_str(), made.mime), ("p", "n", None));
}

#[test]
fn permissions_are_kept() {
    let mut kept = vec![];
    assert_eq!(saf::persist_permission(&mut kept, "content://a", Ok(())), Ok(()));
    assert_eq!(saf::persist_permission(&mut kept, &json("u", "t"), Ok(())), Ok(()));
    assert_eq!(saf::persist_permission(&mut kept, "content://a", Ok(())), Ok(()));
    assert_eq!(
        saf::persist_permission(&mut kept, "content://b", Err("x".to_string())),
        Err("Failed to persist permission: x".to_string())
    );
    saf::release_permission(&mut kept, "content://a");
    let all = vec![
        "{\"uri\":\"content://a\",\"documentTopTreeUri\":null}".to_string(),
        json("u", "t"),
    ];
    assert_eq!(saf::get_persisted_permissions(&kept), Ok(all));
}

#[test]
fn copies_hold_what_was_read() {
    let next = |step, reply| saf::copy_next("dir", "name.html", step, reply);
    let read = saf::copy_document("src");
    assert!(matches!(&read, CopyStep::Read(u) if u == "src"));
    let create = next(read, StorageReply::Content(Ok(vec![1, 2])));
    match &create {
        CopyStep::Create(request, content) => {
            assert_eq!((request.parent.as_str(), request.name.as_str()), ("dir", "name.html"));
            assert_eq!(request.mime, None);
            assert_eq!(content, &vec![1, 2]);
        }
        _ => panic!("not created"),
    }
    let write = next(create, StorageReply::Created(Ok("u".to_string())));
    assert!(matches!(&write, CopyStep::Write(u, c) if u == "u" && c == &vec![1, 2]));
    let done = next(write, StorageReply::Written(Ok(())));
    assert!(matches!(done, CopyStep::Done(u) if u == "u"));
    let failed = next(saf::copy_document("src"), StorageReply::Content(Err("gone".to_string())));
    assert!(matches!(&failed, CopyStep::Failed(e) if e == "gone"));
    let still = next(failed, StorageReply::Created(Ok("u".to_string())));
    assert!(matches!(still, CopyStep::Failed(_)));
    let create = next(saf::copy_document("src"), StorageReply::Content(Ok(vec![])));
    let failed = next(create, StorageReply::Created(Err("full".to_string())));
    assert!(matches!(failed, CopyStep::Failed(e) if e == "Failed to create file: full"));
    let write = CopyStep::Write("u".to_string(), vec![1]);
    let failed = next(write, StorageReply::Written(Err("full".to_string())));
    assert!(matches!(failed, CopyStep::Failed(e) if e == "full"));
}

#[test]
fn pickers_are_followed() {
    let e = || "x".to_string();
    assert_eq!(saf::pick_directory(Err(e())), Err("Directory picker failed: x".to_string()));
    assert_eq!(saf::pick_directory(Ok(None)), Ok(None));
    assert_eq!(saf::pick_directory_with_write(Ok(some("d")), true), Ok(some("d")));
    assert!(saf::pick_directory_with_write(Ok(some("d")), false)
        .unwrap_err()
        .starts_with("The selected folder does not have write permission."));
    assert_eq!(saf::write_test_name(12), ".tiddlydesktop_write_test_12");
    assert_eq!(
        saf::pick_wiki_file_with_folder_access(Ok(some("u\"")), Ok(some("t"))),
        Ok(some("{\"documentTopTreeUri\":\"t\",\"uri\":\"u\\\"\"}"))
    );
    assert_eq!(
        saf::save_wiki_file(Ok(some("u")), Ok(None)),
        Ok(some("{\"documentTopTreeUri\":null,\"uri\":\"u\"}"))
    );
    assert_eq!(saf::save_wiki_file(Err(e()), Ok(None)), Err("Save dialog failed: x".to_string()));
    assert_eq!(
        saf::pick_wiki_file_with_folder_access(Ok(some("u")), Err(e())),
        Err("Folder picker failed: x".to_string())
    );
}

#[test]
fn latest_backups_stay() {
    let entries = || {
        vec![
            file("wiki_20260101000000.html"),
            file("wiki_20260103000000.html"),
            file("other_20260101000000.html"),
            dir("wiki_20250101000000.html"),
            file("wiki_20260102000000.html"),
            file("wiki_2_20240101000000.html"),
            file("wiki_notes.html"),
            file("wiki_20260101000000.txt"),
        ]
    };
    assert_eq!(
        saf::cleanup_old_backups(Ok(entries()), "wiki", 2),
        Ok(owned(&["uri:wiki_20260101000000.html"]))
    );
    assert_eq!(
        saf::cleanup_old_backups(Ok(entries()), "wiki", 1),
        Ok(owned(&["uri:wiki_20260102000000.html", "uri:wiki_20260101000000.html"]))
    );
    assert_eq!(saf::cleanup_old_backups(Ok(entries()), "wiki", 5), Ok(vec![]));
    assert_eq!(saf::cleanup_old_backups(Err("x".to_string()), "wiki", 5), Err("x".to_string()));
}

#[test]
fn zero_keeps_all_backups() {
    let entries = vec![file("w_20260101000000.html"), file("w_20260102000000.html")];
    assert_eq!(saf::cleanup_old_backups(Ok(entries), "w", 0), Ok(vec![]));
    assert_eq!(saf::cleanup_old_backups(Err("x".to_string()), "w", 0), Ok(vec![]));
}

#[test]
fn made_backups_are_recognized() {
    let made = saf::create_backup("wiki");
    assert!(made.starts_with("wiki_2") && made.ends_with(".html") && made.len() == 24);
    assert!(saf::names_backup(&made, "wiki"));
    let name = saf::backup_name("MyWiki", "20260220143005");
    assert_eq!(name, "MyWiki_20260220143005.html");
    let later = saf::backup_name("MyWiki", "20260220143006");
    assert!(saf::names_backup(&name, "MyWiki"));
    assert!(!saf::names_backup(&name, "My"));
    assert!(!saf::names_backup("My_Wiki_20260220143005.html", "My"));
    assert!(!saf::names_backup("MyWiki_2026022014300x.html", "MyWiki"));
    assert_eq!(
        saf::cleanup_old_backups(Ok(vec![file(&name), file(&later)]), "MyWiki", 1),
        Ok(vec![format!("uri:{}", name)])
    );
    for (a, b) in [("a", "b"), ("a", "ab"), ("", "a"), ("é", "z"), ("😀", "é"), ("x", "x")] {
        assert_eq!(saf::comes_not_after(a, b), a <= b);
        assert_eq!(saf::comes_not_after(b, a), b <= a);
    }
}

#[test]
fn backups_find_their_place() {
    let place = |wiki: &str| match saf::get_backup_directory(wiki, None) {
        BackupPlace::InTree { parent, name } => (parent, name),
        _ => panic!("not in the tree"),
    };
    let backups = ".backups".to_string();
    assert_eq!(place(&json("u", "T")), (json("T", "T"), backups.clone()));
    let tree = "content://auth/tree/primary%3AWikis";
    let parent = json("content://auth/tree/primary%3AWikis/document/primary%3AWikis", tree);
    assert_eq!(place(&json(DOC, tree)), (parent, backups.clone()));
    let deep = "content://auth/tree/primary%3AWikis/document/primary%3AWikis%2FSub%2Fa.html";
    let parent = json("content://auth/tree/primary%3AWikis/document/primary%3AWikis%2FSub", tree);
    assert_eq!(place(&json(deep, tree)), (parent, backups));
    assert!(matches!(
        saf::get_backup_directory(&json("u", "T"), Some("C")),
        BackupPlace::Custom(d) if d == "C"
    ));
    assert!(matches!(
        saf::backup_directory_by("{", &fields("u", Some("")), None),
        BackupPlace::Nowhere
    ));
    assert!(matches!(
        saf::get_backup_directory("content://x", None),
        BackupPlace::Nowhere
    ));
}

#[test]
fn attachments_overwrite_nothing() {
    let entries = vec![file("a.png"), file("a-1.png"), file("b")];
    assert_eq!(saf::find_unique_filename(&entries, "c.png", false, "t"), "c.png");
    assert_eq!(saf::find_unique_filename(&entries, "a.png", true, "t"), "a.png");
    assert_eq!(saf::find_unique_filename(&entries, "a.png", false, "t"), "a-2.png");
    assert_eq!(saf::find_unique_filename(&entries, "b", false, "t"), "b-1");
    let mut full: Vec<DirEntry> = (1..1000).map(|n| file(&format!("x-{}.y", n))).collect();
    full.push(file("x.y"));
    assert_eq!(saf::find_unique_filename(&full, "x.y", false, "20260101"), "x-20260101.y");
    let plan = saf::plan_attachment_at(&entries, "a.png", true, "t");
    assert!(!plan.write);
    assert_eq!(plan.path, "./attachments/a.png");
    let plan = saf::plan_attachment_at(&entries, "a.png", false, "t");
    assert!(plan.write);
    assert_eq!(plan.mime, "image/png");
    assert_eq!(plan.name, "a-2.png");
    assert_eq!(plan.path, "./attachments/a-2.png");
    assert_eq!(
        saf::attachments_parent(&json("u", "T")),
        Ok("{\"uri\":\"T\",\"documentTopTreeUri\":\"T\"}".to_string())
    );
    assert!(saf::attachments_parent("content://x").is_err());
    assert!(saf::attachments_parent_by("{", &fields("u", None)).is_err());
    assert_eq!(saf::guess_mime_type("a.JPEG"), "image/jpeg");
    assert_eq!(saf::guess_mime_type("noext"), "application/octet-stream");
    assert_eq!(saf::mime_for_attachment("svg"), "image/svg+xml");
}

fn times(items: &[(&str, i128)]) -> FileTimes {
    let mut t: FileTimes = Table::new();
    for (k, v) in items {
        t.insert(k.to_string(), *v);
    }
    t
}

#[test]
fn changes_of_a_mirror_are_found() {
    let mut w = SyncWatcher::new("/m".to_string(), "content://w".to_string());
    assert!(w.start());
    assert!(!w.start());
    w.scan_files(times(&[("a", 1), ("b", 2), ("c", 3)]));
    let plan = w.check_and_sync(Ok(times(&[("a", 1), ("b", 5), ("d", 4)])));
    assert_eq!(plan.changed, owned(&["b", "d"]));
    assert_eq!(plan.deleted, owned(&["c"]));
    w.stop();
    assert!(!w.running);
}

#[test]
fn a_quiet_mirror_is_left_alone() {
    let mut w = SyncWatcher::new("/m".to_string(), "content://w".to_string());
    w.scan_files(times(&[("a", 1)]));
    let plan = w.check_and_sync(Err("unreadable".to_string()));
    assert!(plan.changed.is_empty() && plan.deleted.is_empty());
    let plan = w.check_and_sync(Ok(times(&[("a", 1)])));
    assert!(plan.changed.is_empty() && plan.deleted.is_empty());
}

#[test]
fn directories_are_scanned() {
    let mut t = times(&[]);
    let found = vec![
        Found::File("a.tid".to_string(), Some(7)),
        Found::Directory("sub".to_string()),
        Found::File("b.tid".to_string(), None),
        Found::Other,
    ];
    assert_eq!(node_bridge::scan_directory(&mut t, "tiddlers", &found), owned(&["tiddlers/sub"]));
    assert_eq!(t.get("tiddlers/a.tid"), Some(&7));
    assert_eq!(t.len(), 1);
    assert_eq!(node_bridge::child_rel("", "x"), "x");
}

#[test]
fn a_file_is_written_back_step_by_step() {
    let mut walk = Walk::begin("tiddlers/sub/a.tid", "root");
    match walk.next(true) {
        Step::EnsureDirectory { parent, name } => assert_eq!((parent, name), ("root".into(), "tiddlers".into())),
        _ => panic!("unexpected step"),
    }
    match walk.directory_ensured(Ok("u1".to_string())) {
        Step::EnsureDirectory { parent, name } => assert_eq!((parent, name), ("u1".into(), "sub".into())),
        _ => panic!("unexpected step"),
    }
    match walk.directory_ensured(Ok("u2".to_string())) {
        Step::FindFile { parent, name } => assert_eq!((parent, name), ("u2".into(), "a.tid".into())),
        _ => panic!("unexpected step"),
    }
    match walk.file_to_write(Ok(None)) {
        Step::CreateFile { parent, name, mime } => {
            assert_eq!((parent, name, mime), ("u2".into(), "a.tid".into(), "text/plain".into()))
        }
        _ => panic!("unexpected step"),
    }
    assert!(matches!(walk.file_created(Ok("f".to_string())), Step::Write { uri } if uri == "f"));
    assert!(matches!(walk.file_created(Err("e".to_string())), Step::Finished(Err(m)) if m == "e"));
    assert!(matches!(walk.file_to_write(Ok(some("g"))), Step::Write { uri } if uri == "g"));
    let mut walk = Walk::begin("a/b", "root");
    assert!(matches!(walk.directory_ensured(Err("e".to_string())), Step::Finished(Err(m)) if m == "e"));
}

#[test]
fn a_file_is_deleted_step_by_step() {
    let mut walk = Walk::begin("d/a", "root");
    assert!(matches!(walk.next(false), Step::FindDirectory { .. }));
    assert!(matches!(walk.directory_found(Ok(some("u"))), Step::FindFile { .. }));
    assert!(matches!(walk.file_to_delete(Ok(some("f"))), Step::Delete { uri } if uri == "f"));
    assert!(matches!(walk.file_to_delete(Ok(None)), Step::Finished(Ok(()))));
    let mut walk = Walk::begin("d/a", "root");
    assert!(matches!(walk.directory_found(Ok(None)), Step::Finished(Ok(()))));
    assert_eq!(node_bridge::mirror_mime_type("a.meta"), "text/plain");
    assert_eq!(node_bridge::synced_mime_type("a.meta"), "application/octet-stream");
    assert_eq!(node_bridge::converted_mime_type("a.js"), "application/javascript");
    assert_eq!(node_bridge::converted_mime_type("a.htm"), "text/html");
    assert_eq!(node_bridge::mirror_mime_type("a.json"), "application/json");
}

#[test]
fn running_servers_are_known() {
    let mut servers: StringMap = Table::new();
    node_bridge::register_running_server(&mut servers, "w", "http://127.0.0.1:38000");
    node_bridge::register_running_server(&mut servers, "v", "http://127.0.0.1:38001");
    assert_eq!(node_bridge::get_running_server(&servers, "w"), some("http://127.0.0.1:38000"));
    node_bridge::unregister_running_server(&mut servers, "w");
    assert_eq!(node_bridge::get_running_server(&servers, "w"), None);
    assert_eq!(node_bridge::get_running_server(&servers, "v"), some("http://127.0.0.1:38001"));
}

#[test]
fn a_started_watcher_runs() {
    let mut watchers: Table<SyncWatcher> = Table::new();
    assert!(node_bridge::start_saf_sync_watcher(&mut watchers, "/m", "w").is_none());
    let before = node_bridge::start_saf_sync_watcher(&mut watchers, "/m", "v").unwrap();
    assert!(!before.running);
    assert_eq!(before.saf_uri, "w");
    assert!(watchers.get("/m").unwrap().running);
    let stopped = node_bridge::stop_saf_sync_watcher(&mut watchers, "/m");
    assert!(stopped.remove_mirror);
    assert_eq!(stopped.watcher.unwrap().saf_uri, "v");
    assert_eq!(watchers.len(), 0);
    assert!(!node_bridge::stop_saf_sync_watcher(&mut watchers, "").remove_mirror);
}

#[test]
fn mirrors_have_digests_for_names() {
    let expected = format!("/data/wiki-mirrors/{:x}", md5::compute("content://w".as_bytes()));
    assert_eq!(node_bridge::mirror_dir("/data", "content://w"), expected);
    let data: Result<String, String> = Ok("/data".to_string());
    let mut paths: StringMap = Table::new();
    match node_bridge::get_or_create_local_copy(&mut paths, "content://w", true, &data, false) {
        LocalCopy::ToMake(p) => assert_eq!(p, expected),
        _ => panic!("there is no copy yet"),
    }
    match node_bridge::get_or_create_local_copy(&mut paths, "content://w", false, &data, true) {
        LocalCopy::At(p) => assert_eq!(p, expected),
        _ => panic!("the mirror is there"),
    }
    assert_eq!(paths.get("content://w"), Some(&expected));
    node_bridge::track_wiki_local_path(&mut paths, "content://w", "/elsewhere");
    match node_bridge::get_or_create_local_copy(&mut paths, "content://w", true, &data, true) {
        LocalCopy::At(p) => assert_eq!(p, "/elsewhere"),
        _ => panic!("the copy is noted"),
    }
    match node_bridge::get_or_create_local_copy(&mut paths, "v", false, &Err("x".to_string()), true) {
        LocalCopy::Failed(e) => assert_eq!(e, "x"),
        _ => panic!("there is no place"),
    }
    let mut watchers: Table<SyncWatcher> = Table::new();
    assert!(node_bridge::cleanup_wiki_local_copy(&mut paths, &mut watchers, "nope").is_none());
    let stopped =
        node_bridge::cleanup_wiki_local_copy(&mut paths, &mut watchers, "content://w").unwrap();
    assert!(stopped.remove_mirror);
    assert!(stopped.watcher.is_none());
    node_bridge::track_wiki_local_path(&mut paths, "content://v", "/v");
    node_bridge::start_saf_sync_watcher(&mut watchers, "/v", "content://v");
    let stopped =
        node_bridge::cleanup_wiki_local_copy(&mut paths, &mut watchers, "content://v").unwrap();
    assert!(!stopped.watcher.unwrap().running);
    assert!(!watchers.contains_key("/v"));
    assert!(!paths.contains_key("content://w"));
}

#[test]
fn attachments_are_kept_step_by_step() {
    let wiki = json("u", "T");
    let tree = || json("T", "T");
    let next = |step, reply| saf::attach_next_at("a.png", step, reply, "t");
    let first = saf::copy_attachment_to_wiki(&wiki, "src");
    assert!(matches!(
        &first,
        AttachStep::ListParent { parent, source: Source::Uri(u) } if *parent == tree() && u == "src"
    ));
    let made = next(first, StorageReply::Entries(Ok(vec![file("attachments")])));
    match &made {
        AttachStep::CreateDirectory { request, .. } => {
            assert_eq!((request.parent.clone(), request.name.as_str()), (tree(), "attachments"));
            assert_eq!(request.mime, some("vnd.android.document/directory"));
        }
        _ => panic!("not created"),
    }
    let read = next(made, StorageReply::Created(Ok("d".to_string())));
    assert!(matches!(&read, AttachStep::ReadSource { uri, dir } if uri == "src" && dir == "d"));
    let list = next(read, StorageReply::Content(Ok(vec![1, 2])));
    assert!(matches!(
        &list,
        AttachStep::ListDirectory { dir, content } if dir == "d" && content == &vec![1, 2]
    ));
    let taken = next(list, StorageReply::Entries(Ok(vec![file("a.png")])));
    assert!(matches!(&taken, AttachStep::ReadTaken { uri, .. } if uri == "uri:a.png"));
    let create = next(taken, StorageReply::Content(Ok(vec![1])));
    match &create {
        AttachStep::Create { request, content, path } => {
            assert_eq!((request.parent.as_str(), request.name.as_str()), ("d", "a-1.png"));
            assert_eq!(request.mime, None);
            assert_eq!(content, &vec![1, 2]);
            assert_eq!(path, "./attachments/a-1.png");
        }
        _ => panic!("not created"),
    }
    let write = next(create, StorageReply::Created(Ok("new".to_string())));
    assert!(matches!(
        &write,
        AttachStep::Write { uri, content, .. } if uri == "new" && content == &vec![1, 2]
    ));
    let done = next(write, StorageReply::Written(Ok(())));
    assert!(matches!(done, AttachStep::Done(p) if p == "./attachments/a-1.png"));
    let first = saf::save_attachment_content(&wiki, vec![1, 2]);
    let list = next(first, StorageReply::Entries(Ok(vec![dir("attachments")])));
    assert!(matches!(&list, AttachStep::ListDirectory { dir, .. } if dir == "dir:attachments"));
    let taken = next(list, StorageReply::Entries(Ok(vec![file("a.png")])));
    let done = next(taken, StorageReply::Content(Ok(vec![1, 2])));
    assert!(matches!(done, AttachStep::Done(p) if p == "./attachments/a.png"));
    let list = AttachStep::ListDirectory { dir: "d".to_string(), content: vec![] };
    let create = next(list, StorageReply::Entries(Err("x".to_string())));
    assert!(matches!(&create, AttachStep::Create { request, .. } if request.name == "a.png"));
    let failed = next(create, StorageReply::Created(Err("x".to_string())));
    assert!(matches!(failed, AttachStep::Failed(e) if e == "Failed to create file: x"));
    let first = saf::copy_attachment_to_wiki(&wiki, "src");
    let made = next(first, StorageReply::Entries(Ok(vec![])));
    let failed = next(made, StorageReply::Created(Err("x".to_string())));
    assert!(matches!(failed, AttachStep::Failed(e) if e == "Failed to create directory: x"));
    assert!(matches!(
        saf::copy_attachment_to_wiki("content://x", "src"),
        AttachStep::Failed(e) if e.starts_with("No tree access for wiki")
    ));
    let mut full: Vec<DirEntry> = (1..1000).map(|n| file(&format!("a-{}.png", n))).collect();
    full.push(file("a.png"));
    let taken = AttachStep::ReadTaken {
        uri: "uri:a.png".to_string(),
        dir: "d".to_string(),
        entries: full,
        content: vec![],
    };
    match saf::attach_next("a.png", taken, StorageReply::Content(Err("x".to_string()))) {
        AttachStep::Create { request, .. } => {
            let stamp = &request.name[2..request.name.len() - 4];
            assert_eq!(stamp.len(), 14);
            assert!(stamp.bytes().all(|b| b.is_ascii_digit()));
        }
        _ => panic!("not created"),
    }
}

#[test]
fn nobody_watches_a_cleared_mirror() {
    let mut watchers: Table<SyncWatcher> = Table::new();
    let mirror = node_bridge::mirror_dir("/data", "w");
    node_bridge::start_saf_sync_watcher(&mut watchers, &mirror, "w");
    node_bridge::start_saf_sync_watcher(&mut watchers, "/other", "v");
    assert_eq!(
        node_bridge::copy_saf_wiki_to_local(&mut watchers, &Ok("/data".to_string()), "w"),
        Ok(mirror.clone())
    );
    assert!(!watchers.contains_key(&mirror));
    assert!(watchers.contains_key("/other"));
    let dirs = vec!["/other".to_string(), mirror.clone()];
    assert_eq!(node_bridge::cleanup_stale_wiki_mirrors(&dirs, &watchers), vec![mirror]);
    let mut paths: StringMap = Table::new();
    let mut go = |uri: &str, step, event| {
        node_bridge::start_saf_wiki_server(&mut paths, uri, step, event)
    };
    let prepare = go("w", StartStep::Copy, StartEvent::Copied(Ok("/m".to_string())));
    assert!(matches!(&prepare, StartStep::Prepare { mirror } if mirror == "/m"));
    let find = go("w", prepare, StartEvent::Prepared);
    assert!(matches!(&find, StartStep::FindPort { mirror } if mirror == "/m"));
    let run = go("w", find, StartEvent::Port(Ok(38005)));
    assert!(matches!(&run, StartStep::Run { mirror, port: 38005 } if mirror == "/m"));
    match go("w", run, StartEvent::Ran(Ok(()))) {
        StartStep::Done { url, mirror } => {
            assert_eq!(url, "http://127.0.0.1:38005");
            assert_eq!(mirror, "/m");
        }
        _ => panic!("not done"),
    }
    let failed = go("x", StartStep::Copy, StartEvent::Copied(Err("gone".to_string())));
    assert!(matches!(failed, StartStep::Failed(e) if e == "gone"));
    let find = go("v", StartStep::Prepare { mirror: "/n".to_string() }, StartEvent::Prepared);
    let failed = go("v", find, StartEvent::Port(Err("none".to_string())));
    assert!(matches!(&failed, StartStep::Failed(e) if e == "none"));
    let still = go("v", failed, StartEvent::Ran(Ok(())));
    assert!(matches!(still, StartStep::Failed(_)));
    assert_eq!(paths.get("w"), Some(&"/m".to_string()));
    assert!(paths.contains_key("v"));
    assert!(!paths.contains_key("x"));
}

#[test]
fn a_new_server_is_waited_for() {
    assert_eq!(node_bridge::next_wait(0, false), Some(500));
    assert_eq!(node_bridge::next_wait(5, false), Some(500));
    assert_eq!(node_bridge::next_wait(6, false), None);
    assert_eq!(node_bridge::next_wait(1, true), None);
}

#[test]
fn node_is_found() {
    let dir: Result<String, String> = Ok("/lib".to_string());
    let e: Result<String, String> = Err("x".to_string());
    assert_eq!(node_bridge::get_node_path(&dir, true), Ok("/lib/libnode.so".to_string()));
    assert_eq!(
        node_bridge::get_node_path(&dir, false),
        Err("Node.js binary (libnode.so) not found in native library directory: /lib".to_string())
    );
    assert_eq!(node_bridge::get_node_path(&e, true), Err("x".to_string()));
    assert!(node_bridge::ensure_node_binary(&dir, Some(1_000_001)).is_ok());
    assert_eq!(
        node_bridge::ensure_node_binary(&dir, Some(1_000_000)),
        Err("libnode.so exists but is too small (1000000 bytes) - may be corrupted".to_string())
    );
    assert!(node_bridge::ensure_node_binary(&dir, None).unwrap_err().ends_with("in jniLibs."));
    assert_eq!(node_bridge::mended_mode(0o644), Some(0o755));
    assert_eq!(node_bridge::mended_mode(0o744), None);
    assert_eq!(node_bridge::get_tiddlywiki_dir(&dir, true), Ok("/lib/tiddlywiki".to_string()));
    assert_eq!(
        node_bridge::get_tiddlywiki_dir(&dir, false),
        Err("TiddlyWiki resources not found. Please restart the app.".to_string())
    );
    assert_eq!(node_bridge::android_temp_dir(&dir), "/lib/tmp");
    assert_eq!(node_bridge::android_temp_dir(&e), "/data/local/tmp");
    assert_eq!(node_bridge::ld_library_path("/a", "/b"), "/a:/b");
    let links = node_bridge::prepare_library_symlinks("/l", "/n");
    assert_eq!(links.len(), 6);
    assert_eq!(links[3].path, "/l/libicui18n.so.78");
    assert_eq!(links[3].target, "/n/libicui18n.so");
    let mut kept = None;
    assert_eq!(node_bridge::get_app_data_dir(&mut kept, None, Err("x".to_string())), Err("x".to_string()));
    assert_eq!(node_bridge::get_app_data_dir(&mut kept, some("/d"), Err("x".to_string())), Ok("/d".to_string()));
    assert_eq!(node_bridge::get_app_data_dir(&mut kept, None, Err("x".to_string())), Ok("/d".to_string()));
}

#[test]
fn commands_are_put_together() {
    assert_eq!(
        node_bridge::run_tiddlywiki_command(true, b"out", b"err"),
        Ok("out".to_string())
    );
    assert_eq!(
        node_bridge::run_tiddlywiki_command(false, b"out\xFF", b"err"),
        Err("TiddlyWiki command failed: err\nout\u{FFFD}".to_string())
    );
    let plan = node_bridge::build_wiki_file("/tw", "/tmp", 7, "empty");
    assert_eq!(plan.temp_dir, "/tmp/tw-build-7");
    assert_eq!(plan.original_edition, "/tw/editions/empty");
    assert_eq!(plan.info_path, "/tmp/tw-build-7/edition/tiddlywiki.info");
    assert_eq!(
        plan.args,
        owned(&["/tmp/tw-build-7/edition", "--output", "/tmp/tw-build-7/output", "--build", "index"])
    );
    assert_eq!(node_bridge::init_wiki_folder("server", "/f"), owned(&["/f", "--init", "server"]));
    assert_eq!(
        node_bridge::start_wiki_server("/f", 38001),
        owned(&["/f", "--listen", "port=38001", "host=127.0.0.1"])
    );
    assert_eq!(
        node_bridge::render_folder_wiki_html("/f", "/o"),
        owned(&["/f", "--output", "/o", "--render", "$:/core/save/all", "wiki.html", "text/plain"])
    );
    let args = node_bridge::convert_file_to_folder("/w.html", "/f");
    assert_eq!(args[0], "--load");
    assert_eq!(args.len(), 10);
    assert_eq!(args[9], "/f");
    let args = node_bridge::convert_folder_to_file("/f", "/o");
    assert_eq!(args[2], "$:/plugins/tiddlywiki/tiddlyweb");
    assert_eq!(args.len(), 17);
    let names = owned(&["a.txt", ".html", "b.html"]);
    assert_eq!(node_bridge::find_output("index.html", true, &names, "m"), Ok("index.html".to_string()));
    assert_eq!(node_bridge::find_output("index.html", false, &names, "m"), Ok("b.html".to_string()));
    assert_eq!(node_bridge::find_output("i", false, &vec![], "missing"), Err("missing".to_string()));
}

#[test]
fn port_ranges_are_apart() {
    let mut counter: u16 = 38000;
    let start = node_bridge::next_start(&mut counter);
    assert_eq!((start, counter), (38000, 38001));
    assert_eq!(node_bridge::find_available_port(start, None), Ok(38000));
    assert_eq!(node_bridge::find_available_port(start, Some(38500)), Ok(38501));
    let none = Err("No available ports found".to_string());
    assert_eq!(node_bridge::find_available_port(start, Some(38999)), none);
    assert_eq!(node_bridge::find_available_port(38500, Some(38999)), Ok(38000));
    assert_eq!(node_bridge::find_available_port(38500, Some(38499)), none);
    let mut counter: u16 = 38999;
    assert_eq!(node_bridge::next_start(&mut counter), 38999);
    assert_eq!(counter, 38000);
    let mut counter = u16::MAX;
    assert_eq!(node_bridge::next_start(&mut counter), 38000);
    let mut tried = None;
    let mut seen = vec![];
    while let Ok(port) = node_bridge::find_available_port(38700, tried) {
        seen.push(port);
        tried = Some(port);
    }
    assert_eq!(seen.len(), 1000);
    seen.sort();
    assert_eq!(seen, (38000..=38999).collect::<Vec<u16>>());
}

fn names(list: &[PluginEntry]) -> Vec<String> {
    list.iter()
        .map(|e| match e {
            PluginEntry::Name(n) => n.clone(),
            PluginEntry::Other(v) => format!("#{}", v),
        })
        .collect()
}

#[test]
fn a_stripped_list_serves_nobody() {
    let list = vec![
        PluginEntry::Name("tiddlywiki/tiddlyweb".to_string()),
        PluginEntry::Other(serde_json::Value::Null),
        PluginEntry::Name("tiddlywiki/filesystem".to_string()),
        PluginEntry::Name("x".to_string()),
    ];
    assert_eq!(names(&node_bridge::strip_server_plugins(list)), owned(&["#null", "x"]));
    let info = "{\"z\":1.5,\"plugins\":[\"tiddlywiki/tiddlyweb\",[2],\"x\"]}";
    assert_eq!(
        node_bridge::strip_server_plugins_from_info(info),
        Ok("{\n  \"plugins\": [\n    [\n      2\n    ],\n    \"x\"\n  ],\n  \"z\": 1.5\n}".to_string())
    );
    assert_eq!(node_bridge::strip_server_plugins_from_info("[]"), Ok("[]".to_string()));
    assert!(node_bridge::strip_server_plugins_from_info("{")
        .unwrap_err()
        .starts_with("Failed to parse tiddlywiki.info: "));
}

#[test]
fn chosen_plugins_are_added() {
    let list = vec![PluginEntry::Name("tiddlywiki/markdown".to_string()), PluginEntry::Name("tiddlywiki/tiddlyweb".to_string())];
    let built = node_bridge::add_plugins(Some(list), &owned(&["markdown", "katex"]));
    assert_eq!(
        names(&built),
        owned(&["tiddlywiki/markdown", "tiddlywiki/tiddlyweb", "tiddlywiki/katex"])
    );
    let built = node_bridge::add_plugins(None, &owned(&["katex", "katex"]));
    assert_eq!(names(&built), owned(&["tiddlywiki/katex", "tiddlywiki/katex"]));
    let text = "{\n  \"plugins\": [\n    \"tiddlywiki/katex\"\n  ]\n}";
    for info in ["{}", "null", "{\"plugins\":[]}", "{\"plugins\":\"x\"}"] {
        assert_eq!(node_bridge::add_plugins_to_info(info, &owned(&["katex"])), some(text));
    }
    assert_eq!(node_bridge::add_plugins_to_info("{}", &vec![]), None);
    assert_eq!(node_bridge::add_plugins_to_info("[]", &owned(&["katex"])), None);
    assert_eq!(node_bridge::add_plugins_to_info("{", &owned(&["katex"])), None);
}

#[test]
fn a_prepared_list_serves() {
    let once = node_bridge::prepare_plugins(PluginList::Missing).ok().unwrap();
    assert!(once.modified);
    assert_eq!(names(&once.list), owned(&["tiddlywiki/tiddlyweb", "tiddlywiki/filesystem"]));
    let twice = node_bridge::prepare_plugins(PluginList::List(once.list)).ok().unwrap();
    assert!(!twice.modified);
    assert_eq!(
        node_bridge::prepare_plugins(PluginList::NotAList).err(),
        some("plugins is not an array")
    );
}

#[test]
fn outer_paths_are_linked() {
    let wikis = vec![some("../tw5.com"), None, some("../x/y")];
    assert_eq!(
        node_bridge::paths_to_resolve(&wikis, Some("..\\z")),
        owned(&["../tw5.com", "../x/y", "..\\z"])
    );
    assert_eq!(node_bridge::paths_to_resolve(&vec![], Some("tiddlers")), Vec::<String>::new());
    let info = "{\"includeWikis\":[\"../tw5.com\",1,{\"path\":\"../x/y\"}],\"config\":{\"default-tiddler-location\":\"../z\"}}";
    let prepared = node_bridge::prepare_info_for_android(info).unwrap().unwrap();
    assert_eq!(prepared.paths, owned(&["../tw5.com", "../x/y", "../z"]));
    let again = node_bridge::prepare_info_for_android(&prepared.updated.unwrap()).unwrap().unwrap();
    assert_eq!(again.updated, None);
    assert_eq!(again.paths, prepared.paths);
    assert_eq!(
        node_bridge::prepare_info_for_android("{\"plugins\":1}").err(),
        some("plugins is not an array")
    );
    assert!(node_bridge::prepare_info_for_android("3").unwrap().is_none());
    assert!(node_bridge::prepare_info_for_android("")
        .err()
        .unwrap()
        .starts_with("Failed to parse tiddlywiki.info: "));
    assert_eq!(node_bridge::top_dir("../../tw5.com/tiddlers"), "tw5.com");
    assert_eq!(node_bridge::top_dir("..\\a\\b"), "a");
    let facts = |resolves: bool, edition: bool, there: bool, right: bool| OuterFacts {
        resolves,
        edition_exists: edition,
        parent: some("/m"),
        link_there: there,
        link_is_right: right,
    };
    let is = |l: &Link| l.path == "/m/tw5.com" && l.target == "/e/tw5.com";
    let run = |f: &OuterFacts| node_bridge::create_edition_symlink("../tw5.com/t", "/e", f);
    assert!(matches!(run(&facts(true, true, false, false)), OuterLink::Nothing));
    assert!(matches!(run(&facts(false, false, false, false)), OuterLink::Nothing));
    assert!(matches!(run(&facts(false, true, true, true)), OuterLink::Nothing));
    assert!(matches!(run(&facts(false, true, false, false)), OuterLink::Create(l) if is(&l)));
    assert!(matches!(run(&facts(false, true, true, false)), OuterLink::Replace(l) if is(&l)));
}

#[test]
fn wikis_are_launched() {
    let launch = wiki_activity::launch_wiki_activity("p", "t", true, Some("u"), true, 20, &Ok(false));
    match launch {
        Launch::Start(extras) => {
            assert_eq!(extras.len(), 6);
            assert!(matches!(&extras[0], Extra::Text(k, v) if k == "wiki_path" && v == "p"));
            assert!(matches!(&extras[2], Extra::Flag(k, true) if k == "is_folder"));
            assert!(matches!(&extras[3], Extra::Text(k, v) if k == "wiki_url" && v == "u"));
            assert!(matches!(&extras[5], Extra::Number(k, 20) if k == "backup_count"));
        }
        Launch::BroughtToFront => panic!("not open yet"),
    }
    match wiki_activity::launch_wiki_activity("p", "t", false, None, false, u32::MAX, &Err("x".to_string())) {
        Launch::Start(extras) => {
            assert_eq!(extras.len(), 5);
            assert!(matches!(&extras[4], Extra::Number(_, -1)));
        }
        Launch::BroughtToFront => panic!("not open yet"),
    }
    assert!(matches!(
        wiki_activity::launch_wiki_activity("p", "t", false, None, false, 0, &Ok(true)),
        Launch::BroughtToFront
    ));
    assert_eq!(wiki_activity::java_class_name("com/example/A"), "com.example.A");
}

#[test]
fn colors_are_parsed() {
    assert_eq!(wiki_activity::parse_color_to_int("#FFFFFF"), Ok(-1));
    assert_eq!(wiki_activity::parse_color_to_int("000000"), Ok(0xFF00_0000u32 as i32));
    assert_eq!(wiki_activity::parse_color_to_int("##7f010203"), Ok(0x7f01_0203));
    assert_eq!(wiki_activity::parse_color_to_int("+1234567"), Ok(0x0123_4567));
    assert_eq!(
        wiki_activity::parse_color_to_int("#fff"),
        Err("Invalid color format: #fff".to_string())
    );
    let std_error = u32::from_str_radix("FFgggggg", 16).unwrap_err();
    assert_eq!(
        wiki_activity::parse_color_to_int("#gggggg"),
        Err(format!("Failed to parse color #gggggg: {}", std_error))
    );
    assert!(wiki_activity::parse_color_to_int("ééé").is_err());
    let c = wiki_activity::rgb_of_color("#0a+5zz").unwrap();
    assert_eq!((c.red, c.green, c.blue), (10, 5, 0));
    assert!(wiki_activity::rgb_of_color("#12345").is_none());
    let c = wiki_activity::rgb_of_color("#f03").unwrap();
    assert_eq!((c.red, c.green, c.blue), (0xff, 0, 0x33));
    assert!(wiki_activity::rgb_of_color("#ff").is_none());
    assert!(wiki_activity::color_has_parts("ééé"));
    assert!(!wiki_activity::color_has_parts("1é2345"));
}

#[test]
fn bars_are_colored() {
    let bars = |status: &str, nav: &str, foreground: Option<&str>| {
        wiki_activity::set_system_bar_colors(status, nav, foreground)
    };
    let c = bars("#000000", "#ffffff", None).ok().unwrap();
    assert_eq!((c.status, c.nav, c.status_is_light, c.nav_is_light), (-16777216, -1, false, true));
    for (foreground, flags) in [
        ("#333", wiki_activity::APPEARANCE_MASK),
        ("#333333", wiki_activity::APPEARANCE_MASK),
        ("#fff", 0),
        ("#ffffff", 0),
    ] {
        for (status, nav) in [("#000000", "#ffffff"), ("#ffffff", "#000000")] {
            let c = bars(status, nav, Some(foreground)).ok().unwrap();
            assert_eq!(wiki_activity::bar_appearance(c.status_is_light, c.nav_is_light), flags);
        }
    }
    assert_eq!(bars("#0", "#1", None).err(), some("Invalid color format: #0"));
    assert_eq!(bars("#000000", "#fff", Some("1é2345")).err(), some("Invalid color format: #fff"));
    assert_eq!(wiki_activity::bar_appearance(true, true), wiki_activity::APPEARANCE_MASK);
    assert_eq!(wiki_activity::bar_appearance(true, false), 8);
    assert_eq!(wiki_activity::bar_appearance(false, true), 16);
}

#[test]
fn lightness_is_that_of_single_precision() {
    for red in 0..=255u8 {
        for green in 0..=255u8 {
            for blue in 0..=255u8 {
                let luminance =
                    (0.299 * red as f32 + 0.587 * green as f32 + 0.114 * blue as f32) / 255.0;
                if wiki_activity::rgb_is_light(&Rgb { red, green, blue }) != (luminance > 0.5) {
                    panic!("{} {} {}", red, green, blue);
                }
            }
        }
    }
    assert!(wiki_activity::is_light_color("#fff") && wiki_activity::is_light_color("FFFFFF"));
    assert!(!wiki_activity::is_light_color("#333") && !wiki_activity::is_light_color("#ffff"));
    assert!(wiki_activity::is_light_color("#888") && !wiki_activity::is_light_color("#777"));
}

#[test]
fn other_flags_stay() {
    assert_eq!(wiki_activity::legacy_flags(0x0000_0501, true, false), 0x0000_2501);
    assert_eq!(wiki_activity::legacy_flags(0xFFFF_FFFF, false, false), 0xFFFF_DFEF);
    assert_eq!(wiki_activity::legacy_flags(0, true, true), 0x2010);
}

#[test]
fn the_lock_is_taken_once() {
    let mut lock = MulticastLock { held: false };
    assert!(matches!(lock.acquire_lock(), LockStep::Acquire));
    lock.acquired(false);
    assert!(matches!(lock.release_lock(true), LockStep::Nothing));
    lock.acquired(true);
    assert!(matches!(lock.acquire_lock(), LockStep::Nothing));
    assert!(matches!(lock.release_lock(true), LockStep::Release));
    assert!(matches!(lock.release_lock(true), LockStep::Nothing));
}
