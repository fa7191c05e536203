use tiddlydesktop::folder_wiki_server::{
    delete_tiddler, deleted_reply, etag, file_not_found, file_of_bytes,
    find_available_port, handle_request, handle_save_request, is_saf_path, join_path,
    list_json_tiddler, no_directory_reply, not_found, route_single_file, running_url, save_reply,
    save_tiddler, saved_reply, serve_external_file, serve_relative_file, serve_static_file,
    serve_status, serve_tiddler, serve_tiddler_list, serve_wiki_html, start_server,
    start_single_file_server, stop_all_servers, stop_server, stop_single_file_server,
    tiddler_file_kind, tiddler_files, url, Method, PathFault, Route, SingleFileContext,
    SingleRoute, TiddlerFile, TiddlerFileKind,
};
use tiddlydesktop::mime::{guess_mime_type, mime_for_extension, part_after_last};
use tiddlydesktop::table::Table;
use tiddlydesktop::tid::{
    as_fields, parse_tid_file, tiddler_to_tid, title_to_filename, to_json_array, to_json_object,
    FieldValue, TiddlerJson,
};

fn tiddler(title: &str, fields: &[(&str, &str)]) -> TiddlerJson {
    let mut t: Table<FieldValue> = Table::new();
    for (k, v) in fields {
        t.insert(k.to_string(), FieldValue::Text(v.to_string()));
    }
    TiddlerJson { title: title.to_string(), fields: t }
}

#[test]
fn a_written_tiddler_is_read() {
    let t = tiddler("Hello World", &[("tags", "a b"), ("text", "line 1\n\nline 3")]);
    let written = tiddler_to_tid(&t);
    let read = parse_tid_file(&written, false).unwrap();
    assert_eq!(read.get("title"), Some(&"Hello World".to_string()));
    assert_eq!(read.get("tags"), Some(&"a b".to_string()));
    assert_eq!(read.get("text"), Some(&"line 1\n\nline 3".to_string()));
}

#[test]
fn a_skinny_tiddler_has_no_text() {
    let read = parse_tid_file("title: A\ntags: x\n\nthe text", true).unwrap();
    assert_eq!(read.get("title"), Some(&"A".to_string()));
    assert_eq!(read.get("text"), None);
}

#[test]
fn file_names_are_safe() {
    for title in ["$:/core/ui", "a/b\\c:d*e?f\"g<h>i|j", "  ", "Ünïcode", ".hidden.", ""] {
        let name = title_to_filename(title);
        for c in ['/', '\\', ':', '*', '?', '"', '<', '>', '|'] {
            assert!(!name.contains(c), "{:?} -> {:?}", title, name);
        }
    }
    assert_eq!(title_to_filename("Hello"), "Hello");
}

#[test]
fn json_is_written() {
    let mut m: Table<FieldValue> = Table::new();
    m.insert("a".to_string(), FieldValue::Text("x\"y".to_string()));
    m.insert("b".to_string(), FieldValue::Json("[1,2]".to_string()));
    let object = to_json_object(&m);
    let value: serde_json::Value = serde_json::from_str(&object).unwrap();
    assert_eq!(value["a"], "x\"y");
    assert_eq!(value["b"][1], 2);
    let array = to_json_array(&vec![object.clone(), "3".to_string()]);
    let value: serde_json::Value = serde_json::from_str(&array).unwrap();
    assert_eq!(value[0]["a"], "x\"y");
    assert_eq!(value[1], 3);
    let read = parse_tid_file("title: A\n\nT", false).unwrap();
    assert_eq!(as_fields(&read).len(), read.len());
}

#[test]
fn requests_are_routed() {
    assert!(matches!(handle_request(Method::Get, "/"), Route::Wiki));
    assert!(matches!(handle_request(Method::Get, "/index.html"), Route::Wiki));
    assert!(matches!(handle_request(Method::Get, "/status"), Route::Status));
    assert!(matches!(
        handle_request(Method::Get, "/recipes/default/tiddlers.json"),
        Route::TiddlerList { skinny: false }
    ));
    assert!(matches!(
        handle_request(Method::Get, "/recipes/default/tiddlers.json?fat=0"),
        Route::TiddlerList { skinny: true }
    ));
    assert!(matches!(handle_request(Method::Get, "/files/a.png"), Route::StaticFile));
    assert!(matches!(handle_request(Method::Get, "/bags/x"), Route::NotFound));
    assert!(matches!(handle_request(Method::Other, "/"), Route::NotFound));
    assert!(matches!(
        handle_request(Method::Get, "/recipes/default/tiddlers/"),
        Route::Tiddler(t) if t.is_empty()
    ));
}

#[test]
fn one_url_means_one_tiddler() {
    let url = "/recipes/default/tiddlers/A%20B";
    let get = match handle_request(Method::Get, url) {
        Route::Tiddler(t) => t,
        _ => panic!("not a tiddler"),
    };
    let put = match handle_request(Method::Put, url) {
        Route::SaveTiddler(t) => t,
        _ => panic!("not saved"),
    };
    let delete = match handle_request(Method::Delete, url) {
        Route::DeleteTiddler(t) => t,
        _ => panic!("not deleted"),
    };
    assert_eq!(get, "A B");
    assert_eq!(get, put);
    assert_eq!(get, delete);
    match handle_request(Method::Put, "/bags/default/tiddlers/A%20B") {
        Route::SaveTiddler(t) => assert_eq!(t, get),
        _ => panic!("not saved"),
    }
    match handle_request(Method::Put, "/bags/default/tiddlers/A%2FB") {
        Route::SaveTiddler(t) => assert_eq!(t, "A/B"),
        _ => panic!("not saved"),
    }
}

#[test]
fn a_saved_tiddler_is_served() {
    let t = tiddler("My Tiddler", &[("text", "Hello")]);
    let plan = save_tiddler("My Tiddler", &t);
    let (tid, json) = tiddler_files("My Tiddler");
    assert_eq!(plan.file_name, tid);
    assert!(json.ends_with(".json"));
    assert_eq!(plan.etag, etag("My Tiddler"));
    let reply = serve_tiddler(Some(plan.content), None);
    assert_eq!(reply.status, 200);
    let value: serde_json::Value = serde_json::from_str(&reply.body).unwrap();
    assert_eq!(value["title"], "My Tiddler");
    assert_eq!(value["text"], "Hello");
    assert_eq!(serve_tiddler(None, None).status, 404);
    assert_eq!(saved_reply("{}".to_string()).body, "{}");
    assert!(etag("A B").contains("A%20B"));
}

#[test]
fn tiddlers_are_listed() {
    assert!(matches!(tiddler_file_kind("a.tid", false), TiddlerFileKind::Tid));
    assert!(matches!(tiddler_file_kind("a.json", false), TiddlerFileKind::Json));
    assert!(matches!(tiddler_file_kind("a.tid", true), TiddlerFileKind::Skip));
    assert!(matches!(tiddler_file_kind("a.png", false), TiddlerFileKind::Skip));
    let files = vec![
        TiddlerFile::Tid("title: A\n\nx".to_string()),
        TiddlerFile::Json(tiddler("B", &[("text", "y")])),
    ];
    let reply = serve_tiddler_list(Some(files), true);
    let value: serde_json::Value = serde_json::from_str(&reply.body).unwrap();
    assert_eq!(value[0]["title"], "A");
    assert_eq!(value[1]["title"], "B");
    assert!(value[1].get("text").is_none());
    assert_eq!(serve_tiddler_list(None, false).body, "[]");
    let fields = list_json_tiddler(&tiddler("B", &[("text", "y")]), false);
    assert!(fields.contains_key("text"));
    assert_eq!(delete_tiddler(Some("t"), Some("j")), Some("t"));
    assert_eq!(delete_tiddler(None, Some("j")), Some("j"));
    assert_eq!(delete_tiddler(None, None), None);
    assert_eq!(deleted_reply().status, 204);
    assert_eq!(no_directory_reply().status, 500);
    assert_eq!(not_found().status, 404);
    assert_eq!(serve_wiki_html("<p>").body, "<p>");
    let status: serde_json::Value = serde_json::from_str(&serve_status().body).unwrap();
    assert_eq!(status["space"]["recipe"], "default");
    assert_eq!(serve_static_file("/files/a%20b.png"), vec!["files".to_string(), "a b.png".to_string()]);
}

#[test]
fn a_saved_wiki_is_served() {
    let mut context = SingleFileContext {
        wiki_path: "w".to_string(),
        wiki_content: "old".to_string(),
        wiki_dir: None,
    };
    assert_eq!(
        handle_save_request(&mut context, Ok("new".to_string()), Err("full".to_string())),
        Err("full".to_string())
    );
    assert_eq!(serve_wiki_html(&context.wiki_content).body, "old");
    assert_eq!(
        handle_save_request(&mut context, Err("x".to_string()), Ok(())),
        Err("Failed to read request body: x".to_string())
    );
    assert_eq!(handle_save_request(&mut context, Ok("new".to_string()), Ok(())), Ok(()));
    assert_eq!(serve_wiki_html(&context.wiki_content).body, "new");
    assert_eq!(save_reply(Ok(())).body, "OK");
    assert_eq!(save_reply(Err("e".to_string())).status, 500);
}

#[test]
fn single_files_are_routed() {
    assert!(matches!(route_single_file(Method::Get, "/"), SingleRoute::Wiki));
    assert!(matches!(route_single_file(Method::Put, "/save"), SingleRoute::Save));
    assert!(matches!(route_single_file(Method::Get, "/other"), SingleRoute::NotFound));
    match route_single_file(Method::Get, "/_file/abc") {
        SingleRoute::File(p) => assert_eq!(p, "abc"),
        _ => panic!("not a file"),
    }
    match route_single_file(Method::Get, "/_relative/a%20b") {
        SingleRoute::Relative(p) => assert_eq!(p, "a%20b"),
        _ => panic!("not relative"),
    }
    assert_eq!(file_not_found().body, "File not found");
}

#[test]
fn files_are_found() {
    // "L3RtcC9hLnBuZw" is "/tmp/a.png" in the URL-safe alphabet.
    let file = serve_external_file("L3RtcC9hLnBuZw").ok().unwrap();
    assert_eq!(file.path, "/tmp/a.png");
    assert_eq!(file.mime, "image/png");
    assert!(!file.saf);
    assert!(matches!(serve_external_file("!!"), Err(PathFault::NotBase64)));
    assert!(matches!(file_of_bytes(Some(vec![0xFF])), Err(PathFault::NotUtf8)));
    assert!(matches!(file_of_bytes(None), Err(PathFault::NotBase64)));
    let file = serve_relative_file("a%20b.txt", Some("/wiki")).ok().unwrap();
    assert_eq!(file.path, "/wiki/a b.txt");
    assert_eq!(file.name, "a b.txt");
    assert!(matches!(serve_relative_file("a", None), Err(PathFault::NoDirectory)));
    assert!(matches!(serve_relative_file("%FF", Some("/w")), Err(PathFault::NotDecodable)));
    assert!(is_saf_path("content://a"));
    assert_eq!(join_path("/a", "b"), "/a/b");
    assert_eq!(join_path("/a", "/b"), "/b");
}

#[test]
fn one_server_runs_for_a_wiki() {
    let mut servers: Table<u16> = Table::new();
    let first = start_server(&mut servers, "w", Ok(39001)).unwrap();
    assert_eq!(first, "http://127.0.0.1:39001");
    assert_eq!(start_server(&mut servers, "w", Ok(39002)).unwrap(), first);
    assert_eq!(running_url(&servers, "w"), Some(first));
    assert_eq!(start_server(&mut servers, "v", Err("no".to_string())), Err("no".to_string()));
    assert_eq!(stop_server(&mut servers, "w"), Some(39001));
    assert_eq!(running_url(&servers, "w"), None);
    start_single_file_server(&mut servers, "x", Ok(39003)).unwrap();
    assert_eq!(stop_single_file_server(&mut servers, "x"), Some(39003));
    start_server(&mut servers, "y", Ok(39004)).unwrap();
    assert_eq!(stop_all_servers(&mut servers), vec![39004]);
    assert_eq!(servers.len(), 0);
    assert_eq!(url(39000), "http://127.0.0.1:39000");
}

#[test]
fn ports_are_tried_in_order() {
    assert_eq!(find_available_port(None), Ok(39000));
    assert_eq!(find_available_port(Some(39000)), Ok(39001));
    assert_eq!(find_available_port(Some(39999)), Err("No available ports found".to_string()));
}

#[test]
fn types_are_guessed() {
    assert_eq!(guess_mime_type("a.PNG"), "image/png");
    assert_eq!(guess_mime_type("a.unknown"), "application/octet-stream");
    assert_eq!(mime_for_extension("html"), "text/html");
    assert_eq!(part_after_last("a.b.c", '.'), "c");
    assert_eq!(part_after_last("abc", '.'), "abc");
}
