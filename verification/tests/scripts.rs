use std::path::{Path, PathBuf};
use tiddlydesktop::fs_abstraction::{
    copy_file, create_dir_all, goes_to_storage, is_directory, list_directory, next_write_step,
    path_exists, read_asset_file, read_file, read_wiki_file, remove_file, temp_path,
    write_wiki_file, write_wiki_file_android, WriteStep,
};
use tiddlydesktop::fs_module::{
    copy_file_sync, get_encoding_option, mkdir_sync, read_file_sync, read_mode, readdir_sync,
    rename_sync, rmdir_sync, stat_sync, text_of_data, unlink_sync, write_file_sync, FileData,
    Options, ReadMode,
};
use tiddlydesktop::init_script::{
    get_dialog_init_script, get_wiki_init_script, get_wiki_init_script_with_language, ScriptParts,
};
use tiddlydesktop::path_module::{
    normalize_separators, path_basename, path_can_be_parsed, path_dirname, path_extname,
    path_is_absolute, path_join, path_normalize, path_parse, path_resolve, resolved_from,
    with_extension,
};
use tiddlydesktop::runtime::{
    get_tiddler_text_script, set_tiddler_script, tiddler_text, ScriptValue, MEMORY_LIMIT,
};
use tiddlydesktop::sanitize::Platform;

fn owned(items: &[&str]) -> Vec<String> {
    items.iter().map(|s| s.to_string()).collect()
}

const PATHS: [&str; 40] = [
    "", "/", "//", ".", "..", "./", "../", "a", "a/", "a//", "/a", "/a/", "//a", "a/b", "a//b",
    "a/./b", "a/.", "a/./", "./a", "././a", "./.", "/.", "/./a", "/..", "a/..", "../a", "a.txt",
    ".bashrc", "a.", "a..b", "dir/.hidden", "dir/a.tar.gz", "dir.d/file", "a/b.c/", "...", "a/...",
    "é/ü.x", ".a/b", "..a", "a/..b.c",
];

#[test]
fn last_parts_are_those_of_std() {
    for p in PATHS {
        let dir = Path::new(p)
            .parent()
            .map(|d| d.to_string_lossy().replace('\\', "/"))
            .unwrap_or_else(|| ".".to_string());
        assert_eq!(path_dirname(p), dir, "dirname of {:?}", p);
        let base = Path::new(p).file_name().map(|n| n.to_string_lossy().to_string()).unwrap_or_default();
        assert_eq!(path_basename(p, None), base, "basename of {:?}", p);
        let ext = Path::new(p)
            .extension()
            .map(|e| format!(".{}", e.to_string_lossy()))
            .unwrap_or_default();
        assert_eq!(path_extname(p), ext, "extname of {:?}", p);
        let mut changed = PathBuf::from(p);
        changed.set_extension("tmp");
        let tmp = changed.to_string_lossy().to_string();
        assert_eq!(with_extension(p, "tmp"), tmp, "with_extension of {:?}", p);
        assert_eq!(temp_path(Platform::Linux, p), tmp);
    }
}

#[test]
fn backslashes_part_directories_on_windows() {
    for (path, temp) in [
        ("a.b\\c", "a.b\\c.tmp"),
        ("C:\\wikis\\my.wiki.html", "C:\\wikis\\my.wiki.tmp"),
        ("a.b\\", "a.tmp"),
        ("C:/x\\y.html", "C:/x\\y.tmp"),
        ("..", ".."),
    ] {
        assert_eq!(temp_path(Platform::Windows, path), temp);
    }
    assert_eq!(temp_path(Platform::Linux, "a.b\\c"), "a.tmp");
}

#[test]
fn joining_is_that_of_std() {
    for a in PATHS {
        for b in PATHS {
            let mut joined = PathBuf::new();
            joined.push(a);
            joined.push(b);
            assert_eq!(path_join(&owned(&[a, b])), joined.to_string_lossy().replace('\\', "/"));
        }
    }
    assert_eq!(path_join(&owned(&["a", "b", "c"])), "a/b/c");
    assert_eq!(path_join(&owned(&["a", "C:\\x"])), "C:/x");
    assert_eq!(path_join(&owned(&[])), "");
    assert_eq!(resolved_from(Some("/cwd"), &owned(&["a"])), "/cwd/a");
    assert_eq!(resolved_from(None, &owned(&["a"])), "/a");
    assert_eq!(path_resolve("/cwd/a", Some("/real/a")), "/real/a");
    assert_eq!(path_resolve("/cwd\\a", None), "/cwd/a");
}

#[test]
fn paths_are_normalized() {
    assert_eq!(path_normalize("/a/./b/../c"), "/a/c");
    assert_eq!(path_normalize("a/../.."), "..");
    assert_eq!(path_normalize("/../a"), "/a");
    assert_eq!(path_normalize(""), ".");
    assert_eq!(path_normalize("a\\b//c"), "a/b/c");
    assert_eq!(path_normalize("C:\\x\\..\\y"), "C:/y");
    assert_eq!(path_normalize("../../a"), "../../a");
    assert_eq!(path_normalize("C:/.."), "");
}

#[test]
fn normalizing_twice_is_once() {
    for p in PATHS {
        let once = path_normalize(p);
        assert_eq!(path_normalize(&once), once, "{:?}", p);
    }
}

#[test]
fn paths_are_taken_apart() {
    let p = path_parse("/home/user/file.txt");
    assert_eq!(p.root, "/");
    assert_eq!(p.dir, "/home/user");
    assert_eq!(p.base, "file.txt");
    assert_eq!(p.ext, ".txt");
    assert_eq!(p.name, "file");
    assert_eq!(p.name.clone() + &p.ext, p.base);
    let p = path_parse("C:\\a");
    assert_eq!(p.root, "C:\\");
    assert!(path_can_be_parsed("C:\\a"));
    assert!(!path_can_be_parsed("😀:\\a"));
    assert_eq!(path_basename("a/b.html", Some(".html")), "b");
    assert_eq!(path_basename("a/b.html", Some(".txt")), "b.html");
    assert!(path_is_absolute("/a"));
    assert!(path_is_absolute("C:"));
    assert!(!path_is_absolute("a"));
    assert_eq!(normalize_separators("a\\b"), "a/b");
}

#[test]
fn file_functions_answer() {
    assert_eq!(get_encoding_option(&Options::Text("utf8".to_string())), Some("utf8".to_string()));
    assert_eq!(get_encoding_option(&Options::Object(None)), None);
    assert!(matches!(read_mode(&Options::Missing), Ok(ReadMode::Bytes)));
    assert!(matches!(read_mode(&Options::Object(Some("utf-8".to_string()))), Ok(ReadMode::Text)));
    assert!(matches!(read_mode(&Options::Other), Ok(ReadMode::Bytes)));
    assert_eq!(
        read_mode(&Options::Text("latin1".to_string())).err(),
        Some("ERR_INVALID_ARG_VALUE: Unknown encoding: latin1".to_string())
    );
    assert_eq!(
        read_file_sync("p", Err::<String, String>("gone".to_string())),
        Err("ENOENT: Failed to read p: gone".to_string())
    );
    assert_eq!(read_file_sync("p", Ok::<u8, String>(7)), Ok(7));
    assert_eq!(
        write_file_sync("p", Err("full".to_string())),
        Err("EACCES: Failed to write p: full".to_string())
    );
    assert_eq!(text_of_data(&FileData::Bytes(vec![0x61, 0xFF])), "a\u{FFFD}");
    assert_eq!(text_of_data(&FileData::Text("x".to_string())), "x");
    assert_eq!(text_of_data(&FileData::Other), "");
    let s = stat_sync("p", true, true).ok().unwrap();
    assert_eq!((s.size, s.mode, s.is_directory, s.is_file), (0, 0o755, true, false));
    let s = stat_sync("p", true, false).ok().unwrap();
    assert_eq!((s.size, s.mode, s.is_directory, s.is_file), (0, 0o644, false, true));
    assert_eq!(
        stat_sync("p", false, false).err(),
        Some("ENOENT: No such file or directory: p".to_string())
    );
    assert_eq!(
        readdir_sync("d", Err("x".to_string())),
        Err("ENOENT: Failed to read directory d: x".to_string())
    );
    assert!(mkdir_sync("d").is_ok());
    assert_eq!(
        unlink_sync("p", Err("x".to_string())),
        Err("ENOENT: Failed to delete p: x".to_string())
    );
    assert_eq!(
        rmdir_sync("d", Err("x".to_string())),
        Err("ENOENT: Failed to remove directory d: x".to_string())
    );
    assert_eq!(
        copy_file_sync("a", "b", Err("x".to_string()), Ok(())),
        Err("ENOENT: Failed to read a: x".to_string())
    );
    assert_eq!(
        rename_sync("a", "b", Ok(vec![]), Err("x".to_string())),
        Err("EACCES: Failed to write b: x".to_string())
    );
    assert_eq!(rename_sync("a", "b", Ok(vec![]), Ok(())), Ok(()));
}

#[test]
fn scripts_quote_what_they_are_given() {
    let script = get_tiddler_text_script("a\"b\\\n\u{1}");
    let quoted = serde_json::to_string("a\"b\\\n\u{1}").unwrap();
    assert_eq!(quoted, "\"a\\\"b\\\\\\n\\u0001\"");
    assert!(script.contains(&format!("$tw.wiki.getTiddler({});", quoted)));
    let script = set_tiddler_script("T", "x\"");
    assert!(script.contains("title: \"T\",\n"));
    assert!(script.contains("text: \"x\\\"\"\n"));
    assert_eq!(MEMORY_LIMIT, 64 * 1024 * 1024);
    assert_eq!(tiddler_text(&ScriptValue::Text("t".to_string())), Some("t".to_string()));
    assert_eq!(tiddler_text(&ScriptValue::Null), None);
    assert_eq!(tiddler_text(&ScriptValue::Undefined), None);
    assert_eq!(tiddler_text(&ScriptValue::Other), None);
}

fn parts(on_linux: bool) -> ScriptParts {
    ScriptParts {
        media_controls_css: "a{}".to_string(),
        dialog_script: "DIALOG".to_string(),
        on_linux,
    }
}

#[test]
fn every_script_is_guarded() {
    let codes: Vec<String> = (0..14).map(|i| format!("code{};", i)).collect();
    let script = get_dialog_init_script(&codes);
    assert!(script.starts_with("window.__tdInitErr=function(n,e){"));
    assert!(script.contains("try{\ncode0;\n}catch(_e){window.__tdInitErr('main.js',_e)}\n"));
    assert!(script.ends_with("try{\ncode13;\n}catch(_e){window.__tdInitErr('peer_status.js',_e)}\n"));
    assert_eq!(script.matches("try{").count(), 14);
}

#[test]
fn window_script_is_put_together() {
    let script = get_wiki_init_script("/w/wiki.html", "wiki-1", false, &parts(false));
    assert_eq!(
        script,
        "\n    window.__WIKI_PATH__ = \"/w/wiki.html\";\n    window.__WINDOW_LABEL__ = \"wiki-1\";\n    window.__IS_MAIN_WIKI__ = false;\n    \n    window.__MEDIA_CONTROLS_CSS__ = \"a{}\";\nDIALOG"
    );
    let script = get_wiki_init_script_with_language("/w/folder", "f", false, Some("de-DE"), &parts(false));
    assert!(script.contains("window.__TIDDLYDESKTOP_LANGUAGE__ = \"de-DE\";"));
    assert!(script.contains("window.__TD_FOLDER_WIKI__ = true;\nwindow.__TD_MEDIA_SERVER__ = true;\n"));
    let script = get_wiki_init_script("/w/folder", "main", true, &parts(true));
    assert!(!script.contains("__TD_FOLDER_WIKI__"));
    assert!(script.contains("window.__TD_MEDIA_SERVER__ = true;\n"));
    assert!(!script.contains("__MEDIA_CONTROLS_CSS__"));
}

#[test]
fn files_are_routed() {
    assert!(goes_to_storage(true, "content://x"));
    assert!(goes_to_storage(true, "{\"uri\":1}"));
    assert!(!goes_to_storage(true, "/a"));
    assert!(!goes_to_storage(false, "content://x"));
    let stored: Result<String, String> = Err("s".to_string());
    let local: Result<String, String> = Err("f".to_string());
    assert_eq!(read_wiki_file(true, "content://x", stored.clone(), local.clone()), Err("s".to_string()));
    assert_eq!(
        read_wiki_file(false, "content://x", stored, local),
        Err("Failed to read wiki file: f".to_string())
    );
    assert_eq!(read_asset_file(Err("f".to_string())), Err("Failed to read asset: f".to_string()));
    assert_eq!(
        read_file(true, "/a", Ok(vec![1]), Err("f".to_string())),
        Err("Failed to read file: f".to_string())
    );
    assert!(path_exists(true, "content://x", true, false));
    assert!(!path_exists(true, "/a", true, false));
    assert!(is_directory(false, "/a", false, true));
    assert_eq!(
        list_directory(false, "/a", Ok(vec![]), Err("f".to_string())),
        Err("Failed to read directory: f".to_string())
    );
    assert_eq!(create_dir_all(true, "{x", Err("f".to_string())), Ok(()));
    assert_eq!(
        create_dir_all(true, "/a", Err("f".to_string())),
        Err("Failed to create directory: f".to_string())
    );
    assert_eq!(
        copy_file(true, "/a", "content://b", Ok(vec![]), Err("r".to_string()), Ok(()), Ok(())),
        Err("Failed to read file: r".to_string())
    );
    assert_eq!(
        copy_file(false, "/a", "/b", Ok(vec![]), Ok(vec![]), Ok(()), Err("w".to_string())),
        Err("Failed to copy file: w".to_string())
    );
    assert_eq!(
        remove_file(false, "/a", Ok(()), Err("f".to_string())),
        Err("Failed to remove file: f".to_string())
    );
    assert_eq!(
        write_wiki_file_android("/a", Ok(()), Err("f".to_string())),
        Err("Failed to write wiki file: f".to_string())
    );
}

#[test]
fn a_wiki_is_never_half_written() {
    let renamed = next_write_step(next_write_step(WriteStep::WriteTemp, true), true);
    assert!(write_wiki_file(renamed, "").is_ok());
    let over = next_write_step(next_write_step(next_write_step(WriteStep::WriteTemp, true), false), true);
    assert!(write_wiki_file(over, "").is_ok());
    let temp = next_write_step(WriteStep::WriteTemp, false);
    assert_eq!(write_wiki_file(temp, "full"), Err("Failed to write temp file: full".to_string()));
    let last = next_write_step(next_write_step(next_write_step(WriteStep::WriteTemp, true), false), false);
    assert_eq!(write_wiki_file(last, "locked"), Err("Failed to write wiki file: locked".to_string()));
}
