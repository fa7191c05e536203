use tiddlydesktop::sanitize::{
    check_path_text, clean_entry, clean_uri_list, device_name, is_dangerous_url, is_unc_admin_share, is_user_accessible_path,
    lowercase_url_is_dangerous, path_lies_in, pattern_pass, sanitize_file_paths, sanitize_html,
    sanitize_uri_list, validate_directory_path, validate_file_path, validate_file_path_windows,
    validate_user_directory_path, validate_user_file_path, validate_wiki_path,
    validate_wiki_path_for_write, verify_path_permissions, windows_location, AccessFacts,
    PathFacts, PathStatus, Platform, WriteFacts,
};

#[test]
fn test_dangerous_urls() {
    assert!(is_dangerous_url("javascript:alert(1)"));
    assert!(is_dangerous_url("JAVASCRIPT:alert(1)"));
    assert!(is_dangerous_url("  javascript:alert(1)"));
    assert!(is_dangerous_url("vbscript:msgbox(1)"));
    assert!(is_dangerous_url("data:text/html,<script>alert(1)</script>"));
    assert!(is_dangerous_url("about:blank"));
    assert!(is_dangerous_url("blob:http://example.com/uuid"));

    assert!(!is_dangerous_url("https://example.com"));
    assert!(!is_dangerous_url("http://example.com"));
    assert!(!is_dangerous_url("file:///path/to/file"));
    assert!(!is_dangerous_url("data:text/plain,hello"));
    assert!(!is_dangerous_url("data:image/png;base64,ABC123"));
}

#[test]
fn test_html_sanitization() {
    assert_eq!(
        sanitize_html("<p>Hello</p><script>alert(1)</script><p>World</p>"),
        "<p>Hello</p><p>World</p>"
    );
    assert_eq!(
        sanitize_html(r#"<img src="x" onerror="alert(1)">"#),
        r#"<img src="x">"#
    );
    assert_eq!(
        sanitize_html(r#"<a href="javascript:alert(1)">Click</a>"#),
        r#"<a >Click</a>"#
    );
    assert_eq!(
        sanitize_html("<p>Hello <b>World</b></p>"),
        "<p>Hello <b>World</b></p>"
    );
}

#[test]
fn test_path_validation() {
    assert!(validate_file_path("/home/user/file.txt").is_some());
    assert!(validate_file_path("C:\\Users\\file.txt").is_some());

    assert!(validate_file_path("/home/user/../etc/passwd").is_none());
    assert!(validate_file_path("..\\..\\Windows\\System32").is_none());

    assert!(validate_file_path("~/Documents/file.txt").is_none());
    assert!(validate_file_path("~user/file.txt").is_none());

    assert!(validate_file_path("/home/user/%2e%2e/etc/passwd").is_none());
    assert!(validate_file_path("/path/%2E%2E/secret").is_none());

    assert!(validate_file_path("/home/user/%252e%252e/etc/passwd").is_none());

    assert!(validate_file_path("/path/%25252e%25252e/secret").is_none());

    assert!(validate_file_path("%7e/Documents/file.txt").is_none());
    assert!(validate_file_path("%257e/Documents/file.txt").is_none());
}

fn accessible(platform: Platform, path: &str, home: &str) -> bool {
    is_user_accessible_path(platform, path, Some(home), &[PathStatus::Found])
}

#[test]
fn test_user_accessible_path() {
    let home = "/home/user";
    assert!(accessible(Platform::Linux, home, home));
    assert!(accessible(Platform::Linux, &format!("{}/Documents", home), home));
    assert!(accessible(Platform::Linux, &format!("{}/.config", home), home));

    assert!(accessible(Platform::Linux, "/tmp/file.txt", home));

    assert!(accessible(Platform::Linux, "/media/user/USB", home));
    assert!(accessible(Platform::Linux, "/mnt/external", home));
    assert!(accessible(Platform::Linux, "/run/media/user/USB", home));

    assert!(!accessible(Platform::Linux, "/home/otheruser/Documents", home));

    assert!(!accessible(Platform::Linux, "/etc/passwd", home));
    assert!(!accessible(Platform::Linux, "/usr/bin/bash", home));
    assert!(!accessible(Platform::Linux, "/var/log/syslog", home));
    assert!(!accessible(Platform::Linux, "/root/.bashrc", home));
    assert!(!accessible(Platform::Linux, "/opt/app", home));

    let home = "/Users/user";
    assert!(accessible(Platform::MacOs, home, home));
    assert!(accessible(Platform::MacOs, &format!("{}/Documents", home), home));

    assert!(accessible(Platform::MacOs, "/Volumes/USB", home));

    assert!(accessible(Platform::MacOs, "/Applications/App.app", home));

    assert!(accessible(Platform::MacOs, "/tmp/file.txt", home));

    assert!(!accessible(Platform::MacOs, "/Users/otheruser/Documents", home));

    assert!(!accessible(Platform::MacOs, "/etc/passwd", home));
    assert!(!accessible(Platform::MacOs, "/System/Library", home));
    assert!(!accessible(Platform::MacOs, "/usr/bin/bash", home));

    let home = "C:\\Users\\user";
    assert!(accessible(Platform::Windows, home, home));

    assert!(accessible(Platform::Windows, "D:\\Projects", home));
    assert!(accessible(Platform::Windows, "E:\\USB_Drive", home));

    assert!(!accessible(Platform::Windows, "C:\\Users\\otheruser\\Documents", home));

    assert!(!accessible(Platform::Windows, "C:\\Windows\\System32", home));
    assert!(!accessible(Platform::Windows, "C:\\Program Files\\App", home));
}

#[test]
fn real_home_is_accessible() {
    let home = dirs::home_dir().expect("Should have home dir");
    let home_str = home.to_string_lossy().to_string();
    assert!(accessible(Platform::Linux, &home_str, &home_str));
}

#[test]
fn a_sanitized_list_holds_no_dangerous_line() {
    let list = "# comment\nhttps://example.com\njavascript:alert(1)\n  DATA:text/html,x\nfile:///a";
    let kept = sanitize_uri_list(list);
    assert_eq!(kept, "# comment\nhttps://example.com\nfile:///a");
    for line in kept.lines() {
        assert!(!is_dangerous_url(line));
    }
}

#[test]
fn lower_case_comes_first() {
    assert!(lowercase_url_is_dangerous("javascript:x"));
    assert!(!lowercase_url_is_dangerous("JAVASCRIPT:x"));
    assert!(is_dangerous_url("JavaScript:x"));
}

#[test]
fn a_pass_that_fails_changes_nothing() {
    assert_eq!(pattern_pass(Some("a".to_string()), "b"), "a");
    assert_eq!(pattern_pass(None, "b"), "b");
}

#[test]
fn escapes_hide_no_traversal() {
    let mut path = "/a/../b".to_string();
    for _ in 0..5 {
        path = path.replace('%', "%25").replace("..", "%2e%2e");
        assert!(validate_file_path(&path).is_none(), "{}", path);
    }
    assert_eq!(validate_file_path("/a/%2e/b"), Some("/a/%2e/b".to_string()));
    assert!(validate_file_path("/home/%ff/%2e%2e/etc/passwd").is_none());
    assert!(validate_file_path("/home/%25ff/%252e%252e/etc/passwd").is_none());
    assert!(validate_file_path("%7e%ff").is_none());
    assert_eq!(validate_file_path("/home/100%ff"), Some("/home/100%ff".to_string()));
}

#[test]
fn shared_places_end_with_their_name() {
    for path in ["/tmpfoo/x.html", "/mediax", "/mnt2/a", "/run/mediax/a"] {
        assert!(!accessible(Platform::Linux, path, "/home/u"), "{}", path);
    }
    for path in ["/tmpfoo", "/private/tmpx/a", "/Volumes2/a", "/ApplicationsX"] {
        assert!(!accessible(Platform::MacOs, path, "/Users/u"), "{}", path);
    }
    assert!(accessible(Platform::Linux, "/tmp", "/home/u"));
    assert!(accessible(Platform::MacOs, "/private/tmp/a", "/Users/u"));
}

#[test]
fn harmless_lists_stay() {
    assert_eq!(clean_uri_list("https://a\r\n"), "https://a\r\n");
    assert_eq!(clean_uri_list("https://a\r\njavascript:x\r\n"), "https://a");
    assert_eq!(clean_entry("text/uri-list", "# c\n\n"), Some("# c\n\n".to_string()));
    assert_eq!(clean_entry("URL", "javascript:x"), None);
}

#[test]
fn clean_html_stays() {
    for (html, clean) in [
        ("<img src=x onerror=alert(1)>", "<img src=x>"),
        ("<img/onerror=alert(1)>", "<img/>"),
        ("<img src=\"x\"onerror=alert(1)>", "<img src=\"x\">"),
        ("<img src=\"x\" ONERROR='a' onload=b>", "<img src=\"x\">"),
        ("<a title=\">\" onclick=f()>t</a>", "<a title=\">\">t</a>"),
        ("<scr<script></script>ipt>x</script>y", "y"),
        ("<SCRIPT src=a>x</SCRIPT >y", "y"),
        ("a<script>b", "ab"),
        ("a</script >b<scr</script>ipt>c", "abc"),
        ("<p>a script</p><scripted>", "<p>a script</p><scripted>"),
        ("<p>the only = 3</p>", "<p>the only = 3</p>"),
        ("<a data-once=\"1\" href=\"/online=1\">t</a>", "<a data-once=\"1\" href=\"/online=1\">t</a>"),
        ("<a href=\"javajavascript:script:f()\">t</a>", "<a >t</a>"),
    ] {
        assert_eq!(sanitize_html(html), clean);
        assert_eq!(sanitize_html(clean), clean);
    }
}

#[test]
fn windows_refuses_streams_and_devices() {
    assert!(validate_file_path_windows("C:\\a\\b.txt", "b").is_some());
    assert!(validate_file_path_windows("dir\\a:b:c", "a").is_none());
    assert!(validate_file_path_windows("C:\\con.txt", "con").is_none());
    assert!(validate_file_path_windows("C:\\Lpt1", "Lpt1").is_none());
    assert!(device_name("CON"));
    assert!(device_name("COM9"));
    assert!(!device_name("COM10"));
    assert!(!device_name("con"));
}

#[test]
fn only_accepted_paths_are_kept() {
    let paths = vec!["/a".to_string(), "~b".to_string(), "/c/..".to_string(), "/d".to_string()];
    assert_eq!(sanitize_file_paths(paths), vec!["/a".to_string(), "/d".to_string()]);
}

fn facts(canonical: Result<&str, &str>, is_dir: bool, ext: Option<&str>) -> PathFacts {
    PathFacts {
        platform: Platform::Linux,
        stem: "wiki".to_string(),
        absolute: true,
        canonical: canonical.map(|s| s.to_string()).map_err(|e| e.to_string()),
        is_dir,
        extension: ext.map(|s| s.to_string()),
    }
}

#[test]
fn wiki_paths_are_judged() {
    assert_eq!(
        validate_wiki_path("/w/wiki.html", &facts(Ok("/real/wiki.html"), false, Some("html"))),
        Ok("/real/wiki.html".to_string())
    );
    assert_eq!(
        validate_wiki_path("", &facts(Ok("/x"), false, None)),
        Err("Path is empty".to_string())
    );
    assert!(validate_wiki_path("/w/wiki.html", &facts(Err("gone"), false, None)).is_err());
    assert!(validate_wiki_path("/w/wiki.exe", &facts(Ok("/w/wiki.exe"), false, Some("exe"))).is_err());
    assert!(check_path_text("/a", Platform::Linux, "a", true).is_none());
    assert!(check_path_text("a", Platform::Linux, "a", false).is_some());
    assert_eq!(
        validate_directory_path("/w", &facts(Ok("/real"), true, None)),
        Ok("/real".to_string())
    );
    assert_eq!(
        validate_directory_path("/w", &facts(Ok("/real"), false, None)),
        Err("Path is not a directory".to_string())
    );
}

#[test]
fn a_wiki_to_be_written_needs_the_extension() {
    let facts = |ext: Option<&str>| WriteFacts {
        platform: Platform::Linux,
        stem: "wiki".to_string(),
        absolute: true,
        extension: ext.map(|s| s.to_string()),
        exists: true,
        canonical: Ok("/real/wiki.html".to_string()),
        is_dir: false,
        has_parent: true,
        parent_exists: true,
        canonical_parent: Ok("/real".to_string()),
        parent_is_dir: true,
        file_name: Some("wiki.html".to_string()),
    };
    assert_eq!(
        validate_wiki_path_for_write("/w/wiki.html", &facts(Some("html"))),
        Ok("/real/wiki.html".to_string())
    );
    assert_eq!(
        validate_wiki_path_for_write("/w/wiki.txt", &facts(Some("txt"))),
        Err("Wiki files must have .html or .htm extension".to_string())
    );
}

#[test]
fn user_paths_need_access() {
    let access = AccessFacts {
        home: Some("/home/user".to_string()),
        statuses: vec![PathStatus::Found],
    };
    assert_eq!(
        validate_user_file_path("/home/user/a", &facts(Ok("/home/user/a"), false, None), &access),
        Ok("/home/user/a".to_string())
    );
    assert!(validate_user_file_path("/x", &facts(Ok("/etc/passwd"), false, None), &access).is_err());
    assert!(validate_user_directory_path("/x", &facts(Ok("/home/user"), true, None), &access).is_ok());
    assert!(validate_user_directory_path("/x", &facts(Ok("/etc"), true, None), &access).is_err());
}

#[test]
fn the_nearest_existing_ancestor_decides() {
    assert!(verify_path_permissions(&[PathStatus::Missing, PathStatus::Found]));
    assert!(!verify_path_permissions(&[PathStatus::Missing, PathStatus::Denied]));
    assert!(!verify_path_permissions(&[PathStatus::Missing]));
    assert!(!verify_path_permissions(&[]));
}

#[test]
fn places_are_compared_part_by_part() {
    assert!(path_lies_in("/home/user/a", "/home/user"));
    assert!(path_lies_in("/home/user", "/home/user"));
    assert!(!path_lies_in("/home/username", "/home/user"));
    assert!(is_unc_admin_share("\\\\server\\c$\\x"));
    assert!(!is_unc_admin_share("\\\\server\\share"));
    assert!(!windows_location("c:\\windows\\x", "c:\\users\\me"));
    assert!(windows_location("c:\\users\\me\\x", "c:\\users\\me"));
}
