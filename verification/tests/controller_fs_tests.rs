use gutenberg::config::Config;
use gutenberg::controller::{classify_change, detect_change_kind, is_temp_file, plan_rebuild,
    ChangeKind, RebuildAction};
use gutenberg::fs::{copy_action, file_stale, get_file_time, is_path_in_directory, CopyAction,
    FileStamp};
use gutenberg::global_fns::get_url;

#[test]
fn test_can_recognize_temp_files() {
    let testcases = vec![
        "hello.swp",
        "hello.swx",
        ".DS_STORE",
        "hello.tmp",
        "hello.html.__jb_old___",
        "hello.html.__jb_tmp___",
        "hello.html.__jb_bak___",
        "hello.html~",
        "#hello.html",
    ];
    for t in testcases {
        assert!(is_temp_file(t));
    }
    assert!(!is_temp_file("hello.md"));
}

#[test]
fn test_can_detect_kind_of_changes() {
    let testcases = vec![
        (
            (ChangeKind::Templates, "/templates/hello.html".to_string()),
            "/home/vincent/site",
            "/home/vincent/site/templates/hello.html",
        ),
        (
            (ChangeKind::StaticFiles, "/static/site.css".to_string()),
            "/home/vincent/site",
            "/home/vincent/site/static/site.css",
        ),
        (
            (ChangeKind::Content, "/content/posts/hello.md".to_string()),
            "/home/vincent/site",
            "/home/vincent/site/content/posts/hello.md",
        ),
    ];
    for (expected, pwd, path) in testcases {
        let got = detect_change_kind(pwd, path);
        assert_eq!(expected.0, got.0);
        assert_eq!(expected.1, got.1);
    }
}

#[test]
fn unclassified_change_is_fatal() {
    let res = classify_change("/home/vincent/site", "/home/vincent/site/other/file.txt");
    assert!(res.is_err());
}

#[test]
fn template_change_renders_all_without_reparse() {
    let action = plan_rebuild(ChangeKind::Templates, "/templates/hello.html");
    assert!(matches!(action, RebuildAction::RenderAll));
    let action = plan_rebuild(ChangeKind::Content, "/content/posts/hello.md");
    match action {
        RebuildAction::ReparseAndRelink { path } => assert_eq!(path, "/content/posts/hello.md"),
        _ => panic!("content change must reparse exactly one file"),
    }
    let action = plan_rebuild(ChangeKind::StaticFiles, "/static/site.css");
    match action {
        RebuildAction::CopyStatic { path } => assert_eq!(path, "/static/site.css"),
        _ => panic!("static change must copy one file"),
    }
}

#[test]
fn can_add_cachebust_to_url() {
    let config = Config::default();
    let url = get_url(&Vec::new(), &config, "app.css", true).unwrap();
    assert_eq!(url, "http://a-website.com/app.css/?t=1");
}

#[test]
fn can_link_to_some_static_file() {
    let config = Config::default();
    let url = get_url(&Vec::new(), &config, "app.css", false).unwrap();
    assert_eq!(url, "http://a-website.com/app.css/");
}

#[test]
fn get_url_resolves_internal_links() {
    let config = Config::default();
    let table = vec![(
        "pages/about.md".to_string(),
        "http://a-website.com/pages/about/".to_string(),
    )];
    let url = get_url(&table, &config, "./pages/about.md#top", false).unwrap();
    assert_eq!(url, "http://a-website.com/pages/about/#top");
    assert!(get_url(&Vec::new(), &config, "./missing.md", false).is_err());
}

#[test]
fn copy_decision_follows_the_staleness_rule() {
    let src = FileStamp { mtime: 100, len: 10 };
    // fresh destination: copy the bytes
    assert_eq!(copy_action(false, None, "a.txt", src, None), CopyAction::CopyBytes);
    // second call after a copy forced the timestamp: skip
    assert_eq!(
        copy_action(false, None, "a.txt", src, Some(FileStamp { mtime: 100, len: 10 })),
        CopyAction::Skip
    );
    // same length, different time: copy again
    assert_eq!(
        copy_action(false, None, "a.txt", src, Some(FileStamp { mtime: 42, len: 10 })),
        CopyAction::CopyBytes
    );
    // same time, different length: copy again
    assert_eq!(
        copy_action(false, None, "a.txt", src, Some(FileStamp { mtime: 100, len: 9 })),
        CopyAction::CopyBytes
    );
    // a hard link wins over everything
    assert_eq!(
        copy_action(true, None, "a.txt", src, Some(FileStamp { mtime: 100, len: 10 })),
        CopyAction::CreateHardLink
    );
    // recognized image with an optimization level set
    assert_eq!(copy_action(false, Some(2), "photo.PNG", src, None), CopyAction::OptimizeImage);
    assert_eq!(copy_action(false, None, "photo.png", src, None), CopyAction::CopyBytes);
    assert_eq!(copy_action(false, Some(2), "photo.jpg", src, None), CopyAction::CopyBytes);
}

#[test]
fn staleness_and_file_times() {
    assert!(file_stale(false, Some(5), Some(9)));
    assert!(!file_stale(true, Some(5), Some(9)));
    assert!(file_stale(true, Some(10), Some(9)));
    assert!(file_stale(true, None, Some(9)));
    assert_eq!(get_file_time(Some(3), Some(7)), Some(7));
    assert_eq!(get_file_time(Some(8), Some(7)), Some(8));
    assert_eq!(get_file_time(None, Some(7)), Some(7));
    assert_eq!(get_file_time(None, None), None);
}

#[test]
fn paths_nest_by_components() {
    assert!(is_path_in_directory("/home/site", "/home/site/content/a.md"));
    assert!(is_path_in_directory("/home/site/", "/home/site/content"));
    assert!(!is_path_in_directory("/home/site", "/home/other/a.md"));
}

#[test]
fn config_parse_reads_the_fields() {
    let c = gutenberg::config::Config::parse(
        "base_url = \"http://hello.com\"\ntheme = \"plain\"\nignored_content = [\"*.js\"]\n",
    )
    .unwrap();
    assert_eq!(c.base_url, "http://hello.com");
    assert_eq!(c.theme, Some("plain".to_string()));
    assert_eq!(c.ignored_content, vec!["*.js".to_string()]);
    assert_eq!(c.build_timestamp, Some(1));

    let d = gutenberg::config::Config::parse("").unwrap();
    assert_eq!(d.base_url, "http://a-website.com");
    assert!(d.theme.is_none());
    assert!(d.ignored_content.is_empty());

    assert!(gutenberg::config::Config::parse("base_url = 7\n").is_err());
    assert!(gutenberg::config::Config::parse("= nonsense").is_err());
}

#[test]
fn strip_bom_removes_a_leading_mark() {
    assert_eq!(gutenberg::strtools::strip_bom("\u{feff}+++"), "+++");
    assert_eq!(gutenberg::strtools::strip_bom("+++"), "+++");
    assert_eq!(gutenberg::strtools::strip_bom(""), "");
}
