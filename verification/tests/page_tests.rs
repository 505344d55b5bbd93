use gutenberg::config::Config;
use gutenberg::front_matter::InsertAnchor;
use gutenberg::page::Page;

#[test]
fn test_can_parse_a_valid_page() {
    let content = r#"
+++
title = "Hello"
description = "hey there"
slug = "hello-world"
+++
Hello world"#;
    let res = Page::parse("post.md", content, &Config::default());
    assert!(res.is_ok());
    let mut page = res.unwrap();
    page.render_markdown(&Vec::new(), InsertAnchor::Off).unwrap();

    assert_eq!(page.meta.title.unwrap(), "Hello".to_string());
    assert_eq!(page.meta.slug.unwrap(), "hello-world".to_string());
    assert_eq!(page.raw_content, "Hello world".to_string());
    assert_eq!(page.content, "<p>Hello world</p>\n".to_string());
}

#[test]
fn test_can_make_url_from_sections_and_slug() {
    let content = "\n    +++\n    slug = \"hello-world\"\n    +++\n    Hello world";
    let mut conf = Config::default();
    conf.base_url = "http://hello.com/".to_string();
    let res = Page::parse("content/posts/intro/start.md", content, &conf);
    assert!(res.is_ok());
    let page = res.unwrap();
    assert_eq!(page.path, "posts/intro/hello-world/");
    assert_eq!(page.components, vec!["posts", "intro", "hello-world"]);
    assert_eq!(page.permalink, "http://hello.com/posts/intro/hello-world/");
}

#[test]
fn can_make_url_from_slug_only() {
    let content = "\n    +++\n    slug = \"hello-world\"\n    +++\n    Hello world";
    let config = Config::default();
    let res = Page::parse("start.md", content, &config);
    assert!(res.is_ok());
    let page = res.unwrap();
    assert_eq!(page.path, "hello-world/");
    assert_eq!(page.components, vec!["hello-world"]);
    assert_eq!(page.permalink, config.make_permalink("hello-world"));
}

#[test]
fn can_make_url_from_path() {
    let content = "\n    +++\n    path = \"hello-world\"\n    +++\n    Hello world";
    let config = Config::default();
    let res = Page::parse("content/posts/intro/start.md", content, &config);
    assert!(res.is_ok());
    let page = res.unwrap();
    assert_eq!(page.path, "hello-world/");
    assert_eq!(page.components, vec!["hello-world"]);
    assert_eq!(page.permalink, config.make_permalink("hello-world"));
}

#[test]
fn can_make_url_from_path_starting_slash() {
    let content = "\n    +++\n    path = \"/hello-world\"\n    +++\n    Hello world";
    let config = Config::default();
    let res = Page::parse("content/posts/intro/start.md", content, &config);
    assert!(res.is_ok());
    let page = res.unwrap();
    assert_eq!(page.path, "hello-world/");
    assert_eq!(page.permalink, config.make_permalink("hello-world"));
}

#[test]
fn errors_on_invalid_front_matter_format() {
    // missing the opening delimiter
    let content = r#"
    title = "Hello"
    description = "hey there"
    slug = "hello-world"
    +++
    Hello world"#;
    let res = Page::parse("start.md", content, &Config::default());
    assert!(res.is_err());
    assert!(res.err().unwrap().is_parse());
}

#[test]
fn can_make_slug_from_non_slug_filename() {
    let config = Config::default();
    let res = Page::parse(" file with space.md", "+++\n+++", &config);
    assert!(res.is_ok());
    let page = res.unwrap();
    assert_eq!(page.slug, "file-with-space");
    assert_eq!(page.permalink, config.make_permalink(&page.slug));
}

#[test]
fn can_specify_summary() {
    let config = Config::default();
    let content = "\n+++\n+++\nHello world\n<!-- more -->".to_string();
    let res = Page::parse("hello.md", &content, &config);
    assert!(res.is_ok());
    let mut page = res.unwrap();
    page.render_markdown(&Vec::new(), InsertAnchor::Off).unwrap();
    assert_eq!(page.summary, Some("<p>Hello world</p>\n".to_string()));
}

#[test]
fn page_with_assets_gets_right_info() {
    let res = Page::parse("content/posts/with-assets/index.md", "+++\n+++\n", &Config::default());
    assert!(res.is_ok());
    let mut page = res.unwrap();
    let siblings = vec![
        "index.md".to_string(),
        "example.js".to_string(),
        "graph.jpg".to_string(),
        "fail.png".to_string(),
    ];
    page.attach_assets(&siblings, &Config::default());
    assert_eq!(page.file.parent, "content/posts");
    assert_eq!(page.slug, "with-assets");
    assert_eq!(page.assets.len(), 3);
    assert_eq!(page.permalink, "http://a-website.com/posts/with-assets/");
}

#[test]
fn page_with_assets_and_slug_overrides_path() {
    let res = Page::parse(
        "content/posts/with-assets/index.md",
        "+++\nslug=\"hey\"\n+++\n",
        &Config::default(),
    );
    assert!(res.is_ok());
    let mut page = res.unwrap();
    let siblings = vec![
        "index.md".to_string(),
        "example.js".to_string(),
        "graph.jpg".to_string(),
        "fail.png".to_string(),
    ];
    page.attach_assets(&siblings, &Config::default());
    assert_eq!(page.file.parent, "content/posts");
    assert_eq!(page.slug, "hey");
    assert_eq!(page.assets.len(), 3);
    assert_eq!(page.permalink, "http://a-website.com/posts/hey/");
}

#[test]
fn page_with_ignored_assets_filters_out_correct_files() {
    let mut config = Config::default();
    config.ignored_content = vec!["*.{js,png}".to_string()];
    let res = Page::parse(
        "content/posts/with-assets/index.md",
        "+++\nslug=\"hey\"\n+++\n",
        &config,
    );
    assert!(res.is_ok());
    let mut page = res.unwrap();
    let siblings = vec![
        "index.md".to_string(),
        "example.js".to_string(),
        "graph.jpg".to_string(),
        "fail.png".to_string(),
    ];
    page.attach_assets(&siblings, &config);
    assert_eq!(page.assets.len(), 1);
    assert_eq!(page.assets[0], "graph.jpg");
}

#[test]
fn non_index_page_never_collects_assets() {
    let res = Page::parse("content/posts/start.md", "+++\n+++\n", &Config::default());
    let mut page = res.unwrap();
    let siblings = vec!["example.js".to_string(), "graph.jpg".to_string()];
    page.attach_assets(&siblings, &Config::default());
    assert_eq!(page.assets.len(), 0);
}

#[test]
fn word_count_and_reading_time_are_derived() {
    let res = Page::parse("post.md", "+++\n+++\none two three four", &Config::default());
    let page = res.unwrap();
    assert_eq!(page.word_count, Some(4));
    assert_eq!(page.reading_time, Some(1));
}

#[test]
fn schema_error_on_bad_weight_type() {
    let res = Page::parse("post.md", "+++\nweight = \"heavy\"\n+++\nhello", &Config::default());
    assert!(res.is_err());
    assert!(res.err().unwrap().is_schema());
}

#[test]
fn schema_error_on_invalid_date() {
    let res = Page::parse("post.md", "+++\ndate = \"2001-13-15\"\n+++\nhello", &Config::default());
    assert!(res.is_err());
    assert!(res.err().unwrap().is_schema());
}

#[test]
fn rendering_twice_is_identical() {
    let config = Config::default();
    let content = "\n+++\n+++\n# Title\n\nHello world\n<!-- more -->";
    let mut a = Page::parse("hello.md", content, &config).unwrap();
    let mut b = Page::parse("hello.md", content, &config).unwrap();
    a.render_markdown(&Vec::new(), InsertAnchor::Off).unwrap();
    b.render_markdown(&Vec::new(), InsertAnchor::Off).unwrap();
    assert_eq!(a.content, b.content);
    assert_eq!(a.summary, b.summary);
    assert_eq!(a.toc.len(), b.toc.len());
    assert_eq!(a.toc[0].id, b.toc[0].id);
    assert_eq!(a.toc[0].title, b.toc[0].title);
}

#[test]
fn headings_get_ids_and_toc() {
    let config = Config::default();
    let content = "+++\n+++\n# Top Title\n\n## Sub Part\n";
    let mut page = Page::parse("hello.md", content, &config).unwrap();
    page.render_markdown(&Vec::new(), InsertAnchor::Off).unwrap();
    assert_eq!(page.toc.len(), 1);
    assert_eq!(page.toc[0].level, 1);
    assert_eq!(page.toc[0].id, "top-title");
    assert_eq!(page.toc[0].title, "Top Title");
    assert_eq!(page.toc[0].children.len(), 1);
    assert_eq!(page.toc[0].children[0].id, "sub-part");
    assert!(page.content.contains("<h1 id=\"top-title\">Top Title</h1>"));
}

#[test]
fn internal_links_resolve_through_the_table() {
    let config = Config::default();
    let table = vec![(
        "pages/about.md".to_string(),
        "http://a-website.com/pages/about/".to_string(),
    )];
    let content = "+++\n+++\nsee [about](./pages/about.md)";
    let mut page = Page::parse("hello.md", content, &config).unwrap();
    page.render_markdown(&table, InsertAnchor::Off).unwrap();
    assert!(page.content.contains("http://a-website.com/pages/about/"));
}

#[test]
fn broken_internal_link_fails_the_render() {
    let config = Config::default();
    let content = "+++\n+++\nsee [about](./missing.md)";
    let mut page = Page::parse("hello.md", content, &config).unwrap();
    let res = page.render_markdown(&Vec::new(), InsertAnchor::Off);
    assert!(res.is_err());
    assert!(res.err().unwrap().is_broken_link());
}
