use gutenberg::config::Config;
use gutenberg::section::Section;

#[test]
fn section_with_assets_gets_right_info() {
    let res = Section::parse(
        "content/posts/with-assets/_index.md",
        "+++\n+++\n",
        &Config::default(),
    );
    assert!(res.is_ok());
    let mut section = res.unwrap();
    let siblings = vec![
        "_index.md".to_string(),
        "example.js".to_string(),
        "graph.jpg".to_string(),
        "fail.png".to_string(),
    ];
    section.attach_assets(&siblings, &Config::default());
    assert_eq!(section.assets.len(), 3);
    assert_eq!(section.permalink, "http://a-website.com/posts/with-assets/");
}

#[test]
fn section_with_ignored_assets_filters_out_correct_files() {
    let mut config = Config::default();
    config.ignored_content = vec!["*.{js,png}".to_string()];
    let res = Section::parse(
        "content/posts/with-assets/_index.md",
        "+++\nslug=\"hey\"\n+++\n",
        &config,
    );
    assert!(res.is_ok());
    let mut section = res.unwrap();
    let siblings = vec![
        "_index.md".to_string(),
        "example.js".to_string(),
        "graph.jpg".to_string(),
        "fail.png".to_string(),
    ];
    section.attach_assets(&siblings, &config);
    assert_eq!(section.assets.len(), 1);
    assert_eq!(section.assets[0], "graph.jpg");
}

#[test]
fn root_section_is_the_index() {
    let root = Section::parse("content/_index.md", "+++\n+++\n", &Config::default()).unwrap();
    assert!(root.is_index());
    assert_eq!(root.path, "/");
    assert_eq!(root.get_template_name(), "index.html");

    let nested =
        Section::parse("content/posts/_index.md", "+++\n+++\n", &Config::default()).unwrap();
    assert!(!nested.is_index());
    assert_eq!(nested.path, "posts/");
    assert_eq!(nested.get_template_name(), "section.html");
}

#[test]
fn section_template_override_wins() {
    let s = Section::parse(
        "content/posts/_index.md",
        "+++\ntemplate = \"special.html\"\n+++\n",
        &Config::default(),
    )
    .unwrap();
    assert_eq!(s.get_template_name(), "special.html");
}
