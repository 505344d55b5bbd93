use gutenberg::config::Config;
use gutenberg::library::Library;
use gutenberg::page::Page;
use gutenberg::section::Section;
use gutenberg::serialize::SerializingSection;

fn dated_page(path: &str, date: &str, config: &Config) -> Page {
    let content = format!("+++\ndate = \"{}\"\n+++\nhello", date);
    Page::parse(path, &content, config).unwrap()
}

fn weighted_page(path: &str, weight: i64, config: &Config) -> Page {
    let content = format!("+++\nweight = {}\n+++\nhello", weight);
    Page::parse(path, &content, config).unwrap()
}

#[test]
fn date_ordering_is_a_consistent_chain() {
    let config = Config::default();
    let mut lib = Library::new();
    let a = lib.insert_page(dated_page("content/posts/a.md", "2020-01-01", &config));
    let b = lib.insert_page(dated_page("content/posts/b.md", "2022-06-01", &config));
    let c = lib.insert_page(dated_page("content/posts/c.md", "2021-03-05", &config));
    let undated = Page::parse("content/posts/d.md", "+++\n+++\nhello", &config).unwrap();
    let d = lib.insert_page(undated);
    lib.sort_pages_by_date();

    // newest first: b, c, a; d stays out
    let pb = lib.get_page_by_key(b);
    assert_eq!(pb.later, None);
    assert_eq!(pb.earlier, Some(c));
    let pc = lib.get_page_by_key(c);
    assert_eq!(pc.later, Some(b));
    assert_eq!(pc.earlier, Some(a));
    let pa = lib.get_page_by_key(a);
    assert_eq!(pa.later, Some(c));
    assert_eq!(pa.earlier, None);
    let pd = lib.get_page_by_key(d);
    assert_eq!(pd.later, None);
    assert_eq!(pd.earlier, None);

    // following later then earlier comes back to the page
    let later_of_a = pa.later.unwrap();
    assert_eq!(lib.get_page_by_key(later_of_a).earlier, Some(a));
}

#[test]
fn equal_dates_break_ties_by_path() {
    let config = Config::default();
    let mut lib = Library::new();
    let x = lib.insert_page(dated_page("content/posts/x.md", "2020-01-01", &config));
    let y = lib.insert_page(dated_page("content/posts/y.md", "2020-01-01", &config));
    lib.sort_pages_by_date();
    // same instant: the lexicographically smaller path comes first
    assert_eq!(lib.get_page_by_key(x).later, None);
    assert_eq!(lib.get_page_by_key(x).earlier, Some(y));
    assert_eq!(lib.get_page_by_key(y).later, Some(x));
}

#[test]
fn unlink_patches_the_neighbors() {
    let config = Config::default();
    let mut lib = Library::new();
    let a = lib.insert_page(dated_page("content/posts/a.md", "2020-01-01", &config));
    let b = lib.insert_page(dated_page("content/posts/b.md", "2022-06-01", &config));
    let c = lib.insert_page(dated_page("content/posts/c.md", "2021-03-05", &config));
    lib.sort_pages_by_date();
    // order is b, c, a; unlink the middle page
    lib.unlink_page_from_date_chain(c);
    assert_eq!(lib.get_page_by_key(b).earlier, Some(a));
    assert_eq!(lib.get_page_by_key(a).later, Some(b));
    assert_eq!(lib.get_page_by_key(c).later, None);
    assert_eq!(lib.get_page_by_key(c).earlier, None);
}

#[test]
fn hierarchy_attaches_pages_to_longest_prefix() {
    let config = Config::default();
    let mut lib = Library::new();
    let root = lib.insert_section(
        Section::parse("content/_index.md", "+++\n+++\n", &config).unwrap(),
    );
    let posts = lib.insert_section(
        Section::parse("content/posts/_index.md", "+++\n+++\n", &config).unwrap(),
    );
    let p1 = lib.insert_page(
        Page::parse("content/posts/one.md", "+++\n+++\nhello", &config).unwrap(),
    );
    let p2 = lib.insert_page(Page::parse("content/two.md", "+++\n+++\nhello", &config).unwrap());
    lib.populate_sections();
    lib.attach_subsections();

    assert!(lib.get_section_by_key(posts).pages.contains(&p1));
    assert!(!lib.get_section_by_key(root).pages.contains(&p1));
    assert!(lib.get_section_by_key(root).pages.contains(&p2));
    assert!(lib.get_section_by_key(root).subsections.contains(&posts));
}

#[test]
fn weight_ordering_is_scoped_to_the_sibling_group() {
    let config = Config::default();
    let mut lib = Library::new();
    let posts = lib.insert_section(
        Section::parse("content/posts/_index.md", "+++\n+++\n", &config).unwrap(),
    );
    let heavy = lib.insert_page(weighted_page("content/posts/heavy.md", 9, &config));
    let light = lib.insert_page(weighted_page("content/posts/light.md", 1, &config));
    let unweighted = lib.insert_page(
        Page::parse("content/posts/none.md", "+++\n+++\nhello", &config).unwrap(),
    );
    lib.populate_sections();
    lib.sort_section_pages_by_weight(posts);

    assert_eq!(lib.get_page_by_key(light).lighter, None);
    assert_eq!(lib.get_page_by_key(light).heavier, Some(heavy));
    assert_eq!(lib.get_page_by_key(heavy).lighter, Some(light));
    assert_eq!(lib.get_page_by_key(heavy).heavier, None);
    assert!(lib.get_section_by_key(posts).ignored_pages.contains(&unweighted));
    assert_eq!(lib.get_page_by_key(unweighted).lighter, None);
}

#[test]
fn permalink_table_maps_identities() {
    let config = Config::default();
    let mut lib = Library::new();
    lib.insert_page(Page::parse("content/posts/one.md", "+++\n+++\nhello", &config).unwrap());
    lib.insert_section(Section::parse("content/posts/_index.md", "+++\n+++\n", &config).unwrap());
    lib.build_permalinks();
    assert_eq!(lib.permalinks.len(), 2);
    assert_eq!(lib.permalinks[0].0, "posts/one.md");
    assert_eq!(lib.permalinks[0].1, "http://a-website.com/posts/one/");
    assert_eq!(lib.permalinks[1].0, "posts/_index.md");
    assert_eq!(lib.permalinks[1].1, "http://a-website.com/posts/");
}

#[test]
fn lookup_by_relative_identity() {
    let config = Config::default();
    let mut lib = Library::new();
    let k = lib.insert_page(
        Page::parse("content/posts/one.md", "+++\n+++\nhello", &config).unwrap(),
    );
    let found = lib.get_page_by_relative("posts/one.md").unwrap();
    assert_eq!(found, k);
    assert!(lib.get_page_by_relative("posts/two.md").is_none());
}

#[test]
fn serialized_section_expands_children_one_level() {
    let config = Config::default();
    let mut lib = Library::new();
    let posts = lib.insert_section(
        Section::parse("content/posts/_index.md", "+++\ntitle = \"Posts\"\n+++\n", &config)
            .unwrap(),
    );
    lib.insert_page(
        Page::parse("content/posts/one.md", "+++\ntitle = \"One\"\n+++\nhello", &config).unwrap(),
    );
    lib.populate_sections();
    let section = lib.get_section_by_key(posts);
    let view: SerializingSection = section.to_serialized(&lib);
    assert_eq!(view.title, Some("Posts".to_string()));
    assert_eq!(view.pages.len(), 1);
    assert_eq!(view.pages[0].title, Some("One".to_string()));
    assert_eq!(view.subsections.len(), 0);
}

#[test]
fn extra_data_passes_through_verbatim() {
    let config = Config::default();
    let content = "+++\ntitle = \"T\"\nauthor = \"vincent\"\n[nested]\nflag = true\n+++\nbody";
    let page = Page::parse("content/posts/one.md", content, &config).unwrap();
    assert_eq!(page.meta.extra.len(), 2);
    assert_eq!(page.meta.extra[0].0, "author");
    match &page.meta.extra[0].1 {
        gutenberg::kv::KvValue::Str(s) => assert_eq!(s, "vincent"),
        _ => panic!("author must stay a string"),
    }
}

#[test]
fn taxonomies_decode_as_term_lists() {
    let config = Config::default();
    let content = "+++\n[taxonomies]\ntags = [\"a\", \"b\"]\n+++\nbody";
    let page = Page::parse("content/posts/one.md", content, &config).unwrap();
    assert_eq!(page.meta.taxonomies.len(), 1);
    assert_eq!(page.meta.taxonomies[0].0, "tags");
    assert_eq!(page.meta.taxonomies[0].1, vec!["a".to_string(), "b".to_string()]);
}

#[test]
fn content_change_replaces_one_page_in_place() {
    let config = Config::default();
    let mut lib = Library::new();
    let a = lib.insert_page(dated_page("content/posts/a.md", "2020-01-01", &config));
    let b = lib.insert_page(dated_page("content/posts/b.md", "2022-06-01", &config));
    lib.sort_pages_by_date();
    // a content change: unlink the old entry, replace it, relink
    lib.unlink_page_from_date_chain(a);
    let newer = dated_page("content/posts/a.md", "2023-01-01", &config);
    let a2 = lib.replace_page(a, newer);
    assert_eq!(a2.idx, a.idx);
    lib.sort_pages_by_date();
    // the replaced page now leads the ordering under its new date
    assert_eq!(lib.get_page_by_key(a2).later, None);
    assert_eq!(lib.get_page_by_key(a2).earlier, Some(b));
    assert_eq!(lib.get_page_by_key(b).later, Some(a2));
}

#[test]
fn pages_fetch_by_identity_lists() {
    let config = Config::default();
    let mut lib = Library::new();
    let a = lib.insert_page(Page::parse("content/a.md", "+++\n+++\nx", &config).unwrap());
    let b = lib.insert_page(Page::parse("content/b.md", "+++\n+++\nx", &config).unwrap());
    let ks = lib
        .get_pages_by_relative(&vec!["b.md".to_string(), "a.md".to_string()])
        .unwrap();
    assert_eq!(ks, vec![b, a]);
    let missing = lib.get_pages_by_relative(&vec!["a.md".to_string(), "c.md".to_string()]);
    assert!(missing.is_err());
}

#[test]
fn synthesized_root_owns_orphan_pages() {
    let config = Config::default();
    let mut lib = Library::new();
    let p = lib.insert_page(Page::parse("content/solo.md", "+++\n+++\nx", &config).unwrap());
    let root = lib.ensure_root_section(&config).unwrap();
    lib.populate_sections();
    assert!(lib.get_section_by_key(root).is_index());
    assert!(lib.get_section_by_key(root).pages.contains(&p));
}

#[test]
fn replacement_updates_the_section_lists() {
    let config = Config::default();
    let mut lib = Library::new();
    let posts = lib.insert_section(
        Section::parse("content/posts/_index.md", "+++\n+++\n", &config).unwrap(),
    );
    let old_key = lib.insert_page(dated_page("content/posts/a.md", "2020-01-01", &config));
    lib.populate_sections();
    let newer = dated_page("content/posts/a.md", "2021-01-01", &config);
    let new_key = lib.replace_page(old_key, newer);
    lib.replace_child_key(old_key, new_key);
    assert!(lib.get_section_by_key(posts).pages.contains(&new_key));
    assert!(!lib.get_section_by_key(posts).pages.contains(&old_key));
}
