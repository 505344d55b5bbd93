//! Flattened, acyclic views of pages and sections for template contexts:
//! plain values only, no arena handles, neighbors and children expanded one
//! level by value copies.
use vstd::prelude::*;

use crate::kv::{clone_string, kv_clone, kv_view, tab_view, KvValue};
use crate::library::{Key, Library};
use crate::page::Page;
use crate::rendering::{header_view, headers_view, Header};
use crate::section::Section;

verus! {

/// A page flattened for the template context. Neighbors are expanded one
/// level: their own neighbor fields stay empty.
pub struct SerializingPage {
    pub content: String,
    pub title: Option<String>,
    pub description: Option<String>,
    pub date: Option<String>,
    pub year: Option<u32>,
    pub month: Option<u8>,
    pub day: Option<u8>,
    pub slug: String,
    pub path: String,
    pub components: Vec<String>,
    pub permalink: String,
    pub summary: Option<String>,
    pub taxonomies: Vec<(String, Vec<String>)>,
    pub extra: Vec<(String, KvValue)>,
    pub word_count: Option<usize>,
    pub reading_time: Option<usize>,
    pub assets: Vec<String>,
    pub draft: bool,
    pub toc: Vec<Header>,
    pub earlier: Option<Box<SerializingPage>>,
    pub later: Option<Box<SerializingPage>>,
    pub lighter: Option<Box<SerializingPage>>,
    pub heavier: Option<Box<SerializingPage>>,
}

/// The flat fields of a view agree with the page's.
pub open spec fn page_view_matches(v: SerializingPage, p: Page) -> bool {
    &&& v.content@ == p.content@
    &&& crate::front_matter::view_opt_str(v.title) == crate::front_matter::view_opt_str(
        p.meta.title,
    )
    &&& crate::front_matter::view_opt_str(v.description) == crate::front_matter::view_opt_str(
        p.meta.description,
    )
    &&& crate::front_matter::view_opt_str(v.date) == crate::front_matter::view_opt_str(p.meta.date)
    &&& v.year == (match p.meta.datetime {
        Some(dt) => Some(dt.year),
        None => None::<u32>,
    })
    &&& v.month == (match p.meta.datetime {
        Some(dt) => Some(dt.month),
        None => None::<u8>,
    })
    &&& v.day == (match p.meta.datetime {
        Some(dt) => Some(dt.day),
        None => None::<u8>,
    })
    &&& v.slug@ == p.slug@
    &&& v.path@ == p.path@
    &&& v.components.deep_view() == p.components.deep_view()
    &&& v.permalink@ == p.permalink@
    &&& crate::front_matter::view_opt_str(v.summary) == crate::rendering::view_opt_summary(
        p.summary,
    )
    &&& crate::front_matter::tax_view(v.taxonomies@) == crate::front_matter::tax_view(
        p.meta.taxonomies@,
    )
    &&& tab_view(v.extra@) == tab_view(p.meta.extra@)
    &&& v.word_count == p.word_count
    &&& v.reading_time == p.reading_time
    &&& v.assets.deep_view() == p.assets.deep_view().map_values(|name: Seq<char>| p.path@ + name)
    &&& v.draft == p.meta.draft
    &&& headers_view(v.toc@) == headers_view(p.toc@)
}

impl SerializingPage {
    /// The page flattened without its neighbors.
    pub fn from_page_basic(page: &Page) -> (v: SerializingPage)
        ensures
            page_view_matches(v, *page),
            v.earlier is None && v.later is None && v.lighter is None && v.heavier is None,
    {
        let (year, month, day): (Option<u32>, Option<u8>, Option<u8>) = match &page.meta.datetime {
            Some(dt) => (Some(dt.year), Some(dt.month), Some(dt.day)),
            None => (None, None, None),
        };
        SerializingPage {
            content: clone_string(&page.content),
            title: clone_opt_string(&page.meta.title),
            description: clone_opt_string(&page.meta.description),
            date: clone_opt_string(&page.meta.date),
            year,
            month,
            day,
            slug: clone_string(&page.slug),
            path: clone_string(&page.path),
            components: crate::library::copy_strings(&page.components),
            permalink: clone_string(&page.permalink),
            summary: clone_opt_string(&page.summary),
            taxonomies: clone_taxonomies(&page.meta.taxonomies),
            extra: clone_extra(&page.meta.extra),
            word_count: page.word_count,
            reading_time: page.reading_time,
            assets: page.serialize_assets(),
            draft: page.meta.draft,
            toc: clone_headers(&page.toc),
            earlier: None,
            later: None,
            lighter: None,
            heavier: None,
        }
    }

    /// The page flattened with its four ordering neighbors expanded one
    /// level, so the view is self-contained and acyclic.
    pub fn from_page(page: &Page, library: &Library) -> (v: SerializingPage)
        requires
            (page.earlier matches Some(k) ==> library.pages.valid(k)),
            (page.later matches Some(k) ==> library.pages.valid(k)),
            (page.lighter matches Some(k) ==> library.pages.valid(k)),
            (page.heavier matches Some(k) ==> library.pages.valid(k)),
        ensures
            page_view_matches(v, *page),
            (page.earlier matches Some(k) ==> v.earlier matches Some(b) && page_view_matches(
                *b,
                library.pages.at(k),
            )),
            (page.earlier is None ==> v.earlier is None),
            (page.later matches Some(k) ==> v.later matches Some(b) && page_view_matches(
                *b,
                library.pages.at(k),
            )),
            (page.later is None ==> v.later is None),
            (page.lighter matches Some(k) ==> v.lighter matches Some(b) && page_view_matches(
                *b,
                library.pages.at(k),
            )),
            (page.lighter is None ==> v.lighter is None),
            (page.heavier matches Some(k) ==> v.heavier matches Some(b) && page_view_matches(
                *b,
                library.pages.at(k),
            )),
            (page.heavier is None ==> v.heavier is None),
    {
        let mut v = SerializingPage::from_page_basic(page);
        v.earlier = match page.earlier {
            Some(k) => Some(Box::new(SerializingPage::from_page_basic(library.pages.get(k)))),
            None => None,
        };
        v.later = match page.later {
            Some(k) => Some(Box::new(SerializingPage::from_page_basic(library.pages.get(k)))),
            None => None,
        };
        v.lighter = match page.lighter {
            Some(k) => Some(Box::new(SerializingPage::from_page_basic(library.pages.get(k)))),
            None => None,
        };
        v.heavier = match page.heavier {
            Some(k) => Some(Box::new(SerializingPage::from_page_basic(library.pages.get(k)))),
            None => None,
        };
        v
    }
}

impl Page {
    /// This page's template-context view, neighbors expanded one level.
    pub fn to_serialized(&self, library: &Library) -> (v: SerializingPage)
        requires
            (self.earlier matches Some(k) ==> library.pages.valid(k)),
            (self.later matches Some(k) ==> library.pages.valid(k)),
            (self.lighter matches Some(k) ==> library.pages.valid(k)),
            (self.heavier matches Some(k) ==> library.pages.valid(k)),
        ensures
            page_view_matches(v, *self),
    {
        SerializingPage::from_page(self, library)
    }
}

/// A section flattened for the template context: child pages and
/// subsections expanded one level via value copies, never references, so
/// the view stays acyclic however early a section renders.
pub struct SerializingSection {
    pub content: String,
    pub permalink: String,
    pub title: Option<String>,
    pub description: Option<String>,
    pub extra: Vec<(String, KvValue)>,
    pub path: String,
    pub components: Vec<String>,
    pub word_count: Option<usize>,
    pub reading_time: Option<usize>,
    pub toc: Vec<Header>,
    pub assets: Vec<String>,
    pub pages: Vec<SerializingPage>,
    pub subsections: Vec<SerializingSection>,
}

/// The flat fields of a view agree with the section's.
pub open spec fn section_view_matches(v: SerializingSection, s: Section) -> bool {
    &&& v.content@ == s.content@
    &&& v.permalink@ == s.permalink@
    &&& crate::front_matter::view_opt_str(v.title) == crate::front_matter::view_opt_str(
        s.meta.title,
    )
    &&& crate::front_matter::view_opt_str(v.description) == crate::front_matter::view_opt_str(
        s.meta.description,
    )
    &&& tab_view(v.extra@) == tab_view(s.meta.extra@)
    &&& v.path@ == s.path@
    &&& v.components.deep_view() == s.components.deep_view()
    &&& v.word_count == s.word_count
    &&& v.reading_time == s.reading_time
    &&& headers_view(v.toc@) == headers_view(s.toc@)
    &&& v.assets.deep_view() == s.assets.deep_view().map_values(|name: Seq<char>| s.path@ + name)
}

impl SerializingSection {
    /// The section flattened with its direct pages and subsections expanded
    /// one level.
    pub fn from_section(section: &Section, library: &Library) -> (v: SerializingSection)
        requires
            forall|i: int|
                0 <= i < section.pages@.len() ==> library.pages.valid(#[trigger] section.pages@[i]),
            forall|i: int|
                0 <= i < section.subsections@.len() ==> library.sections.valid(
                    #[trigger] section.subsections@[i],
                ),
        ensures
            section_view_matches(v, *section),
            v.pages@.len() == section.pages@.len(),
            forall|i: int|
                0 <= i < section.pages@.len() ==> page_view_matches(
                    #[trigger] v.pages@[i],
                    library.pages.at(section.pages@[i]),
                ),
            v.subsections@.len() == section.subsections@.len(),
            forall|i: int|
                0 <= i < section.subsections@.len() ==> section_view_matches(
                    #[trigger] v.subsections@[i],
                    library.sections.at(section.subsections@[i]),
                ),
    {
        let mut v = SerializingSection::from_section_basic(section);
        let mut pages: Vec<SerializingPage> = Vec::new();
        let mut i: usize = 0;
        while i < section.pages.len()
            invariant
                forall|j: int|
                    0 <= j < section.pages@.len() ==> library.pages.valid(
                        #[trigger] section.pages@[j],
                    ),
                0 <= i <= section.pages@.len(),
                pages@.len() == i,
                forall|j: int|
                    0 <= j < i ==> page_view_matches(
                        #[trigger] pages@[j],
                        library.pages.at(section.pages@[j]),
                    ),
            decreases section.pages@.len() - i,
        {
            let k = section.pages[i];
            pages.push(SerializingPage::from_page_basic(library.pages.get(k)));
            i = i + 1;
        }
        let mut subsections: Vec<SerializingSection> = Vec::new();
        let mut j: usize = 0;
        while j < section.subsections.len()
            invariant
                forall|m: int|
                    0 <= m < section.subsections@.len() ==> library.sections.valid(
                        #[trigger] section.subsections@[m],
                    ),
                0 <= j <= section.subsections@.len(),
                subsections@.len() == j,
                forall|m: int|
                    0 <= m < j ==> section_view_matches(
                        #[trigger] subsections@[m],
                        library.sections.at(section.subsections@[m]),
                    ),
            decreases section.subsections@.len() - j,
        {
            let k = section.subsections[j];
            subsections.push(SerializingSection::from_section_basic(library.sections.get(k)));
            j = j + 1;
        }
        v.pages = pages;
        v.subsections = subsections;
        v
    }

    /// The section flattened without fetching its pages and subsections,
    /// preventing recursion when a section renders before its children are
    /// built.
    pub fn from_section_basic(section: &Section) -> (v: SerializingSection)
        ensures
            section_view_matches(v, *section),
            v.pages@.len() == 0,
            v.subsections@.len() == 0,
    {
        SerializingSection {
            content: clone_string(&section.content),
            permalink: clone_string(&section.permalink),
            title: clone_opt_string(&section.meta.title),
            description: clone_opt_string(&section.meta.description),
            extra: clone_extra(&section.meta.extra),
            path: clone_string(&section.path),
            components: crate::library::copy_strings(&section.components),
            word_count: section.word_count,
            reading_time: section.reading_time,
            toc: clone_headers(&section.toc),
            assets: section.serialize_assets(),
            pages: Vec::new(),
            subsections: Vec::new(),
        }
    }
}

impl Section {
    /// This section's template-context view, children expanded one level.
    pub fn to_serialized(&self, library: &Library) -> (v: SerializingSection)
        requires
            forall|i: int|
                0 <= i < self.pages@.len() ==> library.pages.valid(#[trigger] self.pages@[i]),
            forall|i: int|
                0 <= i < self.subsections@.len() ==> library.sections.valid(
                    #[trigger] self.subsections@[i],
                ),
        ensures
            section_view_matches(v, *self),
    {
        SerializingSection::from_section(self, library)
    }
}

/// A fresh copy of an optional string.
fn clone_opt_string(o: &Option<String>) -> (r: Option<String>)
    ensures
        crate::front_matter::view_opt_str(r) == crate::front_matter::view_opt_str(*o),
{
    match o {
        Some(s) => Some(clone_string(s)),
        None => None,
    }
}

/// A fresh copy of the taxonomies.
fn clone_taxonomies(t: &Vec<(String, Vec<String>)>) -> (r: Vec<(String, Vec<String>)>)
    ensures
        crate::front_matter::tax_view(r@) == crate::front_matter::tax_view(t@),
{
    let mut r: Vec<(String, Vec<String>)> = Vec::new();
    let mut i: usize = 0;
    while i < t.len()
        invariant
            0 <= i <= t@.len(),
            r@.len() == i,
            forall|j: int|
                0 <= j < i ==> (#[trigger] r@[j]).0@ == t@[j].0@ && r@[j].1.deep_view()
                    == t@[j].1.deep_view(),
        decreases t@.len() - i,
    {
        let name = clone_string(&t[i].0);
        let terms = crate::library::copy_strings(&t[i].1);
        r.push((name, terms));
        i = i + 1;
    }
    proof {
        assert(crate::front_matter::tax_view(r@) =~~= crate::front_matter::tax_view(t@));
    }
    r
}

/// A fresh copy of the extra data.
fn clone_extra(t: &Vec<(String, KvValue)>) -> (r: Vec<(String, KvValue)>)
    ensures
        tab_view(r@) == tab_view(t@),
{
    let mut r: Vec<(String, KvValue)> = Vec::new();
    let mut i: usize = 0;
    proof {
        crate::kv::lemma_tab_view_len(t@);
    }
    while i < t.len()
        invariant
            0 <= i <= t@.len(),
            tab_view(t@).len() == t@.len(),
            forall|j: int|
                0 <= j < t@.len() ==> tab_view(t@)[j] == (t@[j].0@, kv_view(t@[j].1)),
            tab_view(r@) =~~= tab_view(t@).take(i as int),
        decreases t@.len() - i,
    {
        let name = clone_string(&t[i].0);
        let value = kv_clone(&t[i].1);
        let ghost old_dv = tab_view(r@);
        let ghost old_seq = r@;
        r.push((name, value));
        proof {
            crate::kv::lemma_tab_view_len(r@);
            crate::kv::lemma_tab_view_len(old_seq);
            assert(tab_view(r@) =~~= tab_view(t@).take(i + 1));
        }
        i = i + 1;
    }
    proof {
        assert(tab_view(t@).take(t@.len() as int) =~~= tab_view(t@));
    }
    r
}

/// A fresh copy of a heading tree.
fn clone_headers(hs: &Vec<Header>) -> (r: Vec<Header>)
    ensures
        headers_view(r@) == headers_view(hs@),
{
    let mut r: Vec<Header> = Vec::new();
    let mut i: usize = 0;
    proof {
        crate::rendering::lemma_headers_view_len(hs@);
    }
    while i < hs.len()
        invariant
            0 <= i <= hs@.len(),
            headers_view(hs@).len() == hs@.len(),
            forall|j: int|
                0 <= j < hs@.len() ==> headers_view(hs@)[j] == header_view(hs@[j]),
            headers_view(r@) =~~= headers_view(hs@).take(i as int),
        decreases hs@.len() - i,
    {
        let h = crate::rendering::header_deep_copy(&hs[i]);
        let ghost old_seq = r@;
        r.push(h);
        proof {
            crate::rendering::lemma_headers_view_len(r@);
            crate::rendering::lemma_headers_view_len(old_seq);
            assert(headers_view(r@) =~~= headers_view(hs@).take(i + 1));
        }
        i = i + 1;
    }
    proof {
        assert(headers_view(hs@).take(hs@.len() as int) =~~= headers_view(hs@));
    }
    r
}

} // verus!
