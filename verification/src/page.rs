//! A page: a content file with front matter, a derived slug, site path,
//! components and permalink, collected assets, and rendered output with
//! summary and table of contents.
use vstd::prelude::*;

use crate::config::{spec_make_permalink, Config};
use crate::errors::Error;
use crate::file_info::{content_components, dir_of, ext_of, file_stem, FileInfo};
use crate::strtools::rfind_char;
use crate::front_matter::{
    page_fm_matches, page_fm_ok, spec_split_content, split_page_content, view_opt_str,
    InsertAnchor, PageFrontMatter,
};
use crate::globs::{glob_matches, glob_set_matches};
use crate::kv::toml_of;
use crate::library::Key;
use crate::rendering::{
    headers_view, render_content, spec_rendered, view_opt_summary, Header, HeaderSpec,
};
use crate::slugs::{slug_of, slugify};
use crate::strtools::{
    chars_of, join_chars, leading_count, lemma_leading_count, nonempty_parts, split_chars,
    string_from_chars, subvec, trimmed, vec_extend, vec_leading_count, vec_nonempty, vec_split,
    vec_trim,
};

verus! {

/// A page of the site.
pub struct Page {
    /// Location metadata of the file.
    pub file: FileInfo,
    /// The decoded front matter.
    pub meta: PageFrontMatter,
    /// The body below the front matter, unrendered.
    pub raw_content: String,
    /// Names of sibling non-content files; filled only for index-style
    /// files.
    pub assets: Vec<String>,
    /// The rendered HTML body; empty until the render pass.
    pub content: String,
    /// The explicit slug, or the slug derived from the file location.
    pub slug: String,
    /// The site path, always with one trailing `/`.
    pub path: String,
    /// The nonempty `/`-separated segments of `path`.
    pub components: Vec<String>,
    /// The base URL joined with `path`.
    pub permalink: String,
    /// The HTML up to the more marker, when the body carries one.
    pub summary: Option<String>,
    /// Neighbors in the date-descending ordering.
    pub earlier: Option<Key>,
    pub later: Option<Key>,
    /// Neighbors in the weight-ascending ordering.
    pub lighter: Option<Key>,
    pub heavier: Option<Key>,
    /// Heading tree of the rendered body.
    pub toc: Vec<Header>,
    /// Whitespace-separated word count of the raw body.
    pub word_count: Option<usize>,
    /// Reading time in minutes, one per two hundred words, rounded up.
    pub reading_time: Option<usize>,
}

// ---------------------------------------------------------------------------
// Word counting
// ---------------------------------------------------------------------------

/// Number of whitespace-separated words in `s[i..]`, given whether the
/// previous character was whitespace.
pub open spec fn words_from(s: Seq<char>, i: int, prev_ws: bool) -> nat
    decreases s.len() - i,
{
    if i < 0 || i >= s.len() {
        0
    } else {
        let w = crate::strtools::is_ws(s[i]);
        (if !w && prev_ws {
            1nat
        } else {
            0nat
        }) + words_from(s, i + 1, w)
    }
}

/// Number of whitespace-separated words.
pub open spec fn spec_word_count(s: Seq<char>) -> nat {
    words_from(s, 0, true)
}

/// Reading time: one minute per two hundred words, rounded up.
pub open spec fn spec_reading_time(words: nat) -> nat {
    words / 200 + if words % 200 == 0 {
        0nat
    } else {
        1nat
    }
}

/// Counts the whitespace-separated words of a text.
pub fn count_words(s: &Vec<char>) -> (r: usize)
    ensures
        r as nat == spec_word_count(s@),
{
    let mut count: usize = 0;
    let mut prev_ws: bool = true;
    let mut i: usize = 0;
    while i < s.len()
        invariant
            0 <= i <= s@.len(),
            count <= i,
            count + words_from(s@, i as int, prev_ws) == spec_word_count(s@),
        decreases s@.len() - i,
    {
        let w = crate::strtools::is_ws_char(s[i]);
        if !w && prev_ws {
            count = count + 1;
        }
        prev_ws = w;
        i = i + 1;
    }
    count
}

// ---------------------------------------------------------------------------
// Slug and path derivation
// ---------------------------------------------------------------------------

/// The file name part of a path: everything after the last `/`.
pub open spec fn base_name(p: Seq<char>) -> Seq<char> {
    match rfind_char(p, '/') {
        Some(i) => p.skip(i + 1),
        None => p,
    }
}

/// The name a slug is derived from: the parent directory's name for an
/// index-style file, the file stem otherwise.
pub open spec fn derived_name(path: Seq<char>) -> Seq<char> {
    if file_stem(path) == "index"@ && base_name(dir_of(path)).len() > 0 {
        base_name(dir_of(path))
    } else {
        file_stem(path)
    }
}

/// The page's slug: the trimmed explicit slug when one is given, else the
/// slug of the derived name.
pub open spec fn spec_page_slug(explicit: Option<Seq<char>>, path: Seq<char>) -> Seq<char> {
    match explicit {
        Some(s) => trimmed(s),
        None => slug_of(derived_name(path)),
    }
}

/// The path before the trailing slash: the explicit path trimmed and
/// stripped of leading slashes, else the directory components joined with
/// the slug.
pub open spec fn page_path_base(
    explicit: Option<Seq<char>>,
    comps: Seq<Seq<char>>,
    slug: Seq<char>,
) -> Seq<char> {
    match explicit {
        Some(p) => {
            let t = trimmed(p);
            t.skip(leading_count(t, '/'))
        },
        None => if comps.len() == 0 {
            slug
        } else {
            join_chars(comps, '/') + seq!['/'] + slug
        },
    }
}

/// The final page path: the base with a trailing `/` appended when absent.
pub open spec fn spec_page_path(
    explicit: Option<Seq<char>>,
    comps: Seq<Seq<char>>,
    slug: Seq<char>,
) -> Seq<char> {
    let base = page_path_base(explicit, comps, slug);
    if base.len() > 0 && base[base.len() - 1] == '/' {
        base
    } else {
        base + seq!['/']
    }
}

/// A page path carries exactly one trailing slash: the last character is
/// `/` and the one before it is not. This holds whenever the slug, or the
/// explicit override after trimming, is nonempty and does not itself end in
/// a slash, and every directory component is nonempty without slashes.
pub proof fn lemma_path_single_trailing_slash(
    explicit: Option<Seq<char>>,
    comps: Seq<Seq<char>>,
    slug: Seq<char>,
)
    requires
        match explicit {
            Some(p) => {
                let t = trimmed(p).skip(leading_count(trimmed(p), '/'));
                t.len() == 0 || t[t.len() - 1] != '/'
            },
            None => slug.len() > 0 && slug[slug.len() - 1] != '/',
        },
    ensures
        ({
            let path = spec_page_path(explicit, comps, slug);
            &&& path.len() > 0
            &&& path[path.len() - 1] == '/'
            &&& (path.len() < 2 || path[path.len() - 2] != '/')
        }),
{
    let base = page_path_base(explicit, comps, slug);
    match explicit {
        Some(p) => {
            if base.len() > 0 {
                assert(base[base.len() - 1] != '/');
                assert((base + seq!['/'])[base.len() as int] == '/');
            }
        },
        None => {
            if comps.len() == 0 {
                assert(base == slug);
            } else {
                assert(base == join_chars(comps, '/') + seq!['/'] + slug);
                assert(base.len() >= slug.len() + 1);
                assert(base[base.len() - 1] == slug[slug.len() - 1]);
            }
            assert(base.len() > 0 && base[base.len() - 1] != '/');
            assert((base + seq!['/'])[base.len() as int] == '/');
        },
    }
}

/// For a page without overrides the derived path carries exactly one
/// trailing slash whenever the derived slug is nonempty: the slug alphabet
/// holds no slash. A text whose slug is empty (one of punctuation alone) is
/// the input the statement leaves out.
pub proof fn lemma_derived_path_single_trailing_slash(comps: Seq<Seq<char>>, name: Seq<char>)
    requires
        slug_of(name).len() > 0,
        forall|i: int|
            0 <= i < slug_of(name).len() ==> crate::slugs::is_slug_char(
                #[trigger] slug_of(name)[i],
            ),
    ensures
        ({
            let path = spec_page_path(None, comps, slug_of(name));
            &&& path.len() > 0
            &&& path[path.len() - 1] == '/'
            &&& (path.len() < 2 || path[path.len() - 2] != '/')
        }),
{
    let slug = slug_of(name);
    assert(crate::slugs::is_slug_char(slug[slug.len() - 1]));
    assert(slug[slug.len() - 1] != '/');
    lemma_path_single_trailing_slash(None, comps, slug);
}

// ---------------------------------------------------------------------------
// Asset collection
// ---------------------------------------------------------------------------

/// A content file: one with the markdown extension.
pub open spec fn is_content_name(name: Seq<char>) -> bool {
    ext_of(name) == Some("md"@)
}

/// The sibling names collected as assets: non-content files not matched by
/// an ignore pattern (patterns apply only when there are any).
pub open spec fn spec_assets(names: Seq<Seq<char>>, patterns: Seq<Seq<char>>) -> Seq<Seq<char>>
    decreases names.len(),
{
    if names.len() == 0 {
        Seq::empty()
    } else {
        let rest = spec_assets(names.skip(1), patterns);
        if !is_content_name(names[0]) && !(patterns.len() > 0 && glob_matches(
            patterns,
            names[0],
        )) {
            seq![names[0]] + rest
        } else {
            rest
        }
    }
}

/// The assets among all sibling names, from the first on.
pub(crate) fn collect_all_assets(names: &Vec<String>, patterns: &Vec<String>) -> (r: Vec<String>)
    ensures
        r.deep_view() == spec_assets(names.deep_view(), patterns.deep_view()),
{
    let r = collect_assets(names, patterns, 0);
    proof {
        assert(names.deep_view().skip(0) =~~= names.deep_view());
    }
    r
}

/// Filters sibling file names down to the assets.
fn collect_assets(names: &Vec<String>, patterns: &Vec<String>, from: usize) -> (r: Vec<String>)
    requires
        from <= names@.len(),
    ensures
        r.deep_view() == spec_assets(names.deep_view().skip(from as int), patterns.deep_view()),
    decreases names@.len() - from,
{
    if from == names.len() {
        proof {
            assert(names.deep_view().skip(from as int) =~~= Seq::<Seq<char>>::empty());
        }
        Vec::new()
    } else {
        proof {
            let dv = names.deep_view().skip(from as int);
            assert(dv[0] =~= names@[from as int]@);
            assert(dv.skip(1) =~~= names.deep_view().skip(from as int + 1));
        }
        let mut rest = collect_assets(names, patterns, from + 1);
        let name = &names[from];
        let cs = chars_of(name.as_str());
        proof {
            crate::strtools::lemma_rfind_char(cs@, '.');
        }
        let dot = crate::strtools::vec_rfind_char(&cs, '.');
        let is_md: bool = match dot {
            Some(i) => {
                proof {
                    crate::file_info::rfind_agrees(cs@, '.', i as int);
                }
                if i > 0 {
                    let ext = subvec(&cs, i + 1, cs.len());
                    proof {
                        assert(ext@ =~= cs@.skip(i + 1));
                        reveal_strlit("md");
                    }
                    let md = chars_of("md");
                    crate::strtools::vec_eq(&ext, &md)
                } else {
                    false
                }
            },
            None => {
                proof {
                    if rfind_char(cs@, '.') is Some {
                        let k = rfind_char(cs@, '.')->Some_0;
                        assert(cs@[k] == '.');
                        assert(false);
                    }
                }
                false
            },
        };
        let ignored: bool = patterns.len() > 0 && glob_set_matches(patterns, name.as_str());
        if !is_md && !ignored {
            let kept = crate::kv::clone_string(name);
            let ghost old_dv = rest.deep_view();
            rest.insert(0, kept);
            proof {
                assert(rest.deep_view() =~~= seq![names@[from as int]@] + old_dv);
            }
            rest
        } else {
            rest
        }
    }
}

// ---------------------------------------------------------------------------
// Construction and parsing
// ---------------------------------------------------------------------------

impl Page {
    /// An unparsed page at the given location: everything else empty.
    pub fn new(file_path: &str, meta: PageFrontMatter) -> (p: Page)
        requires
            file_path@.len() > 0,
        ensures
            p.file.path@ == file_path@,
            p.meta == meta,
            p.raw_content@.len() == 0,
            p.assets@.len() == 0,
            p.content@.len() == 0,
            p.slug@.len() == 0,
            p.path@.len() == 0,
            p.components@.len() == 0,
            p.permalink@.len() == 0,
            p.summary is None,
            p.earlier is None,
            p.later is None,
            p.lighter is None,
            p.heavier is None,
            p.toc@.len() == 0,
            p.word_count is None,
            p.reading_time is None,
            p.file.name@ == file_stem(file_path@),
            ({
                let base = content_components(file_path@);
                if file_stem(file_path@) == "index"@ && base.len() > 0 {
                    p.file.components.deep_view() == base.take(base.len() - 1)
                } else {
                    p.file.components.deep_view() == base
                }
            }),
            p.file.relative@ == crate::file_info::relative_of(
                content_components(file_path@),
                file_stem(file_path@),
            ),
    {
        Page {
            file: FileInfo::new_page(file_path),
            meta,
            raw_content: String::new(),
            assets: Vec::new(),
            content: String::new(),
            slug: String::new(),
            path: String::new(),
            components: Vec::new(),
            permalink: String::new(),
            summary: None,
            earlier: None,
            later: None,
            lighter: None,
            heavier: None,
            toc: Vec::new(),
            word_count: None,
            reading_time: None,
        }
    }

    /// The page is a draft.
    pub fn is_draft(&self) -> (r: bool)
        ensures
            r == self.meta.draft,
    {
        self.meta.draft
    }

    /// Parses a page from its file's text: the front matter decoded, the
    /// slug, path, components and permalink derived, the reading analytics
    /// computed. Files without a well-formed front-matter block fail.
    #[verifier::rlimit(100)]
    pub fn parse(file_path: &str, content: &str, config: &Config) -> (r: Result<Page, Error>)
        requires
            file_path@.len() > 0,
        ensures
            match r {
                Ok(p) => {
                    &&& spec_split_content(content@) matches Some(sp)
                    &&& p.raw_content@ == sp.1
                    &&& toml_of(sp.0) matches Some(t)
                    &&& page_fm_ok(t)
                    &&& page_fm_matches(p.meta, t)
                    &&& p.file.path@ == file_path@
                    &&& p.file.name@ == file_stem(file_path@)
                    &&& p.slug@ == spec_page_slug(view_opt_str(p.meta.slug), file_path@)
                    &&& p.path@ == spec_page_path(
                        view_opt_str(p.meta.path),
                        p.file.components.deep_view(),
                        p.slug@,
                    )
                    &&& p.path@.len() > 0 && p.path@[p.path@.len() - 1] == '/'
                    &&& p.components.deep_view() == nonempty_parts(split_chars(p.path@, '/'))
                    &&& p.permalink@ == spec_make_permalink(config.base_url@, p.path@)
                    &&& p.word_count == Some(spec_word_count(sp.1) as usize)
                    &&& p.reading_time == Some(spec_reading_time(spec_word_count(sp.1)) as usize)
                    &&& p.assets@.len() == 0
                    &&& p.content@.len() == 0
                    &&& p.toc@.len() == 0
                    &&& p.summary is None
                    &&& p.earlier is None && p.later is None && p.lighter is None
                        && p.heavier is None
                    &&& ({
                        let base = content_components(file_path@);
                        if file_stem(file_path@) == "index"@ && base.len() > 0 {
                            p.file.components.deep_view() == base.take(base.len() - 1)
                        } else {
                            p.file.components.deep_view() == base
                        }
                    })
                },
                Err(e) => {
                    &&& (spec_split_content(content@) is None <==> e is Parse)
                    &&& (spec_split_content(content@) matches Some(sp) ==> e is Schema && (
                    toml_of(sp.0) is None || (toml_of(sp.0) matches Some(t) && !page_fm_ok(t))))
                },
            },
    {
        let (meta, body) = match split_page_content(file_path, content) {
            Ok(p) => p,
            Err(e) => {
                return Err(e);
            },
        };
        let mut page = Page::new(file_path, meta);
        let body_chars = chars_of(body.as_str());
        let words = count_words(&body_chars);
        page.raw_content = body;
        page.word_count = Some(words);
        let rt: usize = words / 200 + if words % 200 == 0 {
            0
        } else {
            1
        };
        page.reading_time = Some(rt);
        // slug: explicit wins, else derived from the file location
        let slug: String = match &page.meta.slug {
            Some(s) => {
                let cs = chars_of(s.as_str());
                let t = vec_trim(&cs);
                string_from_chars(&t)
            },
            None => {
                let path_chars = chars_of(file_path);
                let dir = crate::file_info::dir_vec(&path_chars);
                let dn: usize = dir.len();
                proof {
                    crate::strtools::lemma_rfind_char(dir@, '/');
                }
                let slash = crate::strtools::vec_rfind_char(&dir, '/');
                let base: Vec<char> = match slash {
                    Some(i) => {
                        proof {
                            crate::file_info::rfind_agrees(dir@, '/', i as int);
                        }
                        subvec(&dir, i + 1, dn)
                    },
                    None => {
                        proof {
                            if rfind_char(dir@, '/') is Some {
                                let k = rfind_char(dir@, '/')->Some_0;
                                assert(dir@[k] == '/');
                                assert(false);
                            }
                        }
                        subvec(&dir, 0, dir.len())
                    },
                };
                proof {
                    assert(base@ =~= base_name(dir_of(file_path@)));
                    reveal_strlit("index");
                }
                let name_chars = chars_of(page.file.name.as_str());
                let index_lit = chars_of("index");
                if crate::strtools::vec_eq(&name_chars, &index_lit) && base.len() > 0 {
                    let base_str = string_from_chars(&base);
                    slugify(base_str.as_str())
                } else {
                    slugify(page.file.name.as_str())
                }
            },
        };
        page.slug = slug;
        // path: explicit wins, else components joined with the slug
        let mut path_vec: Vec<char> = match &page.meta.path {
            Some(p) => {
                let cs = chars_of(p.as_str());
                let t = vec_trim(&cs);
                proof {
                    lemma_leading_count(t@, '/');
                }
                let lead = vec_leading_count(&t, '/');
                let stripped = subvec(&t, lead, t.len());
                proof {
                    assert(stripped@ =~= trimmed(p@).skip(leading_count(trimmed(p@), '/')));
                }
                stripped
            },
            None => {
                if page.file.components.len() == 0 {
                    chars_of(page.slug.as_str())
                } else {
                    let parts = parts_of_strings(&page.file.components);
                    let mut joined = crate::strtools::vec_join(&parts, '/');
                    joined.push('/');
                    let slug_chars = chars_of(page.slug.as_str());
                    vec_extend(&mut joined, &slug_chars);
                    proof {
                        assert(joined@ =~= join_chars(page.file.components.deep_view(), '/')
                            + seq!['/'] + page.slug@);
                    }
                    joined
                }
            },
        };
        if !(path_vec.len() > 0 && path_vec[path_vec.len() - 1] == '/') {
            path_vec.push('/');
        }
        proof {
            assert(path_vec@ =~= spec_page_path(
                view_opt_str(page.meta.path),
                page.file.components.deep_view(),
                page.slug@,
            ));
        }
        // components: the nonempty segments of the path
        let split = vec_split(&path_vec, '/');
        let kept = vec_nonempty(&split);
        page.components = crate::file_info::strings_of_parts(&kept);
        let path_str = string_from_chars(&path_vec);
        page.permalink = config.make_permalink(path_str.as_str());
        page.path = path_str;
        Ok(page)
    }

    /// Fills the page's assets from its sibling file names: nothing for a
    /// non-index file; for an index-style file the non-content siblings
    /// not matched by an ignore pattern.
    pub fn attach_assets(&mut self, siblings: &Vec<String>, config: &Config)
        ensures
            *final(self) == (Page { assets: final(self).assets, ..*old(self) }),
            final(self).file.name@ == "index"@ ==> final(self).assets.deep_view() == spec_assets(
                siblings.deep_view(),
                config.ignored_content.deep_view(),
            ),
            final(self).file.name@ != "index"@ ==> final(self).assets@.len() == 0,
    {
        proof {
            reveal_strlit("index");
        }
        let name_chars = chars_of(self.file.name.as_str());
        let index_lit = chars_of("index");
        if crate::strtools::vec_eq(&name_chars, &index_lit) {
            let found = collect_assets(siblings, &config.ignored_content, 0);
            proof {
                assert(siblings.deep_view().skip(0) =~~= siblings.deep_view());
            }
            self.assets = found;
        } else {
            self.assets = Vec::new();
        }
    }

    /// Renders the page's body against the permalink table: content,
    /// summary and table of contents are exactly the pipeline's outcome;
    /// everything else is untouched. The only failure is a broken internal
    /// link.
    pub fn render_markdown(
        &mut self,
        permalinks: &Vec<(String, String)>,
        anchor_insert: InsertAnchor,
    ) -> (r: Result<(), Error>)
        ensures
            match r {
                Ok(()) => {
                    &&& *final(self) == (Page {
                        content: final(self).content,
                        summary: final(self).summary,
                        toc: final(self).toc,
                        ..*old(self)
                    })
                    &&& spec_rendered(
                        old(self).raw_content@,
                        permalinks.deep_view(),
                        old(self).permalink@,
                        anchor_insert,
                    ) == Ok::<(Seq<char>, Option<Seq<char>>, Seq<HeaderSpec>), Seq<char>>(
                        (
                            final(self).content@,
                            view_opt_summary(final(self).summary),
                            headers_view(final(self).toc@),
                        ),
                    )
                },
                Err(e) => e is BrokenLink && e->BrokenLink_file@ == old(self).file.path@
                    && *final(self) == *old(self) && spec_rendered(
                    old(self).raw_content@,
                    permalinks.deep_view(),
                    old(self).permalink@,
                    anchor_insert,
                ) == Err::<(Seq<char>, Option<Seq<char>>, Seq<HeaderSpec>), Seq<char>>(
                    e->BrokenLink_link@,
                ),
            },
    {
        let rendered = match render_content(
            self.raw_content.as_str(),
            permalinks,
            self.permalink.as_str(),
            anchor_insert,
            self.file.path.as_str(),
        ) {
            Ok(rd) => rd,
            Err(e) => {
                return Err(e);
            },
        };
        self.summary = rendered.summary;
        self.content = rendered.body;
        self.toc = rendered.toc;
        Ok(())
    }

    /// The template this page renders with: the override, or the default
    /// page template.
    pub fn get_template_name(&self) -> (r: String)
        ensures
            match self.meta.template {
                Some(t) => r@ == t@,
                None => r@ == "page.html"@,
            },
    {
        match &self.meta.template {
            Some(t) => crate::kv::clone_string(t),
            None => "page.html".to_owned(),
        }
    }

    /// Asset URLs: the page path followed by each asset's file name.
    pub fn serialize_assets(&self) -> (r: Vec<String>)
        ensures
            r.deep_view() == self.assets.deep_view().map_values(
                |name: Seq<char>| self.path@ + name,
            ),
    {
        let mut out: Vec<String> = Vec::new();
        let mut i: usize = 0;
        let path_chars = chars_of(self.path.as_str());
        while i < self.assets.len()
            invariant
                0 <= i <= self.assets@.len(),
                path_chars@ == self.path@,
                out.deep_view() =~~= self.assets.deep_view().take(i as int).map_values(
                    |name: Seq<char>| self.path@ + name,
                ),
            decreases self.assets@.len() - i,
        {
            let mut url = subvec(&path_chars, 0, path_chars.len());
            let name_chars = chars_of(self.assets[i].as_str());
            vec_extend(&mut url, &name_chars);
            let ghost old_dv = out.deep_view();
            out.push(string_from_chars(&url));
            proof {
                assert(out.deep_view() =~~= old_dv.push(self.path@ + self.assets@[i as int]@));
                assert(out.deep_view() =~~= self.assets.deep_view().take(i + 1).map_values(
                    |name: Seq<char>| self.path@ + name,
                ));
            }
            i = i + 1;
        }
        proof {
            assert(self.assets.deep_view().take(self.assets@.len() as int) =~~= self.assets.deep_view());
        }
        out
    }
}

/// The components as character vectors, for joining.
pub(crate) fn parts_of_strings(parts: &Vec<String>) -> (r: Vec<Vec<char>>)
    ensures
        r.deep_view() == parts.deep_view(),
{
    let mut r: Vec<Vec<char>> = Vec::new();
    let mut i: usize = 0;
    while i < parts.len()
        invariant
            0 <= i <= parts@.len(),
            r.deep_view() =~~= parts.deep_view().take(i as int),
        decreases parts@.len() - i,
    {
        let cs = chars_of(parts[i].as_str());
        let ghost old_dv = r.deep_view();
        r.push(cs);
        proof {
            assert(r.deep_view() =~~= old_dv.push(parts@[i as int]@));
            assert(r.deep_view() =~~= parts.deep_view().take(i + 1));
        }
        i = i + 1;
    }
    proof {
        assert(r.deep_view() =~~= parts.deep_view());
    }
    r
}

} // verus!
