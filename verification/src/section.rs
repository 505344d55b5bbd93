//! A section: the representative index file of a directory, its child
//! pages and subsections, and its rendered output. A section's path is
//! always derived from its directory components; sections have no slug
//! override.
use vstd::prelude::*;

use crate::config::{spec_make_permalink, Config};
use crate::errors::Error;
use crate::file_info::{content_components, FileInfo};
use crate::front_matter::{
    section_fm_matches, section_fm_ok, spec_split_content, split_section_content, view_opt_str,
    SectionFrontMatter,
};
use crate::globs::glob_matches;
use crate::kv::toml_of;
use crate::library::Key;
use crate::page::{spec_assets, spec_reading_time, spec_word_count, count_words};
use crate::rendering::{
    headers_view, render_content, spec_rendered, view_opt_summary, Header, HeaderSpec,
};
use crate::strtools::{
    chars_of, join_chars, nonempty_parts, split_chars, string_from_chars, vec_extend, vec_join,
    vec_nonempty, vec_split,
};

verus! {

/// A section of the site.
pub struct Section {
    /// Location metadata of the file.
    pub file: FileInfo,
    /// The decoded front matter.
    pub meta: SectionFrontMatter,
    /// The site path: the directory components joined, with a trailing `/`.
    pub path: String,
    /// The nonempty `/`-separated segments of `path`.
    pub components: Vec<String>,
    /// The base URL joined with `path`.
    pub permalink: String,
    /// The body below the front matter, unrendered.
    pub raw_content: String,
    /// The rendered HTML body; empty until the render pass.
    pub content: String,
    /// Names of sibling non-content files.
    pub assets: Vec<String>,
    /// Direct child pages.
    pub pages: Vec<Key>,
    /// Child pages lacking the field a requested ordering needs.
    pub ignored_pages: Vec<Key>,
    /// Direct child sections.
    pub subsections: Vec<Key>,
    /// Heading tree of the rendered body.
    pub toc: Vec<Header>,
    /// Whitespace-separated word count of the raw body.
    pub word_count: Option<usize>,
    /// Reading time in minutes, one per two hundred words, rounded up.
    pub reading_time: Option<usize>,
}

/// A section's path: its directory components joined, with a trailing `/`.
pub open spec fn spec_section_path(comps: Seq<Seq<char>>) -> Seq<char> {
    join_chars(comps, '/') + seq!['/']
}

impl Section {
    /// An unparsed section at the given location: everything else empty.
    pub fn new(file_path: &str, meta: SectionFrontMatter) -> (s: Section)
        requires
            file_path@.len() > 0,
        ensures
            s.file.path@ == file_path@,
            s.file.name@ == crate::file_info::file_stem(file_path@),
            s.file.components.deep_view() == content_components(file_path@),
            s.meta == meta,
            s.path@.len() == 0,
            s.components@.len() == 0,
            s.permalink@.len() == 0,
            s.raw_content@.len() == 0,
            s.assets@.len() == 0,
            s.content@.len() == 0,
            s.pages@.len() == 0,
            s.ignored_pages@.len() == 0,
            s.subsections@.len() == 0,
            s.toc@.len() == 0,
            s.word_count is None,
            s.reading_time is None,
    {
        Section {
            file: FileInfo::new_section(file_path),
            meta,
            path: String::new(),
            components: Vec::new(),
            permalink: String::new(),
            raw_content: String::new(),
            content: String::new(),
            assets: Vec::new(),
            pages: Vec::new(),
            ignored_pages: Vec::new(),
            subsections: Vec::new(),
            toc: Vec::new(),
            word_count: None,
            reading_time: None,
        }
    }

    /// Parses a section from its file's text: front matter decoded, path,
    /// components and permalink derived from the directory components
    /// alone, reading analytics computed.
    pub fn parse(file_path: &str, content: &str, config: &Config) -> (r: Result<Section, Error>)
        requires
            file_path@.len() > 0,
        ensures
            match r {
                Ok(s) => {
                    &&& spec_split_content(content@) matches Some(sp)
                    &&& s.raw_content@ == sp.1
                    &&& toml_of(sp.0) matches Some(t)
                    &&& section_fm_ok(t)
                    &&& section_fm_matches(s.meta, t)
                    &&& s.file.path@ == file_path@
                    &&& s.file.components.deep_view() == content_components(file_path@)
                    &&& s.path@ == spec_section_path(s.file.components.deep_view())
                    &&& s.components.deep_view() == nonempty_parts(split_chars(s.path@, '/'))
                    &&& s.permalink@ == spec_make_permalink(config.base_url@, s.path@)
                    &&& s.word_count == Some(spec_word_count(sp.1) as usize)
                    &&& s.reading_time == Some(spec_reading_time(spec_word_count(sp.1)) as usize)
                    &&& s.assets@.len() == 0
                    &&& s.content@.len() == 0
                    &&& s.pages@.len() == 0 && s.ignored_pages@.len() == 0
                        && s.subsections@.len() == 0
                },
                Err(e) => {
                    &&& (spec_split_content(content@) is None <==> e is Parse)
                    &&& (spec_split_content(content@) matches Some(sp) ==> e is Schema && (
                    toml_of(sp.0) is None || (toml_of(sp.0) matches Some(t) && !section_fm_ok(t))))
                },
            },
    {
        let (meta, body) = match split_section_content(file_path, content) {
            Ok(p) => p,
            Err(e) => {
                return Err(e);
            },
        };
        let mut section = Section::new(file_path, meta);
        let body_chars = chars_of(body.as_str());
        let words = count_words(&body_chars);
        section.raw_content = body;
        section.word_count = Some(words);
        let rt: usize = words / 200 + if words % 200 == 0 {
            0
        } else {
            1
        };
        section.reading_time = Some(rt);
        let parts = crate::page::parts_of_strings(&section.file.components);
        let mut path_vec = vec_join(&parts, '/');
        path_vec.push('/');
        proof {
            assert(path_vec@ =~= spec_section_path(section.file.components.deep_view()));
        }
        let split = vec_split(&path_vec, '/');
        let kept = vec_nonempty(&split);
        section.components = crate::file_info::strings_of_parts(&kept);
        let path_str = string_from_chars(&path_vec);
        section.permalink = config.make_permalink(path_str.as_str());
        section.path = path_str;
        Ok(section)
    }

    /// The template this section renders with: the override, the index
    /// template for the root section, else the section template.
    pub fn get_template_name(&self) -> (r: String)
        ensures
            match self.meta.template {
                Some(t) => r@ == t@,
                None => if self.file.components@.len() == 0 {
                    r@ == "index.html"@
                } else {
                    r@ == "section.html"@
                },
            },
    {
        match &self.meta.template {
            Some(t) => crate::kv::clone_string(t),
            None => {
                if self.is_index() {
                    "index.html".to_owned()
                } else {
                    "section.html".to_owned()
                }
            },
        }
    }

    /// The root section: the one with no directory components.
    pub fn is_index(&self) -> (r: bool)
        ensures
            r == (self.file.components@.len() == 0),
    {
        self.file.components.len() == 0
    }

    /// Fills the section's assets from its sibling file names: sections
    /// always stand for their directory, so the non-content siblings not
    /// matched by an ignore pattern are collected.
    pub fn attach_assets(&mut self, siblings: &Vec<String>, config: &Config)
        ensures
            *final(self) == (Section { assets: final(self).assets, ..*old(self) }),
            final(self).assets.deep_view() == spec_assets(
                siblings.deep_view(),
                config.ignored_content.deep_view(),
            ),
    {
        let found = crate::page::collect_all_assets(siblings, &config.ignored_content);
        self.assets = found;
    }

    /// Renders the section's body against the permalink table; content and
    /// table of contents are exactly the pipeline's outcome, everything
    /// else untouched. The only failure is a broken internal link.
    pub fn render_markdown(&mut self, permalinks: &Vec<(String, String)>) -> (r: Result<
        (),
        Error,
    >)
        ensures
            match r {
                Ok(()) => {
                    &&& *final(self) == (Section {
                        content: final(self).content,
                        toc: final(self).toc,
                        ..*old(self)
                    })
                    &&& spec_rendered(
                        old(self).raw_content@,
                        permalinks.deep_view(),
                        old(self).permalink@,
                        old(self).meta.insert_anchor_links,
                    ) matches Ok(out)
                    &&& final(self).content@ == out.0
                    &&& headers_view(final(self).toc@) == out.2
                },
                Err(e) => e is BrokenLink && e->BrokenLink_file@ == old(self).file.path@
                    && *final(self) == *old(self) && spec_rendered(
                    old(self).raw_content@,
                    permalinks.deep_view(),
                    old(self).permalink@,
                    old(self).meta.insert_anchor_links,
                ) == Err::<(Seq<char>, Option<Seq<char>>, Seq<HeaderSpec>), Seq<char>>(
                    e->BrokenLink_link@,
                ),
            },
    {
        let anchor = self.meta.insert_anchor_links;
        let rendered = match render_content(
            self.raw_content.as_str(),
            permalinks,
            self.permalink.as_str(),
            anchor,
            self.file.path.as_str(),
        ) {
            Ok(rd) => rd,
            Err(e) => {
                return Err(e);
            },
        };
        self.content = rendered.body;
        self.toc = rendered.toc;
        Ok(())
    }

    /// Asset URLs: the section path followed by each asset's file name.
    pub fn serialize_assets(&self) -> (r: Vec<String>)
        ensures
            r.deep_view() == self.assets.deep_view().map_values(
                |name: Seq<char>| self.path@ + name,
            ),
    {
        let mut out: Vec<String> = Vec::new();
        let mut i: usize = 0;
        let path_chars = chars_of(self.path.as_str());
        while i < self.assets.len()
            invariant
                0 <= i <= self.assets@.len(),
                path_chars@ == self.path@,
                out.deep_view() =~~= self.assets.deep_view().take(i as int).map_values(
                    |name: Seq<char>| self.path@ + name,
                ),
            decreases self.assets@.len() - i,
        {
            let mut url = crate::strtools::subvec(&path_chars, 0, path_chars.len());
            let name_chars = chars_of(self.assets[i].as_str());
            vec_extend(&mut url, &name_chars);
            let ghost old_dv = out.deep_view();
            out.push(string_from_chars(&url));
            proof {
                assert(out.deep_view() =~~= old_dv.push(self.path@ + self.assets@[i as int]@));
                assert(out.deep_view() =~~= self.assets.deep_view().take(i + 1).map_values(
                    |name: Seq<char>| self.path@ + name,
                ));
            }
            i = i + 1;
        }
        proof {
            assert(self.assets.deep_view().take(self.assets@.len() as int)
                =~~= self.assets.deep_view());
        }
        out
    }
}

} // verus!
