//! The template engine's global functions, as verified lookups: a page or
//! section fetched by its content-relative identity, and URL resolution
//! with optional cache busting.
use vstd::prelude::*;

use crate::config::{spec_make_permalink, Config};
use crate::errors::Error;
use crate::library::{Key, Library};
use crate::page::Page;
use crate::rendering::{resolve_internal_link, spec_resolve};
use crate::section::Section;
use crate::strtools::{chars_of, dec_chars, eq_str, starts_with, string_from_chars, u64_dec_chars,
    vec_extend};

verus! {

impl Library {
    /// The first page whose identity key is the given path.
    pub fn get_page_by_relative(&self, path: &str) -> (r: Option<Key>)
        requires
            self.wf(),
        ensures
            match r {
                Some(k) => self.pages.valid(k) && self.pages.at(k).file.relative@ == path@,
                None => forall|i: int|
                    0 <= i < self.page_keys@.len() ==> (#[trigger] self.pages.at(
                        self.page_keys@[i],
                    )).file.relative@ != path@,
            },
    {
        let mut i: usize = 0;
        while i < self.page_keys.len()
            invariant
                self.wf(),
                0 <= i <= self.page_keys@.len(),
                forall|j: int|
                    0 <= j < i ==> (#[trigger] self.pages.at(
                        self.page_keys@[j],
                    )).file.relative@ != path@,
            decreases self.page_keys@.len() - i,
        {
            let k = self.page_keys[i];
            if eq_str(self.pages.get(k).file.relative.as_str(), path) {
                return Some(k);
            }
            i = i + 1;
        }
        None
    }

    /// The first section whose identity key is the given path.
    pub fn get_section_by_relative(&self, path: &str) -> (r: Option<Key>)
        requires
            self.wf(),
        ensures
            match r {
                Some(k) => self.sections.valid(k) && self.sections.at(k).file.relative@ == path@,
                None => forall|i: int|
                    0 <= i < self.section_keys@.len() ==> (#[trigger] self.sections.at(
                        self.section_keys@[i],
                    )).file.relative@ != path@,
            },
    {
        let mut i: usize = 0;
        while i < self.section_keys.len()
            invariant
                self.wf(),
                0 <= i <= self.section_keys@.len(),
                forall|j: int|
                    0 <= j < i ==> (#[trigger] self.sections.at(
                        self.section_keys@[j],
                    )).file.relative@ != path@,
            decreases self.section_keys@.len() - i,
        {
            let k = self.section_keys[i];
            if eq_str(self.sections.get(k).file.relative.as_str(), path) {
                return Some(k);
            }
            i = i + 1;
        }
        None
    }
}

impl Library {
    /// The pages under the given identity keys, in order; the first path
    /// under which no page stands fails the lookup, named like a broken
    /// link.
    pub fn get_pages_by_relative(&self, paths: &Vec<String>) -> (r: Result<Vec<Key>, Error>)
        requires
            self.wf(),
        ensures
            match r {
                Ok(ks) => ks@.len() == paths@.len() && (forall|i: int|
                    0 <= i < ks@.len() ==> self.pages.valid(#[trigger] ks@[i]) && self.pages.at(
                        ks@[i],
                    ).file.relative@ == paths@[i]@),
                Err(e) => e is BrokenLink && (exists|i: int|
                    0 <= i < paths@.len() && (#[trigger] paths@[i])@ == e->BrokenLink_link@) && (
                forall|j: int|
                    0 <= j < self.page_keys@.len() ==> (#[trigger] self.pages.at(
                        self.page_keys@[j],
                    )).file.relative@ != e->BrokenLink_link@),
            },
    {
        let mut out: Vec<Key> = Vec::new();
        let mut i: usize = 0;
        while i < paths.len()
            invariant
                self.wf(),
                0 <= i <= paths@.len(),
                out@.len() == i,
                forall|j: int|
                    0 <= j < i ==> self.pages.valid(#[trigger] out@[j]) && self.pages.at(
                        out@[j],
                    ).file.relative@ == paths@[j]@,
            decreases paths@.len() - i,
        {
            match self.get_page_by_relative(paths[i].as_str()) {
                Some(k) => {
                    out.push(k);
                },
                None => {
                    proof {
                        assert(paths@[i as int]@ == paths@[i as int]@);
                    }
                    return Err(
                        Error::BrokenLink {
                            link: crate::kv::clone_string(&paths[i]),
                            file: String::new(),
                        },
                    );
                },
            }
            i = i + 1;
        }
        Ok(out)
    }
}

/// The URL that the template function yields: an internal link resolved
/// through the table, anything else joined with the base URL, with the
/// build timestamp appended when cache busting is asked for.
pub open spec fn spec_get_url(
    table: Seq<(Seq<char>, Seq<char>)>,
    base: Seq<char>,
    stamp: u64,
    path: Seq<char>,
    cachebust: bool,
) -> Option<Seq<char>> {
    if starts_with(path, "./"@) {
        spec_resolve(path, table)
    } else {
        let plain = spec_make_permalink(base, path);
        if cachebust {
            Some(plain + "?t="@ + dec_chars(stamp as nat))
        } else {
            Some(plain)
        }
    }
}

/// Resolves a URL for a template: internal links go through the permalink
/// table and fail as broken links when absent; external paths join the base
/// URL, cache-busted with the build timestamp on request.
pub fn get_url(
    permalinks: &Vec<(String, String)>,
    config: &Config,
    path: &str,
    cachebust: bool,
) -> (r: Result<String, Error>)
    requires
        cachebust ==> config.build_timestamp is Some,
    ensures
        match r {
            Ok(u) => spec_get_url(
                permalinks.deep_view(),
                config.base_url@,
                config.build_timestamp.unwrap_or(0u64),
                path@,
                cachebust,
            ) == Some(u@),
            Err(e) => spec_get_url(
                permalinks.deep_view(),
                config.base_url@,
                config.build_timestamp.unwrap_or(0u64),
                path@,
                cachebust,
            ) is None && e is BrokenLink,
        },
{
    proof {
        reveal_strlit("./");
        reveal_strlit("?t=");
    }
    let cs = chars_of(path);
    let dot_slash = chars_of("./");
    if crate::strtools::vec_starts_with(&cs, &dot_slash) {
        proof {
            assert(path@.len() >= 2);
        }
        resolve_internal_link(path, permalinks)
    } else {
        let plain = config.make_permalink(path);
        if cachebust {
            let stamp: u64 = match config.build_timestamp {
                Some(t) => t,
                None => {
                    proof {
                        assert(false);
                    }
                    0
                },
            };
            let mut out = chars_of(plain.as_str());
            let marker = chars_of("?t=");
            vec_extend(&mut out, &marker);
            let digits = u64_dec_chars(stamp);
            vec_extend(&mut out, &digits);
            proof {
                assert(out@ =~= spec_make_permalink(config.base_url@, path@) + "?t="@ + dec_chars(
                    stamp as nat,
                ));
            }
            Ok(string_from_chars(&out))
        } else {
            Ok(plain)
        }
    }
}

} // verus!
