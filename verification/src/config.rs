//! Site configuration: the base URL that permalinks are built from, the
//! theme, the build timestamp used for cache busting, and the ignore
//! patterns applied to collected assets.
use vstd::prelude::*;

use crate::errors::Error;
use crate::front_matter::{get_str_field, str_field, terms_of, terms_ok, view_opt_str};
use crate::kv::{parse_toml, tab_get, toml_of, KvSpec, KvValue};
use crate::strtools::{chars_of, string_from_chars, vec_extend};

verus! {

pub struct Config {
    /// Absolute URL the site is served from; permalinks join it with paths.
    pub base_url: String,
    /// Optional theme name handed to the template engine.
    pub theme: Option<String>,
    /// Timestamp appended to cache-busted URLs.
    pub build_timestamp: Option<u64>,
    /// Glob patterns of asset file names excluded from collection,
    /// matched against the file name only.
    pub ignored_content: Vec<String>,
}

/// The permalink of `path` under `base`: the two joined with exactly one
/// `/` between them and a trailing `/` appended when `path` lacks one.
pub open spec fn spec_make_permalink(base: Seq<char>, path: Seq<char>) -> Seq<char> {
    let trail: Seq<char> = if path.len() > 0 && path[path.len() - 1] == '/' {
        Seq::empty()
    } else {
        seq!['/']
    };
    let base_slash = base.len() > 0 && base[base.len() - 1] == '/';
    let path_slash = path.len() > 0 && path[0] == '/';
    if base_slash && path_slash {
        base + path.skip(1) + trail
    } else if base_slash || path_slash {
        base + path + trail
    } else {
        base + seq!['/'] + path + trail
    }
}

impl Config {
    /// Joins the base URL and a site-relative path into a permalink.
    pub fn make_permalink(&self, path: &str) -> (r: String)
        ensures
            r@ == spec_make_permalink(self.base_url@, path@),
    {
        let base = chars_of(self.base_url.as_str());
        let p = chars_of(path);
        let trail_needed = !(p.len() > 0 && p[p.len() - 1] == '/');
        let base_slash = base.len() > 0 && base[base.len() - 1] == '/';
        let path_slash = p.len() > 0 && p[0] == '/';
        let mut out: Vec<char> = Vec::new();
        vec_extend(&mut out, &base);
        if base_slash && path_slash {
            let mut i: usize = 1;
            while i < p.len()
                invariant
                    1 <= i <= p@.len(),
                    p@.len() >= 1,
                    out@ =~= base@ + p@.subrange(1, i as int),
                decreases p@.len() - i,
            {
                out.push(p[i]);
                proof {
                    assert(out@ =~= base@ + p@.subrange(1, i + 1));
                }
                i = i + 1;
            }
            proof {
                assert(p@.subrange(1, p@.len() as int) =~= p@.skip(1));
            }
        } else if base_slash || path_slash {
            vec_extend(&mut out, &p);
        } else {
            out.push('/');
            vec_extend(&mut out, &p);
        }
        if trail_needed {
            out.push('/');
        }
        proof {
            assert(out@ =~= spec_make_permalink(self.base_url@, path@));
        }
        string_from_chars(&out)
    }
}

/// The ignore-pattern field of a configuration: absent means none, else a
/// list of pattern strings.
pub open spec fn ignored_field(t: Seq<(Seq<char>, KvSpec)>) -> Option<Seq<Seq<char>>> {
    match tab_get(t, "ignored_content"@) {
        None => Some(Seq::empty()),
        Some(KvSpec::Arr(a)) => if terms_ok(a) {
            Some(terms_of(a))
        } else {
            None
        },
        Some(_) => None,
    }
}

/// Every configuration field well-typed.
pub open spec fn config_ok(t: Seq<(Seq<char>, KvSpec)>) -> bool {
    &&& str_field(t, "base_url"@) is Some
    &&& str_field(t, "theme"@) is Some
    &&& ignored_field(t) is Some
}

impl Config {
    /// Decodes a configuration document: the base URL (defaulting like the
    /// rest of the configuration), the theme and the asset ignore patterns;
    /// fails if and only if the text is not a document or a field is
    /// ill-typed.
    pub fn parse(content: &str) -> (r: Result<Config, Error>)
        ensures
            match r {
                Ok(c) => {
                    &&& toml_of(content@) matches Some(t)
                    &&& config_ok(t)
                    &&& c.base_url@ == (match str_field(t, "base_url"@)->Some_0 {
                        Some(u) => u,
                        None => "http://a-website.com"@,
                    })
                    &&& view_opt_str(c.theme) == str_field(t, "theme"@)->Some_0
                    &&& c.build_timestamp == Some(1u64)
                    &&& c.ignored_content.deep_view() == ignored_field(t)->Some_0
                },
                Err(e) => e is Schema && (toml_of(content@) is None || (toml_of(
                    content@,
                ) matches Some(t) && !config_ok(t))),
            },
    {
        let table = match parse_toml(content) {
            Some(v) => v,
            None => {
                return Err(Error::Schema("configuration is not valid TOML".to_owned()));
            },
        };
        let tab: Vec<(String, KvValue)> = match table {
            KvValue::Tab(t) => t,
            _ => {
                proof {
                    assert(false);
                }
                return Err(Error::Schema("configuration is not a table".to_owned()));
            },
        };
        let base_url: String = match get_str_field(&tab, "base_url") {
            Ok(Some(u)) => u,
            Ok(None) => "http://a-website.com".to_owned(),
            Err(e) => {
                return Err(e);
            },
        };
        let theme: Option<String> = match get_str_field(&tab, "theme") {
            Ok(o) => o,
            Err(e) => {
                return Err(e);
            },
        };
        let ignored_content: Vec<String> = match crate::kv::kv_find(&tab, "ignored_content") {
            None => {
                let none_found: Vec<String> = Vec::new();
                proof {
                    assert(none_found.deep_view() =~~= Seq::<Seq<char>>::empty());
                }
                none_found
            },
            Some(v) => {
                let arr: &Vec<KvValue> = match v {
                    KvValue::Arr(a) => a,
                    _ => {
                        proof {
                            crate::kv::lemma_kv_view_variant(*v);
                        }
                        return Err(Error::Schema("ignored_content must be a list".to_owned()));
                    },
                };
                proof {
                    crate::kv::lemma_kv_view_variant(*v);
                    crate::kv::lemma_arr_view_len(arr@);
                }
                let mut patterns: Vec<String> = Vec::new();
                let mut i: usize = 0;
                while i < arr.len()
                    invariant
                        *v == KvValue::Arr(*arr),
                        toml_of(content@) == Some(crate::kv::tab_view(tab@)),
                        crate::kv::tab_get(crate::kv::tab_view(tab@), "ignored_content"@) == Some(
                            crate::kv::kv_view(*v),
                        ),
                        0 <= i <= arr@.len(),
                        crate::kv::arr_view(arr@).len() == arr@.len(),
                        forall|j: int|
                            0 <= j < arr@.len() ==> crate::kv::arr_view(arr@)[j] == crate::kv::kv_view(
                                arr@[j],
                            ),
                        forall|j: int|
                            0 <= j < i ==> (#[trigger] crate::kv::arr_view(arr@)[j]) is Str,
                        patterns@.len() == i,
                        forall|j: int|
                            0 <= j < i ==> (#[trigger] patterns@[j])@ == crate::kv::arr_view(
                                arr@,
                            )[j]->Str_0,
                    decreases arr@.len() - i,
                {
                    proof {
                        crate::kv::lemma_kv_view_variant(arr@[i as int]);
                    }
                    match &arr[i] {
                        KvValue::Str(p) => {
                            patterns.push(crate::kv::clone_string(p));
                        },
                        _ => {
                            proof {
                                assert(!((crate::kv::arr_view(arr@)[i as int]) is Str));
                                assert(!terms_ok(crate::kv::arr_view(arr@)));
                            }
                            return Err(
                                Error::Schema("ignore patterns must be strings".to_owned()),
                            );
                        },
                    }
                    i = i + 1;
                }
                proof {
                    assert(patterns.deep_view() =~~= terms_of(crate::kv::arr_view(arr@)));
                }
                patterns
            },
        };
        Ok(Config { base_url, theme, build_timestamp: Some(1u64), ignored_content })
    }
}

impl Default for Config {
    /// The configuration used when no file overrides it.
    fn default() -> (c: Config)
        ensures
            c.base_url@ == "http://a-website.com"@,
            c.theme is None,
            c.build_timestamp == Some(1u64),
            c.ignored_content@.len() == 0,
    {
        Config {
            base_url: "http://a-website.com".to_owned(),
            theme: None,
            build_timestamp: Some(1u64),
            ignored_content: Vec::new(),
        }
    }
}

} // verus!
