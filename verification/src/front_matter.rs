//! Front matter: the delimited header block split off the top of a content
//! file and decoded against the page or section schema. A missing or
//! malformed delimiter pair is a parse error; a block whose fields have the
//! wrong types, or an invalid date, is a schema error.
use vstd::prelude::*;

use crate::datetime::{spec_parse_datetime, spec_rfc3339, parse_yaml_datetime, format_rfc3339,
    DateTime};
use crate::errors::Error;
use crate::kv::{arr_view, kv_clone, kv_find, kv_view, tab_get, tab_view, toml_of, parse_toml,
    KvSpec, KvValue, clone_string, lemma_tab_view_len, lemma_arr_view_len};
use crate::strtools::{
    chars_of, eq_str, find_sub, leading_ws, lemma_find_sub, lemma_find_sub_unique, matches_at,
    starts_with, string_from_chars, subvec, vec_find_sub, vec_leading_ws, vec_starts_with,
};

verus! {

/// Where a heading's anchor link is inserted, if at all.
#[derive(Clone, Copy, Debug, PartialEq, Eq, Structural)]
pub enum InsertAnchor {
    Off,
    Left,
    Right,
}

// ---------------------------------------------------------------------------
// Splitting the block off the body
// ---------------------------------------------------------------------------

/// The front-matter text and the body of a content file: optional leading
/// whitespace, `+++` and a newline, the block up to the next `+++`, an
/// optional newline, then the body. `None` when the delimiters are missing.
pub open spec fn spec_split_content(s: Seq<char>) -> Option<(Seq<char>, Seq<char>)> {
    let t = s.skip(leading_ws(s));
    if !starts_with(t, "+++"@) {
        None
    } else {
        let after = t.skip(3);
        let nl: int = if starts_with(after, "\r\n"@) {
            2
        } else if after.len() > 0 && after[0] == '\n' {
            1
        } else {
            -1
        };
        if nl < 0 {
            None
        } else {
            let rest = after.skip(nl);
            match find_sub(rest, "+++"@) {
                None => None,
                Some(i) => {
                    let after2 = rest.skip(i + 3);
                    let skip: int = if starts_with(after2, "\r\n"@) {
                        2
                    } else if after2.len() > 0 && (after2[0] == '\n' || after2[0] == '\r') {
                        1
                    } else {
                        0
                    };
                    Some((rest.take(i), after2.skip(skip)))
                },
            }
        }
    }
}

/// Splits content into front-matter text and body, exactly as the grammar
/// says; the error is a parse error.
pub fn split_content(content: &str) -> (r: Result<(String, String), Error>)
    ensures
        match r {
            Ok(p) => spec_split_content(content@) == Some((p.0@, p.1@)),
            Err(e) => spec_split_content(content@) is None && e is Parse,
        },
{
    let c = chars_of(content);
    let plus = chars_of("+++");
    proof {
        reveal_strlit("+++");
        reveal_strlit("\r\n");
    }
    let lead = vec_leading_ws(&c);
    proof {
        crate::strtools::lemma_leading_ws(c@);
    }
    let t = subvec(&c, lead, c.len());
    proof {
        assert(t@ =~= content@.skip(leading_ws(content@)));
    }
    if !vec_starts_with(&t, &plus) {
        return Err(Error::Parse("missing front-matter opening delimiter".to_owned()));
    }
    let after = subvec(&t, 3, t.len());
    proof {
        assert(after@ =~= t@.skip(3));
    }
    let nl: usize = if after.len() >= 2 && after[0] == '\r' && after[1] == '\n' {
        proof {
            assert(after@.take(2) =~= "\r\n"@);
        }
        2
    } else if after.len() > 0 && after[0] == '\n' {
        1
    } else {
        proof {
            if starts_with(after@, "\r\n"@) {
                assert(after@[0] == "\r\n"@[0]);
                assert(after@[1] == "\r\n"@[1]);
            }
        }
        return Err(Error::Parse("missing newline after front-matter delimiter".to_owned()));
    };
    proof {
        if nl == 1 && starts_with(after@, "\r\n"@) {
            assert(after@[0] == "\r\n"@[0]);
        }
    }
    let rest = subvec(&after, nl, after.len());
    proof {
        assert(rest@ =~= after@.skip(nl as int));
    }
    let found = vec_find_sub(&rest, &plus, 0);
    match found {
        None => {
            proof {
                lemma_find_sub(rest@, "+++"@);
                if find_sub(rest@, "+++"@) is Some {
                    let i = find_sub(rest@, "+++"@)->Some_0;
                    assert(matches_at(rest@, "+++"@, i));
                    assert(false);
                }
            }
            Err(Error::Parse("missing front-matter closing delimiter".to_owned()))
        },
        Some(i) => {
            proof {
                lemma_find_sub_unique(rest@, "+++"@, i as int);
            }
            let fm = subvec(&rest, 0, i);
            let after2 = subvec(&rest, i + 3, rest.len());
            proof {
                assert(fm@ =~= rest@.take(i as int));
                assert(after2@ =~= rest@.skip(i + 3));
            }
            let skip: usize = if after2.len() >= 2 && after2[0] == '\r' && after2[1] == '\n' {
                proof {
                    assert(after2@.take(2) =~= "\r\n"@);
                }
                2
            } else if after2.len() > 0 && (after2[0] == '\n' || after2[0] == '\r') {
                1
            } else {
                0
            };
            proof {
                if skip != 2 && starts_with(after2@, "\r\n"@) {
                    assert(after2@[0] == "\r\n"@[0]);
                    assert(after2@[1] == "\r\n"@[1]);
                }
            }
            let body = subvec(&after2, skip, after2.len());
            proof {
                assert(body@ =~= after2@.skip(skip as int));
            }
            Ok((string_from_chars(&fm), string_from_chars(&body)))
        },
    }
}

// ---------------------------------------------------------------------------
// Field extraction from the decoded table
// ---------------------------------------------------------------------------

/// An optional string field: absent is fine, a string is taken, any other
/// type is a schema failure (the outer `None`).
pub open spec fn str_field(t: Seq<(Seq<char>, KvSpec)>, key: Seq<char>) -> Option<
    Option<Seq<char>>,
> {
    match tab_get(t, key) {
        None => Some(None),
        Some(KvSpec::Str(s)) => Some(Some(s)),
        Some(_) => None,
    }
}

/// An optional integer field.
pub open spec fn int_field(t: Seq<(Seq<char>, KvSpec)>, key: Seq<char>) -> Option<Option<int>> {
    match tab_get(t, key) {
        None => Some(None),
        Some(KvSpec::Int(i)) => Some(Some(i)),
        Some(_) => None,
    }
}

/// A boolean field that defaults to false.
pub open spec fn bool_field(t: Seq<(Seq<char>, KvSpec)>, key: Seq<char>) -> Option<bool> {
    match tab_get(t, key) {
        None => Some(false),
        Some(KvSpec::Bool(b)) => Some(b),
        Some(_) => None,
    }
}

/// The date field: a TOML datetime or a string, either of which must parse
/// under the datetime grammar.
pub open spec fn date_field(t: Seq<(Seq<char>, KvSpec)>) -> Option<Option<DateTime>> {
    match tab_get(t, "date"@) {
        None => Some(None),
        Some(KvSpec::Date(s)) => match spec_parse_datetime(s) {
            Some(dt) => Some(Some(dt)),
            None => None,
        },
        Some(KvSpec::Str(s)) => match spec_parse_datetime(s) {
            Some(dt) => Some(Some(dt)),
            None => None,
        },
        Some(_) => None,
    }
}

/// The anchor-insertion field: absent or one of the three mode names.
pub open spec fn anchor_field(t: Seq<(Seq<char>, KvSpec)>) -> Option<InsertAnchor> {
    match tab_get(t, "insert_anchor_links"@) {
        None => Some(InsertAnchor::Off),
        Some(KvSpec::Str(s)) => if s == "none"@ {
            Some(InsertAnchor::Off)
        } else if s == "left"@ {
            Some(InsertAnchor::Left)
        } else if s == "right"@ {
            Some(InsertAnchor::Right)
        } else {
            None
        },
        Some(_) => None,
    }
}

/// Terms of one taxonomy: every element a string.
pub open spec fn terms_ok(a: Seq<KvSpec>) -> bool {
    forall|i: int| 0 <= i < a.len() ==> (#[trigger] a[i]) is Str
}

pub open spec fn terms_of(a: Seq<KvSpec>) -> Seq<Seq<char>> {
    a.map_values(|e: KvSpec| e->Str_0)
}

/// One taxonomy entry: a list whose elements are all strings.
pub open spec fn tax_entry_ok(p: (Seq<char>, KvSpec)) -> bool {
    p.1 is Arr && terms_ok(p.1->Arr_0)
}

/// Every taxonomy entry well-shaped.
pub open spec fn tax_tab_ok(pairs: Seq<(Seq<char>, KvSpec)>) -> bool {
    forall|i: int| 0 <= i < pairs.len() ==> #[trigger] tax_entry_ok(pairs[i])
}

/// The taxonomies field: a table mapping each taxonomy name to a list of
/// term strings.
pub open spec fn tax_field(t: Seq<(Seq<char>, KvSpec)>) -> Option<
    Seq<(Seq<char>, Seq<Seq<char>>)>,
> {
    match tab_get(t, "taxonomies"@) {
        None => Some(Seq::empty()),
        Some(KvSpec::Tab(pairs)) => if tax_tab_ok(pairs) {
            Some(pairs.map_values(|p: (Seq<char>, KvSpec)| (p.0, terms_of(p.1->Arr_0))))
        } else {
            None
        },
        Some(_) => None,
    }
}

/// The page schema's own keys; everything else passes through as extra data.
pub open spec fn known_page_keys() -> Seq<Seq<char>> {
    seq![
        "title"@,
        "description"@,
        "date"@,
        "weight"@,
        "slug"@,
        "path"@,
        "template"@,
        "draft"@,
        "taxonomies"@,
    ]
}

/// The section schema's own keys.
pub open spec fn known_section_keys() -> Seq<Seq<char>> {
    seq![
        "title"@,
        "description"@,
        "weight"@,
        "template"@,
        "draft"@,
        "insert_anchor_links"@,
    ]
}

/// The entries under no schema key, in order.
pub open spec fn extras_of(t: Seq<(Seq<char>, KvSpec)>, known: Seq<Seq<char>>) -> Seq<
    (Seq<char>, KvSpec),
>
    decreases t.len(),
{
    if t.len() == 0 {
        Seq::empty()
    } else {
        let rest = extras_of(t.skip(1), known);
        if known.contains(t[0].0) {
            rest
        } else {
            seq![t[0]] + rest
        }
    }
}

fn is_known_key(name: &str, page: bool) -> (r: bool)
    ensures
        page ==> r == known_page_keys().contains(name@),
        !page ==> r == known_section_keys().contains(name@),
{
    proof {
        reveal_strlit("title");
        reveal_strlit("description");
        reveal_strlit("date");
        reveal_strlit("weight");
        reveal_strlit("slug");
        reveal_strlit("path");
        reveal_strlit("template");
        reveal_strlit("draft");
        reveal_strlit("taxonomies");
        reveal_strlit("insert_anchor_links");
    }
    let r = if page {
        eq_str(name, "title") || eq_str(name, "description") || eq_str(name, "date") || eq_str(
            name,
            "weight",
        ) || eq_str(name, "slug") || eq_str(name, "path") || eq_str(name, "template") || eq_str(
            name,
            "draft",
        ) || eq_str(name, "taxonomies")
    } else {
        eq_str(name, "title") || eq_str(name, "description") || eq_str(name, "weight") || eq_str(
            name,
            "template",
        ) || eq_str(name, "draft") || eq_str(name, "insert_anchor_links")
    };
    proof {
        if page {
            if r {
                assert(known_page_keys().contains(name@));
            } else {
                assert forall|i: int| 0 <= i < known_page_keys().len() implies known_page_keys()[i]
                    != name@ by {}
                if known_page_keys().contains(name@) {
                    let i = choose|i: int|
                        0 <= i < known_page_keys().len() && known_page_keys()[i] == name@;
                    assert(false);
                }
            }
        } else {
            if r {
                assert(known_section_keys().contains(name@));
            } else {
                assert forall|i: int|
                    0 <= i < known_section_keys().len() implies known_section_keys()[i]
                    != name@ by {}
                if known_section_keys().contains(name@) {
                    let i = choose|i: int|
                        0 <= i < known_section_keys().len() && known_section_keys()[i] == name@;
                    assert(false);
                }
            }
        }
    }
    r
}

/// The extra entries, copied out.
fn extras_from(tab: &Vec<(String, KvValue)>, from: usize, page: bool) -> (r: Vec<
    (String, KvValue),
>)
    requires
        from <= tab@.len(),
    ensures
        page ==> tab_view(r@) == extras_of(tab_view(tab@).skip(from as int), known_page_keys()),
        !page ==> tab_view(r@) == extras_of(
            tab_view(tab@).skip(from as int),
            known_section_keys(),
        ),
    decreases tab@.len() - from,
{
    proof {
        lemma_tab_view_len(tab@);
    }
    if from == tab.len() {
        proof {
            assert(tab_view(tab@).skip(from as int) =~~= Seq::<(Seq<char>, KvSpec)>::empty());
        }
        Vec::new()
    } else {
        proof {
            let tv = tab_view(tab@).skip(from as int);
            assert(tv[0] == (tab@[from as int].0@, kv_view(tab@[from as int].1)));
            assert(tv.skip(1) =~~= tab_view(tab@).skip(from as int + 1));
        }
        let mut rest = extras_from(tab, from + 1, page);
        if is_known_key(tab[from].0.as_str(), page) {
            rest
        } else {
            let k = clone_string(&tab[from].0);
            let v = kv_clone(&tab[from].1);
            let ghost old_seq = rest@;
            let ghost old_dv = tab_view(rest@);
            rest.insert(0, (k, v));
            proof {
                lemma_tab_view_len(rest@);
                lemma_tab_view_len(old_seq);
                let ghost known = if page {
                    known_page_keys()
                } else {
                    known_section_keys()
                };
                assert(tab_view(rest@) =~~= seq![
                    (tab@[from as int].0@, kv_view(tab@[from as int].1)),
                ] + old_dv);
                assert(tab_view(rest@) =~~= extras_of(
                    tab_view(tab@).skip(from as int),
                    known,
                ));
            }
            rest
        }
    }
}

// ---------------------------------------------------------------------------
// The schemas
// ---------------------------------------------------------------------------

/// Metadata of a page, decoded from its front-matter block.
pub struct PageFrontMatter {
    pub title: Option<String>,
    pub description: Option<String>,
    /// The date as RFC 3339 text, normalized from whatever form was given.
    pub date: Option<String>,
    /// The parsed instant behind `date`.
    pub datetime: Option<DateTime>,
    pub weight: Option<i64>,
    pub slug: Option<String>,
    pub path: Option<String>,
    pub template: Option<String>,
    pub draft: bool,
    pub taxonomies: Vec<(String, Vec<String>)>,
    pub extra: Vec<(String, KvValue)>,
}

/// Metadata of a section, decoded from its front-matter block.
pub struct SectionFrontMatter {
    pub title: Option<String>,
    pub description: Option<String>,
    pub weight: Option<i64>,
    pub template: Option<String>,
    pub draft: bool,
    pub insert_anchor_links: InsertAnchor,
    pub extra: Vec<(String, KvValue)>,
}

pub open spec fn view_opt_str(o: Option<String>) -> Option<Seq<char>> {
    match o {
        Some(s) => Some(s@),
        None => None,
    }
}

pub open spec fn view_opt_int(o: Option<i64>) -> Option<int> {
    match o {
        Some(i) => Some(i as int),
        None => None,
    }
}

pub open spec fn tax_view(v: Seq<(String, Vec<String>)>) -> Seq<(Seq<char>, Seq<Seq<char>>)> {
    v.map_values(|p: (String, Vec<String>)| (p.0@, p.1.deep_view()))
}

/// Every page field well-typed and the date, when present, valid.
pub open spec fn page_fm_ok(t: Seq<(Seq<char>, KvSpec)>) -> bool {
    &&& str_field(t, "title"@) is Some
    &&& str_field(t, "description"@) is Some
    &&& str_field(t, "slug"@) is Some
    &&& str_field(t, "path"@) is Some
    &&& str_field(t, "template"@) is Some
    &&& int_field(t, "weight"@) is Some
    &&& bool_field(t, "draft"@) is Some
    &&& date_field(t) is Some
    &&& tax_field(t) is Some
}

/// The decoded page metadata carries exactly the fields of the table.
pub open spec fn page_fm_matches(fm: PageFrontMatter, t: Seq<(Seq<char>, KvSpec)>) -> bool {
    &&& view_opt_str(fm.title) == str_field(t, "title"@)->Some_0
    &&& view_opt_str(fm.description) == str_field(t, "description"@)->Some_0
    &&& view_opt_str(fm.slug) == str_field(t, "slug"@)->Some_0
    &&& view_opt_str(fm.path) == str_field(t, "path"@)->Some_0
    &&& view_opt_str(fm.template) == str_field(t, "template"@)->Some_0
    &&& view_opt_int(fm.weight) == int_field(t, "weight"@)->Some_0
    &&& fm.draft == bool_field(t, "draft"@)->Some_0
    &&& fm.datetime == date_field(t)->Some_0
    &&& view_opt_str(fm.date) == (match date_field(t)->Some_0 {
        Some(dt) => Some(spec_rfc3339(dt)),
        None => None,
    })
    &&& (fm.datetime matches Some(dt) ==> dt.wf())
    &&& tax_view(fm.taxonomies@) == tax_field(t)->Some_0
    &&& tab_view(fm.extra@) == extras_of(t, known_page_keys())
}

/// Every section field well-typed.
pub open spec fn section_fm_ok(t: Seq<(Seq<char>, KvSpec)>) -> bool {
    &&& str_field(t, "title"@) is Some
    &&& str_field(t, "description"@) is Some
    &&& str_field(t, "template"@) is Some
    &&& int_field(t, "weight"@) is Some
    &&& bool_field(t, "draft"@) is Some
    &&& anchor_field(t) is Some
}

/// The decoded section metadata carries exactly the fields of the table.
pub open spec fn section_fm_matches(fm: SectionFrontMatter, t: Seq<(Seq<char>, KvSpec)>) -> bool {
    &&& view_opt_str(fm.title) == str_field(t, "title"@)->Some_0
    &&& view_opt_str(fm.description) == str_field(t, "description"@)->Some_0
    &&& view_opt_str(fm.template) == str_field(t, "template"@)->Some_0
    &&& view_opt_int(fm.weight) == int_field(t, "weight"@)->Some_0
    &&& fm.draft == bool_field(t, "draft"@)->Some_0
    &&& fm.insert_anchor_links == anchor_field(t)->Some_0
    &&& tab_view(fm.extra@) == extras_of(t, known_section_keys())
}

/// One optional string field pulled out of the table.
pub(crate) fn get_str_field(tab: &Vec<(String, KvValue)>, key: &str) -> (r: Result<Option<String>, Error>)
    ensures
        match r {
            Ok(o) => str_field(tab_view(tab@), key@) == Some(view_opt_str(o)),
            Err(e) => str_field(tab_view(tab@), key@) is None && e is Schema,
        },
{
    match kv_find(tab, key) {
        None => Ok(None),
        Some(v) => match v {
            KvValue::Str(s) => Ok(Some(clone_string(s))),
            _ => Err(Error::Schema("expected a string".to_owned())),
        },
    }
}

/// Decodes the page schema from the front-matter table; fails if and only
/// if a field is ill-typed or the date does not parse.
pub fn decode_page_front_matter(tab: &Vec<(String, KvValue)>) -> (r: Result<
    PageFrontMatter,
    Error,
>)
    ensures
        match r {
            Ok(fm) => page_fm_ok(tab_view(tab@)) && page_fm_matches(fm, tab_view(tab@)),
            Err(e) => !page_fm_ok(tab_view(tab@)) && e is Schema,
        },
{
    let title = match get_str_field(tab, "title") {
        Ok(o) => o,
        Err(e) => {
            return Err(e);
        },
    };
    let description = match get_str_field(tab, "description") {
        Ok(o) => o,
        Err(e) => {
            return Err(e);
        },
    };
    let slug = match get_str_field(tab, "slug") {
        Ok(o) => o,
        Err(e) => {
            return Err(e);
        },
    };
    let path = match get_str_field(tab, "path") {
        Ok(o) => o,
        Err(e) => {
            return Err(e);
        },
    };
    let template = match get_str_field(tab, "template") {
        Ok(o) => o,
        Err(e) => {
            return Err(e);
        },
    };
    let weight: Option<i64> = match kv_find(tab, "weight") {
        None => None,
        Some(v) => match v {
            KvValue::Int(i) => Some(*i),
            _ => {
                return Err(Error::Schema("weight must be an integer".to_owned()));
            },
        },
    };
    let draft: bool = match kv_find(tab, "draft") {
        None => false,
        Some(v) => match v {
            KvValue::Bool(b) => *b,
            _ => {
                return Err(Error::Schema("draft must be a boolean".to_owned()));
            },
        },
    };
    let (date, datetime): (Option<String>, Option<DateTime>) = match kv_find(tab, "date") {
        None => (None, None),
        Some(v) => {
            let text: &String = match v {
                KvValue::Date(s) => s,
                KvValue::Str(s) => s,
                _ => {
                    return Err(Error::Schema("date must be a datetime or a string".to_owned()));
                },
            };
            match parse_yaml_datetime(text.as_str()) {
                Ok(dt) => (Some(format_rfc3339(&dt)), Some(dt)),
                Err(e) => {
                    return Err(e);
                },
            }
        },
    };
    let taxonomies: Vec<(String, Vec<String>)> = match kv_find(tab, "taxonomies") {
        None => {
            proof {
                assert(tax_view(Seq::<(String, Vec<String>)>::empty()) =~~= Seq::<
                    (Seq<char>, Seq<Seq<char>>),
                >::empty());
            }
            Vec::new()
        },
        Some(v) => match decode_taxonomies(v) {
            Ok(ts) => ts,
            Err(e) => {
                return Err(e);
            },
        },
    };
    let extra = extras_from(tab, 0, true);
    proof {
        assert(tab_view(tab@).skip(0) =~~= tab_view(tab@));
    }
    Ok(
        PageFrontMatter {
            title,
            description,
            date,
            datetime,
            weight,
            slug,
            path,
            template,
            draft,
            taxonomies,
            extra,
        },
    )
}

/// The taxonomy table decoded: every taxonomy a list of term strings.
fn decode_taxonomies(v: &KvValue) -> (r: Result<Vec<(String, Vec<String>)>, Error>)
    ensures
        match r {
            Ok(ts) => (match kv_view(*v) {
                KvSpec::Tab(pairs) => tax_tab_ok(pairs) && tax_view(ts@) == pairs.map_values(
                    |p: (Seq<char>, KvSpec)| (p.0, terms_of(p.1->Arr_0)),
                ),
                _ => false,
            }),
            Err(e) => e is Schema && (match kv_view(*v) {
                KvSpec::Tab(pairs) => !tax_tab_ok(pairs),
                _ => true,
            }),
        },
{
    proof {
        crate::kv::lemma_kv_view_variant(*v);
    }
    let pairs: &Vec<(String, KvValue)> = match v {
        KvValue::Tab(t) => t,
        _ => {
            return Err(Error::Schema("taxonomies must be a table".to_owned()));
        },
    };
    proof {
        lemma_tab_view_len(pairs@);
    }
    let mut out: Vec<(String, Vec<String>)> = Vec::new();
    let mut i: usize = 0;
    while i < pairs.len()
        invariant
            *v == KvValue::Tab(*pairs),
            0 <= i <= pairs@.len(),
            tab_view(pairs@).len() == pairs@.len(),
            forall|j: int|
                0 <= j < pairs@.len() ==> tab_view(pairs@)[j] == (
                pairs@[j].0@,
                kv_view(pairs@[j].1),
                ),
            forall|j: int| 0 <= j < i ==> tax_entry_ok(#[trigger] tab_view(pairs@)[j]),
            out@.len() == i,
            forall|j: int|
                0 <= j < i ==> #[trigger] tax_view(out@)[j] == (
                tab_view(pairs@)[j].0,
                terms_of(tab_view(pairs@)[j].1->Arr_0),
                ),
        decreases pairs@.len() - i,
    {
        let name = clone_string(&pairs[i].0);
        proof {
            crate::kv::lemma_kv_view_variant(pairs@[i as int].1);
        }
        let arr: &Vec<KvValue> = match &pairs[i].1 {
            KvValue::Arr(a) => a,
            _ => {
                proof {
                    assert(!tax_entry_ok(tab_view(pairs@)[i as int]));
                }
                return Err(Error::Schema("taxonomy terms must be a list".to_owned()));
            },
        };
        proof {
            lemma_arr_view_len(arr@);
        }
        let mut terms: Vec<String> = Vec::new();
        let mut j: usize = 0;
        while j < arr.len()
            invariant
                *v == KvValue::Tab(*pairs),
                i < pairs@.len(),
                pairs@[i as int].1 == KvValue::Arr(*arr),
                tab_view(pairs@).len() == pairs@.len(),
                tab_view(pairs@)[i as int] == (pairs@[i as int].0@, kv_view(pairs@[i as int].1)),
                0 <= j <= arr@.len(),
                arr_view(arr@).len() == arr@.len(),
                forall|k: int| 0 <= k < arr@.len() ==> arr_view(arr@)[k] == kv_view(arr@[k]),
                forall|k: int| 0 <= k < j ==> (#[trigger] arr_view(arr@)[k]) is Str,
                terms@.len() == j,
                forall|k: int| 0 <= k < j ==> (#[trigger] terms@[k])@ == arr_view(arr@)[k]->Str_0,
            decreases arr@.len() - j,
        {
            proof {
                crate::kv::lemma_kv_view_variant(arr@[j as int]);
            }
            match &arr[j] {
                KvValue::Str(s) => {
                    terms.push(clone_string(s));
                },
                _ => {
                    proof {
                        assert(!((arr_view(arr@)[j as int]) is Str));
                        assert(!terms_ok(arr_view(arr@)));
                        assert(kv_view(pairs@[i as int].1) == KvSpec::Arr(arr_view(arr@)));
                        assert(!tax_entry_ok(tab_view(pairs@)[i as int]));
                    }
                    return Err(Error::Schema("taxonomy terms must be strings".to_owned()));
                },
            }
            j = j + 1;
        }
        let ghost old_out = out@;
        out.push((name, terms));
        proof {
            assert(terms.deep_view() =~~= terms_of(arr_view(arr@)));
            assert(kv_view(pairs@[i as int].1) == KvSpec::Arr(arr_view(arr@)));
            assert(tax_entry_ok(tab_view(pairs@)[i as int]));
            assert forall|j2: int| 0 <= j2 < i + 1 implies #[trigger] tax_view(out@)[j2] == (
                tab_view(pairs@)[j2].0,
                terms_of(tab_view(pairs@)[j2].1->Arr_0),
            ) by {
                if j2 < i {
                    assert(out@[j2] == old_out[j2]);
                    assert(tax_view(old_out)[j2] == (
                        tab_view(pairs@)[j2].0,
                        terms_of(tab_view(pairs@)[j2].1->Arr_0),
                    ));
                } else {
                    assert(out@[j2] == (name, terms));
                }
            }
        }
        i = i + 1;
    }
    proof {
        let pv = tab_view(pairs@);
        assert(tax_view(out@) =~~= pv.map_values(
            |p: (Seq<char>, KvSpec)| (p.0, terms_of(p.1->Arr_0)),
        ));
    }
    Ok(out)
}

/// Decodes the section schema; fails if and only if a field is ill-typed.
pub fn decode_section_front_matter(tab: &Vec<(String, KvValue)>) -> (r: Result<
    SectionFrontMatter,
    Error,
>)
    ensures
        match r {
            Ok(fm) => section_fm_ok(tab_view(tab@)) && section_fm_matches(fm, tab_view(tab@)),
            Err(e) => !section_fm_ok(tab_view(tab@)) && e is Schema,
        },
{
    let title = match get_str_field(tab, "title") {
        Ok(o) => o,
        Err(e) => {
            return Err(e);
        },
    };
    let description = match get_str_field(tab, "description") {
        Ok(o) => o,
        Err(e) => {
            return Err(e);
        },
    };
    let template = match get_str_field(tab, "template") {
        Ok(o) => o,
        Err(e) => {
            return Err(e);
        },
    };
    let weight: Option<i64> = match kv_find(tab, "weight") {
        None => None,
        Some(v) => match v {
            KvValue::Int(i) => Some(*i),
            _ => {
                return Err(Error::Schema("weight must be an integer".to_owned()));
            },
        },
    };
    let draft: bool = match kv_find(tab, "draft") {
        None => false,
        Some(v) => match v {
            KvValue::Bool(b) => *b,
            _ => {
                return Err(Error::Schema("draft must be a boolean".to_owned()));
            },
        },
    };
    proof {
        reveal_strlit("none");
        reveal_strlit("left");
        reveal_strlit("right");
    }
    let insert_anchor_links: InsertAnchor = match kv_find(tab, "insert_anchor_links") {
        None => InsertAnchor::Off,
        Some(v) => match v {
            KvValue::Str(s) => {
                if eq_str(s.as_str(), "none") {
                    InsertAnchor::Off
                } else if eq_str(s.as_str(), "left") {
                    InsertAnchor::Left
                } else if eq_str(s.as_str(), "right") {
                    InsertAnchor::Right
                } else {
                    return Err(
                        Error::Schema("insert_anchor_links must be none, left or right".to_owned()),
                    );
                }
            },
            _ => {
                return Err(Error::Schema("insert_anchor_links must be a string".to_owned()));
            },
        },
    };
    let extra = extras_from(tab, 0, false);
    proof {
        assert(tab_view(tab@).skip(0) =~~= tab_view(tab@));
    }
    Ok(
        SectionFrontMatter {
            title,
            description,
            weight,
            template,
            draft,
            insert_anchor_links,
            extra,
        },
    )
}

// ---------------------------------------------------------------------------
// The two entry points
// ---------------------------------------------------------------------------

/// Splits a page file into metadata and body. Missing delimiters are a
/// parse error; a block the schema rejects is a schema error.
pub fn split_page_content(file_path: &str, content: &str) -> (r: Result<
    (PageFrontMatter, String),
    Error,
>)
    ensures
        match r {
            Ok(p) => {
                &&& spec_split_content(content@) matches Some(sp)
                &&& p.1@ == sp.1
                &&& toml_of(sp.0) matches Some(t)
                &&& page_fm_ok(t)
                &&& page_fm_matches(p.0, t)
            },
            Err(e) => {
                &&& (spec_split_content(content@) is None <==> e is Parse)
                &&& (spec_split_content(content@) matches Some(sp) ==> e is Schema && (toml_of(
                    sp.0,
                ) is None || (toml_of(sp.0) matches Some(t) && !page_fm_ok(t))))
            },
        },
{
    let (fm_text, body) = match split_content(content) {
        Ok(p) => p,
        Err(e) => {
            return Err(e);
        },
    };
    let table = match parse_toml(fm_text.as_str()) {
        Some(v) => v,
        None => {
            return Err(Error::Schema("front matter is not valid TOML".to_owned()));
        },
    };
    match table {
        KvValue::Tab(tab) => match decode_page_front_matter(&tab) {
            Ok(fm) => Ok((fm, body)),
            Err(e) => Err(e),
        },
        _ => {
            proof {
                assert(false);
            }
            Err(Error::Schema("front matter is not a table".to_owned()))
        },
    }
}

/// Splits a section file into metadata and body, under the section schema.
pub fn split_section_content(file_path: &str, content: &str) -> (r: Result<
    (SectionFrontMatter, String),
    Error,
>)
    ensures
        match r {
            Ok(p) => {
                &&& spec_split_content(content@) matches Some(sp)
                &&& p.1@ == sp.1
                &&& toml_of(sp.0) matches Some(t)
                &&& section_fm_ok(t)
                &&& section_fm_matches(p.0, t)
            },
            Err(e) => {
                &&& (spec_split_content(content@) is None <==> e is Parse)
                &&& (spec_split_content(content@) matches Some(sp) ==> e is Schema && (toml_of(
                    sp.0,
                ) is None || (toml_of(sp.0) matches Some(t) && !section_fm_ok(t))))
            },
        },
{
    let (fm_text, body) = match split_content(content) {
        Ok(p) => p,
        Err(e) => {
            return Err(e);
        },
    };
    let table = match parse_toml(fm_text.as_str()) {
        Some(v) => v,
        None => {
            return Err(Error::Schema("front matter is not valid TOML".to_owned()));
        },
    };
    match table {
        KvValue::Tab(tab) => match decode_section_front_matter(&tab) {
            Ok(fm) => Ok((fm, body)),
            Err(e) => Err(e),
        },
        _ => {
            proof {
                assert(false);
            }
            Err(Error::Schema("front matter is not a table".to_owned()))
        },
    }
}

} // verus!
