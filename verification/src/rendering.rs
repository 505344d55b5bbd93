//! The rendering pipeline: raw content has its internal links resolved
//! through the site's permalink table, runs through the markdown transform,
//! and comes back as an HTML body, an optional summary cut at the more
//! marker, and a tree of headings with anchor ids for the table of
//! contents. An unresolved internal link fails the render with a broken-link
//! error naming the link and the source file.
use vstd::prelude::*;

use crate::errors::Error;
use crate::front_matter::InsertAnchor;
use crate::slugs::{slug_of, slugify};
use crate::strtools::{
    chars_of, find_char, find_sub, lemma_find_char, lemma_find_sub, lemma_find_sub_unique,
    matches_at, string_from_chars, subvec, vec_extend, vec_find_char, vec_find_sub,
};

verus! {

broadcast use vstd::std_specs::vec::axiom_vec_index_decreases;

// ---------------------------------------------------------------------------
// The markdown transform
// ---------------------------------------------------------------------------

/// The HTML that the markdown transform produces for a text: a pure function
/// of the characters alone.
pub uninterp spec fn html_of(s: Seq<char>) -> Seq<char>;

/// Relies on pulldown-cmark's `Parser` and `html::push_html`: the CommonMark
/// rendering of the text, a pure function of its input.
#[verifier::external_body]
pub(crate) fn markdown_to_html(s: &str) -> (r: String)
    ensures
        r@ == html_of(s@),
{
    let parser = pulldown_cmark::Parser::new(s);
    let mut out = String::new();
    pulldown_cmark::html::push_html(&mut out, parser);
    out
}

// ---------------------------------------------------------------------------
// Internal links
// ---------------------------------------------------------------------------

/// The permalink stored under a content-relative identity key.
pub open spec fn plink_get(t: Seq<(Seq<char>, Seq<char>)>, key: Seq<char>) -> Option<Seq<char>>
    decreases t.len(),
{
    if t.len() == 0 {
        None
    } else if t[0].0 == key {
        Some(t[0].1)
    } else {
        plink_get(t.skip(1), key)
    }
}

proof fn lemma_plink_get_at(t: Seq<(Seq<char>, Seq<char>)>, key: Seq<char>, i: int)
    requires
        0 <= i < t.len(),
        t[i].0 == key,
        forall|j: int| 0 <= j < i ==> t[j].0 != key,
    ensures
        plink_get(t, key) == Some(t[i].1),
    decreases t.len(),
{
    if i > 0 {
        lemma_plink_get_at(t.skip(1), key, i - 1);
    }
}

proof fn lemma_plink_get_none(t: Seq<(Seq<char>, Seq<char>)>, key: Seq<char>)
    requires
        forall|j: int| 0 <= j < t.len() ==> t[j].0 != key,
    ensures
        plink_get(t, key) is None,
    decreases t.len(),
{
    if t.len() > 0 {
        lemma_plink_get_none(t.skip(1), key);
    }
}

/// Looks a key up in the permalink table: the first entry wins.
pub fn table_lookup<'a>(table: &'a Vec<(String, String)>, key: &Vec<char>) -> (r: Option<
    &'a String,
>)
    ensures
        match r {
            Some(u) => plink_get(table.deep_view(), key@) == Some(u@),
            None => plink_get(table.deep_view(), key@) is None,
        },
{
    let mut i: usize = 0;
    while i < table.len()
        invariant
            0 <= i <= table@.len(),
            forall|j: int| 0 <= j < i ==> table@[j].0@ != key@,
        decreases table@.len() - i,
    {
        let entry_key = chars_of(table[i].0.as_str());
        if crate::strtools::vec_eq(&entry_key, key) {
            proof {
                assert(table.deep_view()[i as int].0 =~= table@[i as int].0@);
                assert forall|j: int| 0 <= j < i implies table.deep_view()[j].0 != key@ by {
                    assert(table.deep_view()[j].0 =~= table@[j].0@);
                }
                lemma_plink_get_at(table.deep_view(), key@, i as int);
                assert(table.deep_view()[i as int].1 =~= table@[i as int].1@);
            }
            return Some(&table[i].1);
        }
        proof {
            assert(table.deep_view()[i as int].0 =~= table@[i as int].0@);
        }
        i = i + 1;
    }
    proof {
        assert forall|j: int| 0 <= j < table.deep_view().len() implies table.deep_view()[j].0
            != key@ by {
            assert(table.deep_view()[j].0 =~= table@[j].0@);
        }
        lemma_plink_get_none(table.deep_view(), key@);
    }
    None
}

/// An internal link `./identity[#anchor]` resolved through the table: the
/// permalink under the identity, the anchor kept.
pub open spec fn spec_resolve(link: Seq<char>, t: Seq<(Seq<char>, Seq<char>)>) -> Option<
    Seq<char>,
> {
    let clean = link.skip(2);
    let cut: int = match find_char(clean, '#') {
        Some(i) => i,
        None => clean.len() as int,
    };
    match plink_get(t, clean.take(cut)) {
        Some(url) => Some(url + clean.skip(cut)),
        None => None,
    }
}

/// Resolves one internal link; a missing entry is a broken link.
pub fn resolve_internal_link(link: &str, permalinks: &Vec<(String, String)>) -> (r: Result<
    String,
    Error,
>)
    requires
        link@.len() >= 2,
    ensures
        match r {
            Ok(u) => spec_resolve(link@, permalinks.deep_view()) == Some(u@),
            Err(e) => spec_resolve(link@, permalinks.deep_view()) is None && e is BrokenLink
                && e->BrokenLink_link@ == link@,
        },
{
    let cs = chars_of(link);
    let clean = subvec(&cs, 2, cs.len());
    proof {
        assert(clean@ =~= link@.skip(2));
        lemma_find_char(clean@, '#');
    }
    let found = vec_find_char(&clean, '#', 0);
    let cut: usize = match found {
        Some(i) => {
            proof {
                match find_char(clean@, '#') {
                    Some(k) => {
                        if k < i {
                            assert(clean@[k] == '#');
                            assert(false);
                        } else if i < k {
                            assert(clean@[i as int] != '#');
                            assert(false);
                        }
                    },
                    None => {
                        assert(clean@[i as int] != '#');
                        assert(false);
                    },
                }
            }
            i
        },
        None => {
            proof {
                if find_char(clean@, '#') is Some {
                    let k = find_char(clean@, '#')->Some_0;
                    assert(clean@[k] == '#');
                    assert(false);
                }
            }
            clean.len()
        },
    };
    let base = subvec(&clean, 0, cut);
    proof {
        assert(base@ =~= clean@.take(cut as int));
    }
    match table_lookup(permalinks, &base) {
        Some(url) => {
            let mut out = chars_of(url.as_str());
            let anchor = subvec(&clean, cut, clean.len());
            proof {
                assert(anchor@ =~= clean@.skip(cut as int));
            }
            vec_extend(&mut out, &anchor);
            Ok(string_from_chars(&out))
        },
        None => Err(
            Error::BrokenLink { link: link.to_owned(), file: String::new() },
        ),
    }
}

/// The text with every inline internal link (`](./identity)`) replaced by
/// its permalink; the first unresolvable link is the error. Text after a
/// link opening that never closes is kept as it stands.
pub open spec fn spec_rewrite_links(s: Seq<char>, t: Seq<(Seq<char>, Seq<char>)>) -> Result<
    Seq<char>,
    Seq<char>,
>
    decreases s.len(),
{
    match find_sub(s, "](./"@) {
        None => Ok(s),
        Some(p) => {
            if 0 <= p && p + 2 <= s.len() {
                let rest = s.skip(p + 2);
                match find_char(rest, ')') {
                    None => Ok(s),
                    Some(q) => {
                        if 0 <= q <= rest.len() {
                            let dest = rest.take(q);
                            match spec_resolve(dest, t) {
                                None => Err(dest),
                                Some(url) => match spec_rewrite_links(rest.skip(q), t) {
                                    Ok(tail) => Ok(s.take(p + 2) + url + tail),
                                    Err(l) => Err(l),
                                },
                            }
                        } else {
                            Ok(s)
                        }
                    },
                }
            } else {
                Ok(s)
            }
        },
    }
}

/// Rewrites the internal links of a text through the permalink table; the
/// error names the offending link and the source file.
pub fn rewrite_internal_links(
    s: &Vec<char>,
    permalinks: &Vec<(String, String)>,
    file: &str,
) -> (r: Result<Vec<char>, Error>)
    ensures
        match r {
            Ok(o) => spec_rewrite_links(s@, permalinks.deep_view()) == Ok::<Seq<char>, Seq<char>>(
                o@,
            ),
            Err(e) => e is BrokenLink && e->BrokenLink_file@ == file@ && spec_rewrite_links(
                s@,
                permalinks.deep_view(),
            ) == Err::<Seq<char>, Seq<char>>(e->BrokenLink_link@),
        },
    decreases s@.len(),
{
    let n: usize = s.len();
    let pat = chars_of("](./");
    proof {
        reveal_strlit("](./");
        lemma_find_sub(s@, "](./"@);
    }
    let found = vec_find_sub(s, &pat, 0);
    match found {
        None => {
            proof {
                if find_sub(s@, "](./"@) is Some {
                    let p = find_sub(s@, "](./"@)->Some_0;
                    assert(matches_at(s@, "](./"@, p));
                    assert(false);
                }
                assert(find_sub(s@, "](./"@) is None);
            }
            let copy = subvec(s, 0, s.len());
            proof {
                assert(copy@ =~= s@);
            }
            Ok(copy)
        },
        Some(p) => {
            proof {
                lemma_find_sub_unique(s@, "](./"@, p as int);
            }
            proof {
                assert(matches_at(s@, "](./"@, p as int));
            }
            let rest = subvec(s, p + 2, n);
            proof {
                assert(rest@ =~= s@.skip(p + 2));
                lemma_find_char(rest@, ')');
            }
            let close = vec_find_char(&rest, ')', 0);
            match close {
                None => {
                    proof {
                        if find_char(rest@, ')') is Some {
                            let k = find_char(rest@, ')')->Some_0;
                            assert(rest@[k] == ')');
                            assert(false);
                        }
                        assert(find_char(rest@, ')') is None);
                    }
                    let copy = subvec(s, 0, s.len());
                    proof {
                        assert(copy@ =~= s@);
                    }
                    Ok(copy)
                },
                Some(q) => {
                    proof {
                        match find_char(rest@, ')') {
                            Some(k) => {
                                if k < q {
                                    assert(rest@[k] == ')');
                                    assert(false);
                                } else if q < k {
                                    assert(rest@[q as int] != ')');
                                    assert(false);
                                }
                            },
                            None => {
                                assert(rest@[q as int] != ')');
                                assert(false);
                            },
                        }
                        assert(find_char(rest@, ')') == Some(q as int));
                    }
                    proof {
                        assert(s@.subrange(p as int, p + 4)[2] == s@[p + 2]);
                        assert(s@.subrange(p as int, p + 4)[3] == s@[p + 3]);
                        assert(rest@[0] == '.');
                        assert(rest@[1] == '/');
                        assert(q >= 2);
                    }
                    let dest = subvec(&rest, 0, q);
                    proof {
                        assert(dest@ =~= rest@.take(q as int));
                    }
                    let dest_str = string_from_chars(&dest);
                    match resolve_internal_link(dest_str.as_str(), permalinks) {
                        Err(_) => Err(
                            Error::BrokenLink { link: dest_str, file: file.to_owned() },
                        ),
                        Ok(url) => {
                            let tail_src = subvec(&rest, q, rest.len());
                            proof {
                                assert(tail_src@ =~= rest@.skip(q as int));
                                assert(tail_src@.len() < s@.len());
                            }
                            match rewrite_internal_links(&tail_src, permalinks, file) {
                                Err(e) => Err(e),
                                Ok(tail) => {
                                    let mut out = subvec(s, 0, p + 2);
                                    let url_chars = chars_of(url.as_str());
                                    vec_extend(&mut out, &url_chars);
                                    vec_extend(&mut out, &tail);
                                    proof {
                                        assert(out@ =~= s@.take(p + 2) + url@ + tail@);
                                        assert(spec_rewrite_links(
                                            s@,
                                            permalinks.deep_view(),
                                        ) == Ok::<Seq<char>, Seq<char>>(out@));
                                    }
                                    Ok(out)
                                },
                            }
                        },
                    }
                },
            }
        },
    }
}

// ---------------------------------------------------------------------------
// Headings: ids, anchors and the table of contents
// ---------------------------------------------------------------------------

/// One heading of the rendered content.
pub struct Header {
    /// Heading depth, 1 through 6.
    pub level: u32,
    /// The slug of the title, inserted as the element's id.
    pub id: String,
    /// The heading text as it stands in the HTML.
    pub title: String,
    /// The page's permalink with the id as fragment.
    pub permalink: String,
    /// Headings of greater depth that follow before the next one at this
    /// depth or above.
    pub children: Vec<Header>,
}

/// The ghost mirror of a heading.
pub struct HeaderSpec {
    pub level: int,
    pub id: Seq<char>,
    pub title: Seq<char>,
    pub permalink: Seq<char>,
    pub children: Seq<HeaderSpec>,
}

pub open spec fn header_view(h: Header) -> HeaderSpec
    decreases h,
{
    HeaderSpec {
        level: h.level as int,
        id: h.id@,
        title: h.title@,
        permalink: h.permalink@,
        children: headers_view(h.children@),
    }
}

pub open spec fn headers_view(hs: Seq<Header>) -> Seq<HeaderSpec>
    decreases hs,
{
    if hs.len() == 0 {
        Seq::empty()
    } else {
        seq![header_view(hs[0])] + headers_view(hs.skip(1))
    }
}

pub proof fn lemma_headers_view_len(hs: Seq<Header>)
    ensures
        headers_view(hs).len() == hs.len(),
        forall|i: int| 0 <= i < hs.len() ==> headers_view(hs)[i] == header_view(hs[i]),
    decreases hs,
{
    if hs.len() > 0 {
        lemma_headers_view_len(hs.skip(1));
    }
}

/// Is there a heading tag `<hN>` at the front?
pub open spec fn head_level_at(s: Seq<char>) -> int {
    if s.len() >= 4 && s[0] == '<' && s[1] == 'h' && '1' <= s[2] && s[2] <= '6' && s[3] == '>' {
        s[2] as int - '0' as int
    } else {
        0
    }
}

/// The closing tag of a heading at depth `lvl`.
pub open spec fn close_tag(lvl: int) -> Seq<char> {
    seq!['<', '/', 'h', (('0' as int + lvl) as u32) as char, '>']
}

/// The heading element rebuilt with its id and, per the mode, an anchor
/// link on one side of the title.
pub open spec fn spec_heading_html(
    lvl: int,
    id: Seq<char>,
    title: Seq<char>,
    mode: InsertAnchor,
) -> Seq<char> {
    let open = seq!['<', 'h', (('0' as int + lvl) as u32) as char] + " id=\""@ + id + "\">"@;
    let anchor = "<a class=\"anchor\" href=\"#"@ + id + "\">#</a>"@;
    let inner: Seq<char> = match mode {
        InsertAnchor::Off => title,
        InsertAnchor::Left => anchor + title,
        InsertAnchor::Right => title + anchor,
    };
    open + inner + close_tag(lvl)
}

/// The HTML with ids and anchors inserted into every well-formed heading
/// element, and the flat list of headings found, in order.
pub open spec fn spec_scan_headings(s: Seq<char>, mode: InsertAnchor) -> (Seq<char>, Seq<
    (int, Seq<char>, Seq<char>),
>)
    decreases s.len(),
{
    match find_sub(s, "<h"@) {
        None => (s, Seq::empty()),
        Some(p) => {
            if 0 <= p && p + 2 <= s.len() {
                let lvl = head_level_at(s.skip(p));
                if lvl == 0 {
                    let r = spec_scan_headings(s.skip(p + 2), mode);
                    (s.take(p + 2) + r.0, r.1)
                } else {
                    let body = s.skip(p + 4);
                    match find_sub(body, close_tag(lvl)) {
                        None => (s, Seq::empty()),
                        Some(e) => {
                            if 0 <= e && e + 5 <= body.len() {
                                let title = body.take(e);
                                let id = slug_of(title);
                                let r = spec_scan_headings(body.skip(e + 5), mode);
                                (
                                    s.take(p) + spec_heading_html(lvl, id, title, mode) + r.0,
                                    seq![(lvl, id, title)] + r.1,
                                )
                            } else {
                                (s, Seq::empty())
                            }
                        },
                    }
                }
            } else {
                (s, Seq::empty())
            }
        },
    }
}

/// Permalinks attached to the scanned headings: the page's permalink with
/// the id as fragment.
pub open spec fn with_permalinks(triples: Seq<(int, Seq<char>, Seq<char>)>, base: Seq<char>) -> Seq<
    (int, Seq<char>, Seq<char>, Seq<char>),
> {
    triples.map_values(
        |t: (int, Seq<char>, Seq<char>)| (t.0, t.1, t.2, base + seq!['#'] + t.1),
    )
}

/// The quadruple a built heading stands for.
pub open spec fn quads_of(hs: Seq<Header>) -> Seq<(int, Seq<char>, Seq<char>, Seq<char>)> {
    hs.map_values(|h: Header| (h.level as int, h.id@, h.title@, h.permalink@))
}

/// Executable heading scan: ids and anchors inserted, the flat heading list
/// collected with permalinks under `base`.
#[verifier::rlimit(100)]
fn scan_headings(s: &Vec<char>, base: &Vec<char>, mode: InsertAnchor) -> (r: (
    Vec<char>,
    Vec<Header>,
))
    ensures
        r.0@ == spec_scan_headings(s@, mode).0,
        quads_of(r.1@) == with_permalinks(spec_scan_headings(s@, mode).1, base@),
        forall|j: int| 0 <= j < r.1@.len() ==> (#[trigger] r.1@[j]).children@.len() == 0,
    decreases s@.len(),
{
    let n: usize = s.len();
    let pat = chars_of("<h");
    proof {
        reveal_strlit("<h");
        lemma_find_sub(s@, "<h"@);
    }
    let found = vec_find_sub(s, &pat, 0);
    match found {
        None => {
            proof {
                if find_sub(s@, "<h"@) is Some {
                    let p = find_sub(s@, "<h"@)->Some_0;
                    assert(matches_at(s@, "<h"@, p));
                    assert(false);
                }
                assert(find_sub(s@, "<h"@) is None);
            }
            let copy = subvec(s, 0, n);
            proof {
                assert(copy@ =~= s@);
                assert(quads_of(Seq::<Header>::empty()) =~~= with_permalinks(
                    Seq::<(int, Seq<char>, Seq<char>)>::empty(),
                    base@,
                ));
            }
            (copy, Vec::new())
        },
        Some(p) => {
            proof {
                lemma_find_sub_unique(s@, "<h"@, p as int);
                assert(matches_at(s@, "<h"@, p as int));
            }
            let lvl_ok = n - p > 3 && '1' <= s[p + 2] && s[p + 2] <= '6' && s[p + 3] == '>';
            proof {
                assert(s@.subrange(p as int, p + 2)[0] == s@[p as int]);
                assert(s@.subrange(p as int, p + 2)[1] == s@[p + 1]);
                if lvl_ok {
                    assert(head_level_at(s@.skip(p as int)) == (s@[p + 2] as int) - ('0' as int));
                } else {
                    assert(head_level_at(s@.skip(p as int)) == 0);
                }
            }
            if !lvl_ok {
                let rest = subvec(s, p + 2, n);
                proof {
                    assert(rest@ =~= s@.skip(p + 2));
                }
                let (tail_html, heads) = scan_headings(&rest, base, mode);
                let mut out = subvec(s, 0, p + 2);
                vec_extend(&mut out, &tail_html);
                proof {
                    assert(out@ =~= s@.take(p + 2) + spec_scan_headings(s@.skip(p + 2), mode).0);
                }
                (out, heads)
            } else {
                let lvl: u32 = (s[p + 2] as u32) - ('0' as u32);
                let digit = s[p + 2];
                let body = subvec(s, p + 4, n);
                proof {
                    assert(body@ =~= s@.skip(p + 4));
                    assert(s@.skip(p as int).skip(4) =~= s@.skip(p + 4));
                }
                let mut close: Vec<char> = Vec::new();
                close.push('<');
                close.push('/');
                close.push('h');
                close.push(digit);
                close.push('>');
                proof {
                    assert(('0' as int + (s@[p + 2] as int - '0' as int)) as u32 as char == s@[p
                        + 2]);
                    assert(close@ =~= close_tag(lvl as int));
                    lemma_find_sub(body@, close_tag(lvl as int));
                }
                let closed = vec_find_sub(&body, &close, 0);
                match closed {
                    None => {
                        proof {
                            if find_sub(body@, close_tag(lvl as int)) is Some {
                                let e = find_sub(body@, close_tag(lvl as int))->Some_0;
                                assert(matches_at(body@, close_tag(lvl as int), e));
                                assert(false);
                            }
                            assert(find_sub(body@, close_tag(lvl as int)) is None);
                        }
                        let copy = subvec(s, 0, n);
                        proof {
                            assert(copy@ =~= s@);
                            assert(quads_of(Seq::<Header>::empty()) =~~= with_permalinks(
                                Seq::<(int, Seq<char>, Seq<char>)>::empty(),
                                base@,
                            ));
                        }
                        (copy, Vec::new())
                    },
                    Some(e) => {
                        proof {
                            lemma_find_sub_unique(body@, close_tag(lvl as int), e as int);
                        }
                        let title = subvec(&body, 0, e);
                        proof {
                            assert(title@ =~= body@.take(e as int));
                        }
                        let title_str = string_from_chars(&title);
                        let id = slugify(title_str.as_str());
                        let id_chars = chars_of(id.as_str());
                        // the rebuilt heading element
                        let mut head_html: Vec<char> = Vec::new();
                        head_html.push('<');
                        head_html.push('h');
                        head_html.push(digit);
                        let id_attr = chars_of(" id=\"");
                        let quote_close = chars_of("\">");
                        let anchor_pre = chars_of("<a class=\"anchor\" href=\"#");
                        let anchor_post = chars_of("\">#</a>");
                        proof {
                            reveal_strlit(" id=\"");
                            reveal_strlit("\">");
                            reveal_strlit("<a class=\"anchor\" href=\"#");
                            reveal_strlit("\">#</a>");
                        }
                        vec_extend(&mut head_html, &id_attr);
                        vec_extend(&mut head_html, &id_chars);
                        vec_extend(&mut head_html, &quote_close);
                        let mut anchor: Vec<char> = Vec::new();
                        vec_extend(&mut anchor, &anchor_pre);
                        vec_extend(&mut anchor, &id_chars);
                        vec_extend(&mut anchor, &anchor_post);
                        match mode {
                            InsertAnchor::Off => {
                                vec_extend(&mut head_html, &title);
                            },
                            InsertAnchor::Left => {
                                vec_extend(&mut head_html, &anchor);
                                vec_extend(&mut head_html, &title);
                            },
                            InsertAnchor::Right => {
                                vec_extend(&mut head_html, &title);
                                vec_extend(&mut head_html, &anchor);
                            },
                        }
                        vec_extend(&mut head_html, &close);
                        proof {
                            assert(head_html@ =~= spec_heading_html(
                                lvl as int,
                                slug_of(title@),
                                title@,
                                mode,
                            ));
                        }
                        // the page permalink with the id as fragment
                        let mut plink = subvec(base, 0, base.len());
                        plink.push('#');
                        vec_extend(&mut plink, &id_chars);
                        proof {
                            assert(plink@ =~= base@ + seq!['#'] + slug_of(title@));
                        }
                        let rest = subvec(&body, e + 5, body.len());
                        proof {
                            assert(rest@ =~= body@.skip(e + 5));
                        }
                        let (tail_html, tail_heads) = scan_headings(&rest, base, mode);
                        let mut out = subvec(s, 0, p);
                        vec_extend(&mut out, &head_html);
                        vec_extend(&mut out, &tail_html);
                        let header = Header {
                            level: lvl,
                            id,
                            title: title_str,
                            permalink: string_from_chars(&plink),
                            children: Vec::new(),
                        };
                        let mut heads: Vec<Header> = Vec::new();
                        heads.push(header);
                        let mut k: usize = 0;
                        while k < tail_heads.len()
                            invariant
                                0 <= k <= tail_heads@.len(),
                                forall|j: int|
                                    0 <= j < tail_heads@.len() ==> (#[trigger] tail_heads@[j]).children@.len() == 0,
                                heads@.len() == k + 1,
                                heads@[0].level == lvl,
                                heads@[0].id@ == slug_of(title@),
                                heads@[0].title@ == title@,
                                heads@[0].permalink@ == base@ + seq!['#'] + slug_of(title@),
                                heads@[0].children@.len() == 0,
                                forall|j: int|
                                    0 <= j < k ==> header_view(#[trigger] heads@[j + 1])
                                        == header_view(tail_heads@[j]) && heads@[j
                                        + 1].children@.len() == 0,
                            decreases tail_heads@.len() - k,
                        {
                            let h = header_shallow_copy(&tail_heads[k]);
                            proof {
                                assert(tail_heads@[k as int].children@.len() == 0);
                            }
                            heads.push(h);
                            k = k + 1;
                        }
                        proof {
                            let sc = spec_scan_headings(s@, mode);
                            let rsc = spec_scan_headings(rest@, mode);
                            assert(sc.0 == s@.take(p as int) + spec_heading_html(
                                lvl as int,
                                slug_of(title@),
                                title@,
                                mode,
                            ) + rsc.0);
                            assert(out@ =~= sc.0);
                            assert(sc.1 =~= seq![(lvl as int, slug_of(title@), title@)] + rsc.1);
                            assert(quads_of(tail_heads@).len() == tail_heads@.len());
                            assert(with_permalinks(rsc.1, base@).len() == rsc.1.len());
                            assert(tail_heads@.len() == rsc.1.len());
                            assert(heads@.len() == 1 + tail_heads@.len());
                            assert forall|j: int|
                                0 <= j < heads@.len() implies #[trigger] quads_of(heads@)[j]
                                == with_permalinks(sc.1, base@)[j] by {
                                if j > 0 {
                                    let ji = j - 1;
                                    assert(header_view(heads@[ji + 1]) == header_view(
                                        tail_heads@[ji],
                                    ));
                                    assert(quads_of(tail_heads@)[ji] == with_permalinks(
                                        rsc.1,
                                        base@,
                                    )[ji]);
                                    assert(quads_of(heads@)[j] == (
                                        heads@[j].level as int,
                                        heads@[j].id@,
                                        heads@[j].title@,
                                        heads@[j].permalink@,
                                    ));
                                    assert(quads_of(tail_heads@)[ji] == (
                                        tail_heads@[ji].level as int,
                                        tail_heads@[ji].id@,
                                        tail_heads@[ji].title@,
                                        tail_heads@[ji].permalink@,
                                    ));
                                    assert(sc.1[j] == rsc.1[ji]);
                                } else {
                                    assert(quads_of(heads@)[0] == (
                                        heads@[0].level as int,
                                        heads@[0].id@,
                                        heads@[0].title@,
                                        heads@[0].permalink@,
                                    ));
                                    assert(sc.1[0] == (lvl as int, slug_of(title@), title@));
                                }
                            }
                            assert(quads_of(heads@) =~~= with_permalinks(sc.1, base@));
                            assert forall|j: int|
                                0 <= j < heads@.len() implies (#[trigger] heads@[j]).children@.len()
                                == 0 by {
                                if j > 0 {
                                    let ji = j - 1;
                                    assert(heads@[ji + 1].children@.len() == 0);
                                }
                            }
                        }
                        (out, heads)
                    },
                }
            }
        },
    }
}

// ---------------------------------------------------------------------------
// The table-of-contents tree
// ---------------------------------------------------------------------------

/// First position at or after `from` whose heading is at `lvl` or above
/// (a smaller number), or the end.
pub open spec fn extent_from(
    flat: Seq<(int, Seq<char>, Seq<char>, Seq<char>)>,
    lvl: int,
    from: int,
) -> int
    decreases flat.len() - from,
{
    if from < 0 || from >= flat.len() {
        flat.len() as int
    } else if flat[from].0 <= lvl {
        from
    } else {
        extent_from(flat, lvl, from + 1)
    }
}

pub proof fn lemma_extent_from(
    flat: Seq<(int, Seq<char>, Seq<char>, Seq<char>)>,
    lvl: int,
    from: int,
)
    requires
        0 <= from <= flat.len(),
    ensures
        from <= extent_from(flat, lvl, from) <= flat.len(),
        forall|j: int| from <= j < extent_from(flat, lvl, from) ==> (#[trigger] flat[j]).0 > lvl,
        extent_from(flat, lvl, from) < flat.len() ==> flat[extent_from(flat, lvl, from)].0 <= lvl,
    decreases flat.len() - from,
{
    if from < flat.len() && flat[from].0 > lvl {
        lemma_extent_from(flat, lvl, from + 1);
    }
}

/// The heading tree of a flat heading list: each heading takes the
/// following deeper headings as its children, recursively.
pub open spec fn spec_build_toc(flat: Seq<(int, Seq<char>, Seq<char>, Seq<char>)>) -> Seq<
    HeaderSpec,
>
    decreases flat.len(),
{
    if flat.len() == 0 {
        Seq::empty()
    } else {
        let e0 = extent_from(flat, flat[0].0, 1);
        let e: int = if 1 <= e0 <= flat.len() {
            e0
        } else {
            flat.len() as int
        };
        let node = HeaderSpec {
            level: flat[0].0,
            id: flat[0].1,
            title: flat[0].2,
            permalink: flat[0].3,
            children: spec_build_toc(flat.subrange(1, e)),
        };
        seq![node] + spec_build_toc(flat.skip(e))
    }
}

/// Executable tree building over `flat[from..to]`.
fn build_toc_range(flat: &Vec<Header>, from: usize, to: usize) -> (r: Vec<Header>)
    requires
        from <= to <= flat@.len(),
        forall|j: int| 0 <= j < flat@.len() ==> (#[trigger] flat@[j]).children@.len() == 0,
    ensures
        headers_view(r@) == spec_build_toc(
            quads_of(flat@).subrange(from as int, to as int),
        ),
    decreases to - from,
{
    let ghost q = quads_of(flat@).subrange(from as int, to as int);
    if from == to {
        proof {
            assert(q =~= Seq::<(int, Seq<char>, Seq<char>, Seq<char>)>::empty());
            assert(headers_view(Seq::<Header>::empty()) =~~= spec_build_toc(q));
        }
        return Vec::new();
    }
    let lvl = flat[from].level;
    proof {
        assert(q[0] == quads_of(flat@)[from as int]);
        assert(q[0].0 == lvl as int);
        lemma_extent_from(q, lvl as int, 1);
    }
    // find the end of this node's children
    let mut e: usize = from + 1;
    while e < to && flat[e].level > lvl
        invariant
            from + 1 <= e <= to <= flat@.len(),
            q == quads_of(flat@).subrange(from as int, to as int),
            q.len() == to - from,
            lvl == flat@[from as int].level,
            forall|j: int| from < j < e ==> (#[trigger] flat@[j]).level > lvl,
        decreases to - e,
    {
        e = e + 1;
    }
    proof {
        assert forall|j: int| 1 <= j < e - from implies (#[trigger] q[j]).0 > lvl as int by {
            assert(q[j] == quads_of(flat@)[from + j]);
        }
        if (e - from) < q.len() {
            assert(q[e - from] == quads_of(flat@)[e as int]);
            assert(q[e - from].0 <= lvl as int);
        }
        lemma_extent_eq(q, lvl as int, (e - from) as int);
        assert(extent_from(q, lvl as int, 1) == e - from);
    }
    let children = build_toc_range(flat, from + 1, e);
    let rest = build_toc_range(flat, e, to);
    let node = Header {
        level: lvl,
        id: crate::kv::clone_string(&flat[from].id),
        title: crate::kv::clone_string(&flat[from].title),
        permalink: crate::kv::clone_string(&flat[from].permalink),
        children,
    };
    let mut out: Vec<Header> = Vec::new();
    out.push(node);
    let mut k: usize = 0;
    let ghost rest0 = rest@;
    proof {
        lemma_headers_view_len(out@);
        assert(rest@.take(0) =~= Seq::<Header>::empty());
        assert(headers_view(rest@.take(0)) =~~= Seq::<HeaderSpec>::empty());
        assert(headers_view(out@) =~~= seq![header_view(out@[0])] + headers_view(rest@.take(0)));
    }
    while k < rest.len()
        invariant
            from < e <= to <= flat@.len(),
            0 <= k <= rest@.len(),
            rest@ == rest0,
            out@.len() == k + 1,
            headers_view(out@) =~~= seq![header_view(out@[0])] + headers_view(rest@.take(k as int)),
            out@[0].level == lvl,
            out@[0].id@ == flat@[from as int].id@,
            out@[0].title@ == flat@[from as int].title@,
            out@[0].permalink@ == flat@[from as int].permalink@,
            headers_view(out@[0].children@) == spec_build_toc(
                quads_of(flat@).subrange(from as int + 1, e as int),
            ),
            forall|j: int| 0 <= j < rest@.len() ==> (#[trigger] rest@[j]).children@.len() >= 0,
        decreases rest@.len() - k,
    {
        let h = take_header(&rest, k);
        let ghost old_out = out@;
        out.push(h);
        proof {
            lemma_headers_view_len(out@);
            lemma_headers_view_len(old_out);
            lemma_headers_view_len(rest@.take(k as int));
            lemma_headers_view_len(rest@.take(k + 1));
            let ghost rhs = seq![header_view(out@[0])] + headers_view(rest@.take(k + 1));
            assert(headers_view(out@).len() == rhs.len());
            assert forall|j: int| 0 <= j < out@.len() implies headers_view(out@)[j] == rhs[j] by {
                if j == 0 {
                } else if j < k + 1 {
                    assert(out@[j] == old_out[j]);
                    assert(headers_view(old_out)[j] == (seq![header_view(old_out[0])]
                        + headers_view(rest@.take(k as int)))[j]);
                    assert(headers_view(rest@.take(k as int))[j - 1] == header_view(
                        rest@.take(k as int)[j - 1],
                    ));
                    assert(rest@.take(k as int)[j - 1] == rest@[j - 1]);
                    assert(rest@.take(k + 1)[j - 1] == rest@[j - 1]);
                    assert(headers_view(rest@.take(k + 1))[j - 1] == header_view(
                        rest@.take(k + 1)[j - 1],
                    ));
                } else {
                    assert(out@[j] == h);
                    assert(rest@.take(k + 1)[j - 1] == rest@[k as int]);
                    assert(headers_view(rest@.take(k + 1))[j - 1] == header_view(
                        rest@.take(k + 1)[j - 1],
                    ));
                }
            }
            assert(headers_view(out@) =~= rhs);
        }
        k = k + 1;
    }
    proof {
        assert(rest@.take(rest@.len() as int) =~= rest@);
        let eq = extent_from(q, lvl as int, 1);
        assert(q.subrange(1, eq) =~~= quads_of(flat@).subrange(from as int + 1, e as int));
        assert(q.skip(eq) =~~= quads_of(flat@).subrange(e as int, to as int));
        lemma_headers_view_len(out@);
        assert(headers_view(out@) =~~= spec_build_toc(q));
    }
    out
}

/// The scan position reached is exactly the specified extent.
proof fn lemma_extent_eq(
    flat: Seq<(int, Seq<char>, Seq<char>, Seq<char>)>,
    lvl: int,
    e: int,
)
    requires
        flat.len() >= 1,
        1 <= e <= flat.len(),
        forall|j: int| 1 <= j < e ==> (#[trigger] flat[j]).0 > lvl,
        e < flat.len() ==> flat[e].0 <= lvl,
    ensures
        extent_from(flat, lvl, 1) == e,
{
    lemma_extent_from(flat, lvl, 1);
    let x = extent_from(flat, lvl, 1);
    if x < e {
        assert(flat[x].0 > lvl);
    } else if e < x {
        assert(flat[e].0 > lvl);
    }
}

/// A full copy of one header of the flat list.
fn take_header(hs: &Vec<Header>, k: usize) -> (r: Header)
    requires
        k < hs@.len(),
    ensures
        header_view(r) == header_view(hs@[k as int]),
{
    header_deep_copy(&hs[k])
}

/// A copy of a header, children included.
pub(crate) fn header_deep_copy(h: &Header) -> (r: Header)
    ensures
        header_view(r) == header_view(*h),
    decreases *h,
{
    let mut children: Vec<Header> = Vec::new();
    let mut i: usize = 0;
    proof {
        lemma_headers_view_len(h.children@);
    }
    while i < h.children.len()
        invariant
            0 <= i <= h.children@.len(),
            headers_view(h.children@).len() == h.children@.len(),
            forall|j: int|
                0 <= j < h.children@.len() ==> headers_view(h.children@)[j] == header_view(
                    h.children@[j],
                ),
            headers_view(children@) =~~= headers_view(h.children@).take(i as int),
        decreases h.children@.len() - i,
    {
        proof {
            assert(decreases_to!(*h => h.children));
            assert(decreases_to!(h.children => h.children@[i as int]));
        }
        let c = header_deep_copy(&h.children[i]);
        let ghost old_children = children@;
        children.push(c);
        proof {
            lemma_headers_view_len(children@);
            lemma_headers_view_len(old_children);
            assert(headers_view(children@) =~~= headers_view(h.children@).take(i + 1));
        }
        i = i + 1;
    }
    proof {
        assert(headers_view(h.children@).take(h.children@.len() as int) =~~= headers_view(
            h.children@,
        ));
    }
    let r = Header {
        level: h.level,
        id: crate::kv::clone_string(&h.id),
        title: crate::kv::clone_string(&h.title),
        permalink: crate::kv::clone_string(&h.permalink),
        children,
    };
    proof {
        assert(header_view(r) =~~= header_view(*h));
    }
    r
}

// ---------------------------------------------------------------------------
// The whole pipeline
// ---------------------------------------------------------------------------

/// What rendering produces: the HTML body with heading ids and anchors, the
/// optional summary, and the heading tree.
pub struct Rendered {
    pub body: String,
    pub summary: Option<String>,
    pub toc: Vec<Header>,
}

pub open spec fn view_opt_summary(o: Option<String>) -> Option<Seq<char>> {
    match o {
        Some(s) => Some(s@),
        None => None,
    }
}

/// The one outcome rendering can have for given inputs: links rewritten
/// through the table, the body the markdown transform's HTML with ids and
/// anchors inserted, the summary the transform's HTML of the text before
/// the more marker, and the heading tree. The error is the first broken
/// link.
pub open spec fn spec_rendered(
    raw: Seq<char>,
    t: Seq<(Seq<char>, Seq<char>)>,
    base: Seq<char>,
    mode: InsertAnchor,
) -> Result<(Seq<char>, Option<Seq<char>>, Seq<HeaderSpec>), Seq<char>> {
    match spec_rewrite_links(raw, t) {
        Err(l) => Err(l),
        Ok(rw) => {
            let scanned = spec_scan_headings(html_of(rw), mode);
            let summary: Option<Seq<char>> = match find_sub(rw, "<!-- more -->"@) {
                Some(i) => if 0 <= i <= rw.len() {
                    Some(html_of(rw.take(i)))
                } else {
                    None
                },
                None => None,
            };
            Ok((scanned.0, summary, spec_build_toc(with_permalinks(scanned.1, base))))
        },
    }
}

/// Renders raw content against the permalink table: the outcome is exactly
/// the pipeline's, and the only failure is a broken internal link, naming
/// the link and the source file.
pub fn render_content(
    raw: &str,
    permalinks: &Vec<(String, String)>,
    current_permalink: &str,
    anchor: InsertAnchor,
    file: &str,
) -> (r: Result<Rendered, Error>)
    ensures
        match r {
            Ok(rd) => spec_rendered(raw@, permalinks.deep_view(), current_permalink@, anchor)
                == Ok::<(Seq<char>, Option<Seq<char>>, Seq<HeaderSpec>), Seq<char>>(
                (rd.body@, view_opt_summary(rd.summary), headers_view(rd.toc@)),
            ),
            Err(e) => e is BrokenLink && e->BrokenLink_file@ == file@ && spec_rendered(
                raw@,
                permalinks.deep_view(),
                current_permalink@,
                anchor,
            ) == Err::<(Seq<char>, Option<Seq<char>>, Seq<HeaderSpec>), Seq<char>>(
                e->BrokenLink_link@,
            ),
        },
{
    let raw_chars = chars_of(raw);
    let rw = match rewrite_internal_links(&raw_chars, permalinks, file) {
        Ok(v) => v,
        Err(e) => {
            return Err(e);
        },
    };
    let rw_str = string_from_chars(&rw);
    let body_html = markdown_to_html(rw_str.as_str());
    let body_chars = chars_of(body_html.as_str());
    let base = chars_of(current_permalink);
    let (final_html, flat) = scan_headings(&body_chars, &base, anchor);
    let toc = build_toc_range(&flat, 0, flat.len());
    proof {
        assert(quads_of(flat@).subrange(0, flat@.len() as int) =~~= quads_of(flat@));
    }
    let marker = chars_of("<!-- more -->");
    proof {
        reveal_strlit("<!-- more -->");
        lemma_find_sub(rw@, "<!-- more -->"@);
    }
    let found = vec_find_sub(&rw, &marker, 0);
    let summary: Option<String> = match found {
        Some(i) => {
            proof {
                lemma_find_sub_unique(rw@, "<!-- more -->"@, i as int);
            }
            let prefix = subvec(&rw, 0, i);
            proof {
                assert(prefix@ =~= rw@.take(i as int));
            }
            let prefix_str = string_from_chars(&prefix);
            Some(markdown_to_html(prefix_str.as_str()))
        },
        None => {
            proof {
                if find_sub(rw@, "<!-- more -->"@) is Some {
                    let k = find_sub(rw@, "<!-- more -->"@)->Some_0;
                    assert(matches_at(rw@, "<!-- more -->"@, k));
                    assert(false);
                }
                assert(find_sub(rw@, "<!-- more -->"@) is None);
            }
            None
        },
    };
    Ok(Rendered { body: string_from_chars(&final_html), summary, toc })
}

/// Rendering is deterministic: two successful renders of the same raw body
/// against the same permalink table, permalink and anchor mode agree byte
/// for byte on body, summary and table of contents.
pub proof fn lemma_render_twice(
    raw: Seq<char>,
    t: Seq<(Seq<char>, Seq<char>)>,
    base: Seq<char>,
    mode: InsertAnchor,
    first: (Seq<char>, Option<Seq<char>>, Seq<HeaderSpec>),
    second: (Seq<char>, Option<Seq<char>>, Seq<HeaderSpec>),
)
    requires
        spec_rendered(raw, t, base, mode) == Ok::<
            (Seq<char>, Option<Seq<char>>, Seq<HeaderSpec>),
            Seq<char>,
        >(first),
        spec_rendered(raw, t, base, mode) == Ok::<
            (Seq<char>, Option<Seq<char>>, Seq<HeaderSpec>),
            Seq<char>,
        >(second),
    ensures
        first.0 == second.0,
        first.1 == second.1,
        first.2 == second.2,
{
}

/// A copy of a header that has no children yet.
fn header_shallow_copy(h: &Header) -> (r: Header)
    requires
        h.children@.len() == 0,
    ensures
        header_view(r) == header_view(*h),
        r.children@.len() == 0,
{
    let r = Header {
        level: h.level,
        id: crate::kv::clone_string(&h.id),
        title: crate::kv::clone_string(&h.title),
        permalink: crate::kv::clone_string(&h.permalink),
        children: Vec::new(),
    };
    proof {
        assert(h.children@ =~= Seq::<Header>::empty());
        assert(headers_view(r.children@) =~~= headers_view(h.children@));
        assert(header_view(r) =~~= header_view(*h));
    }
    r
}

} // verus!
