//! Location metadata of one content file: its directory components relative
//! to the content root, its file stem, its containing directory and the
//! content-relative identity key used by the permalink table.
use vstd::prelude::*;

use crate::strtools::{
    chars_of, join_chars, lemma_rfind_char, rfind_char, split_chars, string_from_chars, subvec,
    vec_eq, vec_extend, vec_join, vec_rfind_char, vec_split,
};

verus! {

/// Canonical location metadata of a content file. Immutable once built.
pub struct FileInfo {
    /// The file path as handed in.
    pub path: String,
    /// The directory holding the content (for an index-style file, the
    /// directory above the one the file names).
    pub parent: String,
    /// The file stem.
    pub name: String,
    /// Directory names from the content root to the file, the file itself
    /// excluded; for an index-style file its own directory is excluded too.
    pub components: Vec<String>,
    /// Stable content-relative identity key.
    pub relative: String,
}

/// The `/`-separated parts of a path.
pub open spec fn path_parts(path: Seq<char>) -> Seq<Seq<char>> {
    split_chars(path, '/')
}

/// The stem of a file name: everything before the last `.`, unless the only
/// `.` leads the name.
pub open spec fn stem_of(name: Seq<char>) -> Seq<char> {
    match rfind_char(name, '.') {
        Some(i) => if i > 0 {
            name.take(i)
        } else {
            name
        },
        None => name,
    }
}

/// The extension of a file name: everything after the last `.`, unless the
/// only `.` leads the name.
pub open spec fn ext_of(name: Seq<char>) -> Option<Seq<char>> {
    match rfind_char(name, '.') {
        Some(i) => if i > 0 {
            Some(name.skip(i + 1))
        } else {
            None
        },
        None => None,
    }
}

/// The directory part of a path: everything before the last `/`, empty when
/// there is none.
pub open spec fn dir_of(path: Seq<char>) -> Seq<char> {
    match rfind_char(path, '/') {
        Some(i) => path.take(i),
        None => Seq::empty(),
    }
}

/// The directory parts after the first one named `content`.
pub open spec fn after_content_marker(dirs: Seq<Seq<char>>) -> Seq<Seq<char>>
    decreases dirs.len(),
{
    if dirs.len() == 0 {
        Seq::empty()
    } else if dirs[0] == "content"@ {
        dirs.skip(1)
    } else {
        after_content_marker(dirs.skip(1))
    }
}

/// Directory components of a content file: the directories between the
/// content root and the file.
pub open spec fn content_components(path: Seq<char>) -> Seq<Seq<char>> {
    let parts = path_parts(path);
    after_content_marker(parts.take(parts.len() - 1))
}

/// The file stem of a path.
pub open spec fn file_stem(path: Seq<char>) -> Seq<char> {
    let parts = path_parts(path);
    stem_of(parts[parts.len() - 1])
}

/// The identity key: components joined with `/`, then the stem with a `.md`
/// suffix.
pub open spec fn relative_of(components: Seq<Seq<char>>, name: Seq<char>) -> Seq<char> {
    if components.len() > 0 {
        join_chars(components, '/') + seq!['/'] + name + ".md"@
    } else {
        name + ".md"@
    }
}

/// Splits a path into its `/`-separated parts, as owned strings are not
/// needed here: character vectors.
fn split_path(path: &str) -> (r: Vec<Vec<char>>)
    ensures
        r.deep_view() == path_parts(path@),
{
    let cs = chars_of(path);
    vec_split(&cs, '/')
}

fn find_after_content(dirs: &Vec<Vec<char>>, from: usize) -> (r: Vec<Vec<char>>)
    requires
        from <= dirs@.len(),
    ensures
        r.deep_view() == after_content_marker(dirs.deep_view().skip(from as int)),
    decreases dirs@.len() - from,
{
    if from == dirs.len() {
        proof {
            assert(dirs.deep_view().skip(from as int) =~~= Seq::<Seq<char>>::empty());
        }
        Vec::new()
    } else {
        proof {
            let dv = dirs.deep_view().skip(from as int);
            assert(dv[0] =~= dirs@[from as int]@);
            assert(dv.skip(1) =~~= dirs.deep_view().skip(from as int + 1));
        }
        let marker = chars_of("content");
        proof {
            reveal_strlit("content");
        }
        if vec_eq(&dirs[from], &marker) {
            let mut r: Vec<Vec<char>> = Vec::new();
            let mut i: usize = from + 1;
            while i < dirs.len()
                invariant
                    from + 1 <= i <= dirs@.len(),
                    r.deep_view() =~~= dirs.deep_view().subrange(from as int + 1, i as int),
                decreases dirs@.len() - i,
            {
                let part = subvec(&dirs[i], 0, dirs[i].len());
                proof {
                    assert(part@ =~= dirs@[i as int]@);
                }
                let ghost old_dv = r.deep_view();
                r.push(part);
                proof {
                    assert(r.deep_view() =~~= old_dv.push(dirs@[i as int]@));
                    assert(r.deep_view() =~~= dirs.deep_view().subrange(from as int + 1, i + 1));
                }
                i = i + 1;
            }
            proof {
                assert(r.deep_view() =~~= dirs.deep_view().skip(from as int).skip(1));
            }
            r
        } else {
            find_after_content(dirs, from + 1)
        }
    }
}

impl FileInfo {
    /// Location metadata for a regular or index-style page file. An
    /// index-style file stands for its directory, so that directory leaves
    /// the components and the parent moves one level up.
    pub fn new_page(path: &str) -> (r: FileInfo)
        requires
            path@.len() > 0,
        ensures
            r.path@ == path@,
            r.name@ == file_stem(path@),
            ({
                let base = content_components(path@);
                if file_stem(path@) == "index"@ && base.len() > 0 {
                    r.components.deep_view() == base.take(base.len() - 1) && r.parent@ == dir_of(
                        dir_of(path@),
                    )
                } else {
                    r.components.deep_view() == base && r.parent@ == dir_of(path@)
                }
            }),
            r.relative@ == relative_of(content_components(path@), file_stem(path@)),
    {
        let parts = split_path(path);
        proof {
            crate::strtools::lemma_split_nonempty(path@, '/');
            assert(parts@.len() == parts.deep_view().len());
            assert(parts@.len() > 0);
        }
        let last = parts.len() - 1;
        let name_chars = stem_vec(&parts[last]);
        proof {
            assert(parts.deep_view()[last as int] =~= parts@[last as int]@);
            assert(name_chars@ == stem_of(parts.deep_view()[parts.deep_view().len() - 1]));
        }
        let dirs = subvec_parts(&parts, 0, last);
        proof {
            assert(dirs.deep_view() =~~= parts.deep_view().take(parts.deep_view().len() - 1));
        }
        let mut components = find_after_content(&dirs, 0);
        proof {
            assert(dirs.deep_view().skip(0) =~~= dirs.deep_view());
            assert(components.deep_view() =~~= content_components(path@));
        }
        let relative = make_relative(&components, &name_chars);
        let cs = chars_of(path);
        let mut parent = dir_vec(&cs);
        let index_lit = chars_of("index");
        proof {
            reveal_strlit("index");
        }
        let is_index = vec_eq(&name_chars, &index_lit);
        if is_index && components.len() > 0 {
            let ghost before = components.deep_view();
            let _ = components.pop();
            proof {
                assert(components.deep_view() =~~= before.take(before.len() - 1));
            }
            let p2 = dir_vec(&parent);
            parent = p2;
        }
        let comp_strings = strings_of_parts(&components);
        FileInfo {
            path: path.to_owned(),
            parent: string_from_chars(&parent),
            name: string_from_chars(&name_chars),
            components: comp_strings,
            relative,
        }
    }

    /// Location metadata for a section's index file: the components are the
    /// directories under the content root, kept as they stand.
    pub fn new_section(path: &str) -> (r: FileInfo)
        requires
            path@.len() > 0,
        ensures
            r.path@ == path@,
            r.name@ == file_stem(path@),
            r.components.deep_view() == content_components(path@),
            r.parent@ == dir_of(path@),
            r.relative@ == relative_of(content_components(path@), file_stem(path@)),
    {
        let parts = split_path(path);
        proof {
            crate::strtools::lemma_split_nonempty(path@, '/');
            assert(parts@.len() == parts.deep_view().len());
            assert(parts@.len() > 0);
        }
        let last = parts.len() - 1;
        let name_chars = stem_vec(&parts[last]);
        proof {
            assert(parts.deep_view()[last as int] =~= parts@[last as int]@);
            assert(name_chars@ == stem_of(parts.deep_view()[parts.deep_view().len() - 1]));
        }
        let dirs = subvec_parts(&parts, 0, last);
        proof {
            assert(dirs.deep_view() =~~= parts.deep_view().take(parts.deep_view().len() - 1));
        }
        let components = find_after_content(&dirs, 0);
        proof {
            assert(dirs.deep_view().skip(0) =~~= dirs.deep_view());
            assert(components.deep_view() =~~= content_components(path@));
        }
        let relative = make_relative(&components, &name_chars);
        let cs = chars_of(path);
        let parent = dir_vec(&cs);
        let comp_strings = strings_of_parts(&components);
        FileInfo {
            path: path.to_owned(),
            parent: string_from_chars(&parent),
            name: string_from_chars(&name_chars),
            components: comp_strings,
            relative,
        }
    }
}

/// The stem of one file name held as characters.
fn stem_vec(name: &Vec<char>) -> (r: Vec<char>)
    ensures
        r@ == stem_of(name@),
{
    proof {
        lemma_rfind_char(name@, '.');
    }
    let dot = vec_rfind_char(name, '.');
    match dot {
        Some(i) => {
            proof {
                rfind_agrees(name@, '.', i as int);
            }
            if i > 0 {
                subvec(name, 0, i)
            } else {
                subvec(name, 0, name.len())
            }
        },
        None => {
            proof {
                if rfind_char(name@, '.') is Some {
                    let k = rfind_char(name@, '.')->Some_0;
                    assert(name@[k] == '.');
                    assert(false);
                }
            }
            subvec(name, 0, name.len())
        },
    }
}

/// The directory part of a path held as characters.
pub(crate) fn dir_vec(path: &Vec<char>) -> (r: Vec<char>)
    ensures
        r@ == dir_of(path@),
{
    proof {
        lemma_rfind_char(path@, '/');
    }
    let slash = vec_rfind_char(path, '/');
    match slash {
        Some(i) => {
            proof {
                rfind_agrees(path@, '/', i as int);
            }
            subvec(path, 0, i)
        },
        None => {
            proof {
                if rfind_char(path@, '/') is Some {
                    let k = rfind_char(path@, '/')->Some_0;
                    assert(path@[k] == '/');
                    assert(false);
                }
            }
            Vec::new()
        },
    }
}

/// The executable search and the specification name the same last position.
pub proof fn rfind_agrees(s: Seq<char>, c: char, i: int)
    requires
        0 <= i < s.len(),
        s[i] == c,
        forall|j: int| i < j < s.len() ==> s[j] != c,
    ensures
        rfind_char(s, c) == Some(i),
{
    lemma_rfind_char(s, c);
    match rfind_char(s, c) {
        Some(k) => {
            if k < i {
                assert(s[i] != c);
                assert(false);
            } else if i < k {
                assert(s[k] != c);
                assert(false);
            }
        },
        None => {
            assert(s[i] != c);
            assert(false);
        },
    }
}

/// A fresh copy of `parts[from..to]`.
fn subvec_parts(parts: &Vec<Vec<char>>, from: usize, to: usize) -> (r: Vec<Vec<char>>)
    requires
        from <= to <= parts@.len(),
    ensures
        r.deep_view() == parts.deep_view().subrange(from as int, to as int),
{
    let mut r: Vec<Vec<char>> = Vec::new();
    let mut i: usize = from;
    while i < to
        invariant
            from <= i <= to <= parts@.len(),
            r.deep_view() =~~= parts.deep_view().subrange(from as int, i as int),
        decreases to - i,
    {
        let part = subvec(&parts[i], 0, parts[i].len());
        proof {
            assert(part@ =~= parts@[i as int]@);
        }
        let ghost old_dv = r.deep_view();
        r.push(part);
        proof {
            assert(r.deep_view() =~~= old_dv.push(parts@[i as int]@));
            assert(r.deep_view() =~~= parts.deep_view().subrange(from as int, i + 1));
        }
        i = i + 1;
    }
    proof {
        assert(r.deep_view() =~~= parts.deep_view().subrange(from as int, to as int));
    }
    r
}

/// Owned strings of the parts.
pub(crate) fn strings_of_parts(parts: &Vec<Vec<char>>) -> (r: Vec<String>)
    ensures
        r.deep_view() == parts.deep_view(),
{
    let mut r: Vec<String> = Vec::new();
    let mut i: usize = 0;
    while i < parts.len()
        invariant
            0 <= i <= parts@.len(),
            r.deep_view() =~~= parts.deep_view().take(i as int),
        decreases parts@.len() - i,
    {
        let s = string_from_chars(&parts[i]);
        let ghost old_dv = r.deep_view();
        r.push(s);
        proof {
            assert(r.deep_view() =~~= old_dv.push(parts@[i as int]@));
            assert(r.deep_view() =~~= parts.deep_view().take(i + 1));
        }
        i = i + 1;
    }
    proof {
        assert(r.deep_view() =~~= parts.deep_view());
    }
    r
}

/// The identity key built from components and stem.
fn make_relative(components: &Vec<Vec<char>>, name: &Vec<char>) -> (r: String)
    ensures
        r@ == relative_of(components.deep_view(), name@),
{
    let md = chars_of(".md");
    proof {
        reveal_strlit(".md");
    }
    if components.len() > 0 {
        let mut out = vec_join(components, '/');
        out.push('/');
        vec_extend(&mut out, name);
        vec_extend(&mut out, &md);
        proof {
            assert(out@ =~= join_chars(components.deep_view(), '/') + seq!['/'] + name@ + ".md"@);
        }
        string_from_chars(&out)
    } else {
        let mut out = subvec(name, 0, name.len());
        vec_extend(&mut out, &md);
        proof {
            assert(out@ =~= name@ + ".md"@);
        }
        string_from_chars(&out)
    }
}

} // verus!
