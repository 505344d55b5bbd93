//! The build and rebuild controller's decisions: which temp files the
//! watcher should ignore, which of the three watched roots a changed path
//! falls under, and what bounded rebuild action each change kind demands.
use vstd::prelude::*;

use crate::errors::Error;
use crate::strtools::{
    chars_of, ends_with, eq_str, find_sub, matches_at, starts_with, string_from_chars, subvec,
    vec_ends_with, vec_find_sub, vec_starts_with,
};

verus! {

/// Which watched root a change falls under.
#[derive(Clone, Copy, Debug, PartialEq, Eq, Structural)]
pub enum ChangeKind {
    Content,
    Templates,
    StaticFiles,
}

/// What a change event demands: one reparse-and-relink, a site-wide
/// re-render with no reparse, or one file copy.
pub enum RebuildAction {
    /// Reparse the one changed file, replace it in the library, relink
    /// what touches it, and re-render it and whatever embeds it.
    ReparseAndRelink { path: String },
    /// Re-render every page and section; content and front matter are
    /// unchanged, so nothing is reparsed.
    RenderAll,
    /// Copy the one changed static file.
    CopyStatic { path: String },
}

impl RebuildAction {
    /// How many files the action reparses.
    pub open spec fn reparse_count(self) -> nat {
        match self {
            RebuildAction::ReparseAndRelink { .. } => 1,
            RebuildAction::RenderAll => 0,
            RebuildAction::CopyStatic { .. } => 0,
        }
    }

    /// Whether the action re-renders the whole site.
    pub open spec fn renders_all(self) -> bool {
        self is RenderAll
    }
}

// ---------------------------------------------------------------------------
// Temp-file filtering
// ---------------------------------------------------------------------------

/// A path an editor or the OS writes as a scratch file: swap and temp
/// extensions, IDE backup suffixes, trailing tildes, and names that start
/// with a hash.
pub open spec fn spec_is_temp_file(path: Seq<char>) -> bool {
    match crate::file_info::ext_of(path_file_name(path)) {
        Some(e) => e == "swp"@ || e == "swx"@ || e == "tmp"@ || e == ".DS_STORE"@ || ends_with(
            e,
            "jb_old___"@,
        ) || ends_with(e, "jb_tmp___"@) || ends_with(e, "jb_bak___"@) || ends_with(e, "~"@)
            || starts_with(crate::file_info::stem_of(path_file_name(path)), "#"@),
        None => ends_with(path, ".DS_STORE"@),
    }
}

/// The file-name part of a path.
pub open spec fn path_file_name(path: Seq<char>) -> Seq<char> {
    match crate::strtools::rfind_char(path, '/') {
        Some(i) => path.skip(i + 1),
        None => path,
    }
}

/// Recognizes editor and OS temp files among changed paths, so the watch
/// loop drops them before classification.
pub fn is_temp_file(path: &str) -> (r: bool)
    ensures
        r == spec_is_temp_file(path@),
{
    proof {
        reveal_strlit("swp");
        reveal_strlit("swx");
        reveal_strlit("tmp");
        reveal_strlit(".DS_STORE");
        reveal_strlit("jb_old___");
        reveal_strlit("jb_tmp___");
        reveal_strlit("jb_bak___");
        reveal_strlit("~");
        reveal_strlit("#");
    }
    let cs = chars_of(path);
    proof {
        crate::strtools::lemma_rfind_char(cs@, '/');
    }
    let slash = crate::strtools::vec_rfind_char(&cs, '/');
    let name: Vec<char> = match slash {
        Some(i) => {
            proof {
                crate::file_info::rfind_agrees(cs@, '/', i as int);
            }
            subvec(&cs, i + 1, cs.len())
        },
        None => {
            proof {
                if crate::strtools::rfind_char(cs@, '/') is Some {
                    let k = crate::strtools::rfind_char(cs@, '/')->Some_0;
                    assert(cs@[k] == '/');
                    assert(false);
                }
            }
            subvec(&cs, 0, cs.len())
        },
    };
    proof {
        assert(name@ =~= path_file_name(path@));
        crate::strtools::lemma_rfind_char(name@, '.');
    }
    let dot = crate::strtools::vec_rfind_char(&name, '.');
    match dot {
        Some(i) => {
            proof {
                crate::file_info::rfind_agrees(name@, '.', i as int);
            }
            if i > 0 {
                let ext = subvec(&name, i + 1, name.len());
                proof {
                    assert(ext@ =~= name@.skip(i + 1));
                }
                let ext_str = string_from_chars(&ext);
                if eq_str(ext_str.as_str(), "swp") || eq_str(ext_str.as_str(), "swx") || eq_str(
                    ext_str.as_str(),
                    "tmp",
                ) || eq_str(ext_str.as_str(), ".DS_STORE") {
                    return true;
                }
                let jb_old = chars_of("jb_old___");
                let jb_tmp = chars_of("jb_tmp___");
                let jb_bak = chars_of("jb_bak___");
                let tilde = chars_of("~");
                if vec_ends_with(&ext, &jb_old) || vec_ends_with(&ext, &jb_tmp) || vec_ends_with(
                    &ext,
                    &jb_bak,
                ) || vec_ends_with(&ext, &tilde) {
                    return true;
                }
                let stem = subvec(&name, 0, i);
                proof {
                    assert(stem@ =~= name@.take(i as int));
                    assert(stem@ =~= crate::file_info::stem_of(name@));
                }
                let hash = chars_of("#");
                vec_starts_with(&stem, &hash)
            } else {
                // the only dot leads the name: no extension
                proof {
                    assert(crate::file_info::ext_of(name@) is None);
                }
                let ds = chars_of(".DS_STORE");
                vec_ends_with(&cs, &ds)
            }
        },
        None => {
            proof {
                if crate::strtools::rfind_char(name@, '.') is Some {
                    let k = crate::strtools::rfind_char(name@, '.')->Some_0;
                    assert(name@[k] == '.');
                    assert(false);
                }
                assert(crate::file_info::ext_of(name@) is None);
            }
            let ds = chars_of(".DS_STORE");
            vec_ends_with(&cs, &ds)
        },
    }
}

// ---------------------------------------------------------------------------
// Change classification
// ---------------------------------------------------------------------------

/// The path relative to the working directory: the first occurrence of the
/// working directory removed (as the watcher reports absolute paths).
pub open spec fn spec_relative_path(pwd: Seq<char>, path: Seq<char>) -> Seq<char> {
    if pwd.len() > 0 {
        match find_sub(path, pwd) {
            Some(i) => if 0 <= i && i + pwd.len() <= path.len() {
                path.take(i) + path.skip(i + pwd.len())
            } else {
                path
            },
            None => path,
        }
    } else {
        path
    }
}

/// Which root the relative path falls under, if any.
pub open spec fn spec_change_kind(rel: Seq<char>) -> Option<ChangeKind> {
    if starts_with(rel, "/templates"@) {
        Some(ChangeKind::Templates)
    } else if starts_with(rel, "/content"@) {
        Some(ChangeKind::Content)
    } else if starts_with(rel, "/static"@) {
        Some(ChangeKind::StaticFiles)
    } else {
        None
    }
}

/// Classifies a changed path against the three watched roots; a path under
/// none of them is the fatal unclassified-change failure, since the watched
/// root set is fixed and exhaustive.
pub fn classify_change(pwd: &str, path: &str) -> (r: Result<(ChangeKind, String), Error>)
    ensures
        match r {
            Ok(p) => spec_change_kind(spec_relative_path(pwd@, path@)) == Some(p.0) && p.1@
                == spec_relative_path(pwd@, path@),
            Err(e) => spec_change_kind(spec_relative_path(pwd@, path@)) is None
                && e is UnclassifiedChange,
        },
{
    proof {
        reveal_strlit("/templates");
        reveal_strlit("/content");
        reveal_strlit("/static");
    }
    let pc = chars_of(pwd);
    let cc = chars_of(path);
    let n: usize = cc.len();
    let rel: Vec<char> = if pc.len() > 0 {
        proof {
            crate::strtools::lemma_find_sub(cc@, pc@);
        }
        let found = vec_find_sub(&cc, &pc, 0);
        match found {
            Some(i) => {
                proof {
                    crate::strtools::lemma_find_sub_unique(cc@, pc@, i as int);
                }
                let mut head = subvec(&cc, 0, i);
                let tail = subvec(&cc, i + pc.len(), n);
                crate::strtools::vec_extend(&mut head, &tail);
                proof {
                    assert(head@ =~= cc@.take(i as int) + cc@.skip(i + pc@.len()));
                }
                head
            },
            None => {
                proof {
                    if find_sub(cc@, pc@) is Some {
                        let k = find_sub(cc@, pc@)->Some_0;
                        assert(matches_at(cc@, pc@, k));
                        assert(false);
                    }
                }
                subvec(&cc, 0, cc.len())
            },
        }
    } else {
        subvec(&cc, 0, cc.len())
    };
    proof {
        assert(rel@ =~= spec_relative_path(pwd@, path@));
    }
    let templates = chars_of("/templates");
    let content = chars_of("/content");
    let static_root = chars_of("/static");
    let kind: ChangeKind = if vec_starts_with(&rel, &templates) {
        ChangeKind::Templates
    } else if vec_starts_with(&rel, &content) {
        ChangeKind::Content
    } else if vec_starts_with(&rel, &static_root) {
        ChangeKind::StaticFiles
    } else {
        return Err(Error::UnclassifiedChange(string_from_chars(&rel)));
    };
    Ok((kind, string_from_chars(&rel)))
}

/// The changed path classified and its (kind, relative path) pair, exactly
/// as the classifier says; callers must hand in a path under one of the
/// three watched roots.
pub fn detect_change_kind(pwd: &str, path: &str) -> (r: (ChangeKind, String))
    requires
        spec_change_kind(spec_relative_path(pwd@, path@)) is Some,
    ensures
        Some(r.0) == spec_change_kind(spec_relative_path(pwd@, path@)),
        r.1@ == spec_relative_path(pwd@, path@),
{
    match classify_change(pwd, path) {
        Ok(p) => p,
        Err(_) => {
            proof {
                assert(false);
            }
            (ChangeKind::Content, String::new())
        },
    }
}

/// The bounded rebuild action each change kind demands: a template change
/// re-renders everything but reparses nothing; a content change reparses
/// and relinks exactly the one changed file; a static change copies that
/// one file.
pub fn plan_rebuild(kind: ChangeKind, path: &str) -> (r: RebuildAction)
    ensures
        kind is Templates ==> r.renders_all() && r.reparse_count() == 0,
        kind is Content ==> (r matches RebuildAction::ReparseAndRelink { path: p } && p@ == path@
            && r.reparse_count() == 1),
        kind is StaticFiles ==> (r matches RebuildAction::CopyStatic { path: p } && p@ == path@
            && r.reparse_count() == 0),
{
    match kind {
        ChangeKind::Templates => RebuildAction::RenderAll,
        ChangeKind::Content => RebuildAction::ReparseAndRelink { path: path.to_owned() },
        ChangeKind::StaticFiles => RebuildAction::CopyStatic { path: path.to_owned() },
    }
}

} // verus!
