//! The asset pipeline's decisions: which timestamp counts for a file,
//! whether a target is stale against its source, whether a path lies under
//! a directory, and what one copy call should do. The reads and writes
//! themselves happen outside; these functions decide over plain values.
use vstd::prelude::*;

use crate::file_info::ext_of;
use crate::strtools::{
    chars_of, lower_ascii, nonempty_parts, split_chars, vec_lower_ascii, vec_nonempty, vec_split,
};

verus! {

/// A file timestamp in whole nanoseconds since the epoch.
pub type FileTime = i128;

/// The time of a file: the later of its creation and modification times,
/// whichever of the two exist.
pub fn get_file_time(created: Option<FileTime>, modified: Option<FileTime>) -> (r: Option<
    FileTime,
>)
    ensures
        r == (match (created, modified) {
            (Some(tc), Some(tm)) => Some(
                if tc >= tm {
                    tc
                } else {
                    tm
                },
            ),
            (Some(tc), None) => Some(tc),
            (None, Some(tm)) => Some(tm),
            (None, None) => None::<FileTime>,
        }),
{
    match (created, modified) {
        (Some(tc), Some(tm)) => Some(
            if tc >= tm {
                tc
            } else {
                tm
            },
        ),
        (Some(tc), None) => Some(tc),
        (None, Some(tm)) => Some(tm),
        (None, None) => None,
    }
}

/// Whether the source is newer than the target: true when the target does
/// not exist, when either time is unknown, or when the source's time is
/// strictly later.
pub fn file_stale(
    target_exists: bool,
    time_source: Option<FileTime>,
    time_target: Option<FileTime>,
) -> (r: bool)
    ensures
        r == (!target_exists || (match (time_source, time_target) {
            (Some(ts), Some(tt)) => ts > tt,
            _ => true,
        })),
{
    if !target_exists {
        return true;
    }
    match (time_source, time_target) {
        (Some(ts), Some(tt)) => ts > tt,
        _ => true,
    }
}

/// Whether `path` lies under `parent`: the parent's nonempty path segments
/// are a prefix of the path's. Both paths must already be canonical.
pub fn is_path_in_directory(parent: &str, path: &str) -> (r: bool)
    ensures
        r == ({
            let pp = nonempty_parts(split_chars(parent@, '/'));
            let cp = nonempty_parts(split_chars(path@, '/'));
            pp.len() <= cp.len() && pp == cp.take(pp.len() as int)
        }),
{
    let pc = chars_of(parent);
    let cc = chars_of(path);
    let pp = vec_nonempty(&vec_split(&pc, '/'));
    let cp = vec_nonempty(&vec_split(&cc, '/'));
    let ghost ppv = nonempty_parts(split_chars(parent@, '/'));
    let ghost cpv = nonempty_parts(split_chars(path@, '/'));
    if pp.len() > cp.len() {
        proof {
            assert(ppv.len() == pp@.len());
            assert(cpv.len() == cp@.len());
        }
        return false;
    }
    let mut i: usize = 0;
    while i < pp.len()
        invariant
            pp@.len() <= cp@.len(),
            ppv == nonempty_parts(split_chars(parent@, '/')),
            cpv == nonempty_parts(split_chars(path@, '/')),
            ppv == pp.deep_view(),
            cpv == cp.deep_view(),
            ppv.len() == pp@.len(),
            cpv.len() == cp@.len(),
            0 <= i <= pp@.len(),
            forall|j: int| 0 <= j < i ==> ppv[j] == cpv[j],
        decreases pp@.len() - i,
    {
        let a = &pp[i];
        let b = &cp[i];
        if !crate::strtools::vec_eq(a, b) {
            proof {
                assert(ppv[i as int] =~= pp@[i as int]@);
                assert(cpv[i as int] =~= cp@[i as int]@);
                assert(ppv[i as int] != cpv[i as int]);
                if ppv == cpv.take(ppv.len() as int) {
                    assert(ppv[i as int] == cpv.take(ppv.len() as int)[i as int]);
                    assert(cpv.take(ppv.len() as int)[i as int] == cpv[i as int]);
                    assert(false);
                }
            }
            return false;
        }
        proof {
            assert(ppv[i as int] =~= pp@[i as int]@);
            assert(cpv[i as int] =~= cp@[i as int]@);
        }
        i = i + 1;
    }
    proof {
        assert(ppv =~~= cpv.take(ppv.len() as int));
    }
    true
}

// ---------------------------------------------------------------------------
// The copy decision
// ---------------------------------------------------------------------------

/// What stands on disk for one file when it exists: its modification time
/// and byte length.
#[derive(Clone, Copy, Debug, PartialEq, Eq, Structural)]
pub struct FileStamp {
    pub mtime: FileTime,
    pub len: u64,
}

/// What one copy call should do.
#[derive(Clone, Copy, Debug, PartialEq, Eq, Structural)]
pub enum CopyAction {
    /// Create a hard link to the source instead of copying bytes.
    CreateHardLink,
    /// The destination already matches the source: do nothing.
    Skip,
    /// Recompress the image into the destination, then force its
    /// modification time to the source's.
    OptimizeImage,
    /// Copy the bytes, then force the destination's modification time to
    /// the source's.
    CopyBytes,
}

/// The source has a lossless-image extension, judged case-insensitively.
pub open spec fn is_png_name(name: Seq<char>) -> bool {
    match ext_of(name) {
        Some(e) => lower_ascii(e) == "png"@,
        None => false,
    }
}

/// The copy decision: a hard link when requested; otherwise skip only when
/// the destination exists with the source's modification time and length;
/// otherwise optimize when the source is a recognized image and an
/// optimization level is set, else copy the bytes. A destination that could
/// not be read never skips.
pub open spec fn spec_copy_action(
    hard_link: bool,
    optimize: Option<u8>,
    src_name: Seq<char>,
    src: FileStamp,
    dest: Option<FileStamp>,
) -> CopyAction {
    if hard_link {
        CopyAction::CreateHardLink
    } else if dest matches Some(d) && d.mtime == src.mtime && d.len == src.len {
        CopyAction::Skip
    } else if optimize is Some && is_png_name(src_name) {
        CopyAction::OptimizeImage
    } else {
        CopyAction::CopyBytes
    }
}

/// Decides what one copy call does, exactly as the staleness rule says.
pub fn copy_action(
    hard_link: bool,
    optimize: Option<u8>,
    src_name: &str,
    src: FileStamp,
    dest: Option<FileStamp>,
) -> (r: CopyAction)
    ensures
        r == spec_copy_action(hard_link, optimize, src_name@, src, dest),
{
    if hard_link {
        return CopyAction::CreateHardLink;
    }
    if let Some(d) = dest {
        if d.mtime == src.mtime && d.len == src.len {
            return CopyAction::Skip;
        }
    }
    let wants_optimize = match optimize {
        Some(_) => true,
        None => false,
    };
    if wants_optimize {
        let cs = chars_of(src_name);
        proof {
            crate::strtools::lemma_rfind_char(cs@, '.');
        }
        let dot = crate::strtools::vec_rfind_char(&cs, '.');
        let png = match dot {
            Some(i) => {
                proof {
                    crate::file_info::rfind_agrees(cs@, '.', i as int);
                }
                if i > 0 {
                    let ext = crate::strtools::subvec(&cs, i + 1, cs.len());
                    proof {
                        assert(ext@ =~= cs@.skip(i + 1));
                        reveal_strlit("png");
                    }
                    let low = vec_lower_ascii(&ext);
                    let png_lit = chars_of("png");
                    crate::strtools::vec_eq(&low, &png_lit)
                } else {
                    false
                }
            },
            None => {
                proof {
                    if crate::strtools::rfind_char(cs@, '.') is Some {
                        let k = crate::strtools::rfind_char(cs@, '.')->Some_0;
                        assert(cs@[k] == '.');
                        assert(false);
                    }
                }
                false
            },
        };
        if png {
            return CopyAction::OptimizeImage;
        }
    }
    CopyAction::CopyBytes
}

/// After a copy that forced the destination's modification time to the
/// source's and reproduced its length, an immediately repeated call with
/// the unchanged source skips: the second call performs no byte copy.
pub proof fn lemma_copy_idempotent(optimize: Option<u8>, src_name: Seq<char>, src: FileStamp)
    ensures
        spec_copy_action(
            false,
            optimize,
            src_name,
            src,
            Some(FileStamp { mtime: src.mtime, len: src.len }),
        ) == CopyAction::Skip,
{
}

} // verus!
