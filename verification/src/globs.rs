//! File-name glob matching for asset ignore patterns, delegated to the
//! globset crate. Patterns are matched against the file name only, never a
//! longer path: the asset scan is non-recursive, so patterns cannot span
//! subdirectories.
use vstd::prelude::*;

verus! {

/// Whether any of the glob patterns matches the name: what a globset built
/// from exactly these patterns answers. A function of patterns and name
/// alone; patterns that do not parse as globs match nothing.
pub uninterp spec fn glob_matches(patterns: Seq<Seq<char>>, name: Seq<char>) -> bool;

/// Relies on globset's `Glob::new`, `GlobSetBuilder` and `GlobSet::is_match`:
/// whether any of the patterns matches the name.
#[verifier::external_body]
pub(crate) fn glob_set_matches(patterns: &Vec<String>, name: &str) -> (r: bool)
    ensures
        r == glob_matches(patterns.deep_view(), name@),
{
    let mut builder = globset::GlobSetBuilder::new();
    for p in patterns.iter() {
        if let Ok(g) = globset::Glob::new(p) {
            builder.add(g);
        }
    }
    match builder.build() {
        Ok(set) => set.is_match(name),
        Err(_) => false,
    }
}

} // verus!
