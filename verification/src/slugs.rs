//! Slug computation, delegated to the `slug` crate.
use vstd::prelude::*;

verus! {

/// The ASCII slug of a text: what `slug::slugify` returns for it. The result
/// is a function of the characters alone.
pub uninterp spec fn slug_of(s: Seq<char>) -> Seq<char>;

/// A character of the slug alphabet.
pub open spec fn is_slug_char(c: char) -> bool {
    ('a' <= c && c <= 'z') || ('0' <= c && c <= '9') || c == '-'
}

/// Relies on slug's `slugify`: a pure function of its argument whose result,
/// as the crate documents, consists of `a-z`, `0-9` and `-` alone, never
/// holds two dashes in a row, and never starts or ends with a dash.
#[verifier::external_body]
pub(crate) fn slugify(s: &str) -> (r: String)
    ensures
        r@ == slug_of(s@),
        forall|i: int| 0 <= i < r@.len() ==> is_slug_char(#[trigger] r@[i]),
        forall|i: int| 0 <= i < r@.len() - 1 ==> !((#[trigger] r@[i]) == '-' && r@[i + 1] == '-'),
        r@.len() > 0 ==> r@[0] != '-' && r@[r@.len() - 1] != '-',
{
    slug::slugify(s)
}

} // verus!
