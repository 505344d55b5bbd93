//! Character-level string utilities: searching, splitting, joining,
//! trimming and digit formatting, each specified over `Seq<char>`.
//! Executable code works on `Vec<char>` and converts to `String` at the
//! edges.
use vstd::prelude::*;

verus! {

// ---------------------------------------------------------------------------
// Searching
// ---------------------------------------------------------------------------

/// Index of the first occurrence of `c` in `s`, if any.
pub open spec fn find_char(s: Seq<char>, c: char) -> Option<int>
    decreases s.len(),
{
    if s.len() == 0 {
        None
    } else if s[0] == c {
        Some(0int)
    } else {
        match find_char(s.skip(1), c) {
            Some(i) => Some(i + 1),
            None => None,
        }
    }
}

pub proof fn lemma_find_char(s: Seq<char>, c: char)
    ensures
        match find_char(s, c) {
            Some(i) => 0 <= i < s.len() && s[i] == c && (forall|j: int| 0 <= j < i ==> s[j] != c),
            None => forall|j: int| 0 <= j < s.len() ==> s[j] != c,
        },
    decreases s.len(),
{
    if s.len() == 0 {
    } else if s[0] == c {
    } else {
        lemma_find_char(s.skip(1), c);
        assert forall|j: int| 1 <= j < s.len() implies s[j] == s.skip(1)[j - 1] by {}
    }
}

/// Index of the last occurrence of `c` in `s`, if any.
pub open spec fn rfind_char(s: Seq<char>, c: char) -> Option<int>
    decreases s.len(),
{
    if s.len() == 0 {
        None
    } else if s[s.len() - 1] == c {
        Some(s.len() - 1)
    } else {
        rfind_char(s.take(s.len() - 1), c)
    }
}

pub proof fn lemma_rfind_char(s: Seq<char>, c: char)
    ensures
        match rfind_char(s, c) {
            Some(i) => 0 <= i < s.len() && s[i] == c && (forall|j: int|
                i < j < s.len() ==> s[j] != c),
            None => forall|j: int| 0 <= j < s.len() ==> s[j] != c,
        },
    decreases s.len(),
{
    if s.len() == 0 {
    } else if s[s.len() - 1] == c {
    } else {
        lemma_rfind_char(s.take(s.len() - 1), c);
        assert forall|j: int| 0 <= j < s.len() - 1 implies s[j] == s.take(s.len() - 1)[j] by {}
    }
}

/// Executable last-occurrence search.
pub fn vec_rfind_char(s: &Vec<char>, c: char) -> (r: Option<usize>)
    ensures
        match r {
            Some(i) => i < s@.len() && s@[i as int] == c && (forall|j: int|
                i < j < s@.len() ==> s@[j] != c),
            None => forall|j: int| 0 <= j < s@.len() ==> s@[j] != c,
        },
{
    let mut i: usize = s.len();
    while i > 0
        invariant
            0 <= i <= s@.len(),
            forall|j: int| i <= j < s@.len() ==> s@[j] != c,
        decreases i,
    {
        i = i - 1;
        if s[i] == c {
            return Some(i);
        }
    }
    None
}

/// Element-for-element equality of character vectors.
pub fn vec_eq(a: &Vec<char>, b: &Vec<char>) -> (r: bool)
    ensures
        r == (a@ == b@),
{
    if a.len() != b.len() {
        return false;
    }
    let mut i: usize = 0;
    while i < a.len()
        invariant
            a@.len() == b@.len(),
            0 <= i <= a@.len(),
            forall|j: int| 0 <= j < i ==> a@[j] == b@[j],
        decreases a@.len() - i,
    {
        if a[i] != b[i] {
            return false;
        }
        i = i + 1;
    }
    proof {
        assert(a@ =~= b@);
    }
    true
}

/// Appends all of `b` to `a`.
pub fn vec_extend(a: &mut Vec<char>, b: &Vec<char>)
    ensures
        final(a)@ == old(a)@ + b@,
{
    let mut i: usize = 0;
    while i < b.len()
        invariant
            0 <= i <= b@.len(),
            a@ =~= old(a)@ + b@.take(i as int),
        decreases b@.len() - i,
    {
        a.push(b[i]);
        proof {
            assert(a@ =~= old(a)@ + b@.take(i + 1));
        }
        i = i + 1;
    }
    proof {
        assert(a@ =~= old(a)@ + b@);
    }
}

/// `pat` occurs in `s` at position `i`.
pub open spec fn matches_at(s: Seq<char>, pat: Seq<char>, i: int) -> bool {
    0 <= i && i + pat.len() <= s.len() && s.subrange(i, i + pat.len() as int) == pat
}

/// Index of the first occurrence of `pat` in `s`, if any.
pub open spec fn find_sub(s: Seq<char>, pat: Seq<char>) -> Option<int>
    decreases s.len(),
{
    if pat.len() == 0 {
        Some(0int)
    } else if s.len() < pat.len() {
        None
    } else if s.take(pat.len() as int) == pat {
        Some(0int)
    } else {
        match find_sub(s.skip(1), pat) {
            Some(i) => Some(i + 1),
            None => None,
        }
    }
}

proof fn lemma_matches_at_shift(s: Seq<char>, pat: Seq<char>, j: int)
    requires
        s.len() >= 1,
        0 <= j,
        j + pat.len() <= s.len() - 1,
    ensures
        matches_at(s.skip(1), pat, j) == matches_at(s, pat, j + 1),
{
    assert(s.skip(1).subrange(j, j + pat.len() as int) =~= s.subrange(
        j + 1,
        j + 1 + pat.len() as int,
    ));
}

pub proof fn lemma_find_sub(s: Seq<char>, pat: Seq<char>)
    ensures
        match find_sub(s, pat) {
            Some(i) => matches_at(s, pat, i) && (forall|j: int|
                0 <= j < i ==> !matches_at(s, pat, j)),
            None => forall|j: int| 0 <= j ==> !matches_at(s, pat, j),
        },
    decreases s.len(),
{
    if pat.len() == 0 {
        assert(s.subrange(0, 0) =~= pat);
    } else if s.len() < pat.len() {
        assert forall|j: int| 0 <= j implies !matches_at(s, pat, j) by {}
    } else if s.take(pat.len() as int) == pat {
        assert(s.subrange(0, pat.len() as int) =~= s.take(pat.len() as int));
    } else {
        assert(pat.len() >= 1);
        assert(s.len() >= 1);
        lemma_find_sub(s.skip(1), pat);
        assert(s.subrange(0, pat.len() as int) =~= s.take(pat.len() as int));
        match find_sub(s.skip(1), pat) {
            Some(i) => {
                lemma_matches_at_shift(s, pat, i);
                assert forall|j: int| 0 <= j < i + 1 implies !matches_at(s, pat, j) by {
                    if j > 0 {
                        lemma_matches_at_shift(s, pat, j - 1);
                    }
                }
            },
            None => {
                assert forall|j: int| 0 <= j implies !matches_at(s, pat, j) by {
                    if j > 0 {
                        if j + pat.len() <= s.len() {
                            lemma_matches_at_shift(s, pat, j - 1);
                        }
                    }
                }
            },
        }
    }
}

/// The characterization pins the result: a first match at `i` means
/// `find_sub` returns exactly `Some(i)`.
pub proof fn lemma_find_sub_unique(s: Seq<char>, pat: Seq<char>, i: int)
    requires
        matches_at(s, pat, i),
        forall|j: int| 0 <= j < i ==> !matches_at(s, pat, j),
    ensures
        find_sub(s, pat) == Some(i),
{
    lemma_find_sub(s, pat);
    match find_sub(s, pat) {
        Some(k) => {
            if k < i {
                assert(matches_at(s, pat, k));
            } else if i < k {
                assert(!matches_at(s, pat, i));
            }
        },
        None => {
            assert(!matches_at(s, pat, i));
        },
    }
}

/// Executable first-occurrence search for a single character, from `from` on.
pub fn vec_find_char(s: &Vec<char>, c: char, from: usize) -> (r: Option<usize>)
    requires
        from <= s@.len(),
    ensures
        match r {
            Some(i) => from <= i < s@.len() && s@[i as int] == c && (forall|j: int|
                from <= j < i ==> s@[j] != c),
            None => forall|j: int| from <= j < s@.len() ==> s@[j] != c,
        },
{
    let mut i: usize = from;
    while i < s.len()
        invariant
            from <= i <= s@.len(),
            forall|j: int| from <= j < i ==> s@[j] != c,
        decreases s@.len() - i,
    {
        if s[i] == c {
            return Some(i);
        }
        i = i + 1;
    }
    None
}

/// Executable substring search from `from` on, characterized as the first
/// match position at or after `from`.
pub fn vec_find_sub(s: &Vec<char>, pat: &Vec<char>, from: usize) -> (r: Option<usize>)
    requires
        from <= s@.len(),
    ensures
        match r {
            Some(i) => from <= i && matches_at(s@, pat@, i as int) && (forall|j: int|
                from <= j < i ==> !matches_at(s@, pat@, j)),
            None => forall|j: int| from <= j ==> !matches_at(s@, pat@, j),
        },
{
    let n: usize = s.len();
    let np: usize = pat.len();
    if np == 0 {
        proof {
            assert(s@.subrange(from as int, from as int) =~= pat@);
        }
        return Some(from);
    }
    if n < np {
        assert forall|j: int| from <= j implies !matches_at(s@, pat@, j) by {}
        return None;
    }
    let last: usize = n - np;
    let mut i: usize = from;
    while i <= last
        invariant
            from <= i,
            n == s@.len(),
            np == pat@.len(),
            1 <= np <= n,
            last == n - np,
            forall|j: int| from <= j < i ==> !matches_at(s@, pat@, j),
        decreases last + 1 - i,
    {
        let mut k: usize = 0;
        let mut all_eq: bool = true;
        loop
            invariant_except_break
                0 <= k <= np,
                i <= last,
                n == s@.len(),
                np == pat@.len(),
                last == n - np,
                all_eq,
                forall|m: int| 0 <= m < k ==> s@[i + m] == pat@[m],
            ensures
                i + np <= n,
                (all_eq ==> forall|m: int| 0 <= m < np ==> s@[i + m] == pat@[m]),
                (!all_eq ==> !matches_at(s@, pat@, i as int)),
            decreases np - k,
        {
            if k >= np {
                break;
            }
            if s[i + k] != pat[k] {
                all_eq = false;
                proof {
                    let ki: int = k as int;
                    assert(s@.subrange(i as int, i + pat@.len() as int)[ki] != pat@[ki]);
                }
                break;
            }
            k = k + 1;
        }
        if all_eq {
            assert(s@.subrange(i as int, i + pat@.len() as int) =~= pat@);
            return Some(i);
        }
        assert(!matches_at(s@, pat@, i as int));
        i = i + 1;
    }
    assert forall|j: int| from <= j implies !matches_at(s@, pat@, j) by {}
    None
}

// ---------------------------------------------------------------------------
// Conversions between String, &str and Vec<char>
// ---------------------------------------------------------------------------

/// The characters of `s` as an indexable vector.
pub fn chars_of(s: &str) -> (r: Vec<char>)
    ensures
        r@ == s@,
{
    let n = s.unicode_len();
    let mut r: Vec<char> = Vec::new();
    let mut i: usize = 0;
    while i < n
        invariant
            n == s@.len(),
            0 <= i <= n,
            r@ =~= s@.take(i as int),
        decreases n - i,
    {
        let c = s.get_char(i);
        r.push(c);
        proof {
            assert(r@ =~= s@.take(i + 1));
        }
        i = i + 1;
    }
    proof {
        assert(r@ =~= s@);
    }
    r
}

/// Relies on std's `FromIterator<char> for String`: collecting characters
/// builds the string of exactly those characters.
#[verifier::external_body]
pub fn string_from_chars(v: &Vec<char>) -> (r: String)
    ensures
        r@ == v@,
{
    v.iter().collect()
}

/// The text with a leading byte-order mark removed: editors and other
/// tools prepend one to files they save.
pub fn strip_bom(s: &str) -> (r: String)
    ensures
        r@ == (if s@.len() > 0 && s@[0] == '\u{feff}' {
            s@.skip(1)
        } else {
            s@
        }),
{
    let cs = chars_of(s);
    if cs.len() > 0 && cs[0] == '\u{feff}' {
        let t = subvec(&cs, 1, cs.len());
        proof {
            assert(t@ =~= s@.skip(1));
        }
        string_from_chars(&t)
    } else {
        string_from_chars(&cs)
    }
}

/// Character-for-character string equality.
pub fn eq_str(a: &str, b: &str) -> (r: bool)
    ensures
        r == (a@ == b@),
{
    let na = a.unicode_len();
    let nb = b.unicode_len();
    if na != nb {
        return false;
    }
    let mut i: usize = 0;
    while i < na
        invariant
            na == a@.len(),
            nb == b@.len(),
            na == nb,
            0 <= i <= na,
            forall|j: int| 0 <= j < i ==> a@[j] == b@[j],
        decreases na - i,
    {
        if a.get_char(i) != b.get_char(i) {
            return false;
        }
        i = i + 1;
    }
    proof {
        assert(a@ =~= b@);
    }
    true
}

/// A fresh copy of the characters `s[from..to]`.
pub fn subvec(s: &Vec<char>, from: usize, to: usize) -> (r: Vec<char>)
    requires
        from <= to <= s@.len(),
    ensures
        r@ == s@.subrange(from as int, to as int),
{
    let mut r: Vec<char> = Vec::new();
    let mut i: usize = from;
    while i < to
        invariant
            from <= i <= to <= s@.len(),
            r@ =~= s@.subrange(from as int, i as int),
        decreases to - i,
    {
        r.push(s[i]);
        proof {
            assert(r@ =~= s@.subrange(from as int, i + 1));
        }
        i = i + 1;
    }
    r
}

// ---------------------------------------------------------------------------
// Splitting and joining
// ---------------------------------------------------------------------------

/// `s` split on every occurrence of `sep`; always at least one part.
pub open spec fn split_chars(s: Seq<char>, sep: char) -> Seq<Seq<char>>
    decreases s.len(),
{
    match find_char(s, sep) {
        None => seq![s],
        Some(i) => {
            if 0 <= i < s.len() {
                seq![s.take(i)] + split_chars(s.skip(i + 1), sep)
            } else {
                seq![s]
            }
        },
    }
}

pub proof fn lemma_split_nonempty(s: Seq<char>, sep: char)
    ensures
        split_chars(s, sep).len() >= 1,
    decreases s.len(),
{
    match find_char(s, sep) {
        None => {},
        Some(i) => {
            lemma_find_char(s, sep);
            if 0 <= i < s.len() {
                lemma_split_nonempty(s.skip(i + 1), sep);
            }
        },
    }
}

/// Executable split, returning owned character vectors.
pub fn vec_split(s: &Vec<char>, sep: char) -> (r: Vec<Vec<char>>)
    ensures
        r.deep_view() == split_chars(s@, sep),
    decreases s@.len(),
{
    proof {
        lemma_find_char(s@, sep);
    }
    let n: usize = s.len();
    let found = vec_find_char(s, sep, 0);
    match found {
        None => {
            proof {
                if find_char(s@, sep) is Some {
                    let i = find_char(s@, sep)->Some_0;
                    assert(s@[i] == sep);
                    assert(false);
                }
            }
            let part = subvec(s, 0, n);
            let mut r: Vec<Vec<char>> = Vec::new();
            r.push(part);
            proof {
                assert(part@ =~= s@);
                assert(r.deep_view() =~~= seq![s@]);
            }
            r
        },
        Some(i) => {
            proof {
                match find_char(s@, sep) {
                    Some(k) => {
                        if k < i {
                            assert(s@[k] == sep);
                            assert(false);
                        } else if i < k {
                            assert(s@[i as int] != sep);
                            assert(false);
                        }
                    },
                    None => {
                        assert(s@[i as int] != sep);
                        assert(false);
                    },
                }
                assert(find_char(s@, sep) == Some(i as int));
            }
            let head = subvec(s, 0, i);
            let tail = subvec(s, i + 1, n);
            let mut rest = vec_split(&tail, sep);
            proof {
                assert(tail@ =~= s@.skip(i + 1));
            }
            let ghost old_dv = rest.deep_view();
            rest.insert(0, head);
            proof {
                assert(rest.deep_view() =~~= seq![head@] + old_dv);
                assert(head@ =~= s@.take(i as int));
                assert(rest.deep_view() =~~= seq![s@.take(i as int)] + split_chars(
                    s@.skip(i + 1),
                    sep,
                ));
            }
            rest
        },
    }
}

/// The parts joined with `sep` between adjacent parts.
pub open spec fn join_chars(parts: Seq<Seq<char>>, sep: char) -> Seq<char>
    decreases parts.len(),
{
    if parts.len() == 0 {
        Seq::empty()
    } else if parts.len() == 1 {
        parts[0]
    } else {
        parts[0] + seq![sep] + join_chars(parts.skip(1), sep)
    }
}

fn vec_join_from(parts: &Vec<Vec<char>>, sep: char, from: usize) -> (r: Vec<char>)
    requires
        from <= parts@.len(),
    ensures
        r@ == join_chars(parts.deep_view().skip(from as int), sep),
    decreases parts@.len() - from,
{
    if from == parts.len() {
        let r: Vec<char> = Vec::new();
        proof {
            assert(parts.deep_view().skip(from as int) =~~= Seq::<Seq<char>>::empty());
        }
        r
    } else if from + 1 == parts.len() {
        let r = subvec(&parts[from], 0, parts[from].len());
        proof {
            assert(parts.deep_view().skip(from as int).len() == 1);
            assert(parts.deep_view().skip(from as int)[0] =~= parts@[from as int]@);
        }
        r
    } else {
        let mut r = subvec(&parts[from], 0, parts[from].len());
        r.push(sep);
        let rest = vec_join_from(parts, sep, from + 1);
        let mut k: usize = 0;
        while k < rest.len()
            invariant
                0 <= k <= rest@.len(),
                r@ =~= parts@[from as int]@ + seq![sep] + rest@.take(k as int),
            decreases rest@.len() - k,
        {
            r.push(rest[k]);
            proof {
                assert(r@ =~= parts@[from as int]@ + seq![sep] + rest@.take(k + 1));
            }
            k = k + 1;
        }
        proof {
            let dv = parts.deep_view().skip(from as int);
            assert(dv.len() >= 2);
            assert(dv[0] =~= parts@[from as int]@);
            assert(dv.skip(1) =~~= parts.deep_view().skip(from as int + 1));
            assert(rest@.take(rest@.len() as int) =~= rest@);
        }
        r
    }
}

/// Executable join over owned character vectors.
pub fn vec_join(parts: &Vec<Vec<char>>, sep: char) -> (r: Vec<char>)
    ensures
        r@ == join_chars(parts.deep_view(), sep),
{
    let r = vec_join_from(parts, sep, 0);
    proof {
        assert(parts.deep_view().skip(0) =~~= parts.deep_view());
    }
    r
}

// ---------------------------------------------------------------------------
// Filtering empty parts
// ---------------------------------------------------------------------------

/// The parts that are not empty, in order.
pub open spec fn nonempty_parts(parts: Seq<Seq<char>>) -> Seq<Seq<char>>
    decreases parts.len(),
{
    if parts.len() == 0 {
        Seq::empty()
    } else if parts[0].len() == 0 {
        nonempty_parts(parts.skip(1))
    } else {
        seq![parts[0]] + nonempty_parts(parts.skip(1))
    }
}

fn vec_nonempty_from(parts: &Vec<Vec<char>>, from: usize) -> (r: Vec<Vec<char>>)
    requires
        from <= parts@.len(),
    ensures
        r.deep_view() == nonempty_parts(parts.deep_view().skip(from as int)),
    decreases parts@.len() - from,
{
    if from == parts.len() {
        let r: Vec<Vec<char>> = Vec::new();
        proof {
            assert(parts.deep_view().skip(from as int) =~~= Seq::<Seq<char>>::empty());
        }
        r
    } else {
        let mut rest = vec_nonempty_from(parts, from + 1);
        proof {
            let dv = parts.deep_view().skip(from as int);
            assert(dv[0] =~= parts@[from as int]@);
            assert(dv.skip(1) =~~= parts.deep_view().skip(from as int + 1));
        }
        if parts[from].len() == 0 {
            rest
        } else {
            let head = subvec(&parts[from], 0, parts[from].len());
            let ghost old_dv = rest.deep_view();
            rest.insert(0, head);
            proof {
                assert(rest.deep_view() =~~= seq![head@] + old_dv);
                assert(head@ =~= parts@[from as int]@);
                assert(rest.deep_view() =~~= seq![parts@[from as int]@] + nonempty_parts(
                    parts.deep_view().skip(from as int + 1),
                ));
            }
            rest
        }
    }
}

/// Executable filter keeping the nonempty parts.
pub fn vec_nonempty(parts: &Vec<Vec<char>>) -> (r: Vec<Vec<char>>)
    ensures
        r.deep_view() == nonempty_parts(parts.deep_view()),
{
    let r = vec_nonempty_from(parts, 0);
    proof {
        assert(parts.deep_view().skip(0) =~~= parts.deep_view());
    }
    r
}

// ---------------------------------------------------------------------------
// Whitespace and trimming
// ---------------------------------------------------------------------------

/// The whitespace characters recognized around front-matter delimiters.
pub open spec fn is_ws(c: char) -> bool {
    c == ' ' || c == '\t' || c == '\n' || c == '\r'
}

pub fn is_ws_char(c: char) -> (r: bool)
    ensures
        r == is_ws(c),
{
    c == ' ' || c == '\t' || c == '\n' || c == '\r'
}

/// Number of leading whitespace characters.
pub open spec fn leading_ws(s: Seq<char>) -> int
    decreases s.len(),
{
    if s.len() == 0 || !is_ws(s[0]) {
        0
    } else {
        1 + leading_ws(s.skip(1))
    }
}

pub proof fn lemma_leading_ws(s: Seq<char>)
    ensures
        0 <= leading_ws(s) <= s.len(),
        forall|j: int| 0 <= j < leading_ws(s) ==> is_ws(s[j]),
        leading_ws(s) < s.len() ==> !is_ws(s[leading_ws(s)]),
    decreases s.len(),
{
    if s.len() == 0 || !is_ws(s[0]) {
    } else {
        lemma_leading_ws(s.skip(1));
        assert forall|j: int| 1 <= j < leading_ws(s) implies is_ws(s[j]) by {
            assert(s.skip(1)[j - 1] == s[j]);
        }
        if leading_ws(s) < s.len() {
            assert(s.skip(1)[leading_ws(s) - 1] == s[leading_ws(s)]);
        }
    }
}

/// Executable count of leading whitespace.
pub fn vec_leading_ws(s: &Vec<char>) -> (r: usize)
    ensures
        r as int == leading_ws(s@),
{
    proof {
        lemma_leading_ws(s@);
    }
    let mut i: usize = 0;
    while i < s.len()
        invariant
            0 <= i <= s@.len(),
            forall|j: int| 0 <= j < i ==> is_ws(s@[j]),
            leading_ws(s@) >= i,
        decreases s@.len() - i,
    {
        if !is_ws_char(s[i]) {
            proof {
                lemma_leading_ws_bound(s@, i as int);
            }
            return i;
        }
        proof {
            lemma_leading_ws_step(s@, i as int);
        }
        i = i + 1;
    }
    proof {
        lemma_leading_ws(s@);
    }
    i
}

proof fn lemma_leading_ws_step(s: Seq<char>, i: int)
    requires
        0 <= i < s.len(),
        is_ws(s[i]),
        leading_ws(s) >= i,
    ensures
        leading_ws(s) >= i + 1,
    decreases s.len(),
{
    lemma_leading_ws(s);
    if leading_ws(s) == i {
        assert(!is_ws(s[i]));
    }
}

proof fn lemma_leading_ws_bound(s: Seq<char>, i: int)
    requires
        0 <= i < s.len(),
        !is_ws(s[i]),
        forall|j: int| 0 <= j < i ==> is_ws(s[j]),
    ensures
        leading_ws(s) == i,
    decreases s.len(),
{
    lemma_leading_ws(s);
    if leading_ws(s) < i {
        assert(is_ws(s[leading_ws(s)]));
    }
}

/// Number of leading occurrences of one character.
pub open spec fn leading_count(s: Seq<char>, c: char) -> int
    decreases s.len(),
{
    if s.len() == 0 || s[0] != c {
        0
    } else {
        1 + leading_count(s.skip(1), c)
    }
}

pub proof fn lemma_leading_count(s: Seq<char>, c: char)
    ensures
        0 <= leading_count(s, c) <= s.len(),
        forall|j: int| 0 <= j < leading_count(s, c) ==> s[j] == c,
        leading_count(s, c) < s.len() ==> s[leading_count(s, c)] != c,
    decreases s.len(),
{
    if s.len() == 0 || s[0] != c {
    } else {
        lemma_leading_count(s.skip(1), c);
        assert forall|j: int| 1 <= j < leading_count(s, c) implies s[j] == c by {
            assert(s.skip(1)[j - 1] == s[j]);
        }
        if leading_count(s, c) < s.len() {
            assert(s.skip(1)[leading_count(s, c) - 1] == s[leading_count(s, c)]);
        }
    }
}

/// Executable count of leading occurrences of `c`.
pub fn vec_leading_count(s: &Vec<char>, c: char) -> (r: usize)
    ensures
        r as int == leading_count(s@, c),
{
    proof {
        lemma_leading_count(s@, c);
    }
    let mut i: usize = 0;
    while i < s.len() && s[i] == c
        invariant
            0 <= i <= s@.len(),
            forall|j: int| 0 <= j < i ==> s@[j] == c,
            leading_count(s@, c) >= i,
        decreases s@.len() - i,
    {
        proof {
            lemma_leading_count_step(s@, c, i as int);
        }
        i = i + 1;
    }
    proof {
        if i < s@.len() {
            lemma_leading_count_bound(s@, c, i as int);
        }
    }
    i
}

proof fn lemma_leading_count_step(s: Seq<char>, c: char, i: int)
    requires
        0 <= i < s.len(),
        s[i] == c,
        leading_count(s, c) >= i,
    ensures
        leading_count(s, c) >= i + 1,
{
    lemma_leading_count(s, c);
    if leading_count(s, c) == i {
        assert(s[i] != c);
    }
}

proof fn lemma_leading_count_bound(s: Seq<char>, c: char, i: int)
    requires
        0 <= i < s.len(),
        s[i] != c,
        forall|j: int| 0 <= j < i ==> s[j] == c,
    ensures
        leading_count(s, c) == i,
{
    lemma_leading_count(s, c);
    if leading_count(s, c) < i {
        assert(s[leading_count(s, c)] == c);
    }
}

/// Number of trailing whitespace characters.
pub open spec fn trailing_ws(s: Seq<char>) -> int {
    leading_ws(s.reverse())
}

/// `s` with leading and trailing whitespace removed.
pub open spec fn trimmed(s: Seq<char>) -> Seq<char> {
    if leading_ws(s) == s.len() {
        Seq::empty()
    } else {
        s.subrange(leading_ws(s), s.len() - trailing_ws(s))
    }
}

/// Executable trim of both ends.
pub fn vec_trim(s: &Vec<char>) -> (r: Vec<char>)
    ensures
        r@ == trimmed(s@),
{
    proof {
        lemma_leading_ws(s@);
        lemma_leading_ws(s@.reverse());
    }
    let lead = vec_leading_ws(s);
    if lead == s.len() {
        proof {
            assert(trimmed(s@) =~= Seq::<char>::empty());
        }
        return Vec::new();
    }
    let mut end: usize = s.len();
    loop
        invariant_except_break
            lead as int == leading_ws(s@),
            (lead as int) < s@.len(),
            lead < end <= s@.len(),
            forall|j: int| end <= j < s@.len() ==> is_ws(s@[j]),
        ensures
            lead < end <= s@.len(),
            forall|j: int| end <= j < s@.len() ==> is_ws(s@[j]),
            end > lead + 1 ==> !is_ws(s@[end - 1]),
        decreases end,
    {
        if !(end > lead + 1 && is_ws_char(s[end - 1])) {
            break;
        }
        end = end - 1;
    }
    // end is now the position one past the last non-ws character (or lead+1).
    let last_ws = if end == lead + 1 && is_ws_char(s[end - 1]) {
        proof {
            assert(!is_ws(s@[lead as int]));
        }
        end - 1
    } else {
        end
    };
    proof {
        lemma_trailing_from_scan(s@, last_ws as int, leading_ws(s@));
    }
    subvec(s, lead, last_ws)
}

proof fn lemma_trailing_from_scan(s: Seq<char>, e: int, lead: int)
    requires
        0 <= lead < s.len(),
        lead <= e <= s.len(),
        lead == leading_ws(s),
        forall|j: int| e <= j < s.len() ==> is_ws(s[j]),
        e > lead ==> !is_ws(s[e - 1]),
        e == lead ==> !is_ws(s[lead]),
    ensures
        s.len() - trailing_ws(s) == if e == lead {
            lead + 1
        } else {
            e
        },
{
    lemma_leading_ws(s);
    let r = s.reverse();
    lemma_leading_ws(r);
    assert(forall|j: int| 0 <= j < r.len() ==> r[j] == s[s.len() - 1 - j]);
    if e == lead {
        // everything after lead is whitespace, s[lead] is not
        assert forall|j: int| 0 <= j < s.len() - lead - 1 implies is_ws(r[j]) by {
            assert(r[j] == s[s.len() - 1 - j]);
        }
        assert(r[s.len() - lead - 1] == s[lead]);
        if leading_ws(r) < s.len() - lead - 1 {
            assert(is_ws(r[leading_ws(r)]));
        }
        if leading_ws(r) > s.len() - lead - 1 {
            assert(is_ws(r[s.len() - lead - 1]));
        }
        assert(leading_ws(r) == s.len() - lead - 1);
    } else {
        assert forall|j: int| 0 <= j < s.len() - e implies is_ws(r[j]) by {
            assert(r[j] == s[s.len() - 1 - j]);
        }
        assert(r[s.len() - e] == s[e - 1]);
        if leading_ws(r) < s.len() - e {
            assert(is_ws(r[leading_ws(r)]));
        }
        if leading_ws(r) > s.len() - e {
            assert(is_ws(r[s.len() - e]));
        }
        assert(leading_ws(r) == s.len() - e);
    }
}

// ---------------------------------------------------------------------------
// Prefix / suffix tests and ASCII lowering
// ---------------------------------------------------------------------------

pub open spec fn starts_with(s: Seq<char>, prefix: Seq<char>) -> bool {
    s.len() >= prefix.len() && s.take(prefix.len() as int) == prefix
}

pub open spec fn ends_with(s: Seq<char>, suffix: Seq<char>) -> bool {
    s.len() >= suffix.len() && s.skip(s.len() - suffix.len()) == suffix
}

pub fn vec_starts_with(s: &Vec<char>, prefix: &Vec<char>) -> (r: bool)
    ensures
        r == starts_with(s@, prefix@),
{
    if s.len() < prefix.len() {
        return false;
    }
    let mut i: usize = 0;
    while i < prefix.len()
        invariant
            prefix@.len() <= s@.len(),
            0 <= i <= prefix@.len(),
            forall|j: int| 0 <= j < i ==> s@[j] == prefix@[j],
        decreases prefix@.len() - i,
    {
        if s[i] != prefix[i] {
            assert(s@.take(prefix@.len() as int)[i as int] != prefix@[i as int]);
            return false;
        }
        i = i + 1;
    }
    proof {
        assert(s@.take(prefix@.len() as int) =~= prefix@);
    }
    true
}

pub fn vec_ends_with(s: &Vec<char>, suffix: &Vec<char>) -> (r: bool)
    ensures
        r == ends_with(s@, suffix@),
{
    let n: usize = s.len();
    let ns: usize = suffix.len();
    if n < ns {
        return false;
    }
    let off: usize = n - ns;
    let mut i: usize = 0;
    while i < ns
        invariant
            n == s@.len(),
            ns == suffix@.len(),
            ns <= n,
            off == n - ns,
            0 <= i <= ns,
            forall|j: int| 0 <= j < i ==> s@[off + j] == suffix@[j],
        decreases ns - i,
    {
        if s[off + i] != suffix[i] {
            assert(s@.skip(off as int)[i as int] != suffix@[i as int]);
            return false;
        }
        i = i + 1;
    }
    proof {
        assert(s@.skip(off as int) =~= suffix@);
    }
    true
}

/// ASCII uppercase letters lowered; all other characters kept.
pub open spec fn lower_ascii_char(c: char) -> char {
    if 'A' <= c && c <= 'Z' {
        ((c as u8) + 0x20) as char
    } else {
        c
    }
}

pub open spec fn lower_ascii(s: Seq<char>) -> Seq<char> {
    s.map_values(|c: char| lower_ascii_char(c))
}

pub fn vec_lower_ascii(s: &Vec<char>) -> (r: Vec<char>)
    ensures
        r@ == lower_ascii(s@),
{
    let mut r: Vec<char> = Vec::new();
    let mut i: usize = 0;
    while i < s.len()
        invariant
            0 <= i <= s@.len(),
            r@ =~= lower_ascii(s@).take(i as int),
        decreases s@.len() - i,
    {
        let c = s[i];
        let lc: char = if 'A' <= c && c <= 'Z' {
            ((c as u8) + 0x20) as char
        } else {
            c
        };
        r.push(lc);
        proof {
            assert(r@ =~= lower_ascii(s@).take(i + 1));
        }
        i = i + 1;
    }
    proof {
        assert(r@ =~= lower_ascii(s@));
    }
    r
}

// ---------------------------------------------------------------------------
// Lexicographic order on character sequences (by code point)
// ---------------------------------------------------------------------------

/// Strict lexicographic order by unicode code point.
pub open spec fn lex_lt(a: Seq<char>, b: Seq<char>) -> bool
    decreases a.len(),
{
    if b.len() == 0 {
        false
    } else if a.len() == 0 {
        true
    } else if (a[0] as u32) < (b[0] as u32) {
        true
    } else if a[0] == b[0] {
        lex_lt(a.skip(1), b.skip(1))
    } else {
        false
    }
}

pub fn vec_lex_lt(a: &Vec<char>, b: &Vec<char>) -> (r: bool)
    ensures
        r == lex_lt(a@, b@),
    decreases a@.len(),
{
    if b.len() == 0 {
        false
    } else if a.len() == 0 {
        true
    } else if (a[0] as u32) < (b[0] as u32) {
        true
    } else if a[0] == b[0] {
        let ta = subvec(a, 1, a.len());
        let tb = subvec(b, 1, b.len());
        proof {
            assert(ta@ =~= a@.skip(1));
            assert(tb@ =~= b@.skip(1));
        }
        vec_lex_lt(&ta, &tb)
    } else {
        false
    }
}

/// Characters with equal code points are equal.
pub proof fn lemma_char_cast_injective(a: char, b: char)
    requires
        a as u32 == b as u32,
    ensures
        a == b,
{
}

/// The lexicographic order is total: two sequences compare one way, the
/// other, or are equal.
pub proof fn lemma_lex_total(a: Seq<char>, b: Seq<char>)
    ensures
        lex_lt(a, b) || lex_lt(b, a) || a == b,
    decreases a.len(),
{
    if b.len() == 0 || a.len() == 0 {
        if a.len() == 0 && b.len() == 0 {
            assert(a =~= b);
        }
    } else if (a[0] as u32) < (b[0] as u32) || (b[0] as u32) < (a[0] as u32) {
    } else {
        lemma_char_cast_injective(a[0], b[0]);
        lemma_lex_total(a.skip(1), b.skip(1));
        if a.skip(1) == b.skip(1) {
            assert(a.skip(1).len() == a.len() - 1);
            assert(b.skip(1).len() == b.len() - 1);
            assert(a.len() == b.len());
            assert forall|j: int| 0 <= j < a.len() implies a[j] == b[j] by {
                if j > 0 {
                    assert(a.skip(1)[j - 1] == a[j]);
                    assert(b.skip(1)[j - 1] == b[j]);
                }
            }
            assert(a =~= b);
        }
    }
}

/// The lexicographic order is asymmetric: at most one direction holds.
pub proof fn lemma_lex_asym(a: Seq<char>, b: Seq<char>)
    ensures
        !(lex_lt(a, b) && lex_lt(b, a)),
    decreases a.len(),
{
    if b.len() == 0 || a.len() == 0 {
    } else if (a[0] as u32) < (b[0] as u32) || (b[0] as u32) < (a[0] as u32) {
    } else {
        lemma_lex_asym(a.skip(1), b.skip(1));
    }
}

/// The lexicographic order is transitive.
pub proof fn lemma_lex_trans(a: Seq<char>, b: Seq<char>, c: Seq<char>)
    requires
        lex_lt(a, b),
        lex_lt(b, c),
    ensures
        lex_lt(a, c),
    decreases a.len(),
{
    if c.len() == 0 {
    } else if a.len() == 0 {
    } else {
        if (a[0] as u32) < (b[0] as u32) {
            if (b[0] as u32) < (c[0] as u32) {
            } else {
                assert(b[0] == c[0]);
                assert(b[0] as u32 == c[0] as u32);
            }
        } else {
            assert(a[0] == b[0]);
            if (b[0] as u32) < (c[0] as u32) {
            } else {
                assert(b[0] == c[0]);
                lemma_lex_trans(a.skip(1), b.skip(1), c.skip(1));
            }
        }
    }
}

/// The lexicographic order is irreflexive.
pub proof fn lemma_lex_irrefl(a: Seq<char>)
    ensures
        !lex_lt(a, a),
    decreases a.len(),
{
    if a.len() > 0 {
        lemma_lex_irrefl(a.skip(1));
    }
}

// ---------------------------------------------------------------------------
// Decimal digits
// ---------------------------------------------------------------------------

pub open spec fn is_digit(c: char) -> bool {
    '0' <= c && c <= '9'
}

pub open spec fn digit_val(c: char) -> int {
    c as u32 - '0' as u32
}

/// Value of a digit string read left to right.
pub open spec fn digits_val(s: Seq<char>) -> int
    decreases s.len(),
{
    if s.len() == 0 {
        0
    } else {
        digits_val(s.take(s.len() - 1)) * 10 + digit_val(s[s.len() - 1])
    }
}

pub open spec fn all_digits(s: Seq<char>) -> bool {
    forall|j: int| 0 <= j < s.len() ==> is_digit(s[j])
}

pub fn is_digit_char(c: char) -> (r: bool)
    ensures
        r == is_digit(c),
{
    '0' <= c && c <= '9'
}

/// Parses `s[from..to]` as an unsigned decimal number, bounded so no
/// overflow can occur.
pub fn parse_digits(s: &Vec<char>, from: usize, to: usize) -> (r: u64)
    requires
        from <= to <= s@.len(),
        to - from <= 9,
        all_digits(s@.subrange(from as int, to as int)),
    ensures
        r as int == digits_val(s@.subrange(from as int, to as int)),
        r < 1000000000,
{
    let mut r: u64 = 0;
    let mut i: usize = from;
    proof {
        lemma_digits_val_bound(s@.subrange(from as int, from as int));
    }
    while i < to
        invariant
            from <= i <= to <= s@.len(),
            to - from <= 9,
            all_digits(s@.subrange(from as int, to as int)),
            r as int == digits_val(s@.subrange(from as int, i as int)),
            (r as int) < pow10((i - from) as nat),
            i - from <= 9,
        decreases to - i,
    {
        let c = s[i];
        proof {
            assert(s@.subrange(from as int, to as int)[i - from] == s@[i as int]);
            let pre = s@.subrange(from as int, i + 1);
            assert(pre.take(pre.len() - 1) =~= s@.subrange(from as int, i as int));
            assert(pre[pre.len() - 1] == s@[i as int]);
            lemma_pow10_mono((i - from) as nat, 9);
        }
        let d: u64 = (c as u32 as u64) - ('0' as u32 as u64);
        r = r * 10 + d;
        i = i + 1;
    }
    proof {
        lemma_pow10_mono((to - from) as nat, 9);
    }
    r
}

pub open spec fn pow10(n: nat) -> int
    decreases n,
{
    if n == 0 {
        1
    } else {
        10 * pow10((n - 1) as nat)
    }
}

proof fn lemma_pow10_mono(a: nat, b: nat)
    requires
        a <= b,
    ensures
        pow10(a) <= pow10(b),
        pow10(9) == 1000000000,
    decreases b,
{
    reveal_with_fuel(pow10, 11);
    assert(pow10(9) == 1000000000);
    if a < b && b > 0 {
        lemma_pow10_mono(a, (b - 1) as nat);
        lemma_pow10_pos((b - 1) as nat);
    }
}

proof fn lemma_pow10_pos(n: nat)
    ensures
        pow10(n) >= 1,
    decreases n,
{
    if n > 0 {
        lemma_pow10_pos((n - 1) as nat);
    }
}

/// Powers of ten up to the ninth stay within a billion.
pub proof fn lemma_pow10_le9(n: nat)
    requires
        n <= 9,
    ensures
        1 <= pow10(n),
        pow10(n) <= 1000000000,
{
    lemma_pow10_pos(n);
    lemma_pow10_mono(n, 9);
}

proof fn lemma_digits_val_bound(s: Seq<char>)
    ensures
        s.len() == 0 ==> digits_val(s) == 0,
{
}

/// The decimal digits of `n`, most significant first.
pub open spec fn dec_chars(n: nat) -> Seq<char>
    decreases n,
{
    if n < 10 {
        seq![digit_char(n as int)]
    } else {
        dec_chars(n / 10) + seq![digit_char((n % 10) as int)]
    }
}

pub open spec fn digit_char(d: int) -> char {
    (('0' as u32) + d as u32) as char
}

/// Decimal formatting of an unsigned number.
pub fn u64_dec_chars(n: u64) -> (r: Vec<char>)
    ensures
        r@ == dec_chars(n as nat),
    decreases n,
{
    if n < 10 {
        let d: u32 = ('0' as u32) + (n as u32);
        let c = char_from_u32(d);
        let mut r: Vec<char> = Vec::new();
        r.push(c);
        proof {
            assert(r@ =~= dec_chars(n as nat));
        }
        r
    } else {
        let mut r = u64_dec_chars(n / 10);
        let d: u32 = ('0' as u32) + ((n % 10) as u32);
        let c = char_from_u32(d);
        r.push(c);
        proof {
            assert(r@ =~= dec_chars((n / 10) as nat) + seq![digit_char((n % 10) as int)]);
            assert(dec_chars(n as nat) == dec_chars((n / 10) as nat) + seq![digit_char(
                (n % 10) as int,
            )]);
        }
        r
    }
}

/// Relies on std's `char::from_u32`: a valid scalar value converts to the
/// character with exactly that code point.
#[verifier::external_body]
pub fn char_from_u32(v: u32) -> (c: char)
    requires
        v < 0xD800 || (0xE000 <= v && v < 0x110000),
    ensures
        c == v as char,
{
    char::from_u32(v).unwrap()
}

} // verus!