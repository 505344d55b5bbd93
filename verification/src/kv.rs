//! Free-form front-matter data as a tagged key-value tree, decoded from
//! TOML text by the `toml` crate and passed through to template contexts
//! untouched. A ghost mirror (`KvSpec`) carries the tree in contracts.
use vstd::prelude::*;

use crate::strtools::eq_str;

verus! {

broadcast use vstd::std_specs::vec::axiom_vec_index_decreases;

/// A front-matter value: strings, integers, floats (kept as their decimal
/// text), booleans, datetimes (kept as their TOML text), arrays and tables.
pub enum KvValue {
    Str(String),
    Int(i64),
    Float(String),
    Bool(bool),
    Date(String),
    Arr(Vec<KvValue>),
    Tab(Vec<(String, KvValue)>),
}

/// The ghost mirror of a value tree.
pub enum KvSpec {
    Str(Seq<char>),
    Int(int),
    Float(Seq<char>),
    Bool(bool),
    Date(Seq<char>),
    Arr(Seq<KvSpec>),
    Tab(Seq<(Seq<char>, KvSpec)>),
}

/// The ghost tree a value stands for.
pub open spec fn kv_view(v: KvValue) -> KvSpec
    decreases v,
{
    match v {
        KvValue::Str(s) => KvSpec::Str(s@),
        KvValue::Int(i) => KvSpec::Int(i as int),
        KvValue::Float(s) => KvSpec::Float(s@),
        KvValue::Bool(b) => KvSpec::Bool(b),
        KvValue::Date(s) => KvSpec::Date(s@),
        KvValue::Arr(a) => KvSpec::Arr(arr_view(a@)),
        KvValue::Tab(t) => KvSpec::Tab(tab_view(t@)),
    }
}

pub open spec fn arr_view(a: Seq<KvValue>) -> Seq<KvSpec>
    decreases a,
{
    if a.len() == 0 {
        Seq::empty()
    } else {
        seq![kv_view(a[0])] + arr_view(a.skip(1))
    }
}

pub open spec fn tab_view(t: Seq<(String, KvValue)>) -> Seq<(Seq<char>, KvSpec)>
    decreases t,
{
    if t.len() == 0 {
        Seq::empty()
    } else {
        seq![(t[0].0@, kv_view(t[0].1))] + tab_view(t.skip(1))
    }
}

pub proof fn lemma_arr_view_len(a: Seq<KvValue>)
    ensures
        arr_view(a).len() == a.len(),
        forall|i: int| 0 <= i < a.len() ==> arr_view(a)[i] == kv_view(a[i]),
    decreases a,
{
    if a.len() > 0 {
        lemma_arr_view_len(a.skip(1));
    }
}

pub proof fn lemma_tab_view_len(t: Seq<(String, KvValue)>)
    ensures
        tab_view(t).len() == t.len(),
        forall|i: int|
            0 <= i < t.len() ==> tab_view(t)[i] == (t[i].0@, kv_view(t[i].1)),
    decreases t,
{
    if t.len() > 0 {
        lemma_tab_view_len(t.skip(1));
    }
}

// ---------------------------------------------------------------------------
// Trusted decoding through the toml crate
// ---------------------------------------------------------------------------

#[verifier::external_type_specification]
#[verifier::external_body]
pub struct ExTomlValue(toml::Value);

/// The table that a TOML document decodes to: what the toml crate's parser
/// yields, a pure function of the text; `None` exactly on text it rejects.
pub uninterp spec fn toml_of(s: Seq<char>) -> Option<Seq<(Seq<char>, KvSpec)>>;

/// Relies on toml's document parser (`str::parse::<toml::Table>`): a valid
/// document yields its value tree, rooted in a table; invalid text is
/// rejected.
#[verifier::external_body]
pub(crate) fn parse_toml(s: &str) -> (r: Option<KvValue>)
    ensures
        match r {
            Some(v) => v is Tab && toml_of(s@) == Some(tab_view(v->Tab_0@)),
            None => toml_of(s@) is None,
        },
{
    match s.parse::<toml::Table>() {
        Ok(t) => Some(kv_of_toml(toml::Value::Table(t))),
        Err(_) => None,
    }
}

/// Helper of `parse_toml`: rewrites toml's tree as the library's, one arm
/// per variant, moving values only.
#[verifier::external_body]
fn kv_of_toml(v: toml::Value) -> KvValue {
    match v {
        toml::Value::String(s) => KvValue::Str(s),
        toml::Value::Integer(i) => KvValue::Int(i),
        toml::Value::Float(x) => KvValue::Float(x.to_string()),
        toml::Value::Boolean(b) => KvValue::Bool(b),
        toml::Value::Datetime(d) => KvValue::Date(d.to_string()),
        toml::Value::Array(a) => KvValue::Arr(a.into_iter().map(kv_of_toml).collect()),
        toml::Value::Table(t) => KvValue::Tab(
            t.into_iter().map(|(k, x)| (k, kv_of_toml(x))).collect(),
        ),
    }
}

/// A value and its ghost tree always share their variant.
pub proof fn lemma_kv_view_variant(x: KvValue)
    ensures
        (kv_view(x) is Str <==> x is Str),
        (kv_view(x) is Int <==> x is Int),
        (kv_view(x) is Float <==> x is Float),
        (kv_view(x) is Bool <==> x is Bool),
        (kv_view(x) is Date <==> x is Date),
        (kv_view(x) is Arr <==> x is Arr),
        (kv_view(x) is Tab <==> x is Tab),
{
    match x {
        KvValue::Str(_) => {},
        KvValue::Int(_) => {},
        KvValue::Float(_) => {},
        KvValue::Bool(_) => {},
        KvValue::Date(_) => {},
        KvValue::Arr(_) => {},
        KvValue::Tab(_) => {},
    }
}

// ---------------------------------------------------------------------------
// Lookup
// ---------------------------------------------------------------------------

/// The value under the first occurrence of `key`.
pub open spec fn tab_get(t: Seq<(Seq<char>, KvSpec)>, key: Seq<char>) -> Option<KvSpec>
    decreases t.len(),
{
    if t.len() == 0 {
        None
    } else if t[0].0 == key {
        Some(t[0].1)
    } else {
        tab_get(t.skip(1), key)
    }
}

proof fn lemma_tab_get_at(t: Seq<(Seq<char>, KvSpec)>, key: Seq<char>, i: int)
    requires
        0 <= i < t.len(),
        t[i].0 == key,
        forall|j: int| 0 <= j < i ==> t[j].0 != key,
    ensures
        tab_get(t, key) == Some(t[i].1),
    decreases t.len(),
{
    if i > 0 {
        lemma_tab_get_at(t.skip(1), key, i - 1);
    }
}

proof fn lemma_tab_get_none(t: Seq<(Seq<char>, KvSpec)>, key: Seq<char>)
    requires
        forall|j: int| 0 <= j < t.len() ==> t[j].0 != key,
    ensures
        tab_get(t, key) is None,
    decreases t.len(),
{
    if t.len() > 0 {
        lemma_tab_get_none(t.skip(1), key);
    }
}

/// First value under `key` in a table, borrowed.
pub fn kv_find<'a>(pairs: &'a Vec<(String, KvValue)>, key: &str) -> (r: Option<&'a KvValue>)
    ensures
        match r {
            Some(v) => tab_get(tab_view(pairs@), key@) == Some(kv_view(*v)),
            None => tab_get(tab_view(pairs@), key@) is None,
        },
{
    proof {
        lemma_tab_view_len(pairs@);
    }
    let mut i: usize = 0;
    while i < pairs.len()
        invariant
            0 <= i <= pairs@.len(),
            tab_view(pairs@).len() == pairs@.len(),
            forall|j: int|
                0 <= j < pairs@.len() ==> tab_view(pairs@)[j] == (
                pairs@[j].0@,
                kv_view(pairs@[j].1),
                ),
            forall|j: int| 0 <= j < i ==> pairs@[j].0@ != key@,
        decreases pairs@.len() - i,
    {
        if eq_str(pairs[i].0.as_str(), key) {
            proof {
                lemma_tab_get_at(tab_view(pairs@), key@, i as int);
            }
            return Some(&pairs[i].1);
        }
        i = i + 1;
    }
    proof {
        lemma_tab_get_none(tab_view(pairs@), key@);
    }
    None
}

// ---------------------------------------------------------------------------
// Deep copy
// ---------------------------------------------------------------------------

/// A fresh value standing for the same tree.
pub fn kv_clone(v: &KvValue) -> (r: KvValue)
    ensures
        kv_view(r) == kv_view(*v),
    decreases *v,
{
    match v {
        KvValue::Str(s) => KvValue::Str(clone_string(s)),
        KvValue::Int(i) => KvValue::Int(*i),
        KvValue::Float(s) => KvValue::Float(clone_string(s)),
        KvValue::Bool(b) => KvValue::Bool(*b),
        KvValue::Date(s) => KvValue::Date(clone_string(s)),
        KvValue::Arr(a) => {
            let mut out: Vec<KvValue> = Vec::new();
            let mut i: usize = 0;
            proof {
                lemma_arr_view_len(a@);
            }
            while i < a.len()
                invariant
                    *v == KvValue::Arr(*a),
                    0 <= i <= a@.len(),
                    arr_view(a@).len() == a@.len(),
                    forall|j: int| 0 <= j < a@.len() ==> arr_view(a@)[j] == kv_view(a@[j]),
                    arr_view(out@) =~= arr_view(a@).take(i as int),
                decreases a@.len() - i,
            {
                proof {
                    assert(decreases_to!(*v => v->Arr_0));
                    assert(v->Arr_0 == *a);
                    assert(decreases_to!(*a => a@[i as int]));
                    assert(decreases_to!(*v => a@[i as int]));
                }
                let c = kv_clone(&a[i]);
                let ghost old_out = out@;
                out.push(c);
                proof {
                    lemma_arr_view_len(out@);
                    lemma_arr_view_len(old_out);
                    assert(arr_view(out@) =~= arr_view(a@).take(i + 1));
                }
                i = i + 1;
            }
            proof {
                assert(arr_view(a@).take(a@.len() as int) =~= arr_view(a@));
            }
            KvValue::Arr(out)
        },
        KvValue::Tab(t) => {
            let mut out: Vec<(String, KvValue)> = Vec::new();
            let mut i: usize = 0;
            proof {
                lemma_tab_view_len(t@);
            }
            while i < t.len()
                invariant
                    *v == KvValue::Tab(*t),
                    0 <= i <= t@.len(),
                    tab_view(t@).len() == t@.len(),
                    forall|j: int|
                        0 <= j < t@.len() ==> tab_view(t@)[j] == (
                        t@[j].0@,
                        kv_view(t@[j].1),
                        ),
                    tab_view(out@) =~= tab_view(t@).take(i as int),
                decreases t@.len() - i,
            {
                proof {
                    assert(decreases_to!(*v => v->Tab_0));
                    assert(v->Tab_0 == *t);
                    assert(decreases_to!(*t => t@[i as int]));
                    assert(decreases_to!(t@[i as int] => t@[i as int].1));
                    assert(decreases_to!(*v => t@[i as int].1));
                }
                let k = clone_string(&t[i].0);
                let c = kv_clone(&t[i].1);
                let ghost old_out = out@;
                out.push((k, c));
                proof {
                    lemma_tab_view_len(out@);
                    lemma_tab_view_len(old_out);
                    assert(tab_view(out@) =~= tab_view(t@).take(i + 1));
                }
                i = i + 1;
            }
            proof {
                assert(tab_view(t@).take(t@.len() as int) =~= tab_view(t@));
            }
            KvValue::Tab(out)
        },
    }
}

/// A fresh string with the same characters.
pub fn clone_string(s: &String) -> (r: String)
    ensures
        r@ == s@,
{
    let v = crate::strtools::chars_of(s.as_str());
    crate::strtools::string_from_chars(&v)
}

// ---------------------------------------------------------------------------
// Date normalization inside passed-through tables
// ---------------------------------------------------------------------------

/// A nested table that carries the datetime marker key collapses to that
/// datetime's value; other tables keep their entries with nested tables
/// converted in turn.
pub open spec fn spec_convert_toml_date(t: Seq<(Seq<char>, KvSpec)>) -> KvSpec
    decreases t, 1int,
{
    match tab_get(t, "$__toml_private_datetime"@) {
        Some(v) => v,
        None => KvSpec::Tab(convert_pairs(t)),
    }
}

pub open spec fn convert_pairs(t: Seq<(Seq<char>, KvSpec)>) -> Seq<(Seq<char>, KvSpec)>
    decreases t, 0int,
{
    if t.len() == 0 {
        Seq::empty()
    } else {
        let head: (Seq<char>, KvSpec) = match t[0].1 {
            KvSpec::Tab(o) => (t[0].0, spec_convert_toml_date(o)),
            _ => t[0],
        };
        seq![head] + convert_pairs(t.skip(1))
    }
}

/// Every table entry with nested tables date-converted and arrays walked
/// one level, as the template serialization expects.
pub open spec fn spec_fix_toml_dates(t: Seq<(Seq<char>, KvSpec)>) -> KvSpec
    decreases t, 1int,
{
    KvSpec::Tab(fix_pairs(t))
}

pub open spec fn fix_pairs(t: Seq<(Seq<char>, KvSpec)>) -> Seq<(Seq<char>, KvSpec)>
    decreases t, 0int,
{
    if t.len() == 0 {
        Seq::empty()
    } else {
        let head: (Seq<char>, KvSpec) = match t[0].1 {
            KvSpec::Tab(o) => (t[0].0, spec_convert_toml_date(o)),
            KvSpec::Arr(a) => (t[0].0, KvSpec::Arr(fix_arr(a))),
            _ => t[0],
        };
        seq![head] + fix_pairs(t.skip(1))
    }
}

pub open spec fn fix_arr(a: Seq<KvSpec>) -> Seq<KvSpec>
    decreases a,
{
    if a.len() == 0 {
        Seq::empty()
    } else {
        let head: KvSpec = match a[0] {
            KvSpec::Tab(o) => spec_fix_toml_dates(o),
            _ => a[0],
        };
        seq![head] + fix_arr(a.skip(1))
    }
}

proof fn lemma_convert_pairs(t: Seq<(Seq<char>, KvSpec)>)
    ensures
        convert_pairs(t).len() == t.len(),
        forall|i: int|
            0 <= i < t.len() ==> convert_pairs(t)[i] == (match t[i].1 {
                KvSpec::Tab(o) => (t[i].0, spec_convert_toml_date(o)),
                _ => t[i],
            }),
    decreases t,
{
    if t.len() > 0 {
        lemma_convert_pairs(t.skip(1));
    }
}

proof fn lemma_fix_pairs(t: Seq<(Seq<char>, KvSpec)>)
    ensures
        fix_pairs(t).len() == t.len(),
        forall|i: int|
            0 <= i < t.len() ==> fix_pairs(t)[i] == (match t[i].1 {
                KvSpec::Tab(o) => (t[i].0, spec_convert_toml_date(o)),
                KvSpec::Arr(a) => (t[i].0, KvSpec::Arr(fix_arr(a))),
                _ => t[i],
            }),
    decreases t,
{
    if t.len() > 0 {
        lemma_fix_pairs(t.skip(1));
    }
}

proof fn lemma_fix_arr(a: Seq<KvSpec>)
    ensures
        fix_arr(a).len() == a.len(),
        forall|i: int|
            0 <= i < a.len() ==> fix_arr(a)[i] == (match a[i] {
                KvSpec::Tab(o) => spec_fix_toml_dates(o),
                _ => a[i],
            }),
    decreases a,
{
    if a.len() > 0 {
        lemma_fix_arr(a.skip(1));
    }
}

/// A table whose only content is the TOML datetime marker becomes the
/// datetime value itself; nested tables are converted the same way.
pub fn convert_toml_date(table: &Vec<(String, KvValue)>) -> (r: KvValue)
    ensures
        kv_view(r) == spec_convert_toml_date(tab_view(table@)),
    decreases *table,
{
    proof {
        lemma_tab_view_len(table@);
        lemma_convert_pairs(tab_view(table@));
    }
    let found = kv_find(table, "$__toml_private_datetime");
    match found {
        Some(v) => kv_clone(v),
        None => {
            let mut out: Vec<(String, KvValue)> = Vec::new();
            let mut i: usize = 0;
            while i < table.len()
                invariant
                    0 <= i <= table@.len(),
                    tab_view(table@).len() == table@.len(),
                    convert_pairs(tab_view(table@)).len() == table@.len(),
                    forall|j: int|
                        0 <= j < table@.len() ==> tab_view(table@)[j] == (
                        table@[j].0@,
                        kv_view(table@[j].1),
                        ),
                    forall|j: int|
                        0 <= j < table@.len() ==> convert_pairs(tab_view(table@))[j] == (
                        match tab_view(table@)[j].1 {
                            KvSpec::Tab(o) => (tab_view(table@)[j].0, spec_convert_toml_date(o)),
                            _ => tab_view(table@)[j],
                        }),
                    tab_view(out@) =~= convert_pairs(tab_view(table@)).take(i as int),
                decreases table@.len() - i,
            {
                let key = clone_string(&table[i].0);
                let converted: KvValue = match &table[i].1 {
                    KvValue::Tab(o) => {
                        proof {
                            assert(decreases_to!(*table => table@[i as int]));
                            assert(decreases_to!(table@[i as int] => table@[i as int].1));
                            assert(decreases_to!(
                                table@[i as int].1 => table@[i as int].1->Tab_0));
                            assert(table@[i as int].1->Tab_0 == *o);
                        }
                        convert_toml_date(o)
                    },
                    other => kv_clone(other),
                };
                let ghost old_out = out@;
                out.push((key, converted));
                proof {
                    lemma_tab_view_len(out@);
                    lemma_tab_view_len(old_out);
                    assert(tab_view(out@) =~= convert_pairs(tab_view(table@)).take(i + 1));
                }
                i = i + 1;
            }
            proof {
                assert(convert_pairs(tab_view(table@)).take(table@.len() as int) =~= convert_pairs(
                    tab_view(table@),
                ));
            }
            KvValue::Tab(out)
        },
    }
}

/// Every entry of a passed-through table with TOML datetime markers
/// collapsed: nested tables converted, tables inside arrays fixed one level
/// down, everything else kept.
pub fn fix_toml_dates(table: &Vec<(String, KvValue)>) -> (r: KvValue)
    ensures
        kv_view(r) == spec_fix_toml_dates(tab_view(table@)),
    decreases *table,
{
    proof {
        lemma_tab_view_len(table@);
        lemma_fix_pairs(tab_view(table@));
    }
    let mut out: Vec<(String, KvValue)> = Vec::new();
    let mut i: usize = 0;
    while i < table.len()
        invariant
            0 <= i <= table@.len(),
            tab_view(table@).len() == table@.len(),
            fix_pairs(tab_view(table@)).len() == table@.len(),
            forall|j: int|
                0 <= j < table@.len() ==> tab_view(table@)[j] == (
                table@[j].0@,
                kv_view(table@[j].1),
                ),
            forall|j: int|
                0 <= j < table@.len() ==> fix_pairs(tab_view(table@))[j] == (
                match tab_view(table@)[j].1 {
                    KvSpec::Tab(o) => (tab_view(table@)[j].0, spec_convert_toml_date(o)),
                    KvSpec::Arr(a) => (tab_view(table@)[j].0, KvSpec::Arr(fix_arr(a))),
                    _ => tab_view(table@)[j],
                }),
            tab_view(out@) =~= fix_pairs(tab_view(table@)).take(i as int),
        decreases table@.len() - i,
    {
        let key = clone_string(&table[i].0);
        let fixed: KvValue = match &table[i].1 {
            KvValue::Tab(o) => {
                proof {
                    assert(decreases_to!(*table => table@[i as int]));
                    assert(decreases_to!(table@[i as int] => table@[i as int].1));
                    assert(decreases_to!(table@[i as int].1 => table@[i as int].1->Tab_0));
                    assert(table@[i as int].1->Tab_0 == *o);
                }
                convert_toml_date(o)
            },
            KvValue::Arr(a) => {
                let fixed_arr = fix_inside_array(a, Ghost(*table), Ghost(i as int));
                KvValue::Arr(fixed_arr)
            },
            other => kv_clone(other),
        };
        let ghost old_out = out@;
        out.push((key, fixed));
        proof {
            lemma_tab_view_len(out@);
            lemma_tab_view_len(old_out);
            assert(tab_view(out@) =~= fix_pairs(tab_view(table@)).take(i + 1));
        }
        i = i + 1;
    }
    proof {
        assert(fix_pairs(tab_view(table@)).take(table@.len() as int) =~= fix_pairs(
            tab_view(table@),
        ));
    }
    KvValue::Tab(out)
}

/// One level of an array fixed: tables inside it run through the date fix,
/// other elements are kept.
fn fix_inside_array(a: &Vec<KvValue>, outer: Ghost<Vec<(String, KvValue)>>, pos: Ghost<int>) -> (r:
    Vec<KvValue>)
    requires
        0 <= pos@ < outer@@.len(),
        outer@@[pos@].1 == KvValue::Arr(*a),
    ensures
        arr_view(r@) == fix_arr(arr_view(a@)),
    decreases outer@, 0int,
{
    proof {
        lemma_arr_view_len(a@);
        lemma_fix_arr(arr_view(a@));
    }
    let mut out: Vec<KvValue> = Vec::new();
    let mut j: usize = 0;
    while j < a.len()
        invariant
            0 <= pos@ < outer@@.len(),
            outer@@[pos@].1 == KvValue::Arr(*a),
            0 <= j <= a@.len(),
            arr_view(a@).len() == a@.len(),
            fix_arr(arr_view(a@)).len() == a@.len(),
            forall|k: int| 0 <= k < a@.len() ==> arr_view(a@)[k] == kv_view(a@[k]),
            forall|k: int|
                0 <= k < a@.len() ==> fix_arr(arr_view(a@))[k] == (match arr_view(a@)[k] {
                    KvSpec::Tab(o) => spec_fix_toml_dates(o),
                    _ => arr_view(a@)[k],
                }),
            arr_view(out@) =~= fix_arr(arr_view(a@)).take(j as int),
        decreases a@.len() - j,
    {
        let fixed: KvValue = match &a[j] {
            KvValue::Tab(o) => {
                proof {
                    assert(decreases_to!(outer@ => outer@@[pos@]));
                    assert(decreases_to!(outer@@[pos@] => outer@@[pos@].1));
                    assert(decreases_to!(outer@@[pos@].1 => outer@@[pos@].1->Arr_0));
                    assert(outer@@[pos@].1->Arr_0 == *a);
                    assert(decreases_to!(*a => a@[j as int]));
                    assert(decreases_to!(a@[j as int] => a@[j as int]->Tab_0));
                    assert(a@[j as int]->Tab_0 == *o);
                }
                fix_toml_dates(o)
            },
            other => kv_clone(other),
        };
        let ghost old_out = out@;
        out.push(fixed);
        proof {
            lemma_arr_view_len(out@);
            lemma_arr_view_len(old_out);
            assert(arr_view(out@) =~= fix_arr(arr_view(a@)).take(j + 1));
        }
        j = j + 1;
    }
    proof {
        assert(fix_arr(arr_view(a@)).take(a@.len() as int) =~= fix_arr(arr_view(a@)));
    }
    out
}

} // verus!
