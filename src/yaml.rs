//! A YAML value as the compose rules read it: scalars, sequences, mappings
//! and tagged values, with numbers kept in their written form.
use vstd::prelude::*;

use crate::text::texts;

verus! {

/// A YAML value; a number holds its written form.
#[derive(Debug)]
pub enum YamlValue {
    Null,
    Bool(bool),
    Number(String),
    Text(String),
    Sequence(Vec<YamlValue>),
    Mapping(Vec<(YamlValue, YamlValue)>),
    Tagged(String, Box<YamlValue>),
}

/// The string scalars of a value, in document order: the items of a
/// sequence, the values (not the keys) of a mapping, the inside of a tag.
pub open spec fn leaves(v: YamlValue) -> Seq<Seq<char>>
    decreases v,
{
    match v {
        YamlValue::Text(s) => seq![s@],
        YamlValue::Sequence(items) => leaves_items(items@, items@.len() as int),
        YamlValue::Mapping(entries) => leaves_values(entries@, entries@.len() as int),
        YamlValue::Tagged(_, b) => leaves(*b),
        _ => Seq::empty(),
    }
}

/// The string scalars of the first `n` items.
pub open spec fn leaves_items(items: Seq<YamlValue>, n: int) -> Seq<Seq<char>>
    decreases items, n,
{
    if n <= 0 || n > items.len() {
        Seq::empty()
    } else {
        leaves_items(items, n - 1) + leaves(items[n - 1])
    }
}

/// The string scalars of the values of the first `n` entries.
pub open spec fn leaves_values(entries: Seq<(YamlValue, YamlValue)>, n: int) -> Seq<Seq<char>>
    decreases entries, n,
{
    if n <= 0 || n > entries.len() {
        Seq::empty()
    } else {
        leaves_values(entries, n - 1) + leaves(entries[n - 1].1)
    }
}

/// `b` is `a` but for the text of its string scalars.
pub open spec fn same_shape(a: YamlValue, b: YamlValue) -> bool
    decreases a, 1nat,
{
    match a {
        YamlValue::Null => b is Null,
        YamlValue::Bool(x) => b == YamlValue::Bool(x),
        YamlValue::Number(n) => b matches YamlValue::Number(m) && m@ == n@,
        YamlValue::Text(_) => b is Text,
        YamlValue::Sequence(xs) => b matches YamlValue::Sequence(ys) && xs@.len() == ys@.len()
            && shape_items(xs@, ys@, xs@.len() as int),
        YamlValue::Mapping(es) => b matches YamlValue::Mapping(fs) && es@.len() == fs@.len()
            && shape_entries(es@, fs@, es@.len() as int),
        YamlValue::Tagged(t, x) => b matches YamlValue::Tagged(u, y) && u@ == t@ && same_shape(
            *x,
            *y,
        ),
    }
}

/// The first `n` items pair up by shape.
pub open spec fn shape_items(xs: Seq<YamlValue>, ys: Seq<YamlValue>, n: int) -> bool
    decreases xs, n,
{
    if n <= 0 || n > xs.len() || n > ys.len() {
        true
    } else {
        shape_items(xs, ys, n - 1) && same_shape(xs[n - 1], ys[n - 1])
    }
}

/// The first `n` entries have equal keys and values of the same shape.
pub open spec fn shape_entries(
    es: Seq<(YamlValue, YamlValue)>,
    fs: Seq<(YamlValue, YamlValue)>,
    n: int,
) -> bool
    decreases es, n,
{
    if n <= 0 || n > es.len() || n > fs.len() {
        true
    } else {
        shape_entries(es, fs, n - 1) && same_value(es[n - 1].0, fs[n - 1].0) && same_shape(
            es[n - 1].1,
            fs[n - 1].1,
        )
    }
}

/// `a` and `b` are the same value.
pub open spec fn same_value(a: YamlValue, b: YamlValue) -> bool
    decreases a, 2nat,
{
    same_shape(a, b) && leaves(a) == leaves(b)
}

proof fn lemma_leaves_items_push(s: Seq<YamlValue>, x: YamlValue, n: int)
    requires
        0 <= n <= s.len(),
    ensures
        leaves_items(s.push(x), n) == leaves_items(s, n),
    decreases n,
{
    if n > 0 {
        lemma_leaves_items_push(s, x, n - 1);
        assert(s.push(x)[n - 1] == s[n - 1]);
    }
}

proof fn lemma_leaves_items_mono(s: Seq<YamlValue>, i: int, j: int)
    requires
        0 <= i <= j <= s.len(),
    ensures
        leaves_items(s, i).len() <= leaves_items(s, j).len(),
    decreases j,
{
    if i < j {
        lemma_leaves_items_mono(s, i, j - 1);
    }
}

proof fn lemma_leaves_values_push(s: Seq<(YamlValue, YamlValue)>, x: (YamlValue, YamlValue), n: int)
    requires
        0 <= n <= s.len(),
    ensures
        leaves_values(s.push(x), n) == leaves_values(s, n),
    decreases n,
{
    if n > 0 {
        lemma_leaves_values_push(s, x, n - 1);
        assert(s.push(x)[n - 1] == s[n - 1]);
    }
}

proof fn lemma_leaves_values_mono(s: Seq<(YamlValue, YamlValue)>, i: int, j: int)
    requires
        0 <= i <= j <= s.len(),
    ensures
        leaves_values(s, i).len() <= leaves_values(s, j).len(),
    decreases j,
{
    if i < j {
        lemma_leaves_values_mono(s, i, j - 1);
    }
}

proof fn lemma_shape_items_push(xs: Seq<YamlValue>, ys: Seq<YamlValue>, y: YamlValue, n: int)
    requires
        0 <= n <= ys.len(),
    ensures
        shape_items(xs, ys.push(y), n) == shape_items(xs, ys, n),
    decreases n,
{
    if n > 0 {
        lemma_shape_items_push(xs, ys, y, n - 1);
        assert(ys.push(y)[n - 1] == ys[n - 1]);
    }
}

proof fn lemma_shape_entries_push(
    es: Seq<(YamlValue, YamlValue)>,
    fs: Seq<(YamlValue, YamlValue)>,
    f: (YamlValue, YamlValue),
    n: int,
)
    requires
        0 <= n <= fs.len(),
    ensures
        shape_entries(es, fs.push(f), n) == shape_entries(es, fs, n),
    decreases n,
{
    if n > 0 {
        lemma_shape_entries_push(es, fs, f, n - 1);
        assert(fs.push(f)[n - 1] == fs[n - 1]);
    }
}

/// Appends the string scalars of `v` to `acc`, in document order.
pub fn collect_strings(v: &YamlValue, acc: &mut Vec<String>)
    ensures
        texts(final(acc)@) == texts(old(acc)@) + leaves(*v),
    decreases v,
{
    let ghost start = texts(acc@);
    match v {
        YamlValue::Text(s) => {
            acc.push(s.clone());
            assert(texts(acc@) =~= start + seq![s@]);
        },
        YamlValue::Sequence(items) => {
            let n = items.len();
            let mut i: usize = 0;
            assert(start + leaves_items(items@, 0) =~= start);
            while i < n
                invariant
                    n == items@.len(),
                    *v == YamlValue::Sequence(*items),
                    i <= n,
                    texts(acc@) == start + leaves_items(items@, i as int),
                decreases n - i,
            {
                proof {
                    assert(decreases_to!(*v => (*v)->Sequence_0));
                    vstd::std_specs::vec::axiom_vec_index_decreases(*items, i as int);
                    assert(decreases_to!(*v => items[i as int]));
                }
                collect_strings(&items[i], acc);
                assert(start + leaves_items(items@, i + 1) =~= start + leaves_items(items@, i as int)
                    + leaves(items@[i as int]));
                i = i + 1;
            }
        },
        YamlValue::Mapping(entries) => {
            let n = entries.len();
            let mut i: usize = 0;
            assert(start + leaves_values(entries@, 0) =~= start);
            while i < n
                invariant
                    n == entries@.len(),
                    *v == YamlValue::Mapping(*entries),
                    i <= n,
                    texts(acc@) == start + leaves_values(entries@, i as int),
                decreases n - i,
            {
                proof {
                    assert(decreases_to!(*v => (*v)->Mapping_0));
                    vstd::std_specs::vec::axiom_vec_index_decreases(*entries, i as int);
                    assert(decreases_to!(*entries => entries[i as int]));
                    assert(decreases_to!(*v => entries[i as int].1));
                }
                collect_strings(&entries[i].1, acc);
                assert(start + leaves_values(entries@, i + 1) =~= start + leaves_values(
                    entries@,
                    i as int,
                ) + leaves(entries@[i as int].1));
                i = i + 1;
            }
        },
        YamlValue::Tagged(_, b) => {
            collect_strings(b, acc);
        },
        _ => {
            assert(texts(acc@) =~= start + leaves(*v));
        },
    }
}

/// The string scalars of `v`, in document order.
pub fn strings(v: &YamlValue) -> (r: Vec<String>)
    ensures
        texts(r@) == leaves(*v),
{
    let mut acc: Vec<String> = Vec::new();
    assert(texts(acc@) =~= Seq::<Seq<char>>::empty());
    collect_strings(v, &mut acc);
    assert(texts(acc@) =~= leaves(*v));
    acc
}

/// A copy of `v` whose string scalars are `new[pos..]`, in document order;
/// hands back the position after the last one used.
fn rebuild(v: &YamlValue, new: &Vec<String>, pos: usize) -> (r: (YamlValue, usize))
    requires
        pos + leaves(*v).len() <= new@.len(),
    ensures
        r.1 == pos + leaves(*v).len(),
        leaves(r.0) == texts(new@).subrange(pos as int, r.1 as int),
        same_shape(*v, r.0),
    decreases v, 1nat,
{
    let ghost nv = texts(new@);
    match v {
        YamlValue::Null => {
            assert(nv.subrange(pos as int, pos as int) =~= Seq::<Seq<char>>::empty());
            (YamlValue::Null, pos)
        },
        YamlValue::Bool(b) => {
            assert(nv.subrange(pos as int, pos as int) =~= Seq::<Seq<char>>::empty());
            (YamlValue::Bool(*b), pos)
        },
        YamlValue::Number(n) => {
            assert(nv.subrange(pos as int, pos as int) =~= Seq::<Seq<char>>::empty());
            (YamlValue::Number(n.clone()), pos)
        },
        YamlValue::Text(_) => {
            assert(leaves(*v).len() == 1);
            let total = new.len();
            assert(pos < total);
            assert(nv.subrange(pos as int, pos + 1) =~= seq![new@[pos as int]@]);
            (YamlValue::Text(new[pos].clone()), pos + 1)
        },
        YamlValue::Tagged(t, b) => {
            let (inner, p) = rebuild(b, new, pos);
            (YamlValue::Tagged(t.clone(), Box::new(inner)), p)
        },
        YamlValue::Sequence(items) => {
            let n = items.len();
            let mut out: Vec<YamlValue> = Vec::new();
            let mut p: usize = pos;
            let mut i: usize = 0;
            assert(nv.subrange(pos as int, pos as int) =~= Seq::<Seq<char>>::empty());
            while i < n
                invariant
                    n == items@.len(),
                    *v == YamlValue::Sequence(*items),
                    nv == texts(new@),
                    pos + leaves_items(items@, n as int).len() <= new@.len(),
                    i <= n,
                    out@.len() == i,
                    p == pos + leaves_items(items@, i as int).len(),
                    p <= new@.len(),
                    leaves_items(out@, i as int) == nv.subrange(pos as int, p as int),
                    shape_items(items@, out@, i as int),
                decreases n - i,
            {
                proof {
                    lemma_leaves_items_mono(items@, i + 1, n as int);
                    assert(decreases_to!(*v => (*v)->Sequence_0));
                    vstd::std_specs::vec::axiom_vec_index_decreases(*items, i as int);
                    assert(decreases_to!(*v => items[i as int]));
                }
                let (child, q) = rebuild(&items[i], new, p);
                let ghost before = out@;
                out.push(child);
                proof {
                    lemma_leaves_items_push(before, child, i as int);
                    lemma_shape_items_push(items@, before, child, i as int);
                    assert(out@[i as int] == child);
                    assert(nv.subrange(pos as int, q as int) =~= nv.subrange(pos as int, p as int)
                        + nv.subrange(p as int, q as int));
                }
                p = q;
                i = i + 1;
            }
            (YamlValue::Sequence(out), p)
        },
        YamlValue::Mapping(entries) => {
            let n = entries.len();
            let mut out: Vec<(YamlValue, YamlValue)> = Vec::new();
            let mut p: usize = pos;
            let mut i: usize = 0;
            assert(nv.subrange(pos as int, pos as int) =~= Seq::<Seq<char>>::empty());
            while i < n
                invariant
                    n == entries@.len(),
                    *v == YamlValue::Mapping(*entries),
                    nv == texts(new@),
                    pos + leaves_values(entries@, n as int).len() <= new@.len(),
                    i <= n,
                    out@.len() == i,
                    p == pos + leaves_values(entries@, i as int).len(),
                    p <= new@.len(),
                    leaves_values(out@, i as int) == nv.subrange(pos as int, p as int),
                    shape_entries(entries@, out@, i as int),
                decreases n - i,
            {
                proof {
                    lemma_leaves_values_mono(entries@, i + 1, n as int);
                    assert(decreases_to!(*v => (*v)->Mapping_0));
                    vstd::std_specs::vec::axiom_vec_index_decreases(*entries, i as int);
                    assert(decreases_to!(*entries => entries[i as int]));
                    assert(decreases_to!(*v => entries[i as int].1));
                    assert(decreases_to!(*v => entries[i as int].0));
                }
                let key = deep_copy(&entries[i].0);
                let (child, q) = rebuild(&entries[i].1, new, p);
                let ghost before = out@;
                out.push((key, child));
                proof {
                    lemma_leaves_values_push(before, (key, child), i as int);
                    lemma_shape_entries_push(entries@, before, (key, child), i as int);
                    assert(out@[i as int] == (key, child));
                    assert(nv.subrange(pos as int, q as int) =~= nv.subrange(pos as int, p as int)
                        + nv.subrange(p as int, q as int));
                }
                p = q;
                i = i + 1;
            }
            (YamlValue::Mapping(out), p)
        },
    }
}

/// A copy of `v`.
pub fn deep_copy(v: &YamlValue) -> (r: YamlValue)
    ensures
        same_value(*v, r),
    decreases v, 2nat,
{
    let s = strings(v);
    let (r, _) = rebuild(v, &s, 0);
    assert(texts(s@).subrange(0, leaves(*v).len() as int) =~= texts(s@));
    r
}

/// `v` with its string scalars replaced, in document order, by `new`.
pub fn with_strings(v: &YamlValue, new: &Vec<String>) -> (r: YamlValue)
    requires
        new@.len() == leaves(*v).len(),
    ensures
        same_shape(*v, r),
        leaves(r) == texts(new@),
{
    let (r, _) = rebuild(v, new, 0);
    assert(texts(new@).subrange(0, new@.len() as int) =~= texts(new@));
    r
}

} // verus!
