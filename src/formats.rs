//! The ordered section model: sections, documents and document sets.
use indexmap::IndexMap;
use vstd::prelude::*;

use crate::text::same_text;

verus! {

#[verifier::external_type_specification]
#[verifier::external_body]
#[verifier::reject_recursive_types(K)]
#[verifier::reject_recursive_types(V)]
#[verifier::reject_recursive_types(S)]
pub struct ExIndexMap<K, V, S>(IndexMap<K, V, S>);

/// An ordered mapping from key to value; insertion order is kept.
pub type Section = IndexMap<String, String>;

/// The entries of a section, in order.
pub type SectionView = Seq<(Seq<char>, Seq<char>)>;

/// The sections of a document, in order, each with its entries.
pub type IniView = Seq<(Seq<char>, SectionView)>;

/// The entries that a section holds, in insertion order.
pub uninterp spec fn section_entries(m: IndexMap<String, String>) -> SectionView;

/// The sections that a document's map holds, in insertion order.
pub uninterp spec fn ini_entries(m: IndexMap<String, IndexMap<String, String>>) -> IniView;

/// Whether some entry of `s` has key `k`.
pub open spec fn has_key<V>(s: Seq<(Seq<char>, V)>, k: Seq<char>) -> bool {
    exists|i: int| 0 <= i < s.len() && s[i].0 == k
}

/// The position of an entry with key `k` (meaningful when `has_key(s, k)`).
pub open spec fn key_pos<V>(s: Seq<(Seq<char>, V)>, k: Seq<char>) -> int {
    choose|i: int| 0 <= i < s.len() && s[i].0 == k
}

/// No two entries of `s` share a key.
pub open spec fn unique_keys<V>(s: Seq<(Seq<char>, V)>) -> bool {
    forall|i: int, j: int| 0 <= i < s.len() && 0 <= j < s.len() && i != j ==> s[i].0 != s[j].0
}

/// The value stored under `k`, if any.
pub open spec fn lookup<V>(s: Seq<(Seq<char>, V)>, k: Seq<char>) -> Option<V> {
    if has_key(s, k) {
        Some(s[key_pos(s, k)].1)
    } else {
        None
    }
}

/// Insertion into an ordered mapping: an existing key keeps its place and
/// takes the new value; a new key goes last.
pub open spec fn put_entry<V>(s: Seq<(Seq<char>, V)>, k: Seq<char>, v: V) -> Seq<(Seq<char>, V)> {
    if has_key(s, k) {
        s.update(key_pos(s, k), (k, v))
    } else {
        s.push((k, v))
    }
}

/// Insertion only where the key is absent.
pub open spec fn put_if_absent<V>(s: Seq<(Seq<char>, V)>, k: Seq<char>, v: V) -> Seq<(Seq<char>, V)> {
    if has_key(s, k) {
        s
    } else {
        s.push((k, v))
    }
}

/// The value under `k`, or an empty section where there is none.
pub open spec fn section_or_empty(s: IniView, k: Seq<char>) -> SectionView {
    match lookup(s, k) {
        Some(v) => v,
        None => Seq::empty(),
    }
}

/// The entries whose key differs from `k`.
pub open spec fn key_is_not<V>(k: Seq<char>) -> spec_fn((Seq<char>, V)) -> bool {
    |e: (Seq<char>, V)| e.0 != k
}

/// Extending a prefix by one entry whose key is new: the filtered prefix grows
/// by that entry exactly when it passes, and inserting it appends it.
pub proof fn lemma_filter_step<V>(s: Seq<(Seq<char>, V)>, i: int, pred: spec_fn((Seq<char>, V)) -> bool)
    requires
        0 <= i < s.len(),
        forall|j: int| 0 <= j < s.len() && j != i ==> s[j].0 != s[i].0,
    ensures
        s.take(i + 1).filter(pred) == (if pred(s[i]) {
            s.take(i).filter(pred).push(s[i])
        } else {
            s.take(i).filter(pred)
        }),
        put_entry(s.take(i).filter(pred), s[i].0, s[i].1) == s.take(i).filter(pred).push(s[i]),
{
    reveal(Seq::filter);
    assert(s.take(i + 1).drop_last() =~= s.take(i));
    assert(s.take(i + 1).last() == s[i]);
    let f = s.take(i).filter(pred);
    if has_key(f, s[i].0) {
        let m = key_pos(f, s[i].0);
        assert(f.contains(f[m]));
        s.take(i).lemma_filter_contains_rev(pred, f[m]);
        let j = choose|j: int| 0 <= j < s.take(i).len() && s.take(i)[j] == f[m];
        assert(s[j].0 == s[i].0);
    }
}

pub proof fn lemma_unique_lookup<V>(s: Seq<(Seq<char>, V)>, i: int)
    requires
        unique_keys(s),
        0 <= i < s.len(),
    ensures
        has_key(s, s[i].0),
        key_pos(s, s[i].0) == i,
        lookup(s, s[i].0) == Some(s[i].1),
{
    assert(has_key(s, s[i].0));
}

pub proof fn lemma_put_entry_unique<V>(s: Seq<(Seq<char>, V)>, k: Seq<char>, v: V)
    requires
        unique_keys(s),
    ensures
        unique_keys(put_entry(s, k, v)),
        has_key(put_entry(s, k, v), k),
        lookup(put_entry(s, k, v), k) == Some(v),
        forall|k2: Seq<char>| k2 != k ==> #[trigger] lookup(put_entry(s, k, v), k2) == lookup(s, k2),
{
    let r = put_entry(s, k, v);
    if has_key(s, k) {
        let p = key_pos(s, k);
        assert(r[p].0 == k);
    } else {
        assert(r[s.len() as int].0 == k);
    }
    assert(has_key(r, k));
    assert forall|k2: Seq<char>| k2 != k implies #[trigger] lookup(r, k2) == lookup(s, k2) by {
        if has_key(s, k2) {
            let q = key_pos(s, k2);
            assert(r[q].0 == k2);
            assert(has_key(r, k2));
        }
        if has_key(r, k2) {
            let q = key_pos(r, k2);
            assert(s[q].0 == k2);
        }
    }
}

/// A document whose section names are distinct, and the keys of each section.
pub open spec fn valid_doc(d: IniView) -> bool {
    unique_keys(d) && forall|i: int| 0 <= i < d.len() ==> unique_keys(#[trigger] d[i].1)
}

/// Appending an entry with a new key.
pub proof fn lemma_lookup_push<V>(s: Seq<(Seq<char>, V)>, e: (Seq<char>, V))
    requires
        unique_keys(s),
        !has_key(s, e.0),
    ensures
        unique_keys(s.push(e)),
        forall|k: Seq<char>|
            #[trigger] lookup(s.push(e), k) == (if k == e.0 {
                Some(e.1)
            } else {
                lookup(s, k)
            }),
{
    let t = s.push(e);
    assert forall|i: int, j: int| 0 <= i < t.len() && 0 <= j < t.len() && i != j implies t[i].0
        != t[j].0 by {
        if i == s.len() {
            assert(s[j].0 == t[j].0);
        } else if j == s.len() {
            assert(s[i].0 == t[i].0);
        }
    }
    assert forall|k: Seq<char>|
        #[trigger] lookup(t, k) == (if k == e.0 {
            Some(e.1)
        } else {
            lookup(s, k)
        }) by {
        if k == e.0 {
            assert(t[s.len() as int].0 == k);
            lemma_unique_lookup(t, s.len() as int);
        } else {
            if has_key(s, k) {
                let p = key_pos(s, k);
                assert(t[p].0 == k);
                lemma_unique_lookup(t, p);
                lemma_unique_lookup(s, p);
            }
            if has_key(t, k) {
                let p = key_pos(t, k);
                assert(s[p].0 == k);
            }
        }
    }
}

/// Dropping the entries with key `k0` keeps distinct keys and every other
/// lookup.
pub proof fn lemma_filter_key<V>(s: Seq<(Seq<char>, V)>, k0: Seq<char>)
    requires
        unique_keys(s),
    ensures
        unique_keys(s.filter(key_is_not::<V>(k0))),
        !has_key(s.filter(key_is_not::<V>(k0)), k0),
        forall|k: Seq<char>|
            k != k0 ==> #[trigger] lookup(s.filter(key_is_not::<V>(k0)), k) == lookup(s, k),
    decreases s.len(),
{
    reveal(Seq::filter);
    let pred = key_is_not::<V>(k0);
    if s.len() == 0 {
        assert(s.filter(pred) =~= s);
    } else {
        let t = s.drop_last();
        let e = s.last();
        assert(unique_keys(t)) by {
            assert forall|i: int, j: int| 0 <= i < t.len() && 0 <= j < t.len() && i != j implies t[i].0
                != t[j].0 by {
                assert(t[i] == s[i] && t[j] == s[j]);
            }
        }
        lemma_filter_key(t, k0);
        let ft = t.filter(pred);
        assert(!has_key(ft, e.0)) by {
            if has_key(ft, e.0) {
                let m = key_pos(ft, e.0);
                assert(ft.contains(ft[m]));
                t.lemma_filter_contains_rev(pred, ft[m]);
                let j = choose|j: int| 0 <= j < t.len() && t[j] == ft[m];
                assert(s[j].0 == s[s.len() - 1].0);
            }
        }
        assert(t.push(e) =~= s);
        lemma_lookup_push(t, e);
        if pred(e) {
            lemma_lookup_push(ft, e);
            assert(s.filter(pred) == ft.push(e));
            assert(!has_key(s.filter(pred), k0)) by {
                if has_key(s.filter(pred), k0) {
                    let m = key_pos(s.filter(pred), k0);
                    if m < ft.len() {
                        assert(ft[m].0 == k0);
                    }
                }
            }
        } else {
            assert(s.filter(pred) == ft);
        }
    }
}

/// Inserting the value already stored under a key changes nothing.
pub proof fn lemma_put_same<V>(s: Seq<(Seq<char>, V)>, k: Seq<char>, v: V)
    requires
        unique_keys(s),
        lookup(s, k) == Some(v),
    ensures
        put_entry(s, k, v) == s,
{
    let p = key_pos(s, k);
    assert(s.update(p, (k, v)) =~= s);
}

/// Inserting a section with distinct keys into a valid document keeps it
/// valid.
pub proof fn lemma_put_entry_valid(d: IniView, k: Seq<char>, v: SectionView)
    requires
        valid_doc(d),
        unique_keys(v),
    ensures
        valid_doc(put_entry(d, k, v)),
{
    lemma_put_entry_unique(d, k, v);
    let r = put_entry(d, k, v);
    assert forall|i: int| 0 <= i < r.len() implies unique_keys(#[trigger] r[i].1) by {
        if i < d.len() && r[i] == d[i] {
            assert(unique_keys(d[i].1));
        }
    }
}

/// Relies on `IndexMap::new`: a new map is empty.
#[verifier::external_body]
fn section_new() -> (r: Section)
    ensures
        section_entries(r) == Seq::<(Seq<char>, Seq<char>)>::empty(),
{
    IndexMap::new()
}

/// Relies on `IndexMap::insert`: an existing key keeps its place and gets the
/// new value, which it hands back the old one; a new key goes last.
#[verifier::external_body]
fn section_insert(m: &mut Section, k: String, v: String) -> (r: Option<String>)
    ensures
        section_entries(*final(m)) == put_entry(section_entries(*old(m)), k@, v@),
        r.is_some() == has_key(section_entries(*old(m)), k@),
        r.is_some() ==> lookup(section_entries(*old(m)), k@) == Some(r.unwrap()@),
{
    m.insert(k, v)
}

/// Relies on `IndexMap::len`: the number of entries.
#[verifier::external_body]
fn section_len(m: &Section) -> (r: usize)
    ensures
        r == section_entries(*m).len(),
{
    m.len()
}

/// Relies on `IndexMap::get_index`: the entry at a position; the keys of a map
/// are distinct.
#[verifier::external_body]
fn section_get_index(m: &Section, i: usize) -> (r: (String, String))
    requires
        i < section_entries(*m).len(),
    ensures
        r.0@ == section_entries(*m)[i as int].0,
        r.1@ == section_entries(*m)[i as int].1,
        forall|j: int|
            0 <= j < section_entries(*m).len() && j != i ==> section_entries(*m)[j].0 != r.0@,
{
    let (k, v) = m.get_index(i).unwrap();
    (k.clone(), v.clone())
}

/// Relies on `IndexMap::get`: the value stored under a key.
#[verifier::external_body]
fn section_get(m: &Section, k: &str) -> (r: Option<String>)
    ensures
        r.is_some() == has_key(section_entries(*m), k@),
        r.is_some() ==> lookup(section_entries(*m), k@) == Some(r.unwrap()@),
{
    m.get(k).cloned()
}

/// Relies on `IndexMap::new`: a new map is empty.
#[verifier::external_body]
fn ini_map_new() -> (r: IndexMap<String, Section>)
    ensures
        ini_entries(r) == Seq::<(Seq<char>, SectionView)>::empty(),
{
    IndexMap::new()
}

/// Relies on `IndexMap::insert`: an existing key keeps its place and gets the
/// new value, which it hands back the old one; a new key goes last.
#[verifier::external_body]
fn ini_map_insert(m: &mut IndexMap<String, Section>, k: String, v: Section) -> (r: Option<Section>)
    ensures
        ini_entries(*final(m)) == put_entry(ini_entries(*old(m)), k@, section_entries(v)),
        r.is_some() == has_key(ini_entries(*old(m)), k@),
        r.is_some() ==> lookup(ini_entries(*old(m)), k@) == Some(section_entries(r.unwrap())),
{
    m.insert(k, v)
}

/// Relies on `IndexMap::len`: the number of entries.
#[verifier::external_body]
fn ini_map_len(m: &IndexMap<String, Section>) -> (r: usize)
    ensures
        r == ini_entries(*m).len(),
{
    m.len()
}

/// Relies on `IndexMap::get_index`: the entry at a position; the keys of a map
/// are distinct.
#[verifier::external_body]
fn ini_map_get_index(m: &IndexMap<String, Section>, i: usize) -> (r: (String, Section))
    requires
        i < ini_entries(*m).len(),
    ensures
        r.0@ == ini_entries(*m)[i as int].0,
        section_entries(r.1) == ini_entries(*m)[i as int].1,
        forall|j: int| 0 <= j < ini_entries(*m).len() && j != i ==> ini_entries(*m)[j].0 != r.0@,
{
    let (k, v) = m.get_index(i).unwrap();
    (k.clone(), v.clone())
}

/// Relies on `IndexMap::get`: the value stored under a key.
#[verifier::external_body]
fn ini_map_get(m: &IndexMap<String, Section>, k: &str) -> (r: Option<Section>)
    ensures
        r.is_some() == has_key(ini_entries(*m), k@),
        r.is_some() ==> lookup(ini_entries(*m), k@) == Some(section_entries(r.unwrap())),
{
    m.get(k).cloned()
}

/// A new, empty section.
pub fn new_section() -> (r: Section)
    ensures
        section_entries(r) == Seq::<(Seq<char>, Seq<char>)>::empty(),
        unique_keys(section_entries(r)),
{
    section_new()
}

/// Sets `key` to `value` in a section, keeping the key's place if present.
pub fn set_key(s: &mut Section, key: &str, value: &str)
    ensures
        section_entries(*final(s)) == put_entry(section_entries(*old(s)), key@, value@),
        unique_keys(section_entries(*old(s))) ==> unique_keys(section_entries(*final(s))),
{
    proof {
        if unique_keys(section_entries(*s)) {
            lemma_put_entry_unique(section_entries(*s), key@, value@);
        }
    }
    let _ = section_insert(s, key.to_owned(), value.to_owned());
}

/// Sets `key` to `value` in a section only where the key is absent.
pub fn set_key_if_absent(s: &mut Section, key: &str, value: &str)
    ensures
        section_entries(*final(s)) == put_if_absent(section_entries(*old(s)), key@, value@),
        unique_keys(section_entries(*old(s))) ==> unique_keys(section_entries(*final(s))),
{
    proof {
        if unique_keys(section_entries(*s)) && !has_key(section_entries(*s), key@) {
            lemma_lookup_push(section_entries(*s), (key@, value@));
        }
    }
    let present = section_get(s, key);
    if present.is_none() {
        let _ = section_insert(s, key.to_owned(), value.to_owned());
    }
}

/// The value of `key` in a section, if present.
pub fn get_key(s: &Section, key: &str) -> (r: Option<String>)
    ensures
        r.is_some() == has_key(section_entries(*s), key@),
        r.is_some() ==> lookup(section_entries(*s), key@) == Some(r.unwrap()@),
{
    section_get(s, key)
}

/// The number of entries of a section.
pub fn section_size(s: &Section) -> (r: usize)
    ensures
        r == section_entries(*s).len(),
{
    section_len(s)
}

/// The entry of a section at position `i`.
pub fn entry_at(s: &Section, i: usize) -> (r: (String, String))
    requires
        i < section_entries(*s).len(),
    ensures
        r.0@ == section_entries(*s)[i as int].0,
        r.1@ == section_entries(*s)[i as int].1,
        forall|j: int| 0 <= j < section_entries(*s).len() && j != i ==> section_entries(*s)[j].0 != r.0@,
{
    section_get_index(s, i)
}

/// A document: an ordered mapping from section name to section.
#[derive(Debug)]
pub struct Ini(pub IndexMap<String, Section>);

impl View for Ini {
    type V = IniView;

    open spec fn view(&self) -> IniView {
        ini_entries(self.0)
    }
}

impl Ini {
    /// A document without sections.
    pub fn new() -> (r: Ini)
        ensures
            r@ == Seq::<(Seq<char>, SectionView)>::empty(),
            valid_doc(r@),
    {
        Ini(ini_map_new())
    }

    /// Inserts a section, keeping the name's place if present; hands back the
    /// section that was replaced.
    pub fn insert(&mut self, key: String, value: Section) -> (r: Option<Section>)
        ensures
            final(self)@ == put_entry(old(self)@, key@, section_entries(value)),
            r.is_some() == has_key(old(self)@, key@),
            r.is_some() ==> lookup(old(self)@, key@) == Some(section_entries(r.unwrap())),
            valid_doc(old(self)@) && unique_keys(section_entries(value)) ==> valid_doc(
                final(self)@,
            ),
    {
        let ghost d = self@;
        let ghost v = section_entries(value);
        let r = ini_map_insert(&mut self.0, key, value);
        proof {
            if valid_doc(d) && unique_keys(v) {
                lemma_put_entry_valid(d, key@, v);
            }
        }
        r
    }

    /// The section named `key`, if present.
    pub fn get(&self, key: &str) -> (r: Option<Section>)
        ensures
            r.is_some() == has_key(self@, key@),
            r.is_some() ==> lookup(self@, key@) == Some(section_entries(r.unwrap())),
            r.is_some() && valid_doc(self@) ==> unique_keys(section_entries(r.unwrap())),
    {
        let r = ini_map_get(&self.0, key);
        proof {
            if r.is_some() && valid_doc(self@) {
                assert(unique_keys(self@[key_pos(self@, key@)].1));
            }
        }
        r
    }

    /// The number of sections.
    pub fn len(&self) -> (r: usize)
        ensures
            r == self@.len(),
    {
        ini_map_len(&self.0)
    }

    /// The section at position `i`, with its name.
    pub fn section_at(&self, i: usize) -> (r: (String, Section))
        requires
            i < self@.len(),
        ensures
            r.0@ == self@[i as int].0,
            section_entries(r.1) == self@[i as int].1,
            forall|j: int| 0 <= j < self@.len() && j != i ==> self@[j].0 != r.0@,
    {
        ini_map_get_index(&self.0, i)
    }

    /// Reads every entry once to bring into the proofs what the map guarantees:
    /// section names are distinct, and so are the keys of each section.
    pub fn distinct_names(&self)
        ensures
            valid_doc(self@),
    {
        let n = self.len();
        let mut i: usize = 0;
        while i < n
            invariant
                n == self@.len(),
                i <= n,
                forall|j: int|
                    0 <= j < i ==> unique_keys(#[trigger] self@[j].1) && forall|k: int|
                        0 <= k < n && k != j ==> self@[k].0 != self@[j].0,
            decreases n - i,
        {
            let (_, sec) = self.section_at(i);
            let m = section_size(&sec);
            let mut e: usize = 0;
            while e < m
                invariant
                    m == section_entries(sec).len(),
                    e <= m,
                    forall|x: int|
                        0 <= x < e ==> forall|y: int|
                            0 <= y < m && y != x ==> section_entries(sec)[y].0 != (
                            #[trigger] section_entries(sec)[x]).0,
                decreases m - e,
            {
                let _ = entry_at(&sec, e);
                e = e + 1;
            }
            assert(unique_keys(section_entries(sec)));
            i = i + 1;
        }
        assert forall|x: int, y: int|
            0 <= x < self@.len() && 0 <= y < self@.len() && x != y implies self@[x].0
            != self@[y].0 by {
            assert(unique_keys(self@[y].1));
        }
    }

    /// The section named `key`, or a new empty one.
    pub fn section_or_default(&self, key: &str) -> (r: Section)
        ensures
            section_entries(r) == section_or_empty(self@, key@),
            valid_doc(self@) ==> unique_keys(section_entries(r)),
    {
        match self.get(key) {
            Some(s) => s,
            None => new_section(),
        }
    }
}

/// The view of a document set: each unit's name with its document.
pub type FilesView = Seq<(Seq<char>, IniView)>;

/// A collection of documents keyed by unit name, in order of insertion.
///
/// A list of pairs whose names stay distinct (`wf`) rather than a `HashMap`:
/// vstd specifies `HashMap` only for keys that obey its key model, which
/// `String` does not, so nothing about a map keyed by unit name could be
/// proved.
#[derive(Debug)]
pub struct IniFiles(pub Vec<(String, Ini)>);

impl View for IniFiles {
    type V = FilesView;

    open spec fn view(&self) -> FilesView {
        self.0@.map_values(|p: (String, Ini)| (p.0@, p.1@))
    }
}

impl IniFiles {
    /// Unit names are distinct.
    pub open spec fn wf(&self) -> bool {
        unique_keys(self@)
    }

    /// An empty set.
    pub fn new() -> (r: IniFiles)
        ensures
            r@ == Seq::<(Seq<char>, IniView)>::empty(),
            r.wf(),
    {
        IniFiles(Vec::new())
    }

    /// The number of documents.
    pub fn len(&self) -> (r: usize)
        ensures
            r == self@.len(),
    {
        self.0.len()
    }

    /// Inserts a document under `key`: an existing name keeps its place and
    /// gets the new document, and the old one is handed back.
    pub fn insert(&mut self, key: String, value: Ini) -> (r: Option<Ini>)
        requires
            old(self).wf(),
        ensures
            final(self).wf(),
            final(self)@ == put_entry(old(self)@, key@, value@),
            r.is_some() == has_key(old(self)@, key@),
            r.is_some() ==> lookup(old(self)@, key@) == Some(r.unwrap()@),
    {
        let n = self.0.len();
        let mut i: usize = 0;
        while i < n
            invariant
                n == self.0.len(),
                self == old(self),
                self.wf(),
                i <= n,
                forall|j: int| 0 <= j < i ==> self@[j].0 != key@,
            decreases n - i,
        {
            if same_text(self.0[i].0.as_str(), key.as_str()) {
                proof {
                    lemma_unique_lookup(self@, i as int);
                }
                let ghost before = self@;
                let (_, old_value) = self.0.remove(i);
                self.0.insert(i, (key, value));
                proof {
                    assert(self@ =~= before.update(i as int, (key@, value@)));
                    lemma_put_entry_unique(before, key@, value@);
                }
                return Some(old_value);
            }
            i = i + 1;
        }
        let ghost before = self@;
        assert(!has_key(before, key@));
        self.0.push((key, value));
        proof {
            assert(self@ =~= before.push((key@, value@)));
            lemma_put_entry_unique(before, key@, value@);
        }
        None
    }

    /// The document named `key`, if present.
    pub fn get(&self, key: &str) -> (r: Option<&Ini>)
        requires
            self.wf(),
        ensures
            r.is_some() == has_key(self@, key@),
            r.is_some() ==> lookup(self@, key@) == Some(r.unwrap()@),
    {
        let n = self.0.len();
        let mut i: usize = 0;
        while i < n
            invariant
                n == self.0.len(),
                self.wf(),
                i <= n,
                forall|j: int| 0 <= j < i ==> self@[j].0 != key@,
            decreases n - i,
        {
            if same_text(self.0[i].0.as_str(), key) {
                proof {
                    lemma_unique_lookup(self@, i as int);
                }
                return Some(&self.0[i].1);
            }
            i = i + 1;
        }
        None
    }
}

} // verus!
