//! The unit synthesizer: turns unit descriptions into service and timer units.
use vstd::prelude::*;

use crate::formats::{
    entry_at, get_key, has_key, key_is_not, key_pos, lemma_filter_key, lemma_filter_step,
    lemma_lookup_push, lemma_put_entry_unique, lemma_put_same, lemma_unique_lookup, lookup,
    new_section, put_entry, put_if_absent, section_entries, section_or_empty, section_size,
    set_key, set_key_if_absent, unique_keys, valid_doc, FilesView, Ini, IniFiles, IniView,
    Section, SectionView,
};
use crate::text::{ends_with, has_suffix, join2, same_text};

verus! {

/// Why a set of units cannot be synthesized.
#[derive(Debug, PartialEq, Eq)]
pub enum SystemdError {
    /// The input holds no unit.
    EmptyUnitSet,
    /// A unit's name already ends in a suffix that synthesis appends.
    ReservedName(String),
}

/// A unit name that already ends in `.service` or `.timer`.
pub open spec fn reserved_name(n: Seq<char>) -> bool {
    ends_with(n, ".service"@) || ends_with(n, ".timer"@)
}

/// The sections of a unit that go to its service, in order.
pub open spec fn primary_sections(d: IniView) -> IniView {
    d.filter(key_is_not::<SectionView>("Timer"@))
}

/// The `Service` section after its defaults: `Type=oneshot` unless set, for a
/// timed unit, and journal output in every case.
pub open spec fn service_defaults(s: SectionView, timed: bool) -> SectionView {
    let s1 = if timed {
        put_if_absent(s, "Type"@, "oneshot"@)
    } else {
        s
    };
    put_entry(put_entry(s1, "StandardOutput"@, "journal"@), "StandardError"@, "journal"@)
}

/// The service document synthesized from unit `d`.
pub open spec fn service_doc(d: IniView) -> IniView {
    let base = primary_sections(d);
    put_entry(
        base,
        "Service"@,
        service_defaults(section_or_empty(base, "Service"@), has_key(d, "Timer"@)),
    )
}

/// The service file name of unit `name`.
pub open spec fn service_name(name: Seq<char>) -> Seq<char> {
    name + ".service"@
}

/// The timer file name of unit `name`.
pub open spec fn timer_name(name: Seq<char>) -> Seq<char> {
    name + ".timer"@
}

/// The timer's `Unit` section: the description of timer section `t`, or a
/// default one.
pub open spec fn timer_unit_section(name: Seq<char>, t: SectionView) -> SectionView {
    match lookup(t, "Description"@) {
        Some(v) => seq![("Description"@, v)],
        None => seq![("Description"@, "Timer for "@ + name)],
    }
}

/// The timer's `Timer` section: every other key of `t`, then the unit it starts.
pub open spec fn timer_timer_section(name: Seq<char>, t: SectionView) -> SectionView {
    put_entry(t.filter(key_is_not::<Seq<char>>("Description"@)), "Unit"@, service_name(name))
}

/// The timer document synthesized from unit `name` with timer section `t`.
pub open spec fn timer_doc(name: Seq<char>, t: SectionView) -> IniView {
    seq![
        ("Unit"@, timer_unit_section(name, t)),
        ("Timer"@, timer_timer_section(name, t)),
        ("Install"@, seq![("WantedBy"@, "timers.target"@)]),
    ]
}

/// The documents synthesized from one unit: its service, then its timer if it
/// has a `Timer` section.
pub open spec fn synth_unit(name: Seq<char>, d: IniView) -> FilesView {
    let svc = seq![(service_name(name), service_doc(d))];
    match lookup(d, "Timer"@) {
        Some(t) => svc.push((timer_name(name), timer_doc(name, t))),
        None => svc,
    }
}

/// The documents synthesized from a set of units, unit by unit.
pub open spec fn synth_all(units: FilesView) -> FilesView
    decreases units.len(),
{
    if units.len() == 0 {
        Seq::empty()
    } else {
        synth_all(units.drop_last()) + synth_unit(units.last().0, units.last().1)
    }
}

/// The keys of a document's sections, in order.
pub open spec fn section_names(d: IniView) -> Seq<Seq<char>> {
    d.map_values(|e: (Seq<char>, SectionView)| e.0)
}

/// What the service defaults do to a section with distinct keys: the journal
/// keys are set, `Type` falls back to `oneshot` for a timed unit, and every
/// other key keeps its value.
pub proof fn lemma_service_defaults(s: SectionView, timed: bool)
    requires
        unique_keys(s),
    ensures
        unique_keys(service_defaults(s, timed)),
        lookup(service_defaults(s, timed), "StandardOutput"@) == Some("journal"@),
        lookup(service_defaults(s, timed), "StandardError"@) == Some("journal"@),
        lookup(service_defaults(s, timed), "Type"@) == (if timed && !has_key(s, "Type"@) {
            Some("oneshot"@)
        } else {
            lookup(s, "Type"@)
        }),
        forall|k: Seq<char>|
            k != "StandardOutput"@ && k != "StandardError"@ && k != "Type"@ ==> #[trigger] lookup(
                service_defaults(s, timed),
                k,
            ) == lookup(s, k),
{
    reveal_strlit("StandardOutput");
    reveal_strlit("StandardError");
    reveal_strlit("Type");
    let s1 = if timed {
        put_if_absent(s, "Type"@, "oneshot"@)
    } else {
        s
    };
    assert("Type"@.len() == 4 && "StandardOutput"@.len() == 14 && "StandardError"@.len() == 13);
    if timed && !has_key(s, "Type"@) {
        lemma_lookup_push(s, ("Type"@, "oneshot"@));
        assert(lookup(s1, "Type"@) == Some("oneshot"@));
    }
    lemma_put_entry_unique(s1, "StandardOutput"@, "journal"@);
    let s2 = put_entry(s1, "StandardOutput"@, "journal"@);
    lemma_put_entry_unique(s2, "StandardError"@, "journal"@);
    let s3 = put_entry(s2, "StandardError"@, "journal"@);
    assert(lookup(s3, "Type"@) == lookup(s2, "Type"@));
    assert(lookup(s2, "Type"@) == lookup(s1, "Type"@));
    assert(lookup(s3, "StandardOutput"@) == lookup(s2, "StandardOutput"@));
    assert forall|k: Seq<char>|
        k != "StandardOutput"@ && k != "StandardError"@ && k != "Type"@ implies #[trigger] lookup(
        s3,
        k,
    ) == lookup(s, k) by {
        assert(lookup(s3, k) == lookup(s2, k));
        assert(lookup(s2, k) == lookup(s1, k));
        if timed && !has_key(s, "Type"@) {
            assert(lookup(s1, k) == lookup(s, k));
        }
    }
}

/// What synthesis does to a valid unit's service document: no `Timer`
/// section, every section but `Service` kept, and the service defaults
/// applied to the unit's own `Service` section.
pub proof fn lemma_service_doc(d: IniView)
    requires
        valid_doc(d),
    ensures
        valid_doc(service_doc(d)),
        !has_key(service_doc(d), "Timer"@),
        has_key(service_doc(d), "Service"@),
        lookup(service_doc(d), "Service"@) == Some(
            service_defaults(section_or_empty(d, "Service"@), has_key(d, "Timer"@)),
        ),
        forall|k: Seq<char>|
            k != "Timer"@ && k != "Service"@ ==> #[trigger] lookup(service_doc(d), k) == lookup(
                d,
                k,
            ),
{
    reveal_strlit("Timer");
    reveal_strlit("Service");
    let pred = key_is_not::<SectionView>("Timer"@);
    let base = primary_sections(d);
    assert("Service"@.len() == 7 && "Timer"@.len() == 5);
    lemma_filter_key(d, "Timer"@);
    assert(lookup(base, "Service"@) == lookup(d, "Service"@));
    let s = section_or_empty(d, "Service"@);
    assert(unique_keys(s)) by {
        if has_key(d, "Service"@) {
            let p = key_pos(d, "Service"@);
            assert(unique_keys(d[p].1));
        }
    }
    let timed = has_key(d, "Timer"@);
    lemma_service_defaults(s, timed);
    lemma_put_entry_unique(base, "Service"@, service_defaults(s, timed));
    let r = service_doc(d);
    assert(!has_key(r, "Timer"@)) by {
        if has_key(r, "Timer"@) {
            assert(lookup(r, "Timer"@) == lookup(base, "Timer"@));
        }
    }
    assert forall|k: Seq<char>|
        k != "Timer"@ && k != "Service"@ implies #[trigger] lookup(r, k) == lookup(d, k) by {
        assert(lookup(r, k) == lookup(base, k));
        assert(lookup(base, k) == lookup(d, k));
    }
    assert forall|i: int| 0 <= i < r.len() implies unique_keys(#[trigger] r[i].1) by {
        lemma_unique_lookup(r, i);
        if r[i].0 != "Service"@ {
            let k = r[i].0;
            assert(lookup(r, k) == lookup(d, k));
            let p = key_pos(d, k);
            assert(unique_keys(d[p].1));
        }
    }
}

/// A unit with a `Timer` section yields exactly two documents: its service,
/// which has no `Timer` section, keeps every other section and key and has
/// journal output, and its timer, made of the sections `Unit`, `Timer` and
/// `Install`, which starts the service and is wanted by `timers.target`.
pub proof fn law_timed_unit(name: Seq<char>, d: IniView)
    requires
        valid_doc(d),
        has_key(d, "Timer"@),
    ensures
        ({
            let out = synth_all(seq![(name, d)]);
            let svc = out[0].1;
            let tim = out[1].1;
            let s = section_or_empty(d, "Service"@);
            let s2 = section_or_empty(svc, "Service"@);
            &&& out.len() == 2
            &&& out[0].0 == service_name(name)
            &&& out[1].0 == timer_name(name)
            &&& !has_key(svc, "Timer"@)
            &&& forall|k: Seq<char>|
                k != "Timer"@ && k != "Service"@ ==> #[trigger] lookup(svc, k) == lookup(d, k)
            &&& lookup(s2, "StandardOutput"@) == Some("journal"@)
            &&& lookup(s2, "StandardError"@) == Some("journal"@)
            &&& forall|k: Seq<char>|
                k != "StandardOutput"@ && k != "StandardError"@ && k != "Type"@
                    ==> #[trigger] lookup(s2, k) == lookup(s, k)
            &&& section_names(tim) == seq!["Unit"@, "Timer"@, "Install"@]
            &&& lookup(section_or_empty(tim, "Timer"@), "Unit"@) == Some(service_name(name))
            &&& lookup(section_or_empty(tim, "Install"@), "WantedBy"@) == Some("timers.target"@)
        }),
{
    reveal_strlit("Timer");
    reveal_strlit("Unit");
    reveal_strlit("Install");
    let units = seq![(name, d)];
    assert(units.drop_last() =~= Seq::<(Seq<char>, IniView)>::empty());
    assert(synth_all(units.drop_last()) == Seq::<(Seq<char>, IniView)>::empty());
    assert(units.last() == (name, d));
    let out = synth_all(units);
    assert(out =~= synth_unit(name, d));
    lemma_service_doc(d);
    let t = lookup(d, "Timer"@).unwrap();
    let p = key_pos(d, "Timer"@);
    assert(unique_keys(d[p].1));
    lemma_filter_key(t, "Description"@);
    let ft = t.filter(key_is_not::<Seq<char>>("Description"@));
    lemma_put_entry_unique(ft, "Unit"@, service_name(name));
    let tim = timer_doc(name, t);
    assert(section_names(tim) =~= seq!["Unit"@, "Timer"@, "Install"@]);
    assert("Unit"@.len() == 4 && "Timer"@.len() == 5 && "Install"@.len() == 7);
    assert(unique_keys(tim));
    assert(tim[1].0 == "Timer"@);
    lemma_unique_lookup(tim, 1);
    assert(tim[2].0 == "Install"@);
    lemma_unique_lookup(tim, 2);
    let inst: SectionView = seq![("WantedBy"@, "timers.target"@)];
    assert(inst[0].0 == "WantedBy"@);
    lemma_unique_lookup(inst, 0);
    assert(out[1].1 == tim);
    assert(section_or_empty(tim, "Install"@) == inst);
    assert(section_or_empty(tim, "Timer"@) == put_entry(ft, "Unit"@, service_name(name)));
    let svc = out[0].1;
    assert(svc == service_doc(d));
    let sv = section_or_empty(d, "Service"@);
    lemma_service_defaults(sv, true);
    assert(section_or_empty(svc, "Service"@) == service_defaults(sv, true));
}

/// A unit without a `Timer` section yields exactly one document, its service:
/// every section but `Service` is kept, and in `Service` only the journal keys
/// are forced; `Type` and every other key keep their values.
pub proof fn law_untimed_unit(name: Seq<char>, d: IniView)
    requires
        valid_doc(d),
        !has_key(d, "Timer"@),
    ensures
        ({
            let out = synth_all(seq![(name, d)]);
            let svc = out[0].1;
            let s = section_or_empty(d, "Service"@);
            let s2 = section_or_empty(svc, "Service"@);
            &&& out.len() == 1
            &&& out[0].0 == service_name(name)
            &&& forall|k: Seq<char>| k != "Service"@ ==> #[trigger] lookup(svc, k) == lookup(d, k)
            &&& lookup(s2, "StandardOutput"@) == Some("journal"@)
            &&& lookup(s2, "StandardError"@) == Some("journal"@)
            &&& forall|k: Seq<char>|
                k != "StandardOutput"@ && k != "StandardError"@ ==> #[trigger] lookup(s2, k)
                    == lookup(s, k)
        }),
{
    let units = seq![(name, d)];
    assert(units.drop_last() =~= Seq::<(Seq<char>, IniView)>::empty());
    assert(synth_all(units.drop_last()) == Seq::<(Seq<char>, IniView)>::empty());
    assert(units.last() == (name, d));
    let out = synth_all(units);
    assert(out =~= synth_unit(name, d));
    lemma_service_doc(d);
    let svc = service_doc(d);
    assert(lookup(d, "Timer"@) is None);
    assert("Type"@.len() == 4 && "StandardOutput"@.len() == 14 && "StandardError"@.len() == 13) by {
        reveal_strlit("Type");
        reveal_strlit("StandardOutput");
        reveal_strlit("StandardError");
    }
    lemma_service_defaults(section_or_empty(d, "Service"@), false);
}

/// Synthesizing the service document of an already synthesized service
/// changes nothing.
pub proof fn law_service_idempotent(d: IniView)
    requires
        valid_doc(d),
    ensures
        service_doc(service_doc(d)) == service_doc(d),
{
    reveal_strlit("StandardOutput");
    reveal_strlit("StandardError");
    let d1 = service_doc(d);
    lemma_service_doc(d);
    lemma_service_doc(d1);
    reveal(Seq::filter);
    let pred = key_is_not::<SectionView>("Timer"@);
    assert(primary_sections(d1) == d1) by {
        lemma_filter_all(d1, pred);
    }
    let s1 = section_or_empty(d1, "Service"@);
    let s = section_or_empty(d, "Service"@);
    lemma_service_defaults(s, has_key(d, "Timer"@));
    lemma_put_same(s1, "StandardOutput"@, "journal"@);
    lemma_put_same(s1, "StandardError"@, "journal"@);
    assert(service_defaults(s1, false) == s1);
    lemma_put_same(d1, "Service"@, s1);
}

/// Synthesizing again the service of a unit, under the unit's name, gives
/// back that same service and nothing else.
pub proof fn law_resynthesis(name: Seq<char>, d: IniView)
    requires
        valid_doc(d),
    ensures
        synth_all(seq![(name, service_doc(d))]) == seq![(service_name(name), service_doc(d))],
{
    let s = service_doc(d);
    lemma_service_doc(d);
    law_service_idempotent(d);
    let units = seq![(name, s)];
    assert(units.drop_last() =~= Seq::<(Seq<char>, IniView)>::empty());
    assert(synth_all(units.drop_last()) == Seq::<(Seq<char>, IniView)>::empty());
    assert(units.last() == (name, s));
    assert(lookup(s, "Timer"@) is None);
    assert(synth_all(units) =~= seq![(service_name(name), service_doc(s))]);
}

/// Every unit of a set, whatever the others, yields its service, which has no
/// `Timer` section and journal output in its `Service` section, and no `Type`
/// forced where the unit has no timer; and, where it has a `Timer` section,
/// its timer.
pub proof fn law_every_unit_synthesized(units: FilesView)
    requires
        forall|i: int| 0 <= i < units.len() ==> valid_doc(#[trigger] units[i].1),
    ensures
        forall|i: int|
            0 <= i < units.len() ==> {
                let n = (#[trigger] units[i]).0;
                let d = units[i].1;
                let svc = section_or_empty(service_doc(d), "Service"@);
                &&& synth_all(units).contains((service_name(n), service_doc(d)))
                &&& !has_key(service_doc(d), "Timer"@)
                &&& lookup(svc, "StandardOutput"@) == Some("journal"@)
                &&& lookup(svc, "StandardError"@) == Some("journal"@)
                &&& !has_key(d, "Timer"@) ==> lookup(svc, "Type"@) == lookup(
                    section_or_empty(d, "Service"@),
                    "Type"@,
                )
                &&& has_key(d, "Timer"@) ==> synth_all(units).contains(
                    (timer_name(n), timer_doc(n, lookup(d, "Timer"@).unwrap())),
                )
            },
    decreases units.len(),
{
    if units.len() > 0 {
        let prev = units.drop_last();
        assert forall|i: int| 0 <= i < prev.len() implies valid_doc(#[trigger] prev[i].1) by {
            assert(prev[i] == units[i]);
        }
        law_every_unit_synthesized(prev);
        let a = synth_all(prev);
        let (n, d) = units.last();
        let b = synth_unit(n, d);
        let all = synth_all(units);
        assert(all == a + b);
        assert forall|i: int| 0 <= i < units.len() implies {
            let n = (#[trigger] units[i]).0;
            let d = units[i].1;
            let svc = section_or_empty(service_doc(d), "Service"@);
            &&& all.contains((service_name(n), service_doc(d)))
            &&& !has_key(service_doc(d), "Timer"@)
            &&& lookup(svc, "StandardOutput"@) == Some("journal"@)
            &&& lookup(svc, "StandardError"@) == Some("journal"@)
            &&& !has_key(d, "Timer"@) ==> lookup(svc, "Type"@) == lookup(
                section_or_empty(d, "Service"@),
                "Type"@,
            )
            &&& has_key(d, "Timer"@) ==> all.contains(
                (timer_name(n), timer_doc(n, lookup(d, "Timer"@).unwrap())),
            )
        } by {
            let ni = units[i].0;
            let di = units[i].1;
            lemma_service_doc(di);
            let s0 = section_or_empty(di, "Service"@);
            assert(unique_keys(s0)) by {
                if has_key(di, "Service"@) {
                    let p = key_pos(di, "Service"@);
                    assert(unique_keys(di[p].1));
                }
            }
            lemma_service_defaults(s0, has_key(di, "Timer"@));
            if i < prev.len() {
                assert(prev[i] == units[i]);
                let k = choose|k: int| 0 <= k < a.len() && a[k] == (service_name(ni), service_doc(di));
                assert(all[k] == a[k]);
                if has_key(di, "Timer"@) {
                    let t = (timer_name(ni), timer_doc(ni, lookup(di, "Timer"@).unwrap()));
                    let k2 = choose|k2: int| 0 <= k2 < a.len() && a[k2] == t;
                    assert(all[k2] == a[k2]);
                }
            } else {
                assert(units[i] == (n, d));
                assert(all[a.len() as int] == b[0]);
                if has_key(di, "Timer"@) {
                    assert(all[a.len() as int + 1] == b[1]);
                }
            }
        }
    }
}

/// Filtering a sequence whose every entry passes keeps it whole.
proof fn lemma_filter_all(s: IniView, pred: spec_fn((Seq<char>, SectionView)) -> bool)
    requires
        forall|i: int| 0 <= i < s.len() ==> pred(#[trigger] s[i]),
    ensures
        s.filter(pred) == s,
    decreases s.len(),
{
    reveal(Seq::filter);
    if s.len() > 0 {
        lemma_filter_all(s.drop_last(), pred);
        assert(s.drop_last().push(s.last()) =~= s);
    }
}

/// Two names with the same suffix appended are the same name.
proof fn lemma_suffix_cancel(a: Seq<char>, b: Seq<char>, s: Seq<char>)
    requires
        a + s == b + s,
    ensures
        a == b,
{
    assert((a + s).len() == (b + s).len());
    assert(a =~= (a + s).subrange(0, a.len() as int));
    assert(b =~= (b + s).subrange(0, b.len() as int));
}

/// A service name is never a timer name.
proof fn lemma_service_not_timer(a: Seq<char>, b: Seq<char>)
    ensures
        service_name(a) != timer_name(b),
{
    reveal_strlit(".service");
    reveal_strlit(".timer");
    let x = service_name(a);
    let y = timer_name(b);
    assert(x[x.len() - 1] == 'e');
    assert(y[y.len() - 1] == 'r');
}

/// Every name synthesized from a set of units is the service or timer name of
/// one of the units, and distinct unit names give distinct names.
pub proof fn lemma_synth_names(units: FilesView)
    ensures
        forall|i: int|
            0 <= i < synth_all(units).len() ==> exists|j: int|
                0 <= j < units.len() && (#[trigger] synth_all(units)[i].0 == service_name(units[j].0)
                    || synth_all(units)[i].0 == timer_name(units[j].0)),
        unique_keys(units) ==> unique_keys(synth_all(units)),
    decreases units.len(),
{
    if units.len() > 0 {
        let prev = units.drop_last();
        lemma_synth_names(prev);
        let a = synth_all(prev);
        let (n, d) = units.last();
        let b = synth_unit(n, d);
        let all = synth_all(units);
        assert(all == a + b);
        assert forall|i: int| 0 <= i < all.len() implies exists|j: int|
            0 <= j < units.len() && (#[trigger] all[i].0 == service_name(units[j].0) || all[i].0
                == timer_name(units[j].0)) by {
            if i < a.len() {
                assert(all[i] == a[i]);
                let j = choose|j: int|
                    0 <= j < prev.len() && (a[i].0 == service_name(prev[j].0) || a[i].0 == timer_name(
                        prev[j].0,
                    ));
                assert(units[j] == prev[j]);
            } else {
                assert(all[i] == b[i - a.len()]);
                assert(units[units.len() - 1] == (n, d));
            }
        }
        if unique_keys(units) {
            assert(unique_keys(prev)) by {
                assert forall|x: int, y: int|
                    0 <= x < prev.len() && 0 <= y < prev.len() && x != y implies prev[x].0
                    != prev[y].0 by {
                    assert(prev[x] == units[x] && prev[y] == units[y]);
                }
            }
            assert forall|x: int, y: int|
                0 <= x < all.len() && 0 <= y < all.len() && x != y implies all[x].0 != all[y].0 by {
                lemma_service_not_timer(n, n);
                if x < a.len() && y < a.len() {
                    assert(all[x] == a[x] && all[y] == a[y]);
                } else if x >= a.len() && y >= a.len() {
                    assert(all[x] == b[x - a.len()] && all[y] == b[y - a.len()]);
                } else {
                    let (p, q) = if x < a.len() {
                        (x, y)
                    } else {
                        (y, x)
                    };
                    assert(all[p] == a[p]);
                    assert(all[q] == b[q - a.len()]);
                    let j = choose|j: int|
                        0 <= j < prev.len() && (a[p].0 == service_name(prev[j].0) || a[p].0
                            == timer_name(prev[j].0));
                    assert(prev[j] == units[j]);
                    assert(units[j].0 != n);
                    lemma_service_not_timer(prev[j].0, n);
                    lemma_service_not_timer(n, prev[j].0);
                    if a[p].0 == b[q - a.len()].0 {
                        if a[p].0 == service_name(prev[j].0) {
                            if b[q - a.len()].0 == service_name(n) {
                                lemma_suffix_cancel(prev[j].0, n, ".service"@);
                            }
                        } else {
                            if b[q - a.len()].0 == timer_name(n) {
                                lemma_suffix_cancel(prev[j].0, n, ".timer"@);
                            }
                        }
                    }
                }
            }
        }
    }
}

/// Splits a unit into the document of its service and its `Timer` section.
pub fn service_unit(unit: &Ini) -> (r: (Ini, Option<Section>))
    ensures
        r.0@ == service_doc(unit@),
        r.1.is_some() == has_key(unit@, "Timer"@),
        r.1.is_some() ==> lookup(unit@, "Timer"@) == Some(section_entries(r.1.unwrap())),
        valid_doc(unit@) ==> valid_doc(r.0@),
{
    proof {
        if valid_doc(unit@) {
            lemma_service_doc(unit@);
        }
    }
    let ghost pred = key_is_not::<SectionView>("Timer"@);
    let mut processed = Ini::new();
    let mut timer: Option<Section> = None;
    let n = unit.len();
    let mut i: usize = 0;
    assert(unit@.take(0) =~= Seq::<(Seq<char>, SectionView)>::empty());
    while i < n
        invariant
            n == unit@.len(),
            i <= n,
            processed@ == unit@.take(i as int).filter(pred),
            pred == key_is_not::<SectionView>("Timer"@),
            timer.is_none() ==> forall|j: int| 0 <= j < i ==> unit@[j].0 != "Timer"@,
            timer.is_some() ==> has_key(unit@, "Timer"@),
            timer.is_some() ==> lookup(unit@, "Timer"@) == Some(section_entries(timer.unwrap())),
        decreases n - i,
    {
        let (name, section) = unit.section_at(i);
        proof {
            lemma_filter_step(unit@, i as int, pred);
        }
        if same_text(name.as_str(), "Timer") {
            proof {
                assert(has_key(unit@, "Timer"@));
                let p = key_pos(unit@, "Timer"@);
                assert(p == i);
            }
            timer = Some(section);
        } else {
            processed.insert(name, section);
        }
        i = i + 1;
    }
    assert(unit@.take(n as int) =~= unit@);
    let timed = timer.is_some();
    let mut svc = processed.section_or_default("Service");
    if timed {
        set_key_if_absent(&mut svc, "Type", "oneshot");
    }
    set_key(&mut svc, "StandardOutput", "journal");
    set_key(&mut svc, "StandardError", "journal");
    processed.insert("Service".to_owned(), svc);
    (processed, timer)
}

/// Builds the timer document of unit `name` from its timer section `t`.
pub fn timer_unit(name: &str, t: &Section) -> (r: Ini)
    ensures
        r@ == timer_doc(name@, section_entries(*t)),
{
    let ghost pred = key_is_not::<Seq<char>>("Description"@);
    let ghost te = section_entries(*t);
    let mut timer_sec = new_section();
    let n = section_size(t);
    let mut i: usize = 0;
    assert(te.take(0) =~= Seq::<(Seq<char>, Seq<char>)>::empty());
    while i < n
        invariant
            n == te.len(),
            te == section_entries(*t),
            i <= n,
            section_entries(timer_sec) == te.take(i as int).filter(pred),
            pred == key_is_not::<Seq<char>>("Description"@),
        decreases n - i,
    {
        let (k, v) = entry_at(t, i);
        proof {
            lemma_filter_step(te, i as int, pred);
        }
        if !same_text(k.as_str(), "Description") {
            set_key(&mut timer_sec, k.as_str(), v.as_str());
        }
        i = i + 1;
    }
    assert(te.take(n as int) =~= te);
    let unit_file = join2(name, ".service");
    set_key(&mut timer_sec, "Unit", unit_file.as_str());

    let mut unit_sec = new_section();
    match get_key(t, "Description") {
        Some(d) => set_key(&mut unit_sec, "Description", d.as_str()),
        None => {
            let d = join2("Timer for ", name);
            set_key(&mut unit_sec, "Description", d.as_str());
        },
    }
    let mut install_sec = new_section();
    set_key(&mut install_sec, "WantedBy", "timers.target");

    let mut doc = Ini::new();
    proof {
        reveal_strlit("Unit");
        reveal_strlit("Timer");
        reveal_strlit("Install");
    }
    let ghost u = section_entries(unit_sec);
    let ghost ts = section_entries(timer_sec);
    let ghost ins = section_entries(install_sec);
    assert(u == timer_unit_section(name@, te));
    assert(ts == timer_timer_section(name@, te));
    assert(ins =~= seq![("WantedBy"@, "timers.target"@)]);
    doc.insert("Unit".to_owned(), unit_sec);
    assert(doc@ =~= seq![("Unit"@, u)]);
    assert("Unit"@.len() != "Timer"@.len());
    assert(!has_key(doc@, "Timer"@));
    doc.insert("Timer".to_owned(), timer_sec);
    assert(doc@ =~= seq![("Unit"@, u), ("Timer"@, ts)]);
    assert("Unit"@.len() != "Install"@.len() && "Timer"@.len() != "Install"@.len());
    assert(!has_key(doc@, "Install"@));
    doc.insert("Install".to_owned(), install_sec);
    assert(doc@ =~= timer_doc(name@, te));
    doc
}

/// Synthesizes the service (and timer) units of every unit of `configs`.
pub fn process_systemd(configs: IniFiles) -> (r: Result<IniFiles, SystemdError>)
    ensures
        (r == Err::<IniFiles, SystemdError>(SystemdError::EmptyUnitSet)) <==> configs@.len() == 0,
        (r matches Err(SystemdError::ReservedName(_))) <==> (configs@.len() > 0 && exists|i: int|
            0 <= i < configs@.len() && reserved_name(#[trigger] configs@[i].0)),
        r matches Err(SystemdError::ReservedName(n)) ==> exists|i: int|
            0 <= i < configs@.len() && configs@[i].0 == n@ && reserved_name(n@),
        r.is_ok() ==> r.unwrap()@ == synth_all(configs@),
        r.is_ok() && configs.wf() ==> r.unwrap().wf(),
        r.is_ok() ==> forall|i: int| 0 <= i < configs@.len() ==> valid_doc(#[trigger] configs@[i].1),
{
    let n = configs.0.len();
    if n == 0 {
        return Err(SystemdError::EmptyUnitSet);
    }
    let mut i: usize = 0;
    while i < n
        invariant
            n == configs@.len(),
            i <= n,
            forall|j: int| 0 <= j < i ==> !reserved_name(#[trigger] configs@[j].0),
            forall|j: int| 0 <= j < i ==> valid_doc(#[trigger] configs@[j].1),
        decreases n - i,
    {
        configs.0[i].1.distinct_names();
        assert(configs@[i as int].1 == configs.0[i as int].1@);
        let name = &configs.0[i].0;
        if has_suffix(name.as_str(), ".service") || has_suffix(name.as_str(), ".timer") {
            assert(configs@[i as int].0 == name@);
            return Err(SystemdError::ReservedName(name.clone()));
        }
        i = i + 1;
    }
    let mut out = IniFiles::new();
    let mut i: usize = 0;
    while i < n
        invariant
            n == configs@.len(),
            i <= n,
            out@ == synth_all(configs@.take(i as int)),
            forall|j: int| 0 <= j < n ==> valid_doc(#[trigger] configs@[j].1),
        decreases n - i,
    {
        let name = &configs.0[i].0;
        let unit = &configs.0[i].1;
        let (svc, timer) = service_unit(unit);
        let svc_name = join2(name.as_str(), ".service");
        let ghost before = out@;
        out.0.push((svc_name, svc));
        match timer {
            Some(t) => {
                let tdoc = timer_unit(name.as_str(), &t);
                let tname = join2(name.as_str(), ".timer");
                out.0.push((tname, tdoc));
            },
            None => {},
        }
        proof {
            assert(configs@.take(i + 1).drop_last() =~= configs@.take(i as int));
            assert(configs@.take(i + 1).last() == configs@[i as int]);
            assert(configs@[i as int] == (name@, unit@));
            assert(out@ =~= before + synth_unit(name@, unit@));
        }
        i = i + 1;
    }
    assert(configs@.take(n as int) =~= configs@);
    proof {
        lemma_synth_names(configs@);
    }
    Ok(out)
}

} // verus!
