//! Which units to enable or restart once files are written, and where quadlet
//! files are linked.
use vstd::prelude::*;

use crate::text::{ends_with, has_suffix, join2, same_text, texts};
use crate::utils::Question;

verus! {

/// Whether a written file is enabled: every timer, and every service without
/// a timer of the same name among `files`.
pub open spec fn enabled_by_itself(files: Seq<Seq<char>>, f: Seq<char>) -> bool {
    ends_with(f, ".timer"@) || (ends_with(f, ".service"@) && !files.contains(
        f.subrange(0, f.len() - 8) + ".timer"@,
    ))
}

/// The files to enable, in the order they were written.
pub open spec fn units_to_enable_spec(files: Seq<Seq<char>>) -> Seq<Seq<char>> {
    files.filter(|f: Seq<char>| enabled_by_itself(files, f))
}

/// Whether some string of `files` is `target`.
fn contains_text(files: &Vec<String>, target: &str) -> (r: bool)
    ensures
        r == texts(files@).contains(target@),
{
    let n = files.len();
    let mut i: usize = 0;
    while i < n
        invariant
            n == files@.len(),
            i <= n,
            forall|j: int| 0 <= j < i ==> files@[j]@ != target@,
        decreases n - i,
    {
        if same_text(files[i].as_str(), target) {
            assert(texts(files@)[i as int] == target@);
            return true;
        }
        i = i + 1;
    }
    assert forall|j: int| 0 <= j < texts(files@).len() implies texts(files@)[j] != target@ by {
        assert(texts(files@)[j] == files@[j]@);
    }
    false
}

/// The names of the written unit files to enable and start: each timer, and
/// each service that no timer of the same name starts.
pub fn units_to_enable(files: &Vec<String>) -> (r: Vec<String>)
    ensures
        texts(r@) == units_to_enable_spec(texts(files@)),
{
    let ghost all = texts(files@);
    let ghost pred = |f: Seq<char>| enabled_by_itself(all, f);
    let mut r: Vec<String> = Vec::new();
    let n = files.len();
    let mut i: usize = 0;
    proof {
        reveal(Seq::filter);
        assert(all.take(0) =~= Seq::<Seq<char>>::empty());
        assert(texts(r@) =~= Seq::<Seq<char>>::empty());
    }
    while i < n
        invariant
            n == files@.len(),
            all == texts(files@),
            pred == (|f: Seq<char>| enabled_by_itself(all, f)),
            i <= n,
            texts(r@) == all.take(i as int).filter(pred),
        decreases n - i,
    {
        let f = &files[i];
        proof {
            reveal_strlit(".service");
        }
        let keep = if has_suffix(f.as_str(), ".timer") {
            true
        } else if has_suffix(f.as_str(), ".service") {
            let len = f.as_str().unicode_len();
            let stem = f.as_str().substring_char(0, len - 8);
            let timer = join2(stem, ".timer");
            !contains_text(files, timer.as_str())
        } else {
            false
        };
        proof {
            reveal_strlit(".service");
            reveal(Seq::filter);
            assert(all[i as int] == f@);
            assert(all.take(i + 1).drop_last() =~= all.take(i as int));
            assert(all.take(i + 1).last() == f@);
            assert(keep == pred(f@));
        }
        let ghost before = r@;
        if keep {
            r.push(f.clone());
            assert(texts(r@) =~= texts(before).push(f@));
        }
        i = i + 1;
    }
    assert(all.take(n as int) =~= all);
    r
}

/// The service that restarts the pod of file `f`: its name without `.pod`,
/// then `-pod.service`.
pub open spec fn pod_service(f: Seq<char>) -> Seq<char> {
    f.subrange(0, f.len() - 4) + "-pod.service"@
}

/// Whether `f` names a pod file with a non-empty stem.
pub open spec fn is_pod_file(f: Seq<char>) -> bool {
    f.len() > 4 && ends_with(f, ".pod"@)
}

/// The services to restart after the quadlet files `files` are activated: one
/// for each pod, in order.
pub fn pod_services(files: &Vec<String>) -> (r: Vec<String>)
    ensures
        texts(r@) == texts(files@).filter(|f: Seq<char>| is_pod_file(f)).map_values(
            |f: Seq<char>| pod_service(f),
        ),
{
    let ghost all = texts(files@);
    let ghost pred = |f: Seq<char>| is_pod_file(f);
    let ghost fmap = |f: Seq<char>| pod_service(f);
    let mut r: Vec<String> = Vec::new();
    let n = files.len();
    let mut i: usize = 0;
    proof {
        reveal(Seq::filter);
        assert(all.take(0) =~= Seq::<Seq<char>>::empty());
        assert(texts(r@) =~= Seq::<Seq<char>>::empty());
    }
    while i < n
        invariant
            n == files@.len(),
            all == texts(files@),
            pred == (|f: Seq<char>| is_pod_file(f)),
            fmap == (|f: Seq<char>| pod_service(f)),
            i <= n,
            texts(r@) == all.take(i as int).filter(pred).map_values(fmap),
        decreases n - i,
    {
        let f = &files[i];
        let len = f.as_str().unicode_len();
        proof {
            reveal(Seq::filter);
            reveal_strlit(".pod");
            assert(all[i as int] == f@);
            assert(all.take(i + 1).drop_last() =~= all.take(i as int));
            assert(all.take(i + 1).last() == f@);
        }
        let ghost before = r@;
        if len > 4 && has_suffix(f.as_str(), ".pod") {
            let stem = f.as_str().substring_char(0, len - 4);
            let svc = join2(stem, "-pod.service");
            r.push(svc);
            assert(texts(r@) =~= texts(before).push(pod_service(f@)));
            assert(all.take(i + 1).filter(pred) == all.take(i as int).filter(pred).push(f@));
            assert(all.take(i + 1).filter(pred).map_values(fmap) =~= all.take(i as int).filter(
                pred,
            ).map_values(fmap).push(pod_service(f@)));
        } else {
            assert(all.take(i + 1).filter(pred) == all.take(i as int).filter(pred));
        }
        i = i + 1;
    }
    assert(all.take(n as int) =~= all);
    r
}

/// The directory where quadlet files are linked: the system one for root,
/// else the one under the user's home; `None` where the home is not known.
pub fn quadlet_target_dir(is_root: bool, home: Option<&str>) -> (r: Option<String>)
    ensures
        is_root ==> (r is Some && r.unwrap()@ == "/etc/containers/systemd"@),
        !is_root ==> match home {
            Some(h) => r is Some && r.unwrap()@ == h@ + "/.config/containers/systemd"@,
            None => r is None,
        },
{
    if is_root {
        Some("/etc/containers/systemd".to_owned())
    } else {
        match home {
            Some(h) => Some(join2(h, "/.config/containers/systemd")),
            None => None,
        }
    }
}

/// What follows the verification of written unit files.
#[derive(Debug, Clone)]
pub enum ActivationStep {
    /// Some file failed: offer to delete the failed files, and activate
    /// nothing.
    OfferDeletion(Question),
    /// Every file passed: offer to activate them.
    OfferActivation(Question),
}

/// The step after verifying the written unit files: deletion of the failed
/// ones (default no) where any failed, else activation (default yes).
pub fn after_verification(any_failed: bool) -> (r: ActivationStep)
    ensures
        any_failed ==> (r matches ActivationStep::OfferDeletion(q) && q.prompt@
            == "Delete the failed files?"@ && !q.yes_default),
        !any_failed ==> (r matches ActivationStep::OfferActivation(q) && q.prompt@
            == "Activate the new service files? (Ensure your files have been created in the correct directories!)"@
            && q.yes_default),
{
    if any_failed {
        ActivationStep::OfferDeletion(
            Question { prompt: "Delete the failed files?".to_owned(), yes_default: false },
        )
    } else {
        ActivationStep::OfferActivation(
            Question {
                prompt: "Activate the new service files? (Ensure your files have been created in the correct directories!)".to_owned(),
                yes_default: true,
            },
        )
    }
}

} // verus!
