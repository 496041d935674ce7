//! The confirmation prompt's decisions, permission bits and path normalization.
use vstd::prelude::*;
use vstd::string::*;

use crate::text::{join2, same_text};


verus! {

/// Whether a file mode grants any of the permission bits of `bitflag`; a file
/// whose mode could not be read grants none.
pub fn has_permission(mode: Option<u32>, bitflag: u32) -> (r: bool)
    ensures
        r == match mode {
            Some(m) => m & bitflag != 0,
            None => false,
        },
{
    match mode {
        Some(m) => m & bitflag != 0,
        None => false,
    }
}

/// Whether the controlling terminal, with mode `tty_mode`, is writable by
/// anyone, that is whether prompts can be answered.
pub fn is_interactive(tty_mode: Option<u32>) -> (r: bool)
    ensures
        r == match tty_mode {
            Some(m) => m & 0o222 != 0,
            None => false,
        },
{
    has_permission(tty_mode, 0o222)
}

/// The code of a character's ASCII lower case.
pub open spec fn ascii_lower(c: char) -> int {
    if 'A' <= c && c <= 'Z' {
        (c as u32) + 32
    } else {
        c as u32 as int
    }
}

/// Equality of two texts, ignoring ASCII case.
pub open spec fn eq_ignore_ascii_case(a: Seq<char>, b: Seq<char>) -> bool {
    a.len() == b.len() && forall|i: int| 0 <= i < a.len() ==> ascii_lower(#[trigger] a[i]) == ascii_lower(b[i])
}

fn lower_char(c: char) -> (r: u32)
    ensures
        r as int == ascii_lower(c),
{
    if 'A' <= c && c <= 'Z' {
        (c as u32) + 32
    } else {
        c as u32
    }
}

/// Whether `a` and `b` are equal, ignoring ASCII case.
pub fn same_ignoring_ascii_case(a: &str, b: &str) -> (r: bool)
    ensures
        r == eq_ignore_ascii_case(a@, b@),
{
    let n = a.unicode_len();
    if n != b.unicode_len() {
        return false;
    }
    let mut i: usize = 0;
    while i < n
        invariant
            n == a@.len(),
            n == b@.len(),
            i <= n,
            forall|j: int| 0 <= j < i ==> ascii_lower(#[trigger] a@[j]) == ascii_lower(b@[j]),
        decreases n - i,
    {
        if lower_char(a.get_char(i)) != lower_char(b.get_char(i)) {
            return false;
        }
        i = i + 1;
    }
    true
}

/// Whether confirmations run unattended: the value of the auto-mode variable, if
/// set, is `true` in any case.
pub fn auto_mode(var: Option<&str>) -> (r: bool)
    ensures
        r == match var {
            Some(v) => eq_ignore_ascii_case(v@, "true"@),
            None => false,
        },
{
    match var {
        Some(v) => same_ignoring_ascii_case(v, "true"),
        None => false,
    }
}

/// A question to confirm, with the answer it takes by default.
#[derive(Debug, Clone)]
pub struct Question {
    pub prompt: String,
    pub yes_default: bool,
}

/// A yes/no question for the user. The default answer is the affirmative
/// choice; where the default is no, the labels are swapped and the choice
/// inverted.
#[derive(Debug, Clone)]
pub struct ConfirmDialog {
    pub prompt: String,
    pub affirmative: String,
    pub negative: String,
    pub inverted: bool,
}

/// What becomes of a question.
#[derive(Debug, Clone)]
pub enum Confirmation {
    /// The answer, given without asking.
    Answered(bool),
    /// The question to put to the user.
    Ask(ConfirmDialog),
}

/// The decision on `prompt` with default `yes_default`: in auto mode or
/// without a terminal it answers the default; else the user is asked.
pub fn ask_confirm(prompt: &str, yes_default: bool, auto: bool, interactive: bool) -> (r:
    Confirmation)
    ensures
        (auto || !interactive) ==> r == Confirmation::Answered(yes_default),
        (!auto && interactive) ==> (r matches Confirmation::Ask(d) && d.prompt@ == prompt@
            && d.inverted == !yes_default && d.affirmative@ == (if yes_default {
            "Yes"@
        } else {
            "No"@
        }) && d.negative@ == (if yes_default {
            "No"@
        } else {
            "Yes"@
        })),
{
    if auto || !interactive {
        return Confirmation::Answered(yes_default);
    }
    if yes_default {
        Confirmation::Ask(
            ConfirmDialog {
                prompt: prompt.to_owned(),
                affirmative: "Yes".to_owned(),
                negative: "No".to_owned(),
                inverted: false,
            },
        )
    } else {
        Confirmation::Ask(
            ConfirmDialog {
                prompt: prompt.to_owned(),
                affirmative: "No".to_owned(),
                negative: "Yes".to_owned(),
                inverted: true,
            },
        )
    }
}

/// The answer to a dialog from the user's choice (`true` for the affirmative
/// label): whether the user said yes.
pub fn confirm_answer(dialog: &ConfirmDialog, affirmative_chosen: bool) -> (r: bool)
    ensures
        r == (affirmative_chosen != dialog.inverted),
{
    if dialog.inverted {
        !affirmative_chosen
    } else {
        affirmative_chosen
    }
}

/// The `/`-separated segments of a path, empty ones included.
pub open spec fn segments(p: Seq<char>) -> Seq<Seq<char>>
    decreases p.len(),
{
    if p.len() == 0 {
        seq![Seq::empty()]
    } else {
        let s = segments(p.drop_last());
        if p.last() == '/' {
            s.push(Seq::empty())
        } else {
            s.update(s.len() - 1, s.last().push(p.last()))
        }
    }
}

/// The components left after one more segment: empty and `.` segments are
/// dropped, `..` drops the last component (none above the root).
pub open spec fn resolve_step(comps: Seq<Seq<char>>, seg: Seq<char>) -> Seq<Seq<char>> {
    if seg.len() == 0 || seg == "."@ {
        comps
    } else if seg == ".."@ {
        if comps.len() > 0 {
            comps.drop_last()
        } else {
            comps
        }
    } else {
        comps.push(seg)
    }
}

/// The components of a path after resolving `.` and `..` lexically.
pub open spec fn resolve(segs: Seq<Seq<char>>) -> Seq<Seq<char>>
    decreases segs.len(),
{
    if segs.len() == 0 {
        Seq::empty()
    } else {
        resolve_step(resolve(segs.drop_last()), segs.last())
    }
}

/// Components written as a path under the root, each after a `/`.
pub open spec fn slash_joined(comps: Seq<Seq<char>>) -> Seq<char>
    decreases comps.len(),
{
    if comps.len() == 0 {
        Seq::empty()
    } else {
        slash_joined(comps.drop_last()) + "/"@ + comps.last()
    }
}

/// The absolute path of components `comps`; the root where there is none.
pub open spec fn absolute_of(comps: Seq<Seq<char>>) -> Seq<char> {
    if comps.len() == 0 {
        "/"@
    } else {
        slash_joined(comps)
    }
}

/// The absolute form of `path` against the directory `cwd`, with `.` and `..`
/// resolved lexically.
pub open spec fn normalized(path: Seq<char>, cwd: Seq<char>) -> Seq<char> {
    let full = if path.len() > 0 && path[0] == '/' {
        path
    } else {
        cwd + "/"@ + path
    };
    absolute_of(resolve(segments(full)))
}

proof fn lemma_segments_nonempty(p: Seq<char>)
    ensures
        segments(p).len() >= 1,
    decreases p.len(),
{
    if p.len() > 0 {
        lemma_segments_nonempty(p.drop_last());
    }
}

/// The segment `seg` applied to the resolved components `comps`.
fn resolve_push(comps: &mut Vec<String>, seg: &str)
    ensures
        final(comps)@.map_values(|s: String| s@) == resolve_step(
            old(comps)@.map_values(|s: String| s@),
            seg@,
        ),
{
    proof {
        reveal_strlit(".");
        reveal_strlit("..");
    }
    let ghost before = comps@.map_values(|s: String| s@);
    let n = seg.unicode_len();
    if n == 0 || same_text(seg, ".") {
    } else if same_text(seg, "..") {
        if comps.len() > 0 {
            comps.pop();
            assert(comps@.map_values(|s: String| s@) =~= before.drop_last());
        }
    } else {
        comps.push(seg.to_owned());
        assert(comps@.map_values(|s: String| s@) =~= before.push(seg@));
    }
}

/// The absolute form of `path`, resolved against `cwd` where it is relative,
/// with `.` and `..` resolved lexically: no link is followed and nothing needs
/// to exist.
pub fn normalize_path(path: &str, cwd: &str) -> (r: String)
    ensures
        r@ == normalized(path@, cwd@),
{
    let full = if path.unicode_len() > 0 && path.get_char(0) == '/' {
        path.to_owned()
    } else {
        join2(cwd, "/").concat(path)
    };
    let ghost p = full@;
    let n = full.as_str().unicode_len();
    let mut comps: Vec<String> = Vec::new();
    let mut start: usize = 0;
    let mut i: usize = 0;
    assert(p.take(0) =~= Seq::<char>::empty());
    assert(p.subrange(0, 0) =~= Seq::<char>::empty());
    while i < n
        invariant
            n == p.len(),
            p == full@,
            start <= i <= n,
            segments(p.take(i as int)).len() >= 1,
            comps@.map_values(|s: String| s@) == resolve(segments(p.take(i as int)).drop_last()),
            segments(p.take(i as int)).last() == p.subrange(start as int, i as int),
        decreases n - i,
    {
        let ghost segs = segments(p.take(i as int));
        assert(p.take(i + 1).drop_last() =~= p.take(i as int));
        assert(p.take(i + 1).last() == p[i as int]);
        if full.as_str().get_char(i) == '/' {
            let seg = full.as_str().substring_char(start, i);
            resolve_push(&mut comps, seg);
            proof {
                let s2 = segments(p.take(i + 1));
                assert(s2 == segs.push(Seq::empty()));
                assert(s2.drop_last() =~= segs);
                assert(segs =~= segs.drop_last().push(segs.last()));
                assert(p.subrange(i + 1, i + 1) =~= Seq::<char>::empty());
            }
            start = i + 1;
        } else {
            proof {
                let s2 = segments(p.take(i + 1));
                assert(s2.drop_last() =~= segs.drop_last());
                assert(p.subrange(start as int, i + 1) =~= p.subrange(start as int, i as int).push(
                    p[i as int],
                ));
            }
        }
        i = i + 1;
        proof {
            lemma_segments_nonempty(p.take(i as int));
        }
    }
    let last = full.as_str().substring_char(start, n);
    resolve_push(&mut comps, last);
    proof {
        assert(p.take(n as int) =~= p);
        let segs = segments(p);
        assert(segs =~= segs.drop_last().push(segs.last()));
    }
    let ghost cv = comps@.map_values(|s: String| s@);
    if comps.len() == 0 {
        return "/".to_owned();
    }
    let mut out = String::new();
    let mut j: usize = 0;
    assert(cv.take(0) =~= Seq::<Seq<char>>::empty());
    while j < comps.len()
        invariant
            cv == comps@.map_values(|s: String| s@),
            j <= comps@.len(),
            out@ == slash_joined(cv.take(j as int)),
        decreases comps@.len() - j,
    {
        out = out.concat("/").concat(comps[j].as_str());
        proof {
            assert(cv.take(j + 1).drop_last() =~= cv.take(j as int));
            assert(cv.take(j + 1).last() == comps@[j as int]@);
        }
        j = j + 1;
    }
    assert(cv.take(comps@.len() as int) =~= cv);
    out
}

/// One file of a listing: a line `# <name>`, then its content and a newline.
pub open spec fn listing_entry(name: Seq<char>, content: Seq<char>) -> Seq<char> {
    "# "@ + name + "\n"@ + content + "\n"@
}

/// Files written one after the other, separated by a line `---` between
/// blank lines.
pub open spec fn listing(files: Seq<(Seq<char>, Seq<char>)>) -> Seq<char>
    decreases files.len(),
{
    if files.len() == 0 {
        Seq::empty()
    } else if files.len() == 1 {
        listing_entry(files[0].0, files[0].1)
    } else {
        listing(files.drop_last()) + "\n---\n\n"@ + listing_entry(files.last().0, files.last().1)
    }
}

/// The text that shows rendered files on the terminal: each file's name in a
/// header line, then its content, with a `---` line between files.
pub fn render_listing(files: &Vec<(String, String)>) -> (r: String)
    ensures
        r@ == listing(files@.map_values(|p: (String, String)| (p.0@, p.1@))),
{
    let ghost fv = files@.map_values(|p: (String, String)| (p.0@, p.1@));
    let mut out = String::new();
    let n = files.len();
    let mut i: usize = 0;
    assert(fv.take(0) =~= Seq::<(Seq<char>, Seq<char>)>::empty());
    while i < n
        invariant
            n == files@.len(),
            fv == files@.map_values(|p: (String, String)| (p.0@, p.1@)),
            i <= n,
            out@ == listing(fv.take(i as int)),
        decreases n - i,
    {
        if i > 0 {
            out = out.concat("\n---\n\n");
        }
        out = out.concat("# ").concat(files[i].0.as_str()).concat("\n").concat(
            files[i].1.as_str(),
        ).concat("\n");
        proof {
            assert(fv.take(i + 1).drop_last() =~= fv.take(i as int));
            assert(fv.take(i + 1).last() == fv[i as int]);
            if i == 0 {
                assert(fv.take(1)[0] == fv[0]);
            }
        }
        i = i + 1;
    }
    assert(fv.take(n as int) =~= fv);
    out
}

} // verus!
