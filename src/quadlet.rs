//! The quadlet rule engine: augments the units that the compose compiler
//! produced, each rule subject to an answer.
use vstd::prelude::*;

use indexmap::IndexMap;

use crate::formats::{
    get_key, has_key, ini_entries, key_pos, lookup, put_entry, section_or_empty, set_key,
    FilesView, Ini, IniFiles,
    IniView, Section,
};
use crate::text::{
    contains_char, ends_with, first_index, has_char, has_prefix, has_suffix, join2, opt_str_view,
    opt_view, same_text, split_once, starts_with,
};

verus! {

/// The dependencies that a container unit is ordered after.
pub open spec fn after_targets() -> Seq<char> {
    "local-fs.target network-online.target systemd-networkd-wait-online.service"@
}

/// A rule of the quadlet engine that asks for confirmation.
#[derive(Debug, Clone, Copy, PartialEq, Eq)]
pub enum RuleKind {
    /// `Install.WantedBy=default.target` on a pod.
    WantedBy,
    /// `Unit.After=` the network and file-system targets on a container.
    After,
    /// `Service.EnvironmentFile=` the `.env` file on a container.
    EnvironmentFile,
    /// `Service.AutoUpdate=` on a container.
    AutoUpdate,
}

/// A question to put through the confirmation prompt.
#[derive(Debug, Clone)]
pub struct RulePrompt {
    pub kind: RuleKind,
    pub prompt: String,
    pub yes_default: bool,
}

/// The answers given for one unit; a rule that was not asked is `false`.
#[derive(Debug, Clone, Copy, PartialEq, Eq)]
pub struct RuleAnswers {
    pub wanted_by: bool,
    pub after: bool,
    pub environment_file: bool,
    pub auto_update: bool,
}

impl RuleAnswers {
    /// No rule accepted.
    pub fn none() -> (r: RuleAnswers)
        ensures
            !r.wanted_by && !r.after && !r.environment_file && !r.auto_update,
    {
        RuleAnswers { wanted_by: false, after: false, environment_file: false, auto_update: false }
    }

    /// Records the answer to the rule `kind`.
    pub fn record(&mut self, kind: RuleKind, answer: bool)
        ensures
            final(self).wanted_by == (if kind == RuleKind::WantedBy {
                answer
            } else {
                old(self).wanted_by
            }),
            final(self).after == (if kind == RuleKind::After {
                answer
            } else {
                old(self).after
            }),
            final(self).environment_file == (if kind == RuleKind::EnvironmentFile {
                answer
            } else {
                old(self).environment_file
            }),
            final(self).auto_update == (if kind == RuleKind::AutoUpdate {
                answer
            } else {
                old(self).auto_update
            }),
    {
        match kind {
            RuleKind::WantedBy => self.wanted_by = answer,
            RuleKind::After => self.after = answer,
            RuleKind::EnvironmentFile => self.environment_file = answer,
            RuleKind::AutoUpdate => self.auto_update = answer,
        }
    }
}

/// The auto-update policy of an image: `registry` for a reference that names
/// a domain (holds a `.`), else `local`.
pub open spec fn auto_update_value(image: Seq<char>) -> Seq<char> {
    if has_char(image, '.') {
        "registry"@
    } else {
        "local"@
    }
}

/// The image of a unit's `Container` section, empty where there is none.
pub open spec fn container_image(d: IniView) -> Seq<char> {
    match lookup(section_or_empty(d, "Container"@), "Image"@) {
        Some(v) => v,
        None => Seq::empty(),
    }
}

/// A unit after the rules of its kind, with answers `a` and the `.env` file
/// `env_file`, if one was found.
pub open spec fn kind_rules(
    name: Seq<char>,
    d: IniView,
    env_file: Option<Seq<char>>,
    a: RuleAnswers,
) -> IniView {
    if ends_with(name, ".pod"@) {
        if a.wanted_by {
            put_entry(
                d,
                "Install"@,
                put_entry(section_or_empty(d, "Install"@), "WantedBy"@, "default.target"@),
            )
        } else {
            d
        }
    } else if ends_with(name, ".container"@) {
        let unit0 = section_or_empty(d, "Unit"@);
        let unit1 = if a.after {
            put_entry(unit0, "After"@, after_targets())
        } else {
            unit0
        };
        let d1 = put_entry(d, "Unit"@, unit1);
        let svc0 = section_or_empty(d1, "Service"@);
        let svc1 = match env_file {
            Some(p) => if a.environment_file {
                put_entry(svc0, "EnvironmentFile"@, p)
            } else {
                svc0
            },
            None => svc0,
        };
        let svc2 = if a.auto_update {
            put_entry(svc1, "AutoUpdate"@, auto_update_value(container_image(d)))
        } else {
            svc1
        };
        put_entry(d1, "Service"@, svc2)
    } else {
        d
    }
}

/// A unit after its rules: those of its kind, then a `Service` section,
/// created empty where there is none.
pub open spec fn quadlet_rules(
    name: Seq<char>,
    d: IniView,
    env_file: Option<Seq<char>>,
    a: RuleAnswers,
) -> IniView {
    let d2 = kind_rules(name, d, env_file, a);
    put_entry(d2, "Service"@, section_or_empty(d2, "Service"@))
}

/// Every document that leaves the rules has a `Service` section.
pub proof fn law_quadlet_has_service(
    name: Seq<char>,
    d: IniView,
    env_file: Option<Seq<char>>,
    a: RuleAnswers,
)
    ensures
        has_key(quadlet_rules(name, d, env_file, a), "Service"@),
{
    let d2 = kind_rules(name, d, env_file, a);
    let r = quadlet_rules(name, d, env_file, a);
    if has_key(d2, "Service"@) {
        let p = key_pos(d2, "Service"@);
        assert(r[p].0 == "Service"@);
    } else {
        assert(r[d2.len() as int].0 == "Service"@);
    }
}

/// Every unit of `files` after its rules, with the answers given for it.
pub open spec fn quadlets_after_rules(
    files: FilesView,
    env_file: Option<Seq<char>>,
    answers: Seq<RuleAnswers>,
) -> FilesView {
    Seq::new(
        files.len(),
        |i: int| (files[i].0, quadlet_rules(files[i].0, files[i].1, env_file, answers[i])),
    )
}

/// The prompt of a rule on unit `name`.
pub open spec fn prompt_text(kind: RuleKind, name: Seq<char>, env_file: Seq<char>) -> Seq<char> {
    match kind {
        RuleKind::WantedBy => "Add WantedBy=default.target to '"@ + name + "'?"@,
        RuleKind::After => "Add After="@ + after_targets() + " to '"@ + name + "'?"@,
        RuleKind::EnvironmentFile => "Add EnvironmentFile="@ + env_file + " to '"@ + name + "'?"@,
        RuleKind::AutoUpdate => "Add AutoUpdate= to '"@ + name + "'?"@,
    }
}

/// The rules asked for on unit `name`, in order.
pub open spec fn rule_kinds(name: Seq<char>, has_env: bool) -> Seq<RuleKind> {
    if ends_with(name, ".pod"@) {
        seq![RuleKind::WantedBy]
    } else if ends_with(name, ".container"@) {
        if has_env {
            seq![RuleKind::After, RuleKind::EnvironmentFile, RuleKind::AutoUpdate]
        } else {
            seq![RuleKind::After, RuleKind::AutoUpdate]
        }
    } else {
        Seq::empty()
    }
}

fn make_prompt(kind: RuleKind, name: &str, env_file: &str) -> (r: RulePrompt)
    ensures
        r.kind == kind,
        r.prompt@ == prompt_text(kind, name@, env_file@),
        r.yes_default,
{
    let text = match kind {
        RuleKind::WantedBy => join2("Add WantedBy=default.target to '", name).concat("'?"),
        RuleKind::After => join2(
            "Add After=local-fs.target network-online.target systemd-networkd-wait-online.service to '",
            name,
        ).concat("'?"),
        RuleKind::EnvironmentFile => join2("Add EnvironmentFile=", env_file).concat(" to '").concat(
            name,
        ).concat("'?"),
        RuleKind::AutoUpdate => join2("Add AutoUpdate= to '", name).concat("'?"),
    };
    proof {
        assert("Add After=local-fs.target network-online.target systemd-networkd-wait-online.service to '"@
            == "Add After="@ + after_targets() + " to '"@) by {
            reveal_strlit(
                "Add After=local-fs.target network-online.target systemd-networkd-wait-online.service to '",
            );
            reveal_strlit("Add After=");
            reveal_strlit("local-fs.target network-online.target systemd-networkd-wait-online.service");
            reveal_strlit(" to '");
            assert("Add After=local-fs.target network-online.target systemd-networkd-wait-online.service to '"@
                =~= "Add After="@ + after_targets() + " to '"@);
        }
    }
    RulePrompt { kind, prompt: text, yes_default: true }
}

/// The questions that the rules for unit `name` put to the user, in
/// order; each defaults to yes.
pub fn rule_prompts(name: &str, env_file: Option<&str>) -> (r: Vec<RulePrompt>)
    ensures
        r@.len() == rule_kinds(name@, env_file.is_some()).len(),
        forall|i: int|
            0 <= i < r@.len() ==> (#[trigger] r@[i]).kind == rule_kinds(name@, env_file.is_some())[i]
                && r@[i].yes_default && r@[i].prompt@ == prompt_text(
                r@[i].kind,
                name@,
                match env_file {
                    Some(p) => p@,
                    None => Seq::empty(),
                },
            ),
{
    let mut r: Vec<RulePrompt> = Vec::new();
    let env = match env_file {
        Some(p) => p,
        None => "",
    };
    proof {
        reveal_strlit("");
    }
    if has_suffix(name, ".pod") {
        r.push(make_prompt(RuleKind::WantedBy, name, env));
    } else if has_suffix(name, ".container") {
        r.push(make_prompt(RuleKind::After, name, env));
        if env_file.is_some() {
            r.push(make_prompt(RuleKind::EnvironmentFile, name, env));
        }
        r.push(make_prompt(RuleKind::AutoUpdate, name, env));
    }
    r
}

/// Applies the rules of its kind to unit `name`.
pub fn apply_quadlet_rules(name: &str, unit: Ini, env_file: Option<&str>, a: &RuleAnswers) -> (r:
    Ini)
    ensures
        r@ == quadlet_rules(
            name@,
            unit@,
            opt_str_view(env_file),
            *a,
        ),
        has_key(r@, "Service"@),
{
    let ghost old_unit = unit@;
    let mut unit = unit;
    if has_suffix(name, ".pod") {
        if a.wanted_by {
            let mut install = unit.section_or_default("Install");
            set_key(&mut install, "WantedBy", "default.target");
            unit.insert("Install".to_owned(), install);
        }
    } else if has_suffix(name, ".container") {
        let image = match unit.get("Container") {
            Some(c) => match get_key(&c, "Image") {
                Some(v) => v,
                None => String::new(),
            },
            None => String::new(),
        };
        let mut unit_sec = unit.section_or_default("Unit");
        if a.after {
            set_key(
                &mut unit_sec,
                "After",
                "local-fs.target network-online.target systemd-networkd-wait-online.service",
            );
        }
        unit.insert("Unit".to_owned(), unit_sec);
        let mut svc = unit.section_or_default("Service");
        match env_file {
            Some(p) => {
                if a.environment_file {
                    set_key(&mut svc, "EnvironmentFile", p);
                }
            },
            None => {},
        }
        if a.auto_update {
            if contains_char(image.as_str(), '.') {
                set_key(&mut svc, "AutoUpdate", "registry");
            } else {
                set_key(&mut svc, "AutoUpdate", "local");
            }
        }
        unit.insert("Service".to_owned(), svc);
    }
    let svc = unit.section_or_default("Service");
    unit.insert("Service".to_owned(), svc);
    proof {
        law_quadlet_has_service(name@, old_unit, opt_str_view(env_file), *a);
    }
    unit
}

/// Applies the quadlet rules to every unit, each with the answers given for
/// it; `env_file` is the `.env` file of the base directory, if there is one.
pub fn process_quadlets(units: IniFiles, env_file: Option<String>, answers: &Vec<RuleAnswers>) -> (r:
    IniFiles)
    requires
        answers@.len() == units@.len(),
    ensures
        r@ == quadlets_after_rules(
            units@,
            opt_view(env_file),
            answers@,
        ),
        forall|i: int| 0 <= i < r@.len() ==> has_key(#[trigger] r@[i].1, "Service"@),
{
    let ghost orig = units@;
    let ghost env = opt_view(env_file);
    let n = units.0.len();
    let mut rest = units.0;
    let mut out: Vec<(String, Ini)> = Vec::new();
    let mut i: usize = 0;
    while i < n
        invariant
            n == orig.len(),
            answers@.len() == n,
            env == opt_view(env_file),
            i <= n,
            rest@.len() == n - i,
            forall|j: int|
                0 <= j < n - i ==> (#[trigger] rest@[j]).0@ == orig[j + i].0 && rest@[j].1@ == orig[j
                    + i].1,
            out@.len() == i,
            forall|j: int|
                0 <= j < i ==> (#[trigger] out@[j]).0@ == orig[j].0 && out@[j].1@ == quadlet_rules(
                    orig[j].0,
                    orig[j].1,
                    env,
                    answers@[j],
                ),
        decreases n - i,
    {
        let (name, doc) = rest.remove(0);
        let env_ref: Option<&str> = match &env_file {
            Some(p) => Some(p.as_str()),
            None => None,
        };
        assert(opt_str_view(env_ref) == env);
        let ghost before = out@;
        let doc = apply_quadlet_rules(name.as_str(), doc, env_ref, &answers[i]);
        out.push((name, doc));
        assert(forall|j: int| 0 <= j < i ==> out@[j] == before[j]);
        i = i + 1;
    }
    let r = IniFiles(out);
    assert(r@ =~= quadlets_after_rules(orig, env, answers@));
    assert forall|i: int| 0 <= i < r@.len() implies has_key(#[trigger] r@[i].1, "Service"@) by {
        law_quadlet_has_service(orig[i].0, orig[i].1, env, answers@[i]);
    }
    r
}

/// The blocks of `s` separated by `d`, scanning from position `i` in a block
/// that starts at `start`.
pub open spec fn split_from(s: Seq<char>, d: Seq<char>, start: int, i: int) -> Seq<Seq<char>>
    decreases s.len() - i,
{
    if d.len() == 0 || i < start || start < 0 || i + d.len() > s.len() {
        seq![s.subrange(start, s.len() as int)]
    } else if s.subrange(i, i + d.len()) == d {
        seq![s.subrange(start, i)] + split_from(s, d, i + d.len(), i + d.len())
    } else {
        split_from(s, d, start, i + 1)
    }
}

/// The blocks of `s` separated by the delimiter `d`, found left to right.
pub open spec fn split_on(s: Seq<char>, d: Seq<char>) -> Seq<Seq<char>> {
    split_from(s, d, 0, 0)
}

/// Splits `s` at every occurrence of the non-empty delimiter `d`.
pub fn split_blocks(s: &str, d: &str) -> (r: Vec<String>)
    requires
        d@.len() > 0,
    ensures
        r@.map_values(|x: String| x@) == split_on(s@, d@),
{
    let n = s.unicode_len();
    let m = d.unicode_len();
    let mut out: Vec<String> = Vec::new();
    let mut start: usize = 0;
    let mut i: usize = 0;
    while m <= n - i
        invariant
            n == s@.len(),
            m == d@.len(),
            m > 0,
            start <= i <= n,
            out@.map_values(|x: String| x@) + split_from(s@, d@, start as int, i as int) == split_on(
                s@,
                d@,
            ),
        decreases n - i,
    {
        let window = s.substring_char(i, i + m);
        let ghost before = out@.map_values(|x: String| x@);
        if same_text(window, d) {
            let block = s.substring_char(start, i).to_owned();
            out.push(block);
            proof {
                assert(out@.map_values(|x: String| x@) =~= before.push(s@.subrange(start as int, i as int)));
                assert(split_from(s@, d@, start as int, i as int) == seq![s@.subrange(start as int, i as int)]
                    + split_from(s@, d@, (i + m) as int, (i + m) as int));
                assert(before.push(s@.subrange(start as int, i as int)) + split_from(s@, d@, (i + m) as int, (i + m) as int)
                    =~= before + (seq![s@.subrange(start as int, i as int)] + split_from(s@, d@, (i + m) as int, (i + m) as int)));
            }
            start = i + m;
            i = i + m;
        } else {
            i = i + 1;
        }
    }
    let last = s.substring_char(start, n).to_owned();
    let ghost before = out@.map_values(|x: String| x@);
    out.push(last);
    assert(split_from(s@, d@, start as int, i as int) == seq![s@.subrange(start as int, n as int)]);
    assert(out@.map_values(|x: String| x@) =~= before + seq![s@.subrange(start as int, n as int)]);
    out
}

/// What `str::trim` gives for a text: without its leading and trailing white
/// space.
pub uninterp spec fn trim_of(s: Seq<char>) -> Seq<char>;

/// Relies on `str::trim`: the result depends on the text alone.
#[verifier::external_body]
fn trim_text(s: &str) -> (r: String)
    ensures
        r@ == trim_of(s@),
{
    s.trim().to_owned()
}

/// What `serde_ini::from_str` reads from a text as a document: its sections in
/// order, each with its keys; `None` where the text is not INI.
pub uninterp spec fn ini_parse_of(text: Seq<char>) -> Option<IniView>;

/// Relies on `serde_ini::from_str` into an ordered map of ordered maps: the
/// document depends on the text alone.
#[verifier::external_body]
fn parse_ini(text: &str) -> (r: Option<IndexMap<String, Section>>)
    ensures
        match r {
            Some(m) => ini_parse_of(text@) == Some(ini_entries(m)),
            None => ini_parse_of(text@).is_none(),
        },
{
    serde_ini::from_str::<IndexMap<String, Section>>(text).ok()
}

/// Why the compiler's output could not be read; each names the block, counted
/// from zero.
#[derive(Debug, PartialEq, Eq, Clone, Copy)]
pub enum QuadletParseError {
    /// The block's first line is not `# <unit-name>`.
    MissingHeader(usize),
    /// The block's body is not an INI document.
    InvalidIni(usize),
}

/// The first line of a block.
pub open spec fn block_header(b: Seq<char>) -> Seq<char> {
    if has_char(b, '\n') {
        b.subrange(0, choose|i: int| first_index(b, '\n', i))
    } else {
        b
    }
}

/// What follows the first line of a block.
pub open spec fn block_body(b: Seq<char>) -> Seq<char> {
    if has_char(b, '\n') {
        b.subrange((choose|i: int| first_index(b, '\n', i)) + 1, b.len() as int)
    } else {
        Seq::empty()
    }
}

/// The units read from the blocks, in order; a later unit of the same name
/// replaces an earlier one.
pub open spec fn parse_blocks(blocks: Seq<Seq<char>>) -> Result<FilesView, QuadletParseError>
    decreases blocks.len(),
{
    if blocks.len() == 0 {
        Ok(Seq::empty())
    } else {
        match parse_blocks(blocks.drop_last()) {
            Err(e) => Err(e),
            Ok(files) => {
                let k = (blocks.len() - 1) as usize;
                let b = blocks.last();
                let h = block_header(b);
                if !starts_with(h, "# "@) {
                    Err(QuadletParseError::MissingHeader(k))
                } else {
                    match ini_parse_of(block_body(b)) {
                        None => Err(QuadletParseError::InvalidIni(k)),
                        Some(doc) => Ok(put_entry(files, trim_of(h.subrange(2, h.len() as int)), doc)),
                    }
                }
            },
        }
    }
}

/// A failure on a prefix of the blocks is the failure of them all.
proof fn lemma_parse_blocks_err(s: Seq<Seq<char>>, k: int)
    requires
        0 <= k <= s.len(),
        parse_blocks(s.take(k)) is Err,
    ensures
        parse_blocks(s) == parse_blocks(s.take(k)),
    decreases s.len(),
{
    if k == s.len() {
        assert(s.take(k) =~= s);
    } else {
        assert(s.drop_last().take(k) =~= s.take(k));
        lemma_parse_blocks_err(s.drop_last(), k);
    }
}

/// The delimiter between the records of the compiler's output.
pub open spec fn record_delimiter() -> Seq<char> {
    "\n---\n\n"@
}

/// Reads the compiler's output: records separated by a line `---` and a blank
/// line, each a line `# <unit-name>` and then an INI document.
pub fn parse_raw_quadlets(output: &str) -> (r: Result<IniFiles, QuadletParseError>)
    ensures
        match parse_blocks(split_on(output@, record_delimiter())) {
            Ok(files) => r.is_ok() && r.unwrap()@ == files && r.unwrap().wf(),
            Err(e) => r == Err::<IniFiles, QuadletParseError>(e),
        },
{
    proof {
        reveal_strlit("\n---\n\n");
        reveal_strlit("# ");
    }
    let blocks = split_blocks(output, "\n---\n\n");
    let ghost bv = blocks@.map_values(|x: String| x@);
    let mut units = IniFiles::new();
    let n = blocks.len();
    let mut i: usize = 0;
    assert(bv.take(0) =~= Seq::<Seq<char>>::empty());
    while i < n
        invariant
            n == blocks@.len(),
            bv == blocks@.map_values(|x: String| x@),
            bv == split_on(output@, record_delimiter()),
            i <= n,
            units.wf(),
            parse_blocks(bv.take(i as int)) == Ok::<FilesView, QuadletParseError>(units@),
        decreases n - i,
    {
        let b = blocks[i].as_str();
        proof {
            reveal_strlit("# ");
            assert(bv.take(i + 1).drop_last() =~= bv.take(i as int));
            assert(bv.take(i + 1).last() == b@);
        }
        let (header, body) = match split_once(b, '\n') {
            Some((h, rest)) => {
                proof {
                    let j = choose|j: int| first_index(b@, '\n', j) && h@ == b@.subrange(0, j) && rest@ == b@.subrange(j + 1, b@.len() as int);
                    let c = choose|c: int| first_index(b@, '\n', c);
                    assert(c == j) by {
                        if c < j {
                            assert(b@[c] != '\n');
                        } else if j < c {
                            assert(b@[j] != '\n');
                        }
                    }
                }
                (h, rest)
            },
            None => (b.to_owned(), String::new()),
        };
        assert(header@ == block_header(b@));
        assert(body@ == block_body(b@));
        if !has_prefix(header.as_str(), "# ") {
            proof {
                assert(parse_blocks(bv.take(i + 1)) == Err::<FilesView, QuadletParseError>(
                    QuadletParseError::MissingHeader(i),
                ));
                lemma_parse_blocks_err(bv, i + 1);
            }
            return Err(QuadletParseError::MissingHeader(i));
        }
        assert("# "@.len() == 2);
        let len = header.as_str().unicode_len();
        let key = trim_text(header.as_str().substring_char(2, len));
        match parse_ini(body.as_str()) {
            None => {
                proof {
                    lemma_parse_blocks_err(bv, i + 1);
                }
                return Err(QuadletParseError::InvalidIni(i));
            },
            Some(m) => {
                let doc = Ini(m);
                units.insert(key, doc);
            },
        }
        i = i + 1;
    }
    assert(bv.take(n as int) =~= bv);
    Ok(units)
}

} // verus!
