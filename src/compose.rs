//! The compose normalizer's rules: the project name, environment sourcing,
//! variable substitution, image qualification and host paths.
use vstd::prelude::*;

use crate::formats::{has_key, key_pos, lemma_put_entry_unique, lemma_unique_lookup, lookup, put_entry, unique_keys};
use crate::text::{
    contains_char, first_index, has_char, has_prefix, join2, opt_str_view, opt_view, same_text,
    split_at_first, split_once, starts_with, texts,
};
use crate::utils::{normalize_path, normalized, Question};
use crate::json::{manifest_ref, manifest_ref_spec, JsonValue};
use crate::yaml::{deep_copy, same_value, YamlValue};

verus! {

/// Why a compose file cannot be normalized.
#[derive(Debug, PartialEq, Eq)]
pub enum ComposeError {
    /// The file defines no service.
    EmptyServiceSet,
}

/// What `Path::file_name` gives for a path: its final component, if any.
pub uninterp spec fn file_name_of(path: Seq<char>) -> Option<Seq<char>>;

/// Relies on `std::path::Path::file_name`: the final component depends on the
/// path's text alone.
#[verifier::external_body]
fn path_file_name(path: &str) -> (r: Option<String>)
    ensures
        opt_view(r) == file_name_of(path@),
{
    std::path::Path::new(path).file_name().and_then(|n| n.to_str()).map(|n| n.to_owned())
}

/// The project name a compose file gets where it has none: its first service,
/// unless that is `app`, in which case the base directory's name (or `app`
/// where there is no base directory).
pub open spec fn default_project_name(first: Seq<char>, base_dir: Option<Seq<char>>) -> Seq<char> {
    if first != "app"@ {
        first
    } else {
        match base_dir {
            Some(d) => match file_name_of(d) {
                Some(n) => n,
                None => first,
            },
            None => first,
        }
    }
}

/// The first step of normalization: fails on a file without services;
/// otherwise the name to add, where the file has none (`has_name` false).
pub fn resolve_compose_name(service_names: &Vec<String>, has_name: bool, base_dir: Option<&str>) -> (r:
    Result<Option<String>, ComposeError>)
    ensures
        (r == Err::<Option<String>, ComposeError>(ComposeError::EmptyServiceSet)) <==> service_names@.len()
            == 0,
        r.is_ok() ==> (has_name <==> r.unwrap().is_none()),
        r.is_ok() && !has_name ==> r.unwrap().unwrap()@ == default_project_name(
            service_names@[0]@,
            match base_dir {
                Some(d) => Some(d@),
                None => None,
            },
        ),
{
    if service_names.len() == 0 {
        return Err(ComposeError::EmptyServiceSet);
    }
    if has_name {
        return Ok(None);
    }
    let first = &service_names[0];
    if !same_text(first.as_str(), "app") {
        return Ok(Some(first.clone()));
    }
    let dir_name = match base_dir {
        Some(d) => path_file_name(d),
        None => None,
    };
    match dir_name {
        Some(n) => Ok(Some(n)),
        None => Ok(Some(first.clone())),
    }
}

/// The question whether to rename the first service to `app` (default no);
/// none where it is `app` already.
pub fn rename_prompt(first: &str) -> (r: Option<Question>)
    ensures
        r.is_none() <==> first@ == "app"@,
        r.is_some() ==> r.unwrap().prompt@ == "Do you want to rename service '"@ + first@
            + "' to 'app'?"@ && !r.unwrap().yes_default,
{
    if same_text(first, "app") {
        None
    } else {
        Some(
            Question {
                prompt: join2("Do you want to rename service '", first).concat("' to 'app'?"),
                yes_default: false,
            },
        )
    }
}

/// A snapshot of the environment: variables with distinct names, in order of
/// definition.
#[derive(Debug, Clone)]
pub struct EnvSnapshot {
    pub vars: Vec<(String, String)>,
}

impl View for EnvSnapshot {
    type V = Seq<(Seq<char>, Seq<char>)>;

    open spec fn view(&self) -> Seq<(Seq<char>, Seq<char>)> {
        self.vars@.map_values(|p: (String, String)| (p.0@, p.1@))
    }
}

impl EnvSnapshot {
    /// Variable names are distinct.
    pub open spec fn wf(&self) -> bool {
        unique_keys(self@)
    }

    /// An empty environment.
    pub fn new() -> (r: EnvSnapshot)
        ensures
            r@ == Seq::<(Seq<char>, Seq<char>)>::empty(),
            r.wf(),
    {
        EnvSnapshot { vars: Vec::new() }
    }

    /// The value of variable `name`, if set.
    pub fn get(&self, name: &str) -> (r: Option<String>)
        requires
            self.wf(),
        ensures
            opt_view(r) == lookup(self@, name@),
    {
        let n = self.vars.len();
        let mut i: usize = 0;
        while i < n
            invariant
                n == self.vars@.len(),
                self.wf(),
                i <= n,
                forall|j: int| 0 <= j < i ==> self@[j].0 != name@,
            decreases n - i,
        {
            if same_text(self.vars[i].0.as_str(), name) {
                proof {
                    lemma_unique_lookup(self@, i as int);
                }
                return Some(self.vars[i].1.clone());
            }
            i = i + 1;
        }
        None
    }

    /// Sets variable `name` to `value`.
    pub fn set(&mut self, name: &str, value: &str)
        requires
            old(self).wf(),
        ensures
            final(self).wf(),
            final(self)@ == put_entry(old(self)@, name@, value@),
    {
        let ghost before = self@;
        proof {
            lemma_put_entry_unique(before, name@, value@);
        }
        let n = self.vars.len();
        let mut i: usize = 0;
        while i < n
            invariant
                n == self.vars@.len(),
                self@ == before,
                before == old(self)@,
                unique_keys(before),
                i <= n,
                forall|j: int| 0 <= j < i ==> self@[j].0 != name@,
            decreases n - i,
        {
            if same_text(self.vars[i].0.as_str(), name) {
                proof {
                    assert(before[i as int].0 == name@);
                    lemma_unique_lookup(before, i as int);
                    assert(key_pos(before, name@) == i);
                }
                self.vars.set(i, (name.to_owned(), value.to_owned()));
                assert(self@ =~= before.update(i as int, (name@, value@)));
                return;
            }
            i = i + 1;
        }
        self.vars.push((name.to_owned(), value.to_owned()));
        assert(self@ =~= before.push((name@, value@)));
    }
}

/// What one line of a `.env` file asks of the environment.
#[derive(Debug, Clone)]
pub enum EnvStep {
    /// The line defines no variable.
    Skip,
    /// Set the variable, which was not set.
    Define(String, String),
    /// The variable is set already: overwrite it only if the user agrees
    /// (default no).
    Ask { name: String, value: String, question: Question },
}

/// The decision on one line `KEY=VALUE` of a `.env` file, split at its first
/// `=`, against the environment `env`.
pub fn env_source_step(env: &EnvSnapshot, line: &str) -> (r: EnvStep)
    requires
        env.wf(),
    ensures
        !has_char(line@, '=') <==> r is Skip,
        has_char(line@, '=') ==> exists|i: int|
            first_index(line@, '=', i) && match r {
                EnvStep::Define(k, v) => k@ == line@.subrange(0, i) && v@ == line@.subrange(
                    i + 1,
                    line@.len() as int,
                ) && !has_key(env@, k@),
                EnvStep::Ask { name, value, question } => name@ == line@.subrange(0, i) && value@
                    == line@.subrange(i + 1, line@.len() as int) && has_key(env@, name@)
                    && !question.yes_default && question.prompt@
                    == "Environment variable '"@ + name@ + "' is already set to '"@ + lookup(
                    env@,
                    name@,
                ).unwrap() + "'. Overwrite with '"@ + value@ + "' for variable substitution?"@,
                EnvStep::Skip => false,
            },
{
    match split_once(line, '=') {
        None => EnvStep::Skip,
        Some((k, v)) => {
            match env.get(k.as_str()) {
                None => EnvStep::Define(k, v),
                Some(existing) => {
                    let prompt = join2("Environment variable '", k.as_str()).concat(
                        "' is already set to '",
                    ).concat(existing.as_str()).concat("'. Overwrite with '").concat(
                        v.as_str(),
                    ).concat("' for variable substitution?");
                    EnvStep::Ask { name: k, value: v, question: Question { prompt, yes_default: false } }
                },
            }
        },
    }
}

/// What the matches of a regular expression are in a text: `None` where the
/// pattern is not a valid expression, else the matched texts, left to right
/// and not overlapping.
pub uninterp spec fn pattern_matches(pattern: Seq<char>, s: Seq<char>) -> Option<Seq<Seq<char>>>;

/// Relies on `regex::Regex::new` and `regex::Regex::find_iter`: the matches
/// depend on the pattern and the text alone.
#[verifier::external_body]
fn find_matches(pattern: &str, s: &str) -> (r: Option<Vec<String>>)
    ensures
        match r {
            Some(v) => pattern_matches(pattern@, s@) == Some(texts(v@)),
            None => pattern_matches(pattern@, s@).is_none(),
        },
{
    let re = regex::Regex::new(pattern).ok()?;
    Some(re.find_iter(s).map(|m| m.as_str().to_owned()).collect())
}

/// Replacement of every occurrence of `from` in `s` by `to`, left to right,
/// occurrences not overlapping.
pub open spec fn replace_all(s: Seq<char>, from: Seq<char>, to: Seq<char>) -> Seq<char>
    decreases s.len(),
{
    if from.len() == 0 || s.len() < from.len() {
        s
    } else if s.subrange(0, from.len() as int) == from {
        to + replace_all(s.subrange(from.len() as int, s.len() as int), from, to)
    } else {
        seq![s[0]] + replace_all(s.subrange(1, s.len() as int), from, to)
    }
}

/// `s` with every occurrence of the non-empty `from` replaced by `to`, left
/// to right, occurrences not overlapping (what `str::replace` does).
pub fn replace_text(s: &str, from: &str, to: &str) -> (r: String)
    requires
        from@.len() > 0,
    ensures
        r@ == replace_all(s@, from@, to@),
{
    let n = s.unicode_len();
    let m = from.unicode_len();
    let mut out = String::new();
    let mut i: usize = 0;
    assert(s@.subrange(0, n as int) =~= s@);
    while i < n
        invariant
            n == s@.len(),
            m == from@.len(),
            m > 0,
            i <= n,
            out@ + replace_all(s@.subrange(i as int, n as int), from@, to@) == replace_all(
                s@,
                from@,
                to@,
            ),
        decreases n - i,
    {
        let ghost rest = s@.subrange(i as int, n as int);
        if m <= n - i && same_text(s.substring_char(i, i + m), from) {
            assert(rest.subrange(0, m as int) =~= s@.subrange(i as int, (i + m) as int));
            assert(rest.subrange(m as int, rest.len() as int) =~= s@.subrange(
                (i + m) as int,
                n as int,
            ));
            let ghost before = out@;
            out = out.concat(to);
            assert(out@ + replace_all(s@.subrange((i + m) as int, n as int), from@, to@) =~= before
                + (to@ + replace_all(s@.subrange((i + m) as int, n as int), from@, to@)));
            i = i + m;
        } else {
            if m <= n - i {
                assert(rest.subrange(0, m as int) =~= s@.subrange(i as int, (i + m) as int));
            }
            assert(rest.subrange(1, rest.len() as int) =~= s@.subrange(i + 1, n as int));
            let ghost before = out@;
            let c = s.substring_char(i, i + 1);
            assert(c@ =~= seq![rest[0]]);
            out = out.concat(c);
            if m <= n - i {
                assert(out@ + replace_all(s@.subrange(i + 1, n as int), from@, to@) =~= before + (
                seq![rest[0]] + replace_all(s@.subrange(i + 1, n as int), from@, to@)));
            } else {
                assert(replace_all(rest, from@, to@) == rest);
                assert(replace_all(s@.subrange(i + 1, n as int), from@, to@) == s@.subrange(
                    i + 1,
                    n as int,
                ));
                assert(out@ + s@.subrange(i + 1, n as int) =~= before + rest);
            }
            i = i + 1;
        }
    }
    assert(replace_all(s@.subrange(n as int, n as int), from@, to@) =~= Seq::<char>::empty());
    assert(out@ + Seq::<char>::empty() =~= out@);
    out
}

/// The pattern of a variable reference `${NAME}`.
pub open spec fn reference_pattern() -> Seq<char> {
    "\\$\\{[a-zA-Z_][a-zA-Z_0-9]*\\}"@
}

/// The variable that a reference `${NAME}` names.
pub open spec fn reference_name(t: Seq<char>) -> Option<Seq<char>> {
    if t.len() >= 4 && t[0] == '$' && t[1] == '{' && t[t.len() - 1] == '}' {
        Some(t.subrange(2, t.len() - 1))
    } else {
        None
    }
}

/// The references of `tokens` to variables set in `env`, each with the value
/// it would take, in order.
pub open spec fn pending_substitutions(tokens: Seq<Seq<char>>, env: Seq<(Seq<char>, Seq<char>)>) -> Seq<
    (Seq<char>, Seq<char>),
>
    decreases tokens.len(),
{
    if tokens.len() == 0 {
        Seq::empty()
    } else {
        let r = pending_substitutions(tokens.drop_last(), env);
        let t = tokens.last();
        match reference_name(t) {
            Some(n) => match lookup(env, n) {
                Some(v) => r.push((t, v)),
                None => r,
            },
            None => r,
        }
    }
}

/// A reference to a variable in a string, the value it would take, and the
/// question whether to substitute it (default yes).
#[derive(Debug, Clone)]
pub struct Substitution {
    pub token: String,
    pub value: String,
    pub prompt: String,
    pub yes_default: bool,
}

/// The references found in `s`.
pub open spec fn references_in(s: Seq<char>) -> Seq<Seq<char>> {
    match pattern_matches(reference_pattern(), s) {
        Some(v) => v,
        None => Seq::empty(),
    }
}

/// The substitutions that string `s` offers under environment `env`: each
/// reference `${NAME}` to a variable that is set, in order of occurrence.
pub fn find_substitutions(s: &str, env: &EnvSnapshot) -> (r: Vec<Substitution>)
    requires
        env.wf(),
    ensures
        r@.map_values(|x: Substitution| (x.token@, x.value@)) == pending_substitutions(
            references_in(s@),
            env@,
        ),
        forall|i: int|
            0 <= i < r@.len() ==> (#[trigger] r@[i]).prompt@ == "Replace '"@ + r@[i].token@
                + "' with '"@ + r@[i].value@ + "'?"@ && r@[i].yes_default,
{
    let pattern = "\\$\\{[a-zA-Z_][a-zA-Z_0-9]*\\}";
    let tokens = match find_matches(pattern, s) {
        Some(v) => v,
        None => Vec::new(),
    };
    assert(texts(tokens@) == references_in(s@));
    substitutions_from_tokens(&tokens, env)
}

/// The substitutions that the references `tokens` found in a string offer
/// under environment `env`: each well-formed reference `${NAME}` to a
/// variable that is set, in order.
pub fn substitutions_from_tokens(tokens: &Vec<String>, env: &EnvSnapshot) -> (r: Vec<Substitution>)
    requires
        env.wf(),
    ensures
        r@.map_values(|x: Substitution| (x.token@, x.value@)) == pending_substitutions(
            texts(tokens@),
            env@,
        ),
        forall|i: int|
            0 <= i < r@.len() ==> (#[trigger] r@[i]).prompt@ == "Replace '"@ + r@[i].token@
                + "' with '"@ + r@[i].value@ + "'?"@ && r@[i].yes_default,
{
    let ghost tv = texts(tokens@);
    let mut r: Vec<Substitution> = Vec::new();
    let n = tokens.len();
    let mut i: usize = 0;
    assert(tv.take(0) =~= Seq::<Seq<char>>::empty());
    while i < n
        invariant
            n == tokens@.len(),
            tv == texts(tokens@),
            env.wf(),
            i <= n,
            r@.map_values(|x: Substitution| (x.token@, x.value@)) == pending_substitutions(
                tv.take(i as int),
                env@,
            ),
            forall|j: int|
                0 <= j < r@.len() ==> (#[trigger] r@[j]).prompt@ == "Replace '"@ + r@[j].token@
                    + "' with '"@ + r@[j].value@ + "'?"@ && r@[j].yes_default,
        decreases n - i,
    {
        let t = &tokens[i];
        let ghost before = r@;
        proof {
            assert(tv.take(i + 1).drop_last() =~= tv.take(i as int));
            assert(tv.take(i + 1).last() == t@);
        }
        let len = t.as_str().unicode_len();
        if len >= 4 && t.as_str().get_char(0) == '$' && t.as_str().get_char(1) == '{'
            && t.as_str().get_char(len - 1) == '}' {
            let name = t.as_str().substring_char(2, len - 1);
            match env.get(name) {
                Some(v) => {
                    let prompt = join2("Replace '", t.as_str()).concat("' with '").concat(
                        v.as_str(),
                    ).concat("'?");
                    r.push(Substitution { token: t.clone(), value: v, prompt, yes_default: true });
                    assert(r@.map_values(|x: Substitution| (x.token@, x.value@)) =~= before.map_values(
                        |x: Substitution| (x.token@, x.value@),
                    ).push((t@, lookup(env@, name@).unwrap())));
                },
                None => {},
            }
        }
        i = i + 1;
    }
    assert(tv.take(n as int) =~= tv);
    r
}

/// The string `s` after the substitutions of `subs` whose answer is yes, one
/// after the other; each replaces every occurrence of its reference.
pub open spec fn substituted(s: Seq<char>, subs: Seq<(Seq<char>, Seq<char>)>, answers: Seq<bool>) -> Seq<char>
    decreases subs.len(),
{
    if subs.len() == 0 {
        s
    } else {
        let prev = substituted(s, subs.drop_last(), answers);
        let k = subs.len() - 1;
        if answers[k] && subs[k].0.len() > 0 {
            replace_all(prev, subs[k].0, subs[k].1)
        } else {
            prev
        }
    }
}

/// Applies to `s` the substitutions that were accepted: `answers[i]` is the
/// answer to `subs[i]`.
pub fn apply_substitutions(s: &str, subs: &Vec<Substitution>, answers: &Vec<bool>) -> (r: String)
    requires
        answers@.len() == subs@.len(),
    ensures
        r@ == substituted(
            s@,
            subs@.map_values(|x: Substitution| (x.token@, x.value@)),
            answers@,
        ),
{
    let ghost sv = subs@.map_values(|x: Substitution| (x.token@, x.value@));
    let mut out = s.to_owned();
    let n = subs.len();
    let mut i: usize = 0;
    assert(sv.take(0) =~= Seq::<(Seq<char>, Seq<char>)>::empty());
    while i < n
        invariant
            n == subs@.len(),
            answers@.len() == n,
            sv == subs@.map_values(|x: Substitution| (x.token@, x.value@)),
            i <= n,
            out@ == substituted(s@, sv.take(i as int), answers@),
        decreases n - i,
    {
        proof {
            assert(sv.take(i + 1).drop_last() =~= sv.take(i as int));
            assert(sv.take(i + 1)[i as int] == sv[i as int]);
        }
        let token = subs[i].token.as_str();
        if answers[i] && token.unicode_len() > 0 {
            out = replace_text(out.as_str(), token, subs[i].value.as_str());
        }
        i = i + 1;
    }
    assert(sv.take(n as int) =~= sv);
    out
}

/// The number of `c` in `s`.
pub open spec fn count_char(s: Seq<char>, c: char) -> nat
    decreases s.len(),
{
    if s.len() == 0 {
        0
    } else {
        count_char(s.drop_last(), c) + if s.last() == c {
            1nat
        } else {
            0nat
        }
    }
}

/// Whether an image reference may need qualifying: it has fewer than two `/`.
pub fn needs_qualification(image: &str) -> (r: bool)
    ensures
        r == (count_char(image@, '/') < 2),
{
    let n = image.unicode_len();
    let mut count: usize = 0;
    let mut i: usize = 0;
    assert(image@.take(0) =~= Seq::<char>::empty());
    while i < n
        invariant
            n == image@.len(),
            i <= n,
            count == count_char(image@.take(i as int), '/'),
            count <= i,
        decreases n - i,
    {
        assert(image@.take(i + 1).drop_last() =~= image@.take(i as int));
        if image.get_char(i) == '/' {
            count = count + 1;
        }
        i = i + 1;
    }
    assert(image@.take(n as int) =~= image@);
    count < 2
}

/// Why an image could not be qualified from a manifest inspection.
#[derive(Debug, PartialEq, Eq)]
pub enum QualifyError {
    /// The output names no reference.
    MissingRef,
}

/// A full reference without its `@digest` suffix: the text before the first
/// `@`, or the whole reference where it has none.
pub open spec fn without_digest(f: Seq<char>) -> Seq<char> {
    match split_at_first(f, '@') {
        Some((name, _)) => name,
        None => f,
    }
}

/// The qualified name in a full reference `name@digest`: the text before the
/// first `@`; a reference without `@` comes back as it is.
pub fn qualified_from_ref(full_ref: &str) -> (r: String)
    ensures
        r@ == without_digest(full_ref@),
{
    match split_once(full_ref, '@') {
        Some((name, _)) => name,
        None => full_ref.to_owned(),
    }
}

/// The fully qualified image name in the output of a manifest inspection,
/// read as JSON: the first manifest's `Ref`, without any `@digest` suffix.
pub fn parse_qualified_name(manifest: &JsonValue) -> (r: Result<String, QualifyError>)
    ensures
        match manifest_ref_spec(*manifest) {
            Some(f) => r is Ok && r.unwrap()@ == without_digest(f),
            None => r == Err::<String, QualifyError>(QualifyError::MissingRef),
        },
{
    match manifest_ref(manifest) {
        None => Err(QualifyError::MissingRef),
        Some(full) => Ok(qualified_from_ref(full.as_str())),
    }
}

/// Whether a path names a host path rather than a named volume: it holds a
/// `/` or starts with `.`.
pub open spec fn is_host_path_spec(p: Seq<char>) -> bool {
    has_char(p, '/') || starts_with(p, "."@)
}

/// Whether `p` names a host path rather than a named volume.
pub fn is_host_path(p: &str) -> (r: bool)
    ensures
        r == is_host_path_spec(p@),
{
    contains_char(p, '/') || has_prefix(p, ".")
}

/// A volume entry with its host path made absolute, where it names one.
pub open spec fn volume_normal(v: Seq<char>, cwd: Seq<char>) -> Option<Seq<char>> {
    match split_at_first(v, ':') {
        Some((host, rest)) => if is_host_path_spec(host) {
            Some(normalized(host, cwd) + ":"@ + rest)
        } else {
            None
        },
        None => None,
    }
}

/// An `env_file` path made absolute, where it names a host path.
pub open spec fn env_file_normal(p: Seq<char>, cwd: Seq<char>) -> Option<Seq<char>> {
    if is_host_path_spec(p) {
        Some(normalized(p, cwd))
    } else {
        None
    }
}

/// The volume entry `HOST:CONTAINER[:MODE]` with its host path made absolute
/// against `cwd`; `None` where the entry has no `:` or names a volume.
pub fn normalize_volume(volume: &str, cwd: &str) -> (r: Option<String>)
    ensures
        opt_view(r) == volume_normal(volume@, cwd@),
        r.is_some() <==> exists|i: int|
            first_index(volume@, ':', i) && is_host_path_spec(volume@.subrange(0, i)),
        r.is_some() ==> exists|i: int|
            first_index(volume@, ':', i) && r.unwrap()@ == normalized(volume@.subrange(0, i), cwd@)
                + ":"@ + volume@.subrange(i + 1, volume@.len() as int),
{
    match split_once(volume, ':') {
        Some((host, rest)) => {
            if is_host_path(host.as_str()) {
                let p = normalize_path(host.as_str(), cwd);
                Some(p.concat(":").concat(rest.as_str()))
            } else {
                proof {
                    assert forall|i: int| first_index(volume@, ':', i) implies !is_host_path_spec(
                        volume@.subrange(0, i),
                    ) by {
                        let j = choose|j: int|
                            first_index(volume@, ':', j) && host@ == volume@.subrange(0, j);
                        assert(i == j) by {
                            if i < j {
                                assert(volume@[i] != ':');
                            } else if j < i {
                                assert(volume@[j] != ':');
                            }
                        }
                    }
                }
                None
            }
        },
        None => None,
    }
}

/// An `env_file` path made absolute against `cwd`; `None` where it does not
/// name a host path.
pub fn normalize_env_file(path: &str, cwd: &str) -> (r: Option<String>)
    ensures
        opt_view(r) == env_file_normal(path@, cwd@),
        r.is_some() == is_host_path_spec(path@),
        r.is_some() ==> r.unwrap()@ == normalized(path@, cwd@),
{
    if is_host_path(path) {
        Some(normalize_path(path, cwd))
    } else {
        None
    }
}

/// `v` is the string scalar `s`.
pub open spec fn text_is(v: YamlValue, s: Seq<char>) -> bool {
    v matches YamlValue::Text(t) && t@ == s
}

/// Whether `k` is the string scalar `name`.
fn is_key(k: &YamlValue, name: &str) -> (r: bool)
    ensures
        r == text_is(*k, name@),
{
    match k {
        YamlValue::Text(t) => same_text(t.as_str(), name),
        _ => false,
    }
}

/// An item of a `volumes` (or, with `volumes` false, `env_file`) sequence
/// after its path rule: a string scalar naming a host path is made absolute;
/// anything else stays.
pub open spec fn path_item(a: YamlValue, b: YamlValue, cwd: Seq<char>, volumes: bool) -> bool {
    match a {
        YamlValue::Text(s) => {
            let n = if volumes {
                volume_normal(s@, cwd)
            } else {
                env_file_normal(s@, cwd)
            };
            match n {
                Some(p) => text_is(b, p),
                None => text_is(b, s@),
            }
        },
        _ => same_value(a, b),
    }
}

/// Each item after its path rule.
pub open spec fn path_items(xs: Seq<YamlValue>, ys: Seq<YamlValue>, cwd: Seq<char>, volumes: bool) -> bool {
    xs.len() == ys.len() && forall|i: int|
        0 <= i < xs.len() ==> path_item(#[trigger] xs[i], ys[i], cwd, volumes)
}

/// The value `v` under key `k` of a service, after the rules: a string
/// `image` becomes `qualified`, where given; `volumes` items and `env_file`
/// (one path or a sequence) get their host paths made absolute.
pub open spec fn service_entry_rule(
    k: YamlValue,
    v: YamlValue,
    w: YamlValue,
    qualified: Option<Seq<char>>,
    cwd: Seq<char>,
) -> bool {
    if text_is(k, "image"@) && v is Text && qualified is Some {
        text_is(w, qualified.unwrap())
    } else if text_is(k, "volumes"@) && v is Sequence {
        w matches YamlValue::Sequence(ys) && path_items(v->Sequence_0@, ys@, cwd, true)
    } else if text_is(k, "env_file"@) && v is Text {
        path_item(v, w, cwd, false)
    } else if text_is(k, "env_file"@) && v is Sequence {
        w matches YamlValue::Sequence(ys) && path_items(v->Sequence_0@, ys@, cwd, false)
    } else {
        same_value(v, w)
    }
}

/// `b` is the service `a` after the rules on its entries; a service that is
/// not a mapping stays as it is.
pub open spec fn normalized_service(
    a: YamlValue,
    b: YamlValue,
    qualified: Option<Seq<char>>,
    cwd: Seq<char>,
) -> bool {
    match a {
        YamlValue::Mapping(es) => b matches YamlValue::Mapping(fs) && es@.len() == fs@.len()
            && forall|i: int|
            0 <= i < es@.len() ==> same_value(#[trigger] es@[i].0, fs@[i].0) && service_entry_rule(
                es@[i].0,
                es@[i].1,
                fs@[i].1,
                qualified,
                cwd,
            ),
        _ => same_value(a, b),
    }
}

fn path_item_copy(a: &YamlValue, cwd: &str, volumes: bool) -> (r: YamlValue)
    ensures
        path_item(*a, r, cwd@, volumes),
{
    match a {
        YamlValue::Text(s) => {
            let n = if volumes {
                normalize_volume(s.as_str(), cwd)
            } else {
                normalize_env_file(s.as_str(), cwd)
            };
            match n {
                Some(p) => YamlValue::Text(p),
                None => YamlValue::Text(s.clone()),
            }
        },
        _ => deep_copy(a),
    }
}

fn path_items_copy(xs: &Vec<YamlValue>, cwd: &str, volumes: bool) -> (r: Vec<YamlValue>)
    ensures
        path_items(xs@, r@, cwd@, volumes),
{
    let mut out: Vec<YamlValue> = Vec::new();
    let n = xs.len();
    let mut i: usize = 0;
    while i < n
        invariant
            n == xs@.len(),
            i <= n,
            out@.len() == i,
            forall|j: int| 0 <= j < i ==> path_item(#[trigger] xs@[j], out@[j], cwd@, volumes),
        decreases n - i,
    {
        let item = path_item_copy(&xs[i], cwd, volumes);
        out.push(item);
        i = i + 1;
    }
    out
}

/// The service `svc` after the rules on its entries, with `qualified` the
/// qualified name of its image, where one was found.
pub fn normalize_service(svc: &YamlValue, qualified: Option<&str>, cwd: &str) -> (r: YamlValue)
    ensures
        normalized_service(*svc, r, opt_str_view(qualified), cwd@),
{
    match svc {
        YamlValue::Mapping(es) => {
            let mut out: Vec<(YamlValue, YamlValue)> = Vec::new();
            let n = es.len();
            let mut i: usize = 0;
            while i < n
                invariant
                    n == es@.len(),
                    i <= n,
                    out@.len() == i,
                    forall|j: int|
                        0 <= j < i ==> same_value(#[trigger] es@[j].0, out@[j].0)
                            && service_entry_rule(
                            es@[j].0,
                            es@[j].1,
                            out@[j].1,
                            opt_str_view(qualified),
                            cwd@,
                        ),
                decreases n - i,
            {
                let k = &es[i].0;
                let v = &es[i].1;
                let key = deep_copy(k);
                let value = if is_key(k, "image") && matches!(v, YamlValue::Text(_)) && qualified.is_some() {
                    YamlValue::Text(qualified.unwrap().to_owned())
                } else if is_key(k, "volumes") && matches!(v, YamlValue::Sequence(_)) {
                    match v {
                        YamlValue::Sequence(xs) => YamlValue::Sequence(path_items_copy(xs, cwd, true)),
                        _ => deep_copy(v),
                    }
                } else if is_key(k, "env_file") && matches!(v, YamlValue::Text(_)) {
                    path_item_copy(v, cwd, false)
                } else if is_key(k, "env_file") && matches!(v, YamlValue::Sequence(_)) {
                    match v {
                        YamlValue::Sequence(xs) => YamlValue::Sequence(path_items_copy(xs, cwd, false)),
                        _ => deep_copy(v),
                    }
                } else {
                    deep_copy(v)
                };
                out.push((key, value));
                i = i + 1;
            }
            YamlValue::Mapping(out)
        },
        _ => deep_copy(svc),
    }
}

/// The image of service `svc` that may need qualifying: the string value of
/// its first `image` key, where it has fewer than two `/`.
pub fn image_to_qualify(svc: &YamlValue) -> (r: Option<String>)
    ensures
        match *svc {
            YamlValue::Mapping(es) => match r {
                Some(t) => exists|i: int|
                    0 <= i < es@.len() && text_is(es@[i].0, "image"@) && text_is(es@[i].1, t@)
                        && count_char(t@, '/') < 2 && forall|j: int|
                        0 <= j < i ==> !text_is(#[trigger] es@[j].0, "image"@),
                None => forall|i: int|
                    0 <= i < es@.len() && text_is(#[trigger] es@[i].0, "image"@) ==> !(
                    es@[i].1 matches YamlValue::Text(t) && count_char(t@, '/') < 2) || exists|j: int|
                        0 <= j < i && text_is(es@[j].0, "image"@),
            },
            _ => r.is_none(),
        },
{
    match svc {
        YamlValue::Mapping(es) => {
            let n = es.len();
            let mut i: usize = 0;
            while i < n
                invariant
                    n == es@.len(),
                    *svc == YamlValue::Mapping(*es),
                    i <= n,
                    forall|j: int| 0 <= j < i ==> !text_is(#[trigger] es@[j].0, "image"@),
                decreases n - i,
            {
                if is_key(&es[i].0, "image") {
                    proof {
                        assert forall|k: int|
                            0 <= k < es@.len() && text_is(#[trigger] es@[k].0, "image"@) && k
                                > i implies exists|j: int|
                            0 <= j < k && text_is(es@[j].0, "image"@) by {
                            assert(text_is(es@[i as int].0, "image"@));
                        }
                    }
                    match &es[i].1 {
                        YamlValue::Text(t) => {
                            if needs_qualification(t.as_str()) {
                                return Some(t.clone());
                            }
                        },
                        _ => {},
                    }
                    return None;
                }
                i = i + 1;
            }
            None
        },
        _ => None,
    }
}

/// A compose file: its services by name, and its other top-level keys, both
/// in document order.
///
/// Both are lists of pairs rather than `HashMap`s: vstd specifies `HashMap`
/// only for keys that obey its key model, which `String` does not.
#[derive(Debug)]
pub struct ComposeFile {
    pub services: Vec<(String, YamlValue)>,
    pub other: Vec<(String, YamlValue)>,
}

/// Entries with their names as texts.
pub open spec fn entries_view(v: Seq<(String, YamlValue)>) -> Seq<(Seq<char>, YamlValue)> {
    v.map_values(|p: (String, YamlValue)| (p.0@, p.1))
}

fn has_entry(v: &Vec<(String, YamlValue)>, name: &str) -> (r: bool)
    ensures
        r == has_key(entries_view(v@), name@),
{
    let n = v.len();
    let mut i: usize = 0;
    while i < n
        invariant
            n == v@.len(),
            i <= n,
            forall|j: int| 0 <= j < i ==> v@[j].0@ != name@,
        decreases n - i,
    {
        if same_text(v[i].0.as_str(), name) {
            assert(entries_view(v@)[i as int].0 == name@);
            return true;
        }
        i = i + 1;
    }
    assert forall|j: int| 0 <= j < entries_view(v@).len() implies entries_view(v@)[j].0 != name@ by {
        assert(entries_view(v@)[j].0 == v@[j].0@);
    }
    false
}

/// The first step of normalization: a file without services is refused; a
/// file without a top-level `name` gets one, appended to its other keys.
pub fn name_project(file: ComposeFile, base_dir: Option<&str>) -> (r: Result<ComposeFile, ComposeError>)
    ensures
        file.services@.len() == 0 <==> r is Err,
        r is Err ==> r == Err::<ComposeFile, ComposeError>(ComposeError::EmptyServiceSet),
        r is Ok ==> r.unwrap().services@ == file.services@,
        r is Ok && has_key(entries_view(file.other@), "name"@) ==> r.unwrap().other@ == file.other@,
        r is Ok && !has_key(entries_view(file.other@), "name"@) ==> ({
            let o = r.unwrap().other@;
            &&& o.len() == file.other@.len() + 1
            &&& o.take(file.other@.len() as int) == file.other@
            &&& o.last().0@ == "name"@
            &&& text_is(
                o.last().1,
                default_project_name(file.services@[0].0@, opt_str_view(base_dir)),
            )
        }),
{
    let mut file = file;
    let ghost old_other = file.other@;
    let n = file.services.len();
    let mut names: Vec<String> = Vec::new();
    let mut i: usize = 0;
    while i < n
        invariant
            n == file.services@.len(),
            i <= n,
            names@.len() == i,
            forall|j: int| 0 <= j < i ==> (#[trigger] names@[j])@ == file.services@[j].0@,
        decreases n - i,
    {
        names.push(file.services[i].0.clone());
        i = i + 1;
    }
    let has_name = has_entry(&file.other, "name");
    match resolve_compose_name(&names, has_name, base_dir) {
        Err(e) => Err(e),
        Ok(None) => Ok(file),
        Ok(Some(name)) => {
            proof {
                assert(opt_str_view(base_dir) == match base_dir {
                    Some(d) => Some(d@),
                    None => None::<Seq<char>>,
                });
            }
            file.other.push(("name".to_owned(), YamlValue::Text(name)));
            assert(file.other@.take(old_other.len() as int) =~= old_other);
            Ok(file)
        },
    }
}

/// The services after the first is renamed `app`: it replaces a service of
/// that name where there is one, else it keeps its place.
pub open spec fn renamed_first(s: Seq<(Seq<char>, YamlValue)>) -> Seq<(Seq<char>, YamlValue)> {
    let rest = s.subrange(1, s.len() as int);
    if has_key(rest, "app"@) {
        put_entry(rest, "app"@, s[0].1)
    } else {
        seq![("app"@, s[0].1)] + rest
    }
}

/// Renames the first service to `app` where `accepted` is the answer to
/// `rename_prompt`; a first service named `app` stays.
pub fn rename_first_service(file: ComposeFile, accepted: bool) -> (r: ComposeFile)
    requires
        unique_keys(entries_view(file.services@)),
    ensures
        r.other@ == file.other@,
        (accepted && file.services@.len() > 0 && file.services@[0].0@ != "app"@) ==> entries_view(
            r.services@,
        ) == renamed_first(entries_view(file.services@)),
        !(accepted && file.services@.len() > 0 && file.services@[0].0@ != "app"@) ==> r.services@
            == file.services@,
{
    let ghost s0 = file.services@;
    let ghost o0 = file.other@;
    let mut f = file;
    if !accepted || f.services.len() == 0 || same_text(f.services[0].0.as_str(), "app") {
        return f;
    }
    let ghost before = entries_view(f.services@);
    let ghost other0 = f.other@;
    let (_, first) = f.services.remove(0);
    assert(first == before[0].1);
    let ghost rest = entries_view(f.services@);
    assert(rest =~= before.subrange(1, before.len() as int));
    assert(unique_keys(rest)) by {
        assert forall|x: int, y: int|
            0 <= x < rest.len() && 0 <= y < rest.len() && x != y implies rest[x].0 != rest[y].0 by {
            assert(rest[x] == before[x + 1] && rest[y] == before[y + 1]);
        }
    }
    let n = f.services.len();
    let mut i: usize = 0;
    while i < n
        invariant
            n == f.services@.len(),
            rest == entries_view(f.services@),
            unique_keys(rest),
            f.other@ == other0,
            other0 == o0,
            before == entries_view(s0),
            s0 == file.services@,
            o0 == file.other@,
            accepted,
            s0.len() > 0,
            s0[0].0@ != "app"@,
            rest == before.subrange(1, before.len() as int),
            before.len() == n + 1,
            first == before[0].1,
            i <= n,
            forall|j: int| 0 <= j < i ==> f.services@[j].0@ != "app"@,
        decreases n - i,
    {
        if same_text(f.services[i].0.as_str(), "app") {
            assert(rest[i as int].0 == "app"@);
            proof {
                lemma_unique_lookup(rest, i as int);
            }
            f.services.set(i, ("app".to_owned(), first));
            assert(entries_view(f.services@) =~= rest.update(i as int, ("app"@, before[0].1)));
            return f;
        }
        i = i + 1;
    }
    assert(!has_key(rest, "app"@));
    f.services.insert(0, ("app".to_owned(), first));
    assert(entries_view(f.services@) =~= seq![("app"@, before[0].1)] + rest);
    f
}

} // verus!
