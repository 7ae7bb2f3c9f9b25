use vstd::prelude::*;
use vstd::string::*;

use crate::bindings::{lookup, Bindings};
use crate::cache::home_directory;
use crate::errors::RingError;
use crate::paths::{join, join_path};
use crate::text::{
    chars_of, decimal, decimal_chars, find_from, find_from_exec, lemma_replace_all_first_occurrence, matches_at,
    replace_all, replace_all_exec, string_of, utf8_len, utf8_len_prefix,
};

verus! {

broadcast use vstd::string::group_string_axioms;

/// The placeholder `${{name}}` for a flag.
pub open spec fn placeholder(name: Seq<char>) -> Seq<char> {
    seq!['$', '{', '{'] + name + seq!['}', '}']
}

/// The template with each flag's placeholders replaced by its value, one
/// flag after the other in the order of `flags`.
pub open spec fn substitute_flags(template: Seq<char>, flags: Seq<(Seq<char>, Seq<char>)>) -> Seq<char>
    decreases flags.len(),
{
    if flags.len() == 0 {
        template
    } else {
        substitute_flags(
            replace_all(template, placeholder(flags[0].0), flags[0].1),
            flags.subrange(1, flags.len() as int),
        )
    }
}

/// The placeholder `${{name}}` for `name`, as characters.
fn placeholder_chars(name: &str) -> (p: Vec<char>)
    ensures
        p@ == placeholder(name@),
{
    let mut p: Vec<char> = Vec::new();
    p.push('$');
    p.push('{');
    p.push('{');
    let n = chars_of(name);
    let mut k: usize = 0;
    while k < n.len()
        invariant
            k <= n.len(),
            p@ == seq!['$', '{', '{'] + n@.take(k as int),
        decreases n.len() - k,
    {
        p.push(n[k]);
        k = k + 1;
        assert(n@.take(k as int) =~= n@.take(k - 1).push(n@[k - 1]));
    }
    assert(n@.take(n.len() as int) =~= n@);
    p.push('}');
    p.push('}');
    assert(p@ =~= placeholder(name@));
    p
}

/// Replaces every `${{name}}` placeholder of each given flag by its value.
/// Flags are applied in order; placeholders of flags that were not given
/// are left as they are.
pub fn replace_placeholders(template: &str, flag_values: &Bindings) -> (out: String)
    ensures
        out@ == substitute_flags(template@, flag_values@),
{
    let entries = flag_values.entries();
    let ghost flags = flag_values@;
    let mut current = chars_of(template);
    let mut i: usize = 0;
    assert(flags.subrange(0, flags.len() as int) =~= flags);
    while i < entries.len()
        invariant
            i <= entries@.len(),
            entries@.len() == flags.len(),
            forall|k: int| 0 <= k < entries@.len() ==> #[trigger] entries@[k].0@ == flags[k].0 && entries@[k].1@ == flags[k].1,
            substitute_flags(template@, flags) == substitute_flags(
                current@,
                flags.subrange(i as int, flags.len() as int),
            ),
        decreases entries@.len() - i,
    {
        let ghost rest = flags.subrange(i as int, flags.len() as int);
        assert(rest.subrange(1, rest.len() as int) =~= flags.subrange(i + 1, flags.len() as int));
        let pat = placeholder_chars(entries[i].0.as_str());
        let rep = chars_of(entries[i].1.as_str());
        current = replace_all_exec(&current, &pat, &rep);
        i = i + 1;
    }
    assert(flags.subrange(i as int, flags.len() as int) =~= Seq::<(Seq<char>, Seq<char>)>::empty());
    string_of(&current)
}

/// The opening `${{env.` of an environment placeholder.
pub open spec fn env_open() -> Seq<char> {
    seq!['$', '{', '{', 'e', 'n', 'v', '.']
}

/// The closing `}}` of a placeholder.
pub open spec fn placeholder_close() -> Seq<char> {
    seq!['}', '}']
}

/// Why expanding environment placeholders failed.
pub enum EnvExpansionFailure {
    /// A `${{env.` with no later `}}`; `position` is the byte offset of the
    /// placeholder in the text as expanded so far.
    Unclosed { position: nat },
    /// A placeholder names a variable that is not set.
    Unset { name: Seq<char> },
}

/// `find_from` reports a match at or after its starting point.
pub proof fn lemma_find_from(s: Seq<char>, pat: Seq<char>, from: int)
    ensures
        find_from(s, pat, from) matches Some(k) ==> from <= k && k + pat.len() <= s.len()
            && matches_at(s, pat, k) && forall|j: int| from <= j < k ==> !matches_at(s, pat, j),
        from >= 0 && find_from(s, pat, from) is None ==> forall|j: int| from <= j ==> !matches_at(s, pat, j),
    decreases s.len() - from,
{
    if from < 0 || from + pat.len() > s.len() {
    } else if matches_at(s, pat, from) {
    } else if pat.len() == 0 {
        assert(s.subrange(from, from + pat.len()) =~= pat);
    } else {
        lemma_find_from(s, pat, from + 1);
    }
}

/// The text with its `${{env.NAME}}` placeholders, scanned left to right
/// from index `pos`, replaced by the values of the variables in `env`.
/// Replaced values are not scanned again.
pub open spec fn expand_env(s: Seq<char>, pos: int, env: Seq<(Seq<char>, Seq<char>)>) -> Result<
    Seq<char>,
    EnvExpansionFailure,
>
    decreases s.len() - pos,
{
    if pos < 0 || pos > s.len() {
        Ok(s)
    } else {
        match find_from(s, env_open(), pos) {
            None => Ok(s),
            Some(start) => {
                proof {
                    lemma_find_from(s, env_open(), pos);
                }
                match find_from(s, placeholder_close(), start + 7) {
                    None => Err(EnvExpansionFailure::Unclosed { position: utf8_len(s.take(start)) }),
                    Some(end) => {
                        proof {
                            lemma_find_from(s, placeholder_close(), start + 7);
                        }
                        let name = s.subrange(start + 7, end);
                        match lookup(env, name) {
                            None => Err(EnvExpansionFailure::Unset { name }),
                            Some(value) => expand_env(
                                s.take(start) + value + s.skip(end + 2),
                                start + value.len(),
                                env,
                            ),
                        }
                    },
                }
            },
        }
    }
}

/// The characters `${{env.`.
fn env_open_chars() -> (p: Vec<char>)
    ensures
        p@ == env_open(),
{
    let p = vec!['$', '{', '{', 'e', 'n', 'v', '.'];
    assert(p@ =~= env_open());
    p
}

/// The characters `}}`.
fn placeholder_close_chars() -> (p: Vec<char>)
    ensures
        p@ == placeholder_close(),
{
    let p = vec!['}', '}'];
    assert(p@ =~= placeholder_close());
    p
}

/// The characters `s[from..to]`.
fn slice_chars(s: &Vec<char>, from: usize, to: usize) -> (out: Vec<char>)
    requires
        from <= to <= s.len(),
    ensures
        out@ == s@.subrange(from as int, to as int),
{
    let mut out: Vec<char> = Vec::new();
    let mut k = from;
    while k < to
        invariant
            from <= k <= to <= s.len(),
            out@ == s@.subrange(from as int, k as int),
        decreases to - k,
    {
        out.push(s[k]);
        k = k + 1;
        assert(s@.subrange(from as int, k as int) =~= s@.subrange(from as int, k - 1).push(s@[k - 1]));
    }
    out
}

/// Appends the characters of `more` to `out`.
fn push_all(out: &mut Vec<char>, more: &Vec<char>)
    ensures
        final(out)@ == old(out)@ + more@,
{
    let ghost before = out@;
    let mut k: usize = 0;
    while k < more.len()
        invariant
            k <= more.len(),
            out@ == before + more@.take(k as int),
        decreases more.len() - k,
    {
        out.push(more[k]);
        k = k + 1;
        assert(more@.take(k as int) =~= more@.take(k - 1).push(more@[k - 1]));
    }
    assert(more@.take(more.len() as int) =~= more@);
}

/// The message for a `${{env.` left unclosed at byte offset `position`.
pub open spec fn unclosed_message(position: nat) -> Seq<char> {
    "Unclosed placeholder starting at position "@ + decimal(position)
}

/// `e` is the error reported for the expansion failure `f`.
pub open spec fn reports_failure(e: RingError, f: EnvExpansionFailure) -> bool {
    match f {
        EnvExpansionFailure::Unclosed { position } => e matches RingError::Config(m) && m@
            == unclosed_message(position),
        EnvExpansionFailure::Unset { name } => e matches RingError::EnvVar { name: n } && n@ == name,
    }
}

/// `res` is the outcome `spec` of an expansion: the same text, or the
/// error reported for the same failure.
pub open spec fn outcome_matches(res: Result<String, RingError>, spec: Result<Seq<char>, EnvExpansionFailure>) -> bool {
    match spec {
        Ok(text) => res matches Ok(out) && out@ == text,
        Err(f) => res matches Err(e) && reports_failure(e, f),
    }
}

/// Replaces every `${{env.NAME}}` placeholder by the value of `NAME` in
/// `env`, scanning left to right and never rescanning a substituted value.
/// Fails with `Config` when a placeholder is not closed by `}}`, and with
/// `EnvVar` when a named variable is not set.
pub fn replace_env_vars(template: &str, env: &Bindings) -> (res: Result<String, RingError>)
    ensures
        outcome_matches(res, expand_env(template@, 0, env@)),
{
    let open = env_open_chars();
    let close = placeholder_close_chars();
    let mut result = chars_of(template);
    let mut pos: usize = 0;
    loop
        invariant
            pos <= result.len(),
            open@ == env_open(),
            close@ == placeholder_close(),
            expand_env(template@, 0, env@) == expand_env(result@, pos as int, env@),
        decreases result.len() - pos,
    {
        let ghost s = result@;
        proof {
            lemma_find_from(s, env_open(), pos as int);
        }
        match find_from_exec(&result, &open, pos) {
            None => {
                return Ok(string_of(&result));
            },
            Some(start) => {
                proof {
                    lemma_find_from(s, placeholder_close(), start + 7);
                }
                match find_from_exec(&result, &close, start + 7) {
                    None => {
                        let position = utf8_len_prefix(&result, start);
                        let mut msg = String::from_str("Unclosed placeholder starting at position ");
                        let digits = string_of(&decimal_chars(position));
                        msg.append(digits.as_str());
                        return Err(RingError::Config(msg));
                    },
                    Some(end) => {
                        let name_chars = slice_chars(&result, start + 7, end);
                        let name = string_of(&name_chars);
                        match env.get(name.as_str()) {
                            None => {
                                return Err(RingError::EnvVar { name });
                            },
                            Some(value) => {
                                let value_chars = chars_of(value.as_str());
                                let mut next = slice_chars(&result, 0, start);
                                push_all(&mut next, &value_chars);
                                let tail = slice_chars(&result, end + 2, result.len());
                                push_all(&mut next, &tail);
                                assert(s.take(start as int) =~= s.subrange(0, start as int));
                                assert(s.skip(end + 2) =~= s.subrange(end + 2, s.len() as int));
                                let total = next.len();
                                assert(total == start + value_chars@.len() + tail@.len());
                                let new_pos = start + value_chars.len();
                                result = next;
                                pos = new_pos;
                            },
                        }
                    },
                }
            },
        }
    }
}

/// A template with its flag placeholders, then its environment
/// placeholders, substituted.
pub open spec fn render_template(
    template: Seq<char>,
    flags: Seq<(Seq<char>, Seq<char>)>,
    env: Seq<(Seq<char>, Seq<char>)>,
) -> Result<Seq<char>, EnvExpansionFailure> {
    expand_env(substitute_flags(template, flags), 0, env)
}

/// Substitutes the flag values, then the environment variables, into a
/// template (a shell command, a URL, a header value or a request body).
pub fn render(template: &str, flag_values: &Bindings, env: &Bindings) -> (res: Result<String, RingError>)
    ensures
        outcome_matches(res, render_template(template@, flag_values@, env@)),
{
    let with_flags = replace_placeholders(template, flag_values);
    replace_env_vars(with_flags.as_str(), env)
}

/// Where configurations are read from.
#[derive(PartialEq, Eq, Structural, Debug)]
pub enum ConfigSourceKind {
    /// The default directory does not exist yet: there are no configurations.
    Nothing,
    /// A single configuration file.
    File,
    /// A directory whose `.yml` and `.yaml` files are configurations.
    Directory,
}

/// How the configuration path `path` is read: a missing default directory
/// yields no configurations, a file is read alone, a directory is read
/// file by file, and anything else is an error.
pub fn config_source_kind(path: &str, using_default: bool, exists: bool, is_file: bool, is_dir: bool) -> (r: Result<
    ConfigSourceKind,
    RingError,
>)
    ensures
        using_default && !exists ==> r == Ok::<ConfigSourceKind, RingError>(ConfigSourceKind::Nothing),
        !(using_default && !exists) && is_file ==> r == Ok::<ConfigSourceKind, RingError>(ConfigSourceKind::File),
        !(using_default && !exists) && !is_file && is_dir ==> r == Ok::<ConfigSourceKind, RingError>(
            ConfigSourceKind::Directory,
        ),
        !(using_default && !exists) && !is_file && !is_dir ==> (r matches Err(RingError::Config(m)) && m@
            == "Config path '"@ + path@ + "' is neither a file nor a directory"@),
{
    if using_default && !exists {
        Ok(ConfigSourceKind::Nothing)
    } else if is_file {
        Ok(ConfigSourceKind::File)
    } else if is_dir {
        Ok(ConfigSourceKind::Directory)
    } else {
        let mut m = String::from_str("Config path '");
        m.append(path);
        m.append("' is neither a file nor a directory");
        Err(RingError::Config(m))
    }
}

/// The default directory of configurations under `home`.
pub fn default_config_dir_under(home: &str) -> (d: String)
    ensures
        d@ == join_path(home@, ".ring-cli/configurations"@),
{
    join(home, ".ring-cli/configurations")
}

/// The default directory of configurations, under the home directory; an
/// error when the home directory cannot be determined as text.
pub fn default_config_dir() -> (r: Result<String, RingError>)
    ensures
        r matches Ok(d) ==> exists|home: Seq<char>| d@ == join_path(home, ".ring-cli/configurations"@),
        r matches Err(e) ==> e matches RingError::Config(m) && m@ == "Unable to determine home directory"@,
{
    match home_directory() {
        Some(home) => Ok(default_config_dir_under(home.as_str())),
        None => Err(RingError::Config(String::from_str("Unable to determine home directory"))),
    }
}

/// `pat` occurs nowhere in `s`.
pub open spec fn absent(s: Seq<char>, pat: Seq<char>) -> bool {
    forall|j: int| !matches_at(s, pat, j)
}

/// `replace_all` leaves a text in which the pattern does not occur unchanged.
pub proof fn lemma_replace_all_absent(s: Seq<char>, pat: Seq<char>, rep: Seq<char>)
    requires
        absent(s, pat),
    ensures
        replace_all(s, pat, rep) == s,
    decreases s.len(),
{
    if pat.len() == 0 || s.len() < pat.len() {
    } else {
        assert(!matches_at(s, pat, 0));
        assert(s.subrange(0, pat.len() as int) == s.take(pat.len() as int));
        let rest = s.skip(1);
        assert forall|j: int| !matches_at(rest, pat, j) by {
            if matches_at(rest, pat, j) {
                assert(rest.subrange(j, j + pat.len()) =~= s.subrange(j + 1, j + 1 + pat.len()));
                assert(matches_at(s, pat, j + 1));
            }
        }
        lemma_replace_all_absent(rest, pat, rep);
        assert(s =~= seq![s[0]] + rest);
    }
}

/// A text with no `${{` in it holds no flag placeholder.
proof fn lemma_no_open_no_placeholder(s: Seq<char>, name: Seq<char>)
    requires
        absent(s, seq!['$', '{', '{']),
    ensures
        absent(s, placeholder(name)),
{
    assert forall|j: int| !matches_at(s, placeholder(name), j) by {
        if matches_at(s, placeholder(name), j) {
            let p = placeholder(name);
            assert(s.subrange(j, j + 3) =~= p.subrange(0, 3));
            assert(p.subrange(0, 3) =~= seq!['$', '{', '{']);
            assert(matches_at(s, seq!['$', '{', '{'], j));
        }
    }
}

/// A template without any `${{` comes out of flag substitution unchanged,
/// whatever flags are given.
pub proof fn lemma_flags_leave_plain_text(template: Seq<char>, flags: Seq<(Seq<char>, Seq<char>)>)
    requires
        absent(template, seq!['$', '{', '{']),
    ensures
        substitute_flags(template, flags) == template,
    decreases flags.len(),
{
    if flags.len() > 0 {
        lemma_no_open_no_placeholder(template, flags[0].0);
        lemma_replace_all_absent(template, placeholder(flags[0].0), flags[0].1);
        lemma_flags_leave_plain_text(template, flags.subrange(1, flags.len() as int));
    }
}

/// With no flag values given, every flag placeholder is left as it is.
pub proof fn lemma_no_flags_no_change(template: Seq<char>)
    ensures
        substitute_flags(template, Seq::empty()) == template,
{
}

/// A template without any `${{env.` expands to itself, whatever the environment.
pub proof fn lemma_env_leaves_plain_text(template: Seq<char>, env: Seq<(Seq<char>, Seq<char>)>)
    requires
        absent(template, env_open()),
    ensures
        expand_env(template, 0, env) == Ok::<Seq<char>, EnvExpansionFailure>(template),
{
    lemma_find_from(template, env_open(), 0);
}

/// A placeholder naming a variable that is not set makes the expansion fail
/// with that name, when it is the first placeholder and is closed.
pub proof fn lemma_unset_variable_fails(
    before: Seq<char>,
    name: Seq<char>,
    after: Seq<char>,
    env: Seq<(Seq<char>, Seq<char>)>,
)
    requires
        absent(before + seq!['$', '{', '{', 'e', 'n', 'v'], env_open()),
        absent(name + seq!['}'], placeholder_close()),
        lookup(env, name) is None,
    ensures
        expand_env(before + env_open() + name + placeholder_close() + after, 0, env)
            == Err::<Seq<char>, EnvExpansionFailure>(EnvExpansionFailure::Unset { name }),
{
    lemma_first_placeholder(before, name, after);
}

/// In `before ${{env.NAME}} after`, with no earlier `${{env.` and no `}}`
/// inside the name, the first placeholder starts right after `before` and
/// is closed right after the name.
proof fn lemma_first_placeholder(before: Seq<char>, name: Seq<char>, after: Seq<char>)
    requires
        absent(before + seq!['$', '{', '{', 'e', 'n', 'v'], env_open()),
        absent(name + seq!['}'], placeholder_close()),
    ensures
        ({
            let s = before + env_open() + name + placeholder_close() + after;
            &&& find_from(s, env_open(), 0) == Some(before.len() as int)
            &&& find_from(s, placeholder_close(), before.len() as int + 7) == Some(
                before.len() as int + 7 + name.len(),
            )
            &&& s.subrange(before.len() as int + 7, before.len() as int + 7 + name.len()) == name
            &&& s.take(before.len() as int) == before
            &&& s.skip(before.len() as int + 7 + name.len() + 2) == after
        }),
{
    let s = before + env_open() + name + placeholder_close() + after;
    let b = before.len() as int;
    let n = name.len() as int;
    lemma_open_found(before, name + placeholder_close() + after);
    assert(s =~= before + env_open() + (name + placeholder_close() + after));
    lemma_close_found(before + env_open(), name, after);
    assert(s =~= (before + env_open()) + name + placeholder_close() + after);
    assert(s.subrange(b + 7, b + 7 + n) =~= name);
    assert(s.take(b) =~= before);
    assert(s.skip(b + 7 + n + 2) =~= after);
}

/// The first `${{env.` of `before ${{env. rest` is right after `before`
/// when `before` does not run into one.
proof fn lemma_open_found(before: Seq<char>, rest: Seq<char>)
    requires
        absent(before + seq!['$', '{', '{', 'e', 'n', 'v'], env_open()),
    ensures
        find_from(before + env_open() + rest, env_open(), 0) == Some(before.len() as int),
{
    let s = before + env_open() + rest;
    let b = before.len() as int;
    let pre = before + seq!['$', '{', '{', 'e', 'n', 'v'];
    assert(s.subrange(b, b + 7) =~= env_open());
    assert(pre =~= s.subrange(0, b + 6));
    assert forall|j: int| 0 <= j < b implies !matches_at(s, env_open(), j) by {
        if matches_at(s, env_open(), j) {
            assert(s.subrange(j, j + 7) =~= pre.subrange(j, j + 7));
            assert(matches_at(pre, env_open(), j));
        }
    }
    lemma_find_from_first(s, env_open(), 0, b);
}

/// The first `}}` at or after the start of `name` in `head name }} after`
/// is right after the name when `name}` holds none.
proof fn lemma_close_found(head: Seq<char>, name: Seq<char>, after: Seq<char>)
    requires
        absent(name + seq!['}'], placeholder_close()),
    ensures
        find_from(head + name + placeholder_close() + after, placeholder_close(), head.len() as int)
            == Some(head.len() as int + name.len()),
{
    let s = head + name + placeholder_close() + after;
    let h = head.len() as int;
    let n = name.len() as int;
    let t = name + seq!['}'];
    assert(s.subrange(h + n, h + n + 2) =~= placeholder_close());
    assert forall|j: int| h <= j < h + n implies !matches_at(s, placeholder_close(), j) by {
        if matches_at(s, placeholder_close(), j) {
            assert(s.subrange(j, j + 2) =~= t.subrange(j - h, j - h + 2));
            assert(matches_at(t, placeholder_close(), j - h));
        }
    }
    lemma_find_from_first(s, placeholder_close(), h, h + n);
}

/// `find_from` finds the first match at or after its start.
proof fn lemma_find_from_first(s: Seq<char>, pat: Seq<char>, from: int, k: int)
    requires
        0 <= from <= k,
        matches_at(s, pat, k),
        forall|j: int| from <= j < k ==> !matches_at(s, pat, j),
    ensures
        find_from(s, pat, from) == Some(k),
    decreases k - from,
{
    if from < k {
        assert(!matches_at(s, pat, from));
        if pat.len() == 0 {
            assert(s.subrange(from, from) =~= pat);
        }
        lemma_find_from_first(s, pat, from + 1, k);
    }
}

/// An environment placeholder whose variable is set is replaced by the
/// variable's value, which is not scanned again: `before ${{env.NAME}} after`
/// expands to `before VALUE after` when `before` and `after` hold no other
/// placeholder and the name holds no `}}`.
pub proof fn lemma_env_placeholder_replaced(
    before: Seq<char>,
    name: Seq<char>,
    value: Seq<char>,
    after: Seq<char>,
    env: Seq<(Seq<char>, Seq<char>)>,
)
    requires
        absent(before + seq!['$', '{', '{', 'e', 'n', 'v'], env_open()),
        absent(name + seq!['}'], placeholder_close()),
        absent(after, env_open()),
        lookup(env, name) == Some(value),
    ensures
        expand_env(before + env_open() + name + placeholder_close() + after, 0, env)
            == Ok::<Seq<char>, EnvExpansionFailure>(before + value + after),
{
    lemma_first_placeholder(before, name, after);
    let s = before + env_open() + name + placeholder_close() + after;
    let b = before.len() as int;
    let n = name.len() as int;
    let next = before + value + after;
    let from = b + value.len();
    assert(s.take(b) + value + s.skip(b + 7 + n + 2) =~= next);
    assert(expand_env(s, 0, env) == expand_env(next, from, env));
    lemma_find_from(next, env_open(), from);
    if let Some(k) = find_from(next, env_open(), from) {
        assert(next.subrange(k, k + 7) =~= after.subrange(k - from, k - from + 7));
        assert(matches_at(after, env_open(), k - from));
    }
    assert(expand_env(next, from, env) == Ok::<Seq<char>, EnvExpansionFailure>(next));
}

/// `s` holds no `$`.
pub open spec fn no_dollar(s: Seq<char>) -> bool {
    forall|i: int| 0 <= i < s.len() ==> s[i] != '$'
}

/// Text without `$` in front of the rest is passed through by `replace_all`
/// for a pattern that starts with `$`.
proof fn lemma_replace_all_dollar_free_prefix(x: Seq<char>, y: Seq<char>, pat: Seq<char>, rep: Seq<char>)
    requires
        no_dollar(x),
        pat.len() > 0,
        pat[0] == '$',
    ensures
        replace_all(x + y, pat, rep) == x + replace_all(y, pat, rep),
    decreases x.len(),
{
    if x.len() > 0 {
        let s = x + y;
        let x1 = x.skip(1);
        assert(s.skip(1) =~= x1 + y);
        lemma_replace_all_dollar_free_prefix(x1, y, pat, rep);
        if s.len() >= pat.len() {
            assert(s.take(pat.len() as int)[0] == x[0]);
            assert(s.take(pat.len() as int) != pat);
        } else {
            assert(no_dollar(x1));
            assert forall|j: int| !matches_at(x1 + y, pat, j) by {
                assert((x1 + y).len() < pat.len());
            }
            lemma_replace_all_absent(x1 + y, pat, rep);
            lemma_replace_all_absent(y, pat, rep);
            assert(forall|j: int| !matches_at(y, pat, j));
        }
        assert(x =~= seq![x[0]] + x1);
        assert(s =~= seq![x[0]] + (x1 + y));
    }
}

/// A flag placeholder is replaced by the flag's value: with the single flag
/// `NAME = VALUE`, `before ${{NAME}} after` becomes `before VALUE after`
/// when `before` and `after` hold no `$`.
pub proof fn lemma_flag_placeholder_replaced(before: Seq<char>, name: Seq<char>, value: Seq<char>, after: Seq<char>)
    requires
        no_dollar(before),
        no_dollar(after),
    ensures
        substitute_flags(before + placeholder(name) + after, seq![(name, value)]) == before + value + after,
{
    let p = placeholder(name);
    let flags = seq![(name, value)];
    assert(p[0] == '$');
    lemma_replace_all_dollar_free_prefix(before, p + after, p, value);
    assert(before + p + after =~= before + (p + after));
    assert((p + after).take(p.len() as int) =~= p);
    assert((p + after).skip(p.len() as int) =~= after);
    assert forall|j: int| !matches_at(after, p, j) by {
        if matches_at(after, p, j) {
            assert(after.subrange(j, j + p.len())[0] == after[j]);
        }
    }
    lemma_replace_all_absent(after, p, value);
    assert(replace_all(p + after, p, value) == value + replace_all(after, p, value));
    assert(replace_all(before + p + after, p, value) == before + (value + after));
    assert(flags.subrange(1, 1) =~= Seq::<(Seq<char>, Seq<char>)>::empty());
    assert(flags[0] == (name, value));
    assert(substitute_flags(before + p + after, flags) == substitute_flags(
        replace_all(before + p + after, p, value),
        flags.subrange(1, 1),
    ));
    assert(before + (value + after) =~= before + value + after);
}

/// A flag placeholder is replaced wherever it stands, `$` signs around it
/// included: with the single flag `NAME = VALUE`, when no `${{NAME}}`
/// starts inside `before`, `before ${{NAME}} after` becomes `before VALUE`
/// followed by `after` with its own placeholders replaced.
pub proof fn lemma_flag_placeholder_anywhere(before: Seq<char>, name: Seq<char>, value: Seq<char>, after: Seq<char>)
    requires
        forall|j: int| 0 <= j < before.len() ==> !matches_at(before + placeholder(name) + after, placeholder(name), j),
    ensures
        substitute_flags(before + placeholder(name) + after, seq![(name, value)]) == before + value + replace_all(
            after,
            placeholder(name),
            value,
        ),
{
    let p = placeholder(name);
    let flags = seq![(name, value)];
    assert(p.len() == name.len() + 5);
    lemma_replace_all_first_occurrence(before, p, value, after);
    assert(flags.subrange(1, 1) =~= Seq::<(Seq<char>, Seq<char>)>::empty());
    assert(flags[0] == (name, value));
    let t = before + p + after;
    assert(substitute_flags(t, flags) == substitute_flags(replace_all(t, p, value), flags.subrange(1, 1)));
    assert(substitute_flags(replace_all(t, p, value), Seq::<(Seq<char>, Seq<char>)>::empty()) == replace_all(t, p, value));
}

/// The outcome of expanding a text that follows `p`, seen from the whole:
/// the same text with `p` in front, or the same failure, an unclosed
/// placeholder's byte offset moved by the bytes of `p`.
pub open spec fn after_prefix(p: Seq<char>, r: Result<Seq<char>, EnvExpansionFailure>) -> Result<
    Seq<char>,
    EnvExpansionFailure,
> {
    match r {
        Ok(x) => Ok(p + x),
        Err(EnvExpansionFailure::Unclosed { position }) => Err(
            EnvExpansionFailure::Unclosed { position: utf8_len(p) + position },
        ),
        Err(EnvExpansionFailure::Unset { name }) => Err(EnvExpansionFailure::Unset { name }),
    }
}

/// Bytes of UTF-8 add up over a concatenation.
proof fn lemma_utf8_len_concat(a: Seq<char>, b: Seq<char>)
    ensures
        utf8_len(a + b) == utf8_len(a) + utf8_len(b),
    decreases b.len(),
{
    if b.len() > 0 {
        lemma_utf8_len_concat(a, b.drop_last());
        assert((a + b).drop_last() =~= a + b.drop_last());
        assert((a + b).last() == b.last());
    } else {
        assert(a + b =~= a);
    }
}

/// Searching `p + t` from inside `t` finds what searching `t` finds,
/// shifted by the length of `p`.
proof fn lemma_find_from_shift(p: Seq<char>, t: Seq<char>, pat: Seq<char>, i: int)
    requires
        0 <= i,
    ensures
        find_from(p + t, pat, p.len() + i) == match find_from(t, pat, i) {
            Some(k) => Some(k + p.len()),
            None => None::<int>,
        },
    decreases t.len() - i,
{
    let s = p + t;
    if i + pat.len() <= t.len() {
        assert(s.subrange(p.len() + i, p.len() + i + pat.len()) =~= t.subrange(i, i + pat.len()));
        if !matches_at(t, pat, i) && pat.len() > 0 {
            lemma_find_from_shift(p, t, pat, i + 1);
        }
    }
}

/// Expanding `p + t` from inside `t` works on `t` alone and keeps `p` in
/// front: what comes before the scan position is never touched.
proof fn lemma_expand_env_shift(p: Seq<char>, t: Seq<char>, i: int, env: Seq<(Seq<char>, Seq<char>)>)
    requires
        0 <= i <= t.len(),
    ensures
        expand_env(p + t, p.len() + i, env) == after_prefix(p, expand_env(t, i, env)),
    decreases t.len() - i,
{
    let s = p + t;
    let n = p.len() as int;
    lemma_find_from_shift(p, t, env_open(), i);
    lemma_find_from(t, env_open(), i);
    match find_from(t, env_open(), i) {
        None => {},
        Some(start) => {
            lemma_find_from_shift(p, t, placeholder_close(), start + 7);
            lemma_find_from(t, placeholder_close(), start + 7);
            match find_from(t, placeholder_close(), start + 7) {
                None => {
                    assert(s.take(n + start) =~= p + t.take(start));
                    lemma_utf8_len_concat(p, t.take(start));
                },
                Some(end) => {
                    let name = t.subrange(start + 7, end);
                    assert(s.subrange(n + start + 7, n + end) =~= name);
                    match lookup(env, name) {
                        None => {},
                        Some(value) => {
                            let t2 = t.take(start) + value + t.skip(end + 2);
                            assert(s.take(n + start) + value + s.skip(n + end + 2) =~= p + t2);
                            lemma_expand_env_shift(p, t2, start + value.len(), env);
                            assert(p.len() + (start + value.len()) == n + start + value.len());
                        },
                    }
                },
            }
        },
    }
}

/// Environment placeholders are replaced one after the other, each right
/// where it stands: in `before ${{env.NAME}} after`, with no placeholder
/// starting inside `before` and no `}}` inside the name, the expansion is
/// `before VALUE` followed by the expansion of `after` (or the failure met
/// in `after`), so a placeholder that directly follows another is expanded
/// too.
pub proof fn lemma_env_placeholders_in_sequence(
    before: Seq<char>,
    name: Seq<char>,
    value: Seq<char>,
    after: Seq<char>,
    env: Seq<(Seq<char>, Seq<char>)>,
)
    requires
        absent(before + seq!['$', '{', '{', 'e', 'n', 'v'], env_open()),
        absent(name + seq!['}'], placeholder_close()),
        lookup(env, name) == Some(value),
    ensures
        expand_env(before + env_open() + name + placeholder_close() + after, 0, env) == after_prefix(
            before + value,
            expand_env(after, 0, env),
        ),
{
    lemma_first_placeholder(before, name, after);
    let s = before + env_open() + name + placeholder_close() + after;
    let b = before.len() as int;
    let n = name.len() as int;
    assert(s.take(b) + value + s.skip(b + 7 + n + 2) =~= (before + value) + after);
    lemma_expand_env_shift(before + value, after, 0, env);
}

/// Flags are substituted one after the other: substituting the flags `f`
/// then `g` is substituting `f` followed by `g`, and a single flag
/// replaces every occurrence of its placeholder.
pub proof fn lemma_substitute_flags_in_order(
    template: Seq<char>,
    f: Seq<(Seq<char>, Seq<char>)>,
    g: Seq<(Seq<char>, Seq<char>)>,
)
    ensures
        substitute_flags(template, f + g) == substitute_flags(substitute_flags(template, f), g),
        f.len() == 1 ==> substitute_flags(template, f) == replace_all(template, placeholder(f[0].0), f[0].1),
    decreases f.len(),
{
    if f.len() > 0 {
        let rest = f.subrange(1, f.len() as int);
        assert((f + g).subrange(1, (f + g).len() as int) =~= rest + g);
        assert((f + g)[0] == f[0]);
        lemma_substitute_flags_in_order(replace_all(template, placeholder(f[0].0), f[0].1), rest, g);
        if f.len() == 1 {
            assert(rest =~= Seq::<(Seq<char>, Seq<char>)>::empty());
        }
    } else {
        assert(f + g =~= g);
    }
}

} // verus!
