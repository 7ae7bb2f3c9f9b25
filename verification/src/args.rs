use vstd::prelude::*;
use vstd::string::*;

use crate::text::{chars_of, starts_with, string_of};

verus! {

broadcast use vstd::string::group_string_axioms;

/// The views of a list of arguments.
pub open spec fn views(args: Seq<String>) -> Seq<Seq<char>> {
    Seq::new(args.len(), |i: int| args[i]@)
}

/// Index of the first argument equal to `flag`.
pub open spec fn first_index_of(args: Seq<Seq<char>>, flag: Seq<char>) -> Option<int> {
    if exists|i: int| 0 <= i < args.len() && args[i] == flag {
        Some(choose|i: int| 0 <= i < args.len() && args[i] == flag && forall|j: int| 0 <= j < i ==> args[j] != flag)
    } else {
        None
    }
}

/// Index of the first argument equal to `flag`.
pub fn position_of(args: &Vec<String>, flag: &str) -> (r: Option<usize>)
    ensures
        match r {
            Some(i) => i < args@.len() && args@[i as int]@ == flag@ && forall|j: int| 0 <= j < i ==> args@[j]@ != flag@,
            None => forall|j: int| 0 <= j < args@.len() ==> args@[j]@ != flag@,
        },
        r matches Some(i) ==> first_index_of(views(args@), flag@) == Some(i as int),
        r is None ==> first_index_of(views(args@), flag@) is None,
{
    let f = String::from_str(flag);
    let mut i: usize = 0;
    while i < args.len()
        invariant
            i <= args@.len(),
            f@ == flag@,
            forall|j: int| 0 <= j < i ==> args@[j]@ != flag@,
        decreases args@.len() - i,
    {
        if args[i] == f {
            proof {
                let v = views(args@);
                assert(v[i as int] == flag@);
                let w = choose|k: int| 0 <= k < v.len() && v[k] == flag@ && forall|j: int| 0 <= j < k ==> v[j] != flag@;
                if w < i {
                    assert(args@[w]@ != flag@);
                } else if w > i {
                    assert(v[i as int] != flag@);
                }
            }
            return Some(i);
        }
        i = i + 1;
    }
    proof {
        let v = views(args@);
        assert(!exists|k: int| 0 <= k < v.len() && v[k] == flag@) by {
            assert(forall|k: int| 0 <= k < v.len() ==> v[k] == args@[k]@);
        }
    }
    None
}

/// The argument that follows the first occurrence of `flag`.
pub open spec fn value_after_spec(args: Seq<Seq<char>>, flag: Seq<char>) -> Option<Seq<char>> {
    match first_index_of(args, flag) {
        Some(i) => if i + 1 < args.len() {
            Some(args[i + 1])
        } else {
            None
        },
        None => None,
    }
}

/// The argument that follows the first occurrence of `flag`, if any.
pub fn value_after(args: &Vec<String>, flag: &str) -> (r: Option<String>)
    ensures
        opt(r) == value_after_spec(views(args@), flag@),
{
    match position_of(args, flag) {
        Some(i) => {
            if args.len() - i > 1 {
                Some(args[i + 1].clone())
            } else {
                None
            }
        },
        None => None,
    }
}

/// The view of an optional text.
pub open spec fn opt(o: Option<String>) -> Option<Seq<char>> {
    match o {
        Some(s) => Some(s@),
        None => None,
    }
}

/// The argument at `index`, if there is one.
pub fn arg_at(args: &Vec<String>, index: usize) -> (r: Option<String>)
    ensures
        index < args@.len() ==> opt(r) == Some(args@[index as int]@),
        index >= args@.len() ==> r is None,
{
    if index < args.len() {
        Some(args[index].clone())
    } else {
        None
    }
}

/// The `--config=` prefix of the legacy configuration flag.
pub open spec fn config_assign() -> Seq<char> {
    "--config="@
}

/// The second `=`-separated field of a `--config=...` argument: the text
/// after its first `=` up to the next `=`.
pub open spec fn assigned_value(arg: Seq<char>) -> Seq<char> {
    let rest = arg.skip(9);
    if exists|k: int| 0 <= k < rest.len() && rest[k] == '=' {
        rest.take(choose|k: int| 0 <= k < rest.len() && rest[k] == '=' && forall|j: int| 0 <= j < k ==> rest[j] != '=')
    } else {
        rest
    }
}

/// The legacy configuration path: the value of the first `--config=...`
/// argument, or else the argument after the first `-c` or `--config`.
pub open spec fn legacy_config_path_spec(args: Seq<Seq<char>>) -> Option<Seq<char>> {
    if exists|i: int| 0 <= i < args.len() && config_assign().is_prefix_of(args[i]) {
        let i = choose|i: int|
            0 <= i < args.len() && config_assign().is_prefix_of(args[i]) && forall|j: int|
                0 <= j < i ==> !config_assign().is_prefix_of(args[j]);
        Some(assigned_value(args[i]))
    } else if exists|i: int| 0 <= i < args.len() && (args[i] == "-c"@ || args[i] == "--config"@) {
        let i = choose|i: int|
            0 <= i < args.len() && (args[i] == "-c"@ || args[i] == "--config"@) && forall|j: int|
                0 <= j < i ==> !(args[j] == "-c"@ || args[j] == "--config"@);
        if i + 1 < args.len() {
            Some(args[i + 1])
        } else {
            None
        }
    } else {
        None
    }
}

/// The value of the legacy `--config=PATH`, `--config PATH` or `-c PATH` flag.
pub fn legacy_config_path(args: &Vec<String>) -> (r: Option<String>)
    ensures
        opt(r) == legacy_config_path_spec(views(args@)),
{
    let ghost v = views(args@);
    proof {
        reveal_strlit("--config=");
    }
    let mut i: usize = 0;
    while i < args.len()
        invariant
            i <= args@.len(),
            v == views(args@),
            forall|j: int| 0 <= j < i ==> !config_assign().is_prefix_of(#[trigger] v[j]),
        decreases args@.len() - i,
    {
        if starts_with(args[i].as_str(), "--config=") {
            proof {
                reveal_strlit("--config=");
            }
            let c = chars_of(args[i].as_str());
            let mut k: usize = 9;
            while k < c.len() && c[k] != '='
                invariant
                    9 <= k <= c@.len(),
                    c@ == args@[i as int]@,
                    forall|j: int| 9 <= j < k ==> c@[j] != '=',
                decreases c.len() - k,
            {
                k = k + 1;
            }
            let mut out: Vec<char> = Vec::new();
            let mut m: usize = 9;
            while m < k
                invariant
                    9 <= m <= k <= c@.len(),
                    out@ == c@.subrange(9, m as int),
                decreases k - m,
            {
                out.push(c[m]);
                m = m + 1;
                assert(c@.subrange(9, m as int) =~= c@.subrange(9, m - 1).push(c@[m - 1]));
            }
            proof {
                assert(v[i as int] == c@);
                assert(config_assign().is_prefix_of(v[i as int]));
                let w = choose|w: int|
                    0 <= w < v.len() && config_assign().is_prefix_of(v[w]) && forall|j: int|
                        0 <= j < w ==> !config_assign().is_prefix_of(v[j]);
                if w < i {
                    assert(!config_assign().is_prefix_of(v[w]));
                } else if w > i {
                    assert(!config_assign().is_prefix_of(v[i as int]));
                }
                let rest = c@.skip(9);
                if k < c.len() {
                    assert(rest[k - 9] == '=');
                    let q = choose|q: int| 0 <= q < rest.len() && rest[q] == '=' && forall|j: int| 0 <= j < q ==> rest[j] != '=';
                    if q < k - 9 {
                        assert(c@[q + 9] != '=');
                    } else if q > k - 9 {
                        assert(rest[k - 9] != '=');
                    }
                    assert(out@ =~= rest.take(k - 9));
                } else {
                    assert(!exists|q: int| 0 <= q < rest.len() && rest[q] == '=') by {
                        assert(forall|q: int| 0 <= q < rest.len() ==> rest[q] == c@[q + 9]);
                    }
                    assert(out@ =~= rest);
                }
            }
            return Some(string_of(&out));
        }
        i = i + 1;
    }
    proof {
        assert(!exists|j: int| 0 <= j < v.len() && config_assign().is_prefix_of(v[j]));
    }
    let short = position_of(args, "-c");
    let long = position_of(args, "--config");
    let first = match (short, long) {
        (Some(a), Some(b)) => if a < b {
            Some(a)
        } else {
            Some(b)
        },
        (Some(a), None) => Some(a),
        (None, Some(b)) => Some(b),
        (None, None) => None,
    };
    proof {
        match first {
            Some(f) => {
                assert(0 <= f < v.len() && (v[f as int] == "-c"@ || v[f as int] == "--config"@));
                assert(forall|j: int| 0 <= j < f ==> !(#[trigger] v[j] == "-c"@ || v[j] == "--config"@));
                let w = choose|w: int|
                    0 <= w < v.len() && (v[w] == "-c"@ || v[w] == "--config"@) && forall|j: int|
                        0 <= j < w ==> !(v[j] == "-c"@ || v[j] == "--config"@);
                if w < f {
                    assert(!(v[w] == "-c"@ || v[w] == "--config"@));
                } else if w > f {
                    assert(!(v[f as int] == "-c"@ || v[f as int] == "--config"@));
                }
            },
            None => {
                assert(!exists|j: int| 0 <= j < v.len() && (v[j] == "-c"@ || v[j] == "--config"@));
            },
        }
    }
    match first {
        Some(f) => arg_at(args, f + 1),
        None => None,
    }
}

/// The arguments handed to the parser in legacy mode: every `--config=...`
/// argument, and every `-c` or `--config` with the argument after it,
/// removed.
pub open spec fn strip_config_args(args: Seq<Seq<char>>, skip: bool) -> Seq<Seq<char>>
    decreases args.len(),
{
    if args.len() == 0 {
        Seq::empty()
    } else {
        let a = args[0];
        let rest = args.subrange(1, args.len() as int);
        if skip {
            strip_config_args(rest, false)
        } else if config_assign().is_prefix_of(a) {
            strip_config_args(rest, false)
        } else if a == "-c"@ || a == "--config"@ {
            strip_config_args(rest, true)
        } else {
            seq![a] + strip_config_args(rest, false)
        }
    }
}

/// The arguments with the legacy configuration flag and its value removed.
pub fn legacy_mode_args(args: &Vec<String>) -> (out: Vec<String>)
    ensures
        views(out@) == strip_config_args(views(args@), false),
{
    let ghost v = views(args@);
    let mut out: Vec<String> = Vec::new();
    let mut skip = false;
    let mut i: usize = 0;
    let dash_c = String::from_str("-c");
    let long = String::from_str("--config");
    assert(v.subrange(0, v.len() as int) =~= v);
    while i < args.len()
        invariant
            i <= args@.len(),
            v == views(args@),
            dash_c@ == "-c"@,
            long@ == "--config"@,
            views(out@) + strip_config_args(v.subrange(i as int, v.len() as int), skip)
                == strip_config_args(v, false),
        decreases args@.len() - i,
    {
        let ghost rest = v.subrange(i as int, v.len() as int);
        assert(rest.subrange(1, rest.len() as int) =~= v.subrange(i + 1, v.len() as int));
        assert(rest[0] == args@[i as int]@);
        if skip {
            skip = false;
        } else if starts_with(args[i].as_str(), "--config=") {
        } else if args[i] == dash_c || args[i] == long {
            skip = true;
        } else {
            let ghost before = out@;
            out.push(args[i].clone());
            assert(views(out@) =~= views(before) + seq![args@[i as int]@]);
        }
        i = i + 1;
    }
    assert(v.subrange(i as int, v.len() as int) =~= Seq::<Seq<char>>::empty());
    assert(views(out@) + Seq::<Seq<char>>::empty() =~= views(out@));
    out
}

/// The arguments handed to the parser in alias mode, after the first:
/// every `--alias-mode` with the argument after it removed.
pub open spec fn strip_alias_mode_args(args: Seq<Seq<char>>, skip: bool) -> Seq<Seq<char>>
    decreases args.len(),
{
    if args.len() == 0 {
        Seq::empty()
    } else {
        let a = args[0];
        let rest = args.subrange(1, args.len() as int);
        if skip {
            strip_alias_mode_args(rest, false)
        } else if a == "--alias-mode"@ {
            strip_alias_mode_args(rest, true)
        } else {
            seq![a] + strip_alias_mode_args(rest, false)
        }
    }
}

/// The arguments for an alias: the program name replaced by the alias name,
/// and `--alias-mode` with its value removed.
pub fn alias_mode_args(args: &Vec<String>, alias_name: &str) -> (out: Vec<String>)
    ensures
        args@.len() == 0 ==> out@.len() == 0,
        args@.len() > 0 ==> views(out@) == seq![alias_name@] + strip_alias_mode_args(
            views(args@).subrange(1, args@.len() as int),
            false,
        ),
{
    let ghost v = views(args@);
    let mut out: Vec<String> = Vec::new();
    if args.len() == 0 {
        return out;
    }
    out.push(String::from_str(alias_name));
    let mut skip = false;
    let marker = String::from_str("--alias-mode");
    let mut i: usize = 1;
    assert(views(out@) =~= seq![alias_name@]);
    assert(v.subrange(1, v.len() as int).subrange(0, v.len() - 1) =~= v.subrange(1, v.len() as int));
    while i < args.len()
        invariant
            1 <= i <= args@.len(),
            v == views(args@),
            marker@ == "--alias-mode"@,
            views(out@) + strip_alias_mode_args(v.subrange(i as int, v.len() as int), skip)
                == seq![alias_name@] + strip_alias_mode_args(v.subrange(1, v.len() as int), false),
        decreases args@.len() - i,
    {
        let ghost rest = v.subrange(i as int, v.len() as int);
        assert(rest.subrange(1, rest.len() as int) =~= v.subrange(i + 1, v.len() as int));
        assert(rest[0] == args@[i as int]@);
        if skip {
            skip = false;
        } else if args[i] == marker {
            skip = true;
        } else {
            let ghost before = out@;
            out.push(args[i].clone());
            assert(views(out@) =~= views(before) + seq![args@[i as int]@]);
        }
        i = i + 1;
    }
    assert(v.subrange(i as int, v.len() as int) =~= Seq::<Seq<char>>::empty());
    assert(views(out@) + Seq::<Seq<char>>::empty() =~= views(out@));
    out
}

/// What the program was asked to do, read from its arguments.
pub enum Invocation {
    /// Print the completion script of `alias` for `shell`.
    GenerateCompletions { shell: String, alias: String },
    /// Check the sources of `alias` for changes.
    CheckUpdates { alias: String },
    /// Run as the alias `name`, from its cached configurations.
    Alias { name: String },
    /// Run the single configuration at `config_path`.
    Legacy { config_path: String },
    /// Run the installer.
    Installer,
}

/// The message for `--generate-completions` without a shell name.
pub open spec fn missing_shell_message() -> Seq<char> {
    "Missing shell name after --generate-completions"@
}

/// The message for `--generate-completions` without an alias name.
pub open spec fn missing_completion_alias_message() -> Seq<char> {
    "Missing alias name after --generate-completions"@
}

/// The message for `--check-updates` without an alias name.
pub open spec fn missing_update_alias_message() -> Seq<char> {
    "Missing alias name after --check-updates"@
}

/// What a `--generate-completions` at index `p` asks for.
pub open spec fn completions_request(v: Seq<Seq<char>>, p: int, r: Result<Invocation, String>) -> bool {
    if p + 1 >= v.len() {
        r matches Err(m) && m@ == missing_shell_message()
    } else if p + 2 >= v.len() {
        r matches Err(m) && m@ == missing_completion_alias_message()
    } else {
        r matches Ok(Invocation::GenerateCompletions { shell, alias }) && shell@ == v[p + 1] && alias@ == v[p
            + 2]
    }
}

/// What a `--check-updates` at index `p` asks for.
pub open spec fn update_check_request(v: Seq<Seq<char>>, p: int, r: Result<Invocation, String>) -> bool {
    if p + 1 >= v.len() {
        r matches Err(m) && m@ == missing_update_alias_message()
    } else {
        r matches Ok(Invocation::CheckUpdates { alias }) && alias@ == v[p + 1]
    }
}

/// How to run when neither completions nor an update check are asked for.
pub open spec fn run_request(v: Seq<Seq<char>>, r: Invocation) -> bool {
    match value_after_spec(v, "--alias-mode"@) {
        Some(n) => r matches Invocation::Alias { name } && name@ == n,
        None => match legacy_config_path_spec(v) {
            Some(c) => r matches Invocation::Legacy { config_path } && config_path@ == c,
            None => r is Installer,
        },
    }
}

/// The request of a `--generate-completions` at index `p`.
fn completions_at(args: &Vec<String>, p: usize) -> (r: Result<Invocation, String>)
    requires
        p < args@.len(),
    ensures
        completions_request(views(args@), p as int, r),
{
    if args.len() - p <= 1 {
        return Err(String::from_str("Missing shell name after --generate-completions"));
    }
    if args.len() - p <= 2 {
        return Err(String::from_str("Missing alias name after --generate-completions"));
    }
    Ok(Invocation::GenerateCompletions { shell: args[p + 1].clone(), alias: args[p + 2].clone() })
}

/// The request of a `--check-updates` at index `p`.
fn update_check_at(args: &Vec<String>, p: usize) -> (r: Result<Invocation, String>)
    requires
        p < args@.len(),
    ensures
        update_check_request(views(args@), p as int, r),
{
    if args.len() - p <= 1 {
        return Err(String::from_str("Missing alias name after --check-updates"));
    }
    Ok(Invocation::CheckUpdates { alias: args[p + 1].clone() })
}

/// How to run: as the alias named after the first `--alias-mode`, else on
/// the legacy configuration path, else as the installer.
fn run_mode(args: &Vec<String>) -> (r: Invocation)
    ensures
        run_request(views(args@), r),
{
    match value_after(args, "--alias-mode") {
        Some(name) => Invocation::Alias { name },
        None => match legacy_config_path(args) {
            Some(config_path) => Invocation::Legacy { config_path },
            None => Invocation::Installer,
        },
    }
}

/// Reads what to do from the arguments, in this order: the first
/// `--generate-completions` with the shell and alias names after it; the
/// first `--check-updates` with the alias name after it; the value of the
/// first `--alias-mode`; the legacy configuration path; else the installer.
pub fn invocation(args: &Vec<String>) -> (r: Result<Invocation, String>)
    ensures
        match first_index_of(views(args@), "--generate-completions"@) {
            Some(p) => completions_request(views(args@), p, r),
            None => match first_index_of(views(args@), "--check-updates"@) {
                Some(p) => update_check_request(views(args@), p, r),
                None => r matches Ok(i) && run_request(views(args@), i),
            },
        },
{
    match position_of(args, "--generate-completions") {
        Some(p) => {
            return completions_at(args, p);
        },
        None => {},
    }
    match position_of(args, "--check-updates") {
        Some(p) => update_check_at(args, p),
        None => Ok(run_mode(args)),
    }
}

/// No argument left for the parser in legacy mode is a configuration flag.
pub proof fn lemma_legacy_args_have_no_config_flag(args: Seq<Seq<char>>, skip: bool)
    ensures
        forall|i: int|
            0 <= i < strip_config_args(args, skip).len() ==> {
                let a = #[trigger] strip_config_args(args, skip)[i];
                &&& a != "-c"@
                &&& a != "--config"@
                &&& !config_assign().is_prefix_of(a)
            },
    decreases args.len(),
{
    if args.len() > 0 {
        let rest = args.subrange(1, args.len() as int);
        lemma_legacy_args_have_no_config_flag(rest, false);
        lemma_legacy_args_have_no_config_flag(rest, true);
        let out = strip_config_args(args, skip);
        if skip || config_assign().is_prefix_of(args[0]) {
            assert(out == strip_config_args(rest, false));
        } else if args[0] == "-c"@ || args[0] == "--config"@ {
            assert(out == strip_config_args(rest, true));
        } else {
            let tail = strip_config_args(rest, false);
            assert(out == seq![args[0]] + tail);
            assert forall|i: int| 0 <= i < out.len() implies {
                let a = #[trigger] out[i];
                &&& a != "-c"@
                &&& a != "--config"@
                &&& !config_assign().is_prefix_of(a)
            } by {
                if i > 0 {
                    assert(out[i] == tail[i - 1]);
                }
            }
        }
    }
}

/// No argument left after the alias name in alias mode is `--alias-mode`.
pub proof fn lemma_alias_args_have_no_marker(args: Seq<Seq<char>>, skip: bool)
    ensures
        forall|i: int|
            0 <= i < strip_alias_mode_args(args, skip).len() ==> #[trigger] strip_alias_mode_args(
                args,
                skip,
            )[i] != "--alias-mode"@,
    decreases args.len(),
{
    if args.len() > 0 {
        let rest = args.subrange(1, args.len() as int);
        lemma_alias_args_have_no_marker(rest, false);
        lemma_alias_args_have_no_marker(rest, true);
        let out = strip_alias_mode_args(args, skip);
        if skip {
            assert(out == strip_alias_mode_args(rest, false));
        } else if args[0] == "--alias-mode"@ {
            assert(out == strip_alias_mode_args(rest, true));
        } else {
            let tail = strip_alias_mode_args(rest, false);
            assert(out == seq![args[0]] + tail);
            assert forall|i: int| 0 <= i < out.len() implies #[trigger] out[i] != "--alias-mode"@ by {
                if i > 0 {
                    assert(out[i] == tail[i - 1]);
                }
            }
        }
    }
}

/// An argument that is neither `--alias-mode` nor the value after one.
pub open spec fn not_alias_marker(a: Seq<char>) -> bool {
    a != "--alias-mode"@
}

/// In alias mode every argument is handed on, in order, except each
/// `--alias-mode` and the argument right after it: arguments with no
/// `--alias-mode` among them all pass, and `a --alias-mode v b` passes `a`
/// followed by what passes of `b`.
pub proof fn lemma_alias_args_kept(a: Seq<Seq<char>>, v: Seq<char>, b: Seq<Seq<char>>)
    ensures
        (forall|i: int| 0 <= i < a.len() ==> not_alias_marker(#[trigger] a[i])) ==> strip_alias_mode_args(a, false) == a,
        (forall|i: int| 0 <= i < a.len() ==> not_alias_marker(#[trigger] a[i])) ==> strip_alias_mode_args(
            a + seq!["--alias-mode"@, v] + b,
            false,
        ) == a + strip_alias_mode_args(b, false),
    decreases a.len(),
{
    if forall|i: int| 0 <= i < a.len() ==> not_alias_marker(#[trigger] a[i]) {
        let s = a + seq!["--alias-mode"@, v] + b;
        if a.len() == 0 {
            assert(s.subrange(1, s.len() as int) =~= seq![v] + b);
            assert((seq![v] + b).subrange(1, b.len() + 1 as int) =~= b);
            assert(s[0] == "--alias-mode"@);
            assert(strip_alias_mode_args(s, false) == strip_alias_mode_args(seq![v] + b, true));
            assert(strip_alias_mode_args(seq![v] + b, true) == strip_alias_mode_args(b, false));
            assert(a + strip_alias_mode_args(b, false) =~= strip_alias_mode_args(b, false));
        } else {
            let a1 = a.subrange(1, a.len() as int);
            assert(forall|i: int| 0 <= i < a1.len() ==> not_alias_marker(#[trigger] a1[i])) by {
                assert forall|i: int| 0 <= i < a1.len() implies not_alias_marker(#[trigger] a1[i]) by {
                    assert(a1[i] == a[i + 1]);
                }
            }
            lemma_alias_args_kept(a1, v, b);
            assert(not_alias_marker(a[0]));
            assert(s.subrange(1, s.len() as int) =~= a1 + seq!["--alias-mode"@, v] + b);
            assert(a =~= seq![a[0]] + a1);
            assert(a + strip_alias_mode_args(b, false) =~= seq![a[0]] + (a1 + strip_alias_mode_args(b, false)));
        }
    }
}

/// An argument that is none of the legacy configuration flags.
pub open spec fn not_config_flag(a: Seq<char>) -> bool {
    a != "-c"@ && a != "--config"@ && !config_assign().is_prefix_of(a)
}

/// In legacy mode every argument is handed on, in order, except the
/// configuration flags: arguments with none among them all pass;
/// `a -c v b` and `a --config v b` pass `a` followed by what passes of
/// `b`; and `a --config=PATH b` passes `a` followed by what passes of `b`.
pub proof fn lemma_legacy_args_kept(a: Seq<Seq<char>>, flag: Seq<char>, v: Seq<char>, b: Seq<Seq<char>>)
    ensures
        (forall|i: int| 0 <= i < a.len() ==> not_config_flag(#[trigger] a[i])) ==> strip_config_args(a, false) == a,
        (forall|i: int| 0 <= i < a.len() ==> not_config_flag(#[trigger] a[i])) && (flag == "-c"@ || flag == "--config"@)
            ==> strip_config_args(a + seq![flag, v] + b, false) == a + strip_config_args(b, false),
        (forall|i: int| 0 <= i < a.len() ==> not_config_flag(#[trigger] a[i])) && config_assign().is_prefix_of(flag)
            ==> strip_config_args(a + seq![flag] + b, false) == a + strip_config_args(b, false),
    decreases a.len(),
{
    if forall|i: int| 0 <= i < a.len() ==> not_config_flag(#[trigger] a[i]) {
        let s2 = a + seq![flag, v] + b;
        let s1 = a + seq![flag] + b;
        if a.len() == 0 {
            assert(s2.subrange(1, s2.len() as int) =~= seq![v] + b);
            assert((seq![v] + b).subrange(1, b.len() + 1 as int) =~= b);
            assert(s1.subrange(1, s1.len() as int) =~= b);
            assert(a + strip_config_args(b, false) =~= strip_config_args(b, false));
            if flag == "-c"@ || flag == "--config"@ {
                reveal_strlit("-c");
                reveal_strlit("--config");
                reveal_strlit("--config=");
                if flag == "-c"@ {
                    assert(flag.len() == 2);
                } else {
                    assert(flag.len() == 8);
                }
                assert(!config_assign().is_prefix_of(flag));
                assert(s2[0] == flag);
                assert(strip_config_args(s2, false) == strip_config_args(seq![v] + b, true));
                assert(strip_config_args(seq![v] + b, true) == strip_config_args(b, false));
            }
        } else {
            let a1 = a.subrange(1, a.len() as int);
            assert forall|i: int| 0 <= i < a1.len() implies not_config_flag(#[trigger] a1[i]) by {
                assert(a1[i] == a[i + 1]);
            }
            lemma_legacy_args_kept(a1, flag, v, b);
            assert(not_config_flag(a[0]));
            assert(s2.subrange(1, s2.len() as int) =~= a1 + seq![flag, v] + b);
            assert(s1.subrange(1, s1.len() as int) =~= a1 + seq![flag] + b);
            assert(a =~= seq![a[0]] + a1);
            assert(a + strip_config_args(b, false) =~= seq![a[0]] + (a1 + strip_config_args(b, false)));
        }
    }
}

} // verus!
