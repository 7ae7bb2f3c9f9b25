use vstd::prelude::*;
use vstd::string::*;

use crate::bindings::{lookup, Bindings};
use crate::cache::{is_openapi_source, openapi_prefix};
use crate::errors::RingError;
use crate::models::{check_configuration, checked, config_ok, Configuration};
use crate::paths::{anchor_dir, anchor_dir_of, is_absolute, join, join_path, lemma_join_absolute, path_is_absolute};
use crate::text::{all_ascii, chars_of};

verus! {

broadcast use vstd::string::group_string_axioms;

/// A name for what `char::is_alphanumeric` returns: whether `c` is
/// alphabetic or numeric in the Unicode sense.
pub uninterp spec fn unicode_alphanumeric(c: char) -> bool;

/// An ASCII letter or digit.
pub open spec fn ascii_alphanumeric(c: char) -> bool {
    ('a' <= c && c <= 'z') || ('A' <= c && c <= 'Z') || ('0' <= c && c <= '9')
}

/// Calls `char::is_alphanumeric`. The contract claims that the result is
/// the named function of the character and, for an ASCII character, that it
/// holds exactly of the letters and digits (the only ASCII characters with
/// the Unicode `Alphabetic` property or a numeric general category, which
/// std's documentation defines the test by).
#[verifier::external_body]
fn char_is_alphanumeric(c: char) -> (r: bool)
    ensures
        r == unicode_alphanumeric(c),
        (c as u32) < 0x80 ==> (r <==> ascii_alphanumeric(c)),
{
    c.is_alphanumeric()
}

/// A character allowed in an alias name.
pub open spec fn alias_char_allowed(c: char) -> bool {
    unicode_alphanumeric(c) || c == '-' || c == '_'
}

/// An ASCII character allowed in an alias name.
pub open spec fn ascii_alias_char(c: char) -> bool {
    ascii_alphanumeric(c) || c == '-' || c == '_'
}

/// Why an alias name was refused.
pub enum AliasNameError {
    Empty,
    InvalidCharacters { name: String },
}

impl AliasNameError {
    /// The text shown for this error.
    pub fn describe(&self) -> (s: String)
        ensures
            s@ == match *self {
                AliasNameError::Empty => "Alias name cannot be empty"@,
                AliasNameError::InvalidCharacters { name } => "Alias name '"@ + name@
                    + "' contains invalid characters. Only alphanumeric, '-', and '_' are allowed."@,
            },
    {
        match self {
            AliasNameError::Empty => String::from_str("Alias name cannot be empty"),
            AliasNameError::InvalidCharacters { name } => {
                let mut s = String::from_str("Alias name '");
                s.append(name.as_str());
                s.append("' contains invalid characters. Only alphanumeric, '-', and '_' are allowed.");
                s
            },
        }
    }
}

/// Accepts a non-empty alias name made only of alphanumeric characters,
/// `-` and `_`.
pub fn validate_alias_name(name: &str) -> (res: Result<(), AliasNameError>)
    ensures
        name@.len() == 0 ==> res matches Err(AliasNameError::Empty),
        name@.len() > 0 ==> (res is Ok <==> forall|i: int|
            0 <= i < name@.len() ==> alias_char_allowed(#[trigger] name@[i])),
        name@.len() > 0 && res is Err ==> (res matches Err(AliasNameError::InvalidCharacters { name: n })
            && n@ == name@),
        all_ascii(name@) ==> (res is Ok <==> name@.len() > 0 && forall|i: int|
            0 <= i < name@.len() ==> ascii_alias_char(#[trigger] name@[i])),
{
    let c = chars_of(name);
    if c.len() == 0 {
        return Err(AliasNameError::Empty);
    }
    let mut i: usize = 0;
    while i < c.len()
        invariant
            i <= c@.len(),
            c@ == name@,
            forall|k: int| 0 <= k < i ==> alias_char_allowed(#[trigger] c@[k]),
            forall|k: int| 0 <= k < i && (c@[k] as u32) < 0x80 ==> ascii_alias_char(#[trigger] c@[k]),
        decreases c.len() - i,
    {
        let ch = c[i];
        if !(char_is_alphanumeric(ch) || ch == '-' || ch == '_') {
            proof {
                if all_ascii(name@) {
                    assert((c@[i as int] as u32) < 0x80);
                    assert(!ascii_alias_char(c@[i as int]));
                }
            }
            return Err(AliasNameError::InvalidCharacters { name: String::from_str(name) });
        }
        i = i + 1;
    }
    Ok(())
}

/// Where a relative `base_dir` of a configuration read from
/// `config_file_path` points: the base directory joined onto the directory
/// of the configuration file. `None` when there is no base directory or it
/// is absolute.
pub open spec fn base_dir_target(base_dir: Option<String>, config_file_path: Seq<char>) -> Option<Seq<char>> {
    match base_dir {
        Some(d) => if is_absolute(d@) {
            None
        } else {
            Some(join_path(anchor_dir(config_file_path), d@))
        },
        None => None,
    }
}

/// Where the relative `base_dir` of `config` points when the configuration
/// was read from `config_file_path`; `None` when there is nothing to resolve.
pub fn relative_base_dir_target(config: &Configuration, config_file_path: &str) -> (r: Option<String>)
    ensures
        match base_dir_target(config.base_dir, config_file_path@) {
            Some(t) => r matches Some(s) && s@ == t,
            None => r is None,
        },
{
    match &config.base_dir {
        Some(dir) => {
            if path_is_absolute(dir.as_str()) {
                None
            } else {
                let anchor = anchor_dir_of(config_file_path);
                Some(join(anchor.as_str(), dir.as_str()))
            }
        },
        None => None,
    }
}

/// The absolute form of the base-directory target `target`: its canonical
/// form when one was found (an absolute path), else the target resolved
/// against the current directory `current_dir`.
pub open spec fn absolute_base_dir(target: Seq<char>, canonical: Option<String>, current_dir: Seq<char>) -> Seq<char> {
    match canonical {
        Some(c) => if is_absolute(c@) {
            c@
        } else {
            join_path(current_dir, target)
        },
        None => join_path(current_dir, target),
    }
}

/// Resolves a relative `base_dir` to an absolute path: the base directory
/// joined onto the directory of the file the configuration was read from,
/// in its canonical form `canonical` when that target exists on disk, or
/// else resolved against the current directory `current_dir`. Absolute and
/// missing base directories, and every other field, are left unchanged.
pub fn resolve_base_dir(config: &mut Configuration, config_file_path: &str, canonical: Option<String>, current_dir: &str)
    ensures
        final(config).version == old(config).version,
        final(config).name == old(config).name,
        final(config).description == old(config).description,
        final(config).banner == old(config).banner,
        final(config).commands == old(config).commands,
        match base_dir_target(old(config).base_dir, config_file_path@) {
            Some(t) => final(config).base_dir matches Some(b) && b@ == absolute_base_dir(t, canonical, current_dir@),
            None => final(config).base_dir == old(config).base_dir,
        },
        is_absolute(current_dir@) ==> (final(config).base_dir matches Some(b) ==> is_absolute(b@)),
{
    proof {
        if let Some(t) = base_dir_target(config.base_dir, config_file_path@) {
            lemma_join_absolute(current_dir@, t);
        }
    }
    match relative_base_dir_target(config, config_file_path) {
        Some(target) => {
            let resolved = match canonical {
                Some(c) => if path_is_absolute(c.as_str()) {
                    c
                } else {
                    join(current_dir, target.as_str())
                },
                None => join(current_dir, target.as_str()),
            };
            config.base_dir = Some(resolved);
        },
        None => {},
    }
}

/// The message for two configurations that share a name.
pub open spec fn conflict_message(name: Seq<char>, previous: Seq<char>, path: Seq<char>) -> Seq<char> {
    "Config name '"@ + name + "' is used by both '"@ + previous + "' and '"@ + path + "'"@
}

/// What registering a configuration name found.
pub enum NameCheck {
    /// The name was not taken.
    Fresh,
    /// The name was taken; conflicts are only warned about, so the new path
    /// now holds the name.
    Warned(String),
    /// The name was taken and conflicts are errors; nothing was registered.
    Conflict(String),
}

/// `seen` after binding `name` to `path`.
pub open spec fn rebinds(after: Seq<(Seq<char>, Seq<char>)>, before: Seq<(Seq<char>, Seq<char>)>, name: Seq<char>, path: Seq<char>) -> bool {
    &&& lookup(after, name) == Some(path)
    &&& forall|other: Seq<char>| other != name ==> lookup(after, other) == lookup(before, other)
}

/// Registers the configuration named `name`, read from `path`, among the
/// names already `seen` (each bound to the path that last claimed it). A
/// name already taken is a conflict: an error, or only a warning when
/// `warn_only` is set, in which case the new path takes the name over.
pub fn register_config_name(seen: &mut Bindings, name: &str, path: &str, warn_only: bool) -> (r: NameCheck)
    ensures
        match lookup(old(seen)@, name@) {
            None => r is Fresh && rebinds(final(seen)@, old(seen)@, name@, path@),
            Some(previous) => if warn_only {
                &&& r matches NameCheck::Warned(m)
                &&& m@ == conflict_message(name@, previous, path@)
                &&& rebinds(final(seen)@, old(seen)@, name@, path@)
            } else {
                &&& r matches NameCheck::Conflict(m)
                &&& m@ == conflict_message(name@, previous, path@)
                &&& final(seen)@ == old(seen)@
            },
        },
{
    let previous = seen.get(name);
    let r = match previous {
        None => NameCheck::Fresh,
        Some(prev) => {
            let mut m = String::from_str("Config name '");
            m.append(name);
            m.append("' is used by both '");
            m.append(prev.as_str());
            m.append("' and '");
            m.append(path);
            m.append("'");
            if warn_only {
                NameCheck::Warned(m)
            } else {
                return NameCheck::Conflict(m);
            }
        },
    };
    seen.insert(String::from_str(name), String::from_str(path));
    r
}

/// The configurations gathered for a new alias, in the order they were
/// read: for each, `(name, source_path, content to cache)` in `configs`,
/// the raw content whose hash is trusted at the same index of `raws` (the
/// content itself for a file, the specification for an OpenAPI source),
/// and its banner at the same index of `banners`. `seen` binds each name
/// to the source that holds it.
pub struct InitPlan {
    pub seen: Bindings,
    pub configs: Vec<(String, String, String)>,
    pub raws: Vec<String>,
    pub banners: Vec<Option<String>>,
}

impl InitPlan {
    /// The three lists stay aligned, one position per configuration.
    pub open spec fn aligned(&self) -> bool {
        &&& self.configs@.len() == self.raws@.len()
        &&& self.raws@.len() == self.banners@.len()
    }

    /// A plan with no configuration.
    pub fn new() -> (p: InitPlan)
        ensures
            p.aligned(),
            p.configs@.len() == 0,
            p.seen@.len() == 0,
    {
        InitPlan { seen: Bindings::new(), configs: Vec::new(), raws: Vec::new(), banners: Vec::new() }
    }

    /// Adds `config`, read from `source_path`. A configuration that breaks
    /// a rule (see `check_configuration`) is refused with that error. A
    /// name that is already taken is a conflict: the plan is left unchanged,
    /// unless `warn_only` is set, in which case the configuration is added
    /// and the new source takes the name over.
    pub fn add(
        &mut self,
        config: &Configuration,
        source_path: &str,
        content: String,
        raw: String,
        warn_only: bool,
    ) -> (r: Result<NameCheck, RingError>)
        requires
            old(self).aligned(),
        ensures
            final(self).aligned(),
            !config_ok(*config) ==> (r matches Err(e) && checked(Err::<(), RingError>(e), *config)),
            config_ok(*config) ==> (r matches Ok(nc) && match lookup(old(self).seen@, config.name@) {
                None => nc is Fresh,
                Some(previous) => if warn_only {
                    nc matches NameCheck::Warned(m) && m@ == conflict_message(config.name@, previous, source_path@)
                } else {
                    nc matches NameCheck::Conflict(m) && m@ == conflict_message(config.name@, previous, source_path@)
                },
            }),
            (r is Err || (r matches Ok(NameCheck::Conflict(_)))) ==> {
                &&& final(self).seen@ == old(self).seen@
                &&& final(self).configs == old(self).configs
                &&& final(self).raws == old(self).raws
                &&& final(self).banners == old(self).banners
            },
            (r matches Ok(nc) && !(nc is Conflict)) ==> {
                &&& rebinds(final(self).seen@, old(self).seen@, config.name@, source_path@)
                &&& final(self).configs@.len() == old(self).configs@.len() + 1
                &&& final(self).configs@.drop_last() == old(self).configs@
                &&& final(self).configs@.last().0@ == config.name@
                &&& final(self).configs@.last().1@ == source_path@
                &&& final(self).configs@.last().2 == content
                &&& final(self).raws@ == old(self).raws@.push(raw)
                &&& final(self).banners@ == old(self).banners@.push(config.banner)
            },
    {
        match check_configuration(config) {
            Err(e) => {
                return Err(e);
            },
            Ok(()) => {},
        }
        let name = config.name.as_str();
        let r = register_config_name(&mut self.seen, name, source_path, warn_only);
        match r {
            NameCheck::Conflict(_) => {},
            _ => {
                let ghost before = self.configs@;
                self.configs.push((String::from_str(name), String::from_str(source_path), content));
                assert(self.configs@.drop_last() =~= before);
                self.raws.push(raw);
                self.banners.push(config.banner.clone());
            },
        }
        Ok(r)
    }
}

/// The banners that are present, in order.
pub open spec fn present_banners(banners: Seq<Option<String>>) -> Seq<Seq<char>>
    decreases banners.len(),
{
    if banners.len() == 0 {
        Seq::empty()
    } else {
        let rest = present_banners(banners.drop_last());
        match banners.last() {
            Some(b) => rest.push(b@),
            None => rest,
        }
    }
}

/// Lines joined with `\n` between them.
pub open spec fn join_lines(lines: Seq<Seq<char>>) -> Seq<char>
    decreases lines.len(),
{
    if lines.len() == 0 {
        Seq::empty()
    } else if lines.len() == 1 {
        lines[0]
    } else {
        join_lines(lines.drop_last()) + seq!['\n'] + lines.last()
    }
}

/// The banner shown for an alias: the top-level banner when there is one;
/// otherwise the banners of the individual configurations, in order, one
/// per line; nothing when there are none.
pub open spec fn effective_banner(top_level: Option<String>, per_config: Seq<Option<String>>) -> Option<Seq<char>> {
    match top_level {
        Some(b) => Some(b@),
        None => if present_banners(per_config).len() == 0 {
            None
        } else {
            Some(join_lines(present_banners(per_config)))
        },
    }
}

/// The banner shown for an alias.
pub fn resolve_banner(top_level: Option<String>, per_config: &Vec<Option<String>>) -> (r: Option<String>)
    ensures
        match effective_banner(top_level, per_config@) {
            Some(b) => r matches Some(s) && s@ == b,
            None => r is None,
        },
{
    if let Some(b) = top_level {
        return Some(b);
    }
    let mut joined = String::new();
    let mut any = false;
    let mut i: usize = 0;
    while i < per_config.len()
        invariant
            i <= per_config@.len(),
            any <==> present_banners(per_config@.take(i as int)).len() > 0,
            joined@ == join_lines(present_banners(per_config@.take(i as int))),
        decreases per_config@.len() - i,
    {
        assert(per_config@.take(i + 1).drop_last() =~= per_config@.take(i as int));
        match &per_config[i] {
            Some(b) => {
                if any {
                    joined.append("\n");
                    proof {
                        reveal_strlit("\n");
                    }
                }
                joined.append(b.as_str());
                any = true;
                proof {
                    let lines = present_banners(per_config@.take(i + 1));
                    if lines.len() > 1 {
                        assert(lines.drop_last() == present_banners(per_config@.take(i as int)));
                    } else {
                        assert(present_banners(per_config@.take(i as int)).len() == 0);
                        assert(Seq::<char>::empty() + b@ =~= b@);
                    }
                }
            },
            None => {},
        }
        i = i + 1;
    }
    assert(per_config@.take(i as int) =~= per_config@);
    if any {
        Some(joined)
    } else {
        None
    }
}

/// The description of an alias: the one given on the command line, or else
/// the one of the references file.
pub fn effective_description(given: Option<String>, from_references: Option<String>) -> (r: Option<String>)
    ensures
        r == match given {
            Some(d) => Some(d),
            None => from_references,
        },
{
    match given {
        Some(d) => Some(d),
        None => from_references,
    }
}

/// What an entry of a references file points to.
pub enum ReferenceTarget {
    /// An `openapi:` source, kept as written.
    OpenApi(String),
    /// A configuration file, resolved against the references file's directory.
    File(String),
}

/// What the entry `config_path` of the references file at
/// `references_path` points to: an OpenAPI source as written, or a file
/// resolved against the directory of the references file.
pub fn reference_target(references_path: &str, config_path: &str) -> (t: ReferenceTarget)
    ensures
        openapi_prefix().is_prefix_of(config_path@) ==> (t matches ReferenceTarget::OpenApi(p) && p@
            == config_path@),
        !openapi_prefix().is_prefix_of(config_path@) ==> (t matches ReferenceTarget::File(p) && p@
            == join_path(anchor_dir(references_path@), config_path@)),
{
    if is_openapi_source(config_path) {
        ReferenceTarget::OpenApi(String::from_str(config_path))
    } else {
        let base_dir = anchor_dir_of(references_path);
        ReferenceTarget::File(join(base_dir.as_str(), config_path))
    }
}

/// The message for a references-file entry whose configuration does not exist.
pub open spec fn missing_message(config_path: Seq<char>, references_path: Seq<char>, resolved: Seq<char>) -> Seq<char> {
    "Config '"@ + config_path + "' referenced in '"@ + references_path + "' does not exist (resolved to '"@
        + resolved + "')"@
}

/// The message for a references-file entry whose configuration does not exist.
pub fn missing_reference_message(config_path: &str, references_path: &str, resolved: &str) -> (m: String)
    ensures
        m@ == missing_message(config_path@, references_path@, resolved@),
{
    let mut m = String::from_str("Config '");
    m.append(config_path);
    m.append("' referenced in '");
    m.append(references_path);
    m.append("' does not exist (resolved to '");
    m.append(resolved);
    m.append("')");
    m
}

/// The source that the entry `config_path` of the references file at
/// `references_path` names: an OpenAPI source as written, or a file path
/// resolved against the references file's directory.
pub open spec fn reference_source(references_path: Seq<char>, config_path: Seq<char>) -> Seq<char> {
    if openapi_prefix().is_prefix_of(config_path) {
        config_path
    } else {
        join_path(anchor_dir(references_path), config_path)
    }
}

/// Index of the first entry, at or after `from`, that names a file that
/// does not exist.
pub open spec fn first_missing(configs: Seq<String>, exists: Seq<bool>, from: int) -> Option<int>
    decreases configs.len() - from,
{
    if from < 0 || from >= configs.len() {
        None
    } else if !openapi_prefix().is_prefix_of(configs[from]@) && !exists[from] {
        Some(from)
    } else {
        first_missing(configs, exists, from + 1)
    }
}

/// The sources listed by the references file at `references_path`, given
/// for each entry whether the file it resolves to exists (ignored for
/// OpenAPI entries): every source in order, or the message for the first
/// entry whose file does not exist.
pub fn resolve_reference_list(references_path: &str, configs: &Vec<String>, exists: &Vec<bool>) -> (r: Result<
    Vec<String>,
    String,
>)
    requires
        exists@.len() == configs@.len(),
    ensures
        match first_missing(configs@, exists@, 0) {
            Some(i) => r matches Err(m) && m@ == missing_message(
                configs@[i]@,
                references_path@,
                reference_source(references_path@, configs@[i]@),
            ),
            None => r matches Ok(ps) && ps@.len() == configs@.len() && forall|i: int|
                0 <= i < configs@.len() ==> #[trigger] ps@[i]@ == reference_source(references_path@, configs@[i]@),
        },
{
    let mut ps: Vec<String> = Vec::new();
    let mut i: usize = 0;
    while i < configs.len()
        invariant
            i <= configs@.len(),
            exists@.len() == configs@.len(),
            ps@.len() == i,
            first_missing(configs@, exists@, 0) == first_missing(configs@, exists@, i as int),
            forall|k: int| 0 <= k < i ==> #[trigger] ps@[k]@ == reference_source(references_path@, configs@[k]@),
        decreases configs@.len() - i,
    {
        match reference_target(references_path, configs[i].as_str()) {
            ReferenceTarget::OpenApi(p) => {
                ps.push(p);
            },
            ReferenceTarget::File(p) => {
                if !exists[i] {
                    return Err(missing_reference_message(configs[i].as_str(), references_path, p.as_str()));
                }
                ps.push(p);
            },
        }
        i = i + 1;
    }
    Ok(ps)
}

/// The banners printed when an alias runs: none in quiet mode; otherwise
/// the alias's own banner alone when it has one, or else the banner of
/// each configuration that has one, in order.
pub open spec fn banners_shown(quiet: bool, alias_banner: Option<String>, config_banners: Seq<Option<String>>) -> Seq<Seq<char>> {
    if quiet {
        Seq::empty()
    } else {
        match alias_banner {
            Some(b) => seq![b@],
            None => present_banners(config_banners),
        }
    }
}

/// The banners printed when an alias runs.
pub fn banners_to_show(quiet: bool, alias_banner: &Option<String>, config_banners: &Vec<Option<String>>) -> (out: Vec<
    String,
>)
    ensures
        Seq::new(out@.len(), |i: int| out@[i]@) == banners_shown(quiet, *alias_banner, config_banners@),
{
    let mut out: Vec<String> = Vec::new();
    if quiet {
        assert(Seq::new(out@.len(), |i: int| out@[i]@) =~= Seq::<Seq<char>>::empty());
        return out;
    }
    match alias_banner {
        Some(b) => {
            out.push(b.clone());
            assert(Seq::new(out@.len(), |i: int| out@[i]@) =~= seq![b@]);
        },
        None => {
            let mut i: usize = 0;
            assert(Seq::new(out@.len(), |i: int| out@[i]@) =~= present_banners(config_banners@.take(0)));
            while i < config_banners.len()
                invariant
                    i <= config_banners@.len(),
                    Seq::new(out@.len(), |k: int| out@[k]@) == present_banners(config_banners@.take(i as int)),
                decreases config_banners@.len() - i,
            {
                assert(config_banners@.take(i + 1).drop_last() =~= config_banners@.take(i as int));
                let ghost before = out@;
                match &config_banners[i] {
                    Some(b) => {
                        out.push(b.clone());
                        assert(Seq::new(out@.len(), |k: int| out@[k]@) =~= Seq::new(
                            before.len(),
                            |k: int| before[k]@,
                        ).push(b@));
                    },
                    None => {},
                }
                i = i + 1;
            }
            assert(config_banners@.take(i as int) =~= config_banners@);
        },
    }
    out
}

/// The configuration written for a new alias when no configuration is given.
pub fn default_config_template() -> (t: String)
    ensures
        t@ == "# Ring-CLI Configuration\nversion: \"2.0\"\nname: \"mycli\"\ndescription: \"My custom CLI\"\ncommands:\n  greet:\n    description: \"Greet a user\"\n    flags:\n      - name: \"name\"\n        short: \"n\"\n        description: \"Name of the user to greet\"\n    cmd:\n      run:\n        - \"echo Hello, ${{name}}!\"\n"@,
{
    String::from_str(
        "# Ring-CLI Configuration\nversion: \"2.0\"\nname: \"mycli\"\ndescription: \"My custom CLI\"\ncommands:\n  greet:\n    description: \"Greet a user\"\n    flags:\n      - name: \"name\"\n        short: \"n\"\n        description: \"Name of the user to greet\"\n    cmd:\n      run:\n        - \"echo Hello, ${{name}}!\"\n",
    )
}

} // verus!
