use vstd::prelude::*;
use vstd::string::*;

use crate::errors::RingError;
use crate::text::chars_of;

verus! {

broadcast use vstd::string::group_string_axioms;

/// A configuration file: a named group of commands.
///
/// `commands` maps command names to commands; as read from YAML, each name
/// occurs once.
pub struct Configuration {
    pub version: String,
    pub name: String,
    pub description: String,
    pub base_dir: Option<String>,
    pub banner: Option<String>,
    pub commands: Vec<(String, Command)>,
}

/// One command: either something to run (`cmd`) or a group of nested
/// commands (`subcommands`), never both and never neither once validated.
pub struct Command {
    pub description: String,
    pub flags: Vec<Flag>,
    pub cmd: Option<CmdType>,
    pub subcommands: Option<Vec<(String, Command)>>,
}

/// A flag of a command, given as `--name` and optionally as `-s`.
pub struct Flag {
    pub name: String,
    pub short: Option<String>,
    pub description: String,
}

/// What a command runs.
pub enum CmdType {
    Http { http: Http },
    Run { run: Vec<String> },
}

/// An HTTP request template.
pub struct Http {
    pub method: String,
    pub url: String,
    pub headers: Option<Vec<(String, String)>>,
    pub body: Option<String>,
}

/// The message given for a command that has both `cmd` and `subcommands`.
pub open spec fn both_present_message() -> Seq<char> {
    "Only 'cmd' or 'subcommands' should be present, not both."@
}

/// The message given for a command that has neither `cmd` nor `subcommands`.
pub open spec fn none_present_message() -> Seq<char> {
    "Either 'cmd' or 'subcommands' must be present."@
}

/// The context under which a subcommand named `name` of a command with
/// context `context` is reported.
pub open spec fn sub_context(context: Seq<char>, name: Seq<char>) -> Seq<char> {
    context + " > "@ + name
}

/// The first defect met when walking the command tree in order: the context
/// of the offending command and the message reported for it.
pub open spec fn first_invalid(cmd: Command, context: Seq<char>) -> Option<(Seq<char>, Seq<char>)>
    decreases cmd,
{
    match cmd.subcommands {
        Some(subs) => {
            if cmd.cmd is Some {
                Some((context, both_present_message()))
            } else {
                first_invalid_among(subs@, context)
            }
        },
        None => {
            if cmd.cmd is Some {
                None
            } else {
                Some((context, none_present_message()))
            }
        },
    }
}

/// The first defect among a list of named subcommands, in list order.
pub open spec fn first_invalid_among(subs: Seq<(String, Command)>, context: Seq<char>) -> Option<
    (Seq<char>, Seq<char>),
>
    decreases subs,
{
    if subs.len() == 0 {
        None
    } else {
        match first_invalid(subs[0].1, sub_context(context, subs[0].0@)) {
            Some(found) => Some(found),
            None => first_invalid_among(subs.subrange(1, subs.len() as int), context),
        }
    }
}

/// `first_invalid_among` restarted at index `i` either reports the defect
/// of the `i`-th subcommand or moves on to index `i + 1`.
proof fn lemma_first_invalid_among_step(subs: Seq<(String, Command)>, context: Seq<char>, i: int)
    requires
        0 <= i < subs.len(),
    ensures
        first_invalid_among(subs.subrange(i, subs.len() as int), context) == match first_invalid(
            subs[i].1,
            sub_context(context, subs[i].0@),
        ) {
            Some(found) => Some(found),
            None => first_invalid_among(subs.subrange(i + 1, subs.len() as int), context),
        },
{
    let rest = subs.subrange(i, subs.len() as int);
    assert(rest.subrange(1, rest.len() as int) =~= subs.subrange(i + 1, subs.len() as int));
    assert(rest[0] == subs[i]);
}

/// The text `context > name`.
pub fn join_context(context: &str, name: &str) -> (out: String)
    ensures
        out@ == sub_context(context@, name@),
{
    let mut out = String::from_str(context);
    out.append(" > ");
    out.append(name);
    out
}

impl Command {
    /// Checks that this command and every nested subcommand has exactly one
    /// of `cmd` and `subcommands`. The first defect met in order is reported
    /// as a validation error whose context is the path of names leading to
    /// the offending command, joined by ` > `.
    pub fn validate(&self, context: &str) -> (res: Result<(), RingError>)
        ensures
            match first_invalid(*self, context@) {
                None => res is Ok,
                Some(found) => res matches Err(RingError::Validation { context: c, message: m })
                    && c@ == found.0 && m@ == found.1,
            },
        decreases self,
    {
        match (&self.cmd, &self.subcommands) {
            (Some(_), Some(_)) => {
                return Err(
                    RingError::Validation {
                        context: String::from_str(context),
                        message: String::from_str(
                            "Only 'cmd' or 'subcommands' should be present, not both.",
                        ),
                    },
                );
            },
            (None, None) => {
                return Err(
                    RingError::Validation {
                        context: String::from_str(context),
                        message: String::from_str("Either 'cmd' or 'subcommands' must be present."),
                    },
                );
            },
            _ => {},
        }
        match &self.subcommands {
            Some(subs) => {
                let ghost all = subs@;
                assert(all.subrange(0, all.len() as int) =~= all);
                let mut i: usize = 0;
                while i < subs.len()
                    invariant
                        self.subcommands == Some(*subs),
                        self.cmd is None,
                        all == subs@,
                        i <= subs.len(),
                        first_invalid(*self, context@) == first_invalid_among(
                            all.subrange(i as int, all.len() as int),
                            context@,
                        ),
                    decreases subs.len() - i,
                {
                    proof {
                        lemma_first_invalid_among_step(all, context@, i as int);
                    }
                    let sub_ctx = join_context(context, subs[i].0.as_str());
                    let r = subs[i].1.validate(sub_ctx.as_str());
                    if r.is_err() {
                        return r;
                    }
                    i = i + 1;
                }
                assert(all.subrange(i as int, all.len() as int) =~= Seq::<(String, Command)>::empty());
                Ok(())
            },
            None => Ok(()),
        }
    }
}

/// A command tree in which every command has exactly one of `cmd` and
/// `subcommands`.
pub open spec fn well_formed(cmd: Command) -> bool
    decreases cmd,
{
    match cmd.subcommands {
        Some(subs) => cmd.cmd is None && all_well_formed(subs@),
        None => cmd.cmd is Some,
    }
}

/// Every command of a list of named commands is well formed.
pub open spec fn all_well_formed(subs: Seq<(String, Command)>) -> bool
    decreases subs,
{
    if subs.len() == 0 {
        true
    } else {
        well_formed(subs[0].1) && all_well_formed(subs.subrange(1, subs.len() as int))
    }
}

/// Validation finds no defect exactly when the tree is well formed, and a
/// reported defect always lies under the context that validation started
/// from.
pub proof fn lemma_validation_matches_well_formed(cmd: Command, context: Seq<char>)
    ensures
        first_invalid(cmd, context) is None <==> well_formed(cmd),
        first_invalid(cmd, context) matches Some(found) ==> context.is_prefix_of(found.0),
    decreases cmd,
{
    if let Some(subs) = cmd.subcommands {
        if cmd.cmd is None {
            lemma_among_matches_all_well_formed(subs@, context);
        }
    }
}

/// List form of `lemma_validation_matches_well_formed`.
pub proof fn lemma_among_matches_all_well_formed(subs: Seq<(String, Command)>, context: Seq<char>)
    ensures
        first_invalid_among(subs, context) is None <==> all_well_formed(subs),
        first_invalid_among(subs, context) matches Some(found) ==> context.is_prefix_of(found.0),
    decreases subs,
{
    if subs.len() > 0 {
        let ctx = sub_context(context, subs[0].0@);
        lemma_validation_matches_well_formed(subs[0].1, ctx);
        lemma_among_matches_all_well_formed(subs.subrange(1, subs.len() as int), context);
        assert(context.is_prefix_of(ctx)) by {
            assert(ctx.subrange(0, context.len() as int) =~= context);
        }
        if let Some(found) = first_invalid(subs[0].1, ctx) {
            assert(ctx.is_prefix_of(found.0));
            assert(found.0.subrange(0, context.len() as int) =~= ctx.subrange(0, context.len() as int));
        }
    }
}

/// The command reached from `cmd`, whose context is `context`, by taking
/// the subcommand at each index of `path` in turn, with its context.
pub open spec fn node_at(cmd: Command, context: Seq<char>, path: Seq<int>) -> Option<(Command, Seq<char>)>
    decreases path.len(),
{
    if path.len() == 0 {
        Some((cmd, context))
    } else {
        match cmd.subcommands {
            Some(subs) => if 0 <= path[0] < subs@.len() {
                node_at(
                    subs@[path[0]].1,
                    sub_context(context, subs@[path[0]].0@),
                    path.subrange(1, path.len() as int),
                )
            } else {
                None
            },
            None => None,
        }
    }
}

/// `cmd` itself breaks the rule whose message is `m`.
pub open spec fn breaks(cmd: Command, m: Seq<char>) -> bool {
    ||| m == both_present_message() && cmd.cmd is Some && cmd.subcommands is Some
    ||| m == none_present_message() && cmd.cmd is None && cmd.subcommands is None
}

/// Following `path` from `cmd` (context `context`) reaches a command whose
/// context is `found.0` and which breaks the rule whose message is `found.1`.
pub open spec fn located(cmd: Command, context: Seq<char>, path: Seq<int>, found: (Seq<char>, Seq<char>)) -> bool {
    node_at(cmd, context, path) matches Some(n) && n.1 == found.0 && breaks(n.0, found.1)
}

/// A validation error names a command that really breaks the rule its
/// message states, by its context: the starting context followed by the
/// names of the subcommands leading to it. When the command validated
/// breaks a rule itself, the context is the starting one.
pub proof fn lemma_defect_located(cmd: Command, context: Seq<char>)
    ensures
        first_invalid(cmd, context) matches Some(found) ==> exists|path: Seq<int>|
            #[trigger] located(cmd, context, path, found),
        (cmd.cmd is Some) == (cmd.subcommands is Some) ==> (first_invalid(cmd, context) matches Some(found)
            && found.0 == context && breaks(cmd, found.1)),
    decreases cmd,
{
    if let Some(found) = first_invalid(cmd, context) {
        if (cmd.cmd is Some) == (cmd.subcommands is Some) {
            assert(located(cmd, context, Seq::empty(), found));
        } else {
            let subs = cmd.subcommands->0;
            lemma_defect_located_among(subs@, context);
            let (i, path) = choose|i: int, path: Seq<int>|
                0 <= i < subs@.len() && #[trigger] located(subs@[i].1, sub_context(context, subs@[i].0@), path, found);
            let full = seq![i].add(path);
            assert(full.subrange(1, full.len() as int) =~= path);
            assert(located(cmd, context, full, found));
        }
    }
}

/// List form of `lemma_defect_located`.
pub proof fn lemma_defect_located_among(subs: Seq<(String, Command)>, context: Seq<char>)
    ensures
        first_invalid_among(subs, context) matches Some(found) ==> exists|i: int, path: Seq<int>|
            0 <= i < subs.len() && #[trigger] located(subs[i].1, sub_context(context, subs[i].0@), path, found),
    decreases subs,
{
    if subs.len() > 0 {
        let rest = subs.subrange(1, subs.len() as int);
        lemma_defect_located(subs[0].1, sub_context(context, subs[0].0@));
        lemma_defect_located_among(rest, context);
        if let Some(found) = first_invalid(subs[0].1, sub_context(context, subs[0].0@)) {
            let path = choose|path: Seq<int>| #[trigger] located(subs[0].1, sub_context(context, subs[0].0@), path, found);
            assert(located(subs[0].1, sub_context(context, subs[0].0@), path, found));
        } else if let Some(found) = first_invalid_among(rest, context) {
            let (i, path) = choose|i: int, path: Seq<int>|
                0 <= i < rest.len() && #[trigger] located(rest[i].1, sub_context(context, rest[i].0@), path, found);
            assert(rest[i] == subs[i + 1]);
            assert(located(subs[i + 1].1, sub_context(context, subs[i + 1].0@), path, found));
        }
    }
}

/// The first defect among the top-level commands of a configuration; each
/// top-level command is reported under its own name.
pub open spec fn first_invalid_command(cmds: Seq<(String, Command)>) -> Option<(Seq<char>, Seq<char>)>
    decreases cmds.len(),
{
    if cmds.len() == 0 {
        None
    } else {
        match first_invalid(cmds[0].1, cmds[0].0@) {
            Some(found) => Some(found),
            None => first_invalid_command(cmds.subrange(1, cmds.len() as int)),
        }
    }
}

/// No two commands of a list share a name.
pub open spec fn names_distinct(subs: Seq<(String, Command)>) -> bool {
    forall|i: int, j: int| 0 <= i < j < subs.len() ==> subs[i].0@ != subs[j].0@
}

/// Within `cmd`, at every level, no two subcommands share a name.
pub open spec fn tree_distinct(cmd: Command) -> bool
    decreases cmd,
{
    match cmd.subcommands {
        Some(subs) => names_distinct(subs@) && all_tree_distinct(subs@),
        None => true,
    }
}

/// `tree_distinct` holds of every command of a list.
pub open spec fn all_tree_distinct(subs: Seq<(String, Command)>) -> bool
    decreases subs,
{
    if subs.len() == 0 {
        true
    } else {
        tree_distinct(subs[0].1) && all_tree_distinct(subs.subrange(1, subs.len() as int))
    }
}

/// The commands of a configuration have distinct names at every level, as
/// the keys of a YAML mapping do.
pub open spec fn commands_distinct(cmds: Seq<(String, Command)>) -> bool {
    names_distinct(cmds) && all_tree_distinct(cmds)
}

/// Whether no two commands of `subs` share a name.
fn distinct_names(subs: &Vec<(String, Command)>) -> (r: bool)
    ensures
        r == names_distinct(subs@),
{
    let mut i: usize = 0;
    while i < subs.len()
        invariant
            i <= subs@.len(),
            forall|a: int, b: int| 0 <= a < b < subs@.len() && a < i ==> subs@[a].0@ != subs@[b].0@,
        decreases subs.len() - i,
    {
        let mut j: usize = i + 1;
        while j < subs.len()
            invariant
                i < j <= subs@.len(),
                forall|a: int, b: int| 0 <= a < b < subs@.len() && a < i ==> subs@[a].0@ != subs@[b].0@,
                forall|b: int| i < b < j ==> subs@[i as int].0@ != subs@[b].0@,
            decreases subs.len() - j,
        {
            if subs[i].0 == subs[j].0 {
                return false;
            }
            j = j + 1;
        }
        i = i + 1;
    }
    true
}

/// Whether `tree_distinct` holds of every command of `subs`.
fn all_distinct_within(subs: &Vec<(String, Command)>) -> (r: bool)
    ensures
        r == all_tree_distinct(subs@),
    decreases subs@, 1nat,
{
    let ghost all = subs@;
    assert(all.subrange(0, all.len() as int) =~= all);
    let mut i: usize = 0;
    while i < subs.len()
        invariant
            all == subs@,
            i <= subs.len(),
            all_tree_distinct(all) == all_tree_distinct(all.subrange(i as int, all.len() as int)),
        decreases subs.len() - i,
    {
        let ghost rest = all.subrange(i as int, all.len() as int);
        assert(rest.subrange(1, rest.len() as int) =~= all.subrange(i + 1, all.len() as int));
        assert(rest[0] == all[i as int]);
        proof {
            assert(decreases_to!(subs@ => subs@[i as int]));
            assert(decreases_to!(subs@[i as int] => subs@[i as int].1));
        }
        if !command_tree_distinct(&subs[i].1) {
            return false;
        }
        i = i + 1;
    }
    assert(all.subrange(i as int, all.len() as int) =~= Seq::<(String, Command)>::empty());
    true
}

/// Whether, within `cmd`, no two subcommands of one command share a name.
fn command_tree_distinct(cmd: &Command) -> (r: bool)
    ensures
        r == tree_distinct(*cmd),
    decreases *cmd, 0nat,
{
    match &cmd.subcommands {
        Some(subs) => {
            proof {
                let v = cmd.subcommands->0;
                assert(decreases_to!(*cmd => v));
                assert(decreases_to!(v => v@));
            }
            distinct_names(subs) && all_distinct_within(subs)
        },
        None => true,
    }
}

/// The message for a configuration whose commands share a name.
pub open spec fn duplicate_names_message() -> Seq<char> {
    "Command names must be distinct at every level"@
}

/// The only configuration version accepted.
pub open spec fn supported_version() -> Seq<char> {
    "2.0"@
}

/// The message for a configuration whose version is not the supported one.
pub open spec fn version_message(found: Seq<char>) -> Seq<char> {
    "Configuration version must be \"2.0\", found '"@ + found + "'"@
}

/// The message for a configuration without a name.
pub open spec fn missing_name_message() -> Seq<char> {
    "Configuration name must be present and non-empty"@
}

/// A configuration follows every rule: version `2.0`, a non-empty name,
/// distinct command names at every level, and top-level commands that
/// validate.
pub open spec fn config_ok(c: Configuration) -> bool {
    &&& c.version@ == supported_version()
    &&& c.name@.len() > 0
    &&& commands_distinct(c.commands@)
    &&& first_invalid_command(c.commands@) is None
}

/// `res` is what checking the configuration `c` gives: an error for a
/// version other than `2.0`, else for an empty name, else for the first
/// defect among its commands, and success otherwise.
pub open spec fn checked(res: Result<(), RingError>, c: Configuration) -> bool {
    if c.version@ != supported_version() {
        res matches Err(RingError::Config(m)) && m@ == version_message(c.version@)
    } else if c.name@.len() == 0 {
        res matches Err(RingError::Config(m)) && m@ == missing_name_message()
    } else if !commands_distinct(c.commands@) {
        res matches Err(RingError::Config(m)) && m@ == duplicate_names_message()
    } else {
        match first_invalid_command(c.commands@) {
            None => res is Ok,
            Some(found) => res matches Err(RingError::Validation { context: ctx, message: m }) && ctx@
                == found.0 && m@ == found.1,
        }
    }
}

/// Checks one configuration: its version must be `2.0`, its name must not be
/// empty, no two commands of one level may share a name, and each top-level
/// command must validate under its own name.
pub fn check_configuration(config: &Configuration) -> (res: Result<(), RingError>)
    ensures
        checked(res, *config),
        res is Ok <==> config_ok(*config),
{
    proof {
        reveal_strlit("2.0");
    }
    if !(config.version == String::from_str("2.0")) {
        let mut m = String::from_str("Configuration version must be \"2.0\", found '");
        m.append(config.version.as_str());
        m.append("'");
        return Err(RingError::Config(m));
    }
    if chars_of(config.name.as_str()).len() == 0 {
        return Err(RingError::Config(String::from_str("Configuration name must be present and non-empty")));
    }
    if !(distinct_names(&config.commands) && all_distinct_within(&config.commands)) {
        return Err(RingError::Config(String::from_str("Command names must be distinct at every level")));
    }
    let cmds = &config.commands;
    let mut j: usize = 0;
    assert(cmds@.subrange(0, cmds@.len() as int) =~= cmds@);
    while j < cmds.len()
        invariant
            j <= cmds.len(),
            config.version@ == supported_version(),
            config.name@.len() > 0,
            commands_distinct(config.commands@),
            cmds@ == config.commands@,
            first_invalid_command(cmds@) == first_invalid_command(cmds@.subrange(j as int, cmds@.len() as int)),
        decreases cmds.len() - j,
    {
        let ghost crest = cmds@.subrange(j as int, cmds@.len() as int);
        assert(crest.subrange(1, crest.len() as int) =~= cmds@.subrange(j + 1, cmds@.len() as int));
        let r = cmds[j].1.validate(cmds[j].0.as_str());
        if r.is_err() {
            return r;
        }
        j = j + 1;
    }
    assert(cmds@.subrange(j as int, cmds@.len() as int) =~= Seq::<(String, Command)>::empty());
    Ok(())
}

/// Index of the first configuration, at or after `from`, that breaks a rule.
pub open spec fn first_rejected(configs: Seq<Configuration>, from: int) -> Option<int>
    decreases configs.len() - from,
{
    if from < 0 || from >= configs.len() {
        None
    } else if !config_ok(configs[from]) {
        Some(from)
    } else {
        first_rejected(configs, from + 1)
    }
}

/// Checks every configuration in order, stopping at the first that breaks
/// a rule and reporting what checking it gives.
pub fn validate_configurations(configs: &Vec<Configuration>) -> (res: Result<(), RingError>)
    ensures
        match first_rejected(configs@, 0) {
            None => res is Ok,
            Some(k) => checked(res, configs@[k]),
        },
{
    let mut i: usize = 0;
    while i < configs.len()
        invariant
            i <= configs.len(),
            first_rejected(configs@, 0) == first_rejected(configs@, i as int),
        decreases configs.len() - i,
    {
        let r = check_configuration(&configs[i]);
        if r.is_err() {
            return r;
        }
        i = i + 1;
    }
    Ok(())
}

/// Configurations pass validation exactly when each has version `2.0`, a
/// non-empty name, distinct command names at every level, and only
/// well-formed top-level commands.
pub proof fn lemma_configurations_valid_iff_well_formed(configs: Seq<Configuration>)
    ensures
        first_rejected(configs, 0) is None <==> forall|i: int|
            0 <= i < configs.len() ==> {
                &&& (#[trigger] configs[i]).version@ == supported_version()
                &&& configs[i].name@.len() > 0
                &&& commands_distinct(configs[i].commands@)
                &&& forall|j: int|
                    0 <= j < configs[i].commands@.len() ==> well_formed(#[trigger] configs[i].commands@[j].1)
            },
{
    lemma_first_rejected_none(configs, 0);
    assert forall|i: int| 0 <= i < configs.len() implies (config_ok(#[trigger] configs[i]) <==> {
        &&& configs[i].version@ == supported_version()
        &&& configs[i].name@.len() > 0
        &&& commands_distinct(configs[i].commands@)
        &&& forall|j: int|
            0 <= j < configs[i].commands@.len() ==> well_formed(#[trigger] configs[i].commands@[j].1)
    }) by {
        lemma_commands_valid_iff_well_formed(configs[i].commands@);
    }
}

/// `first_rejected` from `from` finds nothing exactly when every
/// configuration from `from` on follows the rules.
proof fn lemma_first_rejected_none(configs: Seq<Configuration>, from: int)
    requires
        0 <= from,
    ensures
        first_rejected(configs, from) is None <==> forall|i: int| from <= i < configs.len() ==> config_ok(#[trigger] configs[i]),
    decreases configs.len() - from,
{
    if from < configs.len() {
        lemma_first_rejected_none(configs, from + 1);
    }
}

/// The top-level commands of one configuration pass validation exactly when
/// each of them is well formed.
pub proof fn lemma_commands_valid_iff_well_formed(cmds: Seq<(String, Command)>)
    ensures
        first_invalid_command(cmds) is None <==> forall|j: int| 0 <= j < cmds.len() ==> well_formed(
            #[trigger] cmds[j].1,
        ),
    decreases cmds.len(),
{
    if cmds.len() > 0 {
        let rest = cmds.subrange(1, cmds.len() as int);
        lemma_commands_valid_iff_well_formed(rest);
        lemma_validation_matches_well_formed(cmds[0].1, cmds[0].0@);
        if first_invalid_command(cmds) is None {
            assert forall|j: int| 0 <= j < cmds.len() implies well_formed(#[trigger] cmds[j].1) by {
                if j > 0 {
                    assert(rest[j - 1] == cmds[j]);
                }
            }
        } else if first_invalid(cmds[0].1, cmds[0].0@) is None {
            let j = choose|j: int| 0 <= j < rest.len() && !well_formed(#[trigger] rest[j].1);
            assert(cmds[j + 1] == rest[j]);
        }
    }
}

} // verus!
