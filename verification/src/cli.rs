use vstd::prelude::*;
use vstd::string::*;

use crate::bindings::{lookup, Bindings};
use crate::errors::RingError;
use crate::models::{Command, Configuration, Flag, Http};
use crate::text::chars_of;
use crate::utils::{outcome_matches, render, render_template, reports_failure, EnvExpansionFailure};

verus! {

broadcast use vstd::string::group_string_axioms;

/// How a command-line argument takes its value.
#[derive(PartialEq, Eq, Structural)]
pub enum ArgAction {
    /// Takes one value.
    Value,
    /// A switch: present or absent.
    Switch,
    /// May be given several times; every value is kept.
    Append,
}

/// A command-line argument, as described to the argument parser.
pub struct ArgSpec {
    pub id: String,
    pub long: Option<String>,
    pub short: Option<char>,
    pub help: Option<String>,
    pub value_name: Option<String>,
    pub action: ArgAction,
    pub required: bool,
    /// The values accepted; any value when empty.
    pub choices: Vec<String>,
    pub default_value: Option<String>,
}

/// A command of the command line, with its arguments and subcommands.
pub struct CommandSpec {
    pub name: String,
    pub about: Option<String>,
    /// Whether `--version` is offered.
    pub version: bool,
    pub args: Vec<ArgSpec>,
    pub subcommands: Vec<CommandSpec>,
}

/// `o` holds text equal to `t`.
pub open spec fn text_is(o: Option<String>, t: Seq<char>) -> bool {
    o matches Some(s) && s@ == t
}

/// The short form of a flag: the first character of its `short` text.
pub open spec fn short_form(short: Option<String>) -> Option<char> {
    match short {
        Some(s) => if s@.len() > 0 {
            Some(s@[0])
        } else {
            None
        },
        None => None,
    }
}

/// `a` is the argument `--<name>` (and `-<short>`) of the flag `f`, taking a value.
pub open spec fn arg_for_flag(a: ArgSpec, f: Flag) -> bool {
    &&& a.id@ == f.name@
    &&& text_is(a.long, f.name@)
    &&& a.short == short_form(f.short)
    &&& text_is(a.help, f.description@)
    &&& a.value_name is None
    &&& a.action == ArgAction::Value
    &&& !a.required
    &&& a.choices@.len() == 0
    &&& a.default_value is None
}

/// The argument of a command's flag: `--name`, with `-c` for the first
/// character `c` of the flag's `short` text when there is one.
pub fn build_arg(flag: &Flag) -> (a: ArgSpec)
    ensures
        arg_for_flag(a, *flag),
{
    let short = match &flag.short {
        Some(s) => {
            let c = chars_of(s.as_str());
            if c.len() > 0 {
                Some(c[0])
            } else {
                None
            }
        },
        None => None,
    };
    ArgSpec {
        id: flag.name.clone(),
        long: Some(flag.name.clone()),
        short,
        help: Some(flag.description.clone()),
        value_name: None,
        action: ArgAction::Value,
        required: false,
        choices: Vec::new(),
        default_value: None,
    }
}

/// `spec` is the command-line form of the command `cmd` named `name`: its
/// description, one argument per flag in order, and, recursively, one
/// subcommand per nested command in order.
pub open spec fn mirrors(spec: CommandSpec, name: Seq<char>, cmd: Command) -> bool
    decreases cmd,
{
    &&& spec.name@ == name
    &&& text_is(spec.about, cmd.description@)
    &&& !spec.version
    &&& spec.args@.len() == cmd.flags@.len()
    &&& forall|i: int| 0 <= i < spec.args@.len() ==> arg_for_flag(#[trigger] spec.args@[i], cmd.flags@[i])
    &&& match cmd.subcommands {
        Some(subs) => mirrors_all(spec.subcommands@, subs@),
        None => spec.subcommands@.len() == 0,
    }
}

/// Each of `specs` is the command-line form of the corresponding named command.
pub open spec fn mirrors_all(specs: Seq<CommandSpec>, subs: Seq<(String, Command)>) -> bool
    decreases subs,
{
    &&& specs.len() == subs.len()
    &&& subs.len() > 0 ==> {
        &&& mirrors(specs[0], subs[0].0@, subs[0].1)
        &&& mirrors_all(specs.subrange(1, specs.len() as int), subs.subrange(1, subs.len() as int))
    }
}

/// `mirrors_all` over a list extended by one more pair.
proof fn lemma_mirrors_all_push(
    specs: Seq<CommandSpec>,
    subs: Seq<(String, Command)>,
    s: CommandSpec,
    p: (String, Command),
)
    requires
        mirrors_all(specs, subs),
        mirrors(s, p.0@, p.1),
    ensures
        mirrors_all(specs.push(s), subs.push(p)),
    decreases subs.len(),
{
    if subs.len() > 0 {
        lemma_mirrors_all_push(
            specs.subrange(1, specs.len() as int),
            subs.subrange(1, subs.len() as int),
            s,
            p,
        );
        assert(specs.push(s).subrange(1, specs.len() + 1 as int) =~= specs.subrange(1, specs.len() as int).push(s));
        assert(specs.push(s)[0] == specs[0]);
        assert(subs.push(p)[0] == subs[0]);
        assert(subs.push(p).subrange(1, subs.len() + 1 as int) =~= subs.subrange(1, subs.len() as int).push(p));
    } else {
        assert(specs.push(s).subrange(1, 1) =~= Seq::<CommandSpec>::empty());
        assert(subs.push(p).subrange(1, 1) =~= Seq::<(String, Command)>::empty());
        assert(specs.len() == 0);
        assert(mirrors_all(Seq::<CommandSpec>::empty(), Seq::<(String, Command)>::empty()));
        assert(specs.push(s)[0] == s);
        assert(subs.push(p)[0] == p);
    }
}

/// The command-line form of the command `cmd` named `name`.
pub fn command_spec(name: &str, cmd: &Command) -> (s: CommandSpec)
    ensures
        mirrors(s, name@, *cmd),
    decreases cmd, 1nat,
{
    let mut args: Vec<ArgSpec> = Vec::new();
    let mut i: usize = 0;
    while i < cmd.flags.len()
        invariant
            i <= cmd.flags@.len(),
            args@.len() == i,
            forall|k: int| 0 <= k < i ==> arg_for_flag(#[trigger] args@[k], cmd.flags@[k]),
        decreases cmd.flags@.len() - i,
    {
        args.push(build_arg(&cmd.flags[i]));
        i = i + 1;
    }
    let base = CommandSpec {
        name: String::from_str(name),
        about: Some(cmd.description.clone()),
        version: false,
        args,
        subcommands: Vec::new(),
    };
    let s = add_subcommands_to_cli(cmd, base);
    assert(s.subcommands@.skip(0) =~= s.subcommands@);
    s
}

/// `target` with one subcommand added for each nested command of `command`,
/// in order, each the command-line form of that command.
pub fn add_subcommands_to_cli(command: &Command, target: CommandSpec) -> (s: CommandSpec)
    ensures
        s.name == target.name,
        s.about == target.about,
        s.version == target.version,
        s.args == target.args,
        s.subcommands@.len() >= target.subcommands@.len(),
        s.subcommands@.take(target.subcommands@.len() as int) == target.subcommands@,
        match command.subcommands {
            Some(subs) => mirrors_all(s.subcommands@.skip(target.subcommands@.len() as int), subs@),
            None => s.subcommands@ == target.subcommands@,
        },
    decreases command, 0nat,
{
    let mut out = target;
    let ghost start = out.subcommands@;
    match &command.subcommands {
        Some(subs) => {
            let mut i: usize = 0;
            assert(out.subcommands@.skip(start.len() as int) =~= Seq::<CommandSpec>::empty());
            assert(subs@.take(0) =~= Seq::<(String, Command)>::empty());
            while i < subs.len()
                invariant
                    command.subcommands == Some(*subs),
                    i <= subs@.len(),
                    out.name == target.name,
                    out.about == target.about,
                    out.version == target.version,
                    out.args == target.args,
                    start == target.subcommands@,
                    out.subcommands@.len() == start.len() + i,
                    out.subcommands@.take(start.len() as int) == start,
                    mirrors_all(out.subcommands@.skip(start.len() as int), subs@.take(i as int)),
                decreases subs@.len() - i,
            {
                proof {
                    let v = command.subcommands->0;
                    assert(decreases_to!(*command => v));
                    assert(decreases_to!(v => v@));
                    assert(decreases_to!(v@ => v@[i as int]));
                    assert(decreases_to!(v@[i as int] => v@[i as int].1));
                }
                let sub = command_spec(subs[i].0.as_str(), &subs[i].1);
                let ghost before = out.subcommands@;
                proof {
                    lemma_mirrors_all_push(
                        before.skip(start.len() as int),
                        subs@.take(i as int),
                        sub,
                        subs@[i as int],
                    );
                }
                out.subcommands.push(sub);
                assert(out.subcommands@.skip(start.len() as int) =~= before.skip(start.len() as int).push(sub));
                assert(subs@.take(i + 1) =~= subs@.take(i as int).push(subs@[i as int]));
                assert(out.subcommands@.take(start.len() as int) =~= before.take(start.len() as int));
                i = i + 1;
            }
            assert(subs@.take(i as int) =~= subs@);
        },
        None => {},
    }
    out
}

/// `a` is the switch `--<id>`, `-<short>`, with help text `help`.
pub open spec fn is_switch(a: ArgSpec, id: Seq<char>, short: Option<char>, help: Seq<char>) -> bool {
    &&& a.id@ == id
    &&& text_is(a.long, id)
    &&& a.short == short
    &&& text_is(a.help, help)
    &&& a.value_name is None
    &&& a.action == ArgAction::Switch
    &&& !a.required
    &&& a.choices@.len() == 0
    &&& a.default_value is None
}

/// `a` is the option `--<id> <value_name>` with help text `help`, taking
/// values as `action` says.
pub open spec fn is_option(
    a: ArgSpec,
    id: Seq<char>,
    value_name: Seq<char>,
    help: Seq<char>,
    action: ArgAction,
    required: bool,
) -> bool {
    &&& a.id@ == id
    &&& text_is(a.long, id)
    &&& a.short is None
    &&& text_is(a.help, help)
    &&& text_is(a.value_name, value_name)
    &&& a.action == action
    &&& a.required == required
    &&& a.choices@.len() == 0
    &&& a.default_value is None
}

/// A switch.
fn switch(id: &str, short: Option<char>, help: &str) -> (a: ArgSpec)
    ensures
        is_switch(a, id@, short, help@),
{
    ArgSpec {
        id: String::from_str(id),
        long: Some(String::from_str(id)),
        short,
        help: Some(String::from_str(help)),
        value_name: None,
        action: ArgAction::Switch,
        required: false,
        choices: Vec::new(),
        default_value: None,
    }
}

/// An option taking a value.
fn option(id: &str, value_name: &str, help: &str, action: ArgAction, required: bool) -> (a: ArgSpec)
    ensures
        is_option(a, id@, value_name@, help@, action, required),
{
    ArgSpec {
        id: String::from_str(id),
        long: Some(String::from_str(id)),
        short: None,
        help: Some(String::from_str(help)),
        value_name: Some(String::from_str(value_name)),
        action,
        required,
        choices: Vec::new(),
        default_value: None,
    }
}

/// `a` is `--color <WHEN>`, one of `auto`, `always`, `never`, `auto` by default.
pub open spec fn is_color_option(a: ArgSpec) -> bool {
    &&& a.id@ == "color"@
    &&& text_is(a.long, "color"@)
    &&& a.short is None
    &&& text_is(a.help, "Color output"@)
    &&& text_is(a.value_name, "WHEN"@)
    &&& a.action == ArgAction::Value
    &&& !a.required
    &&& a.choices@.len() == 3
    &&& a.choices@[0]@ == "auto"@
    &&& a.choices@[1]@ == "always"@
    &&& a.choices@[2]@ == "never"@
    &&& text_is(a.default_value, "auto"@)
}

/// `spec` is the command-line form of the configuration `config`: a
/// subcommand named after it, holding its commands in order.
pub open spec fn config_mirrors(spec: CommandSpec, config: Configuration) -> bool {
    &&& spec.name@ == config.name@
    &&& text_is(spec.about, config.description@)
    &&& !spec.version
    &&& spec.args@.len() == 0
    &&& spec.subcommands@.len() == config.commands@.len()
    &&& forall|i: int|
        0 <= i < spec.subcommands@.len() ==> mirrors(
            #[trigger] spec.subcommands@[i],
            config.commands@[i].0@,
            config.commands@[i].1,
        )
}

/// `spec` is the built-in `refresh-configuration` subcommand.
pub open spec fn is_refresh_command(spec: CommandSpec) -> bool {
    &&& spec.name@ == "refresh-configuration"@
    &&& text_is(spec.about, "Re-read and trust updated configuration"@)
    &&& !spec.version
    &&& spec.args@.len() == 1
    &&& is_switch(spec.args@[0], "yes"@, Some('y'), "Trust changed configurations without asking"@)
    &&& spec.subcommands@.len() == 0
}

/// The command line of an alias named `app_name`: `--quiet`, `--verbose`
/// and `--color`, one subcommand per configuration in order, and the
/// built-in `refresh-configuration` subcommand last.
pub fn build_cli(configs: &Vec<Configuration>, app_name: &str, about: Option<String>) -> (s: CommandSpec)
    ensures
        s.name@ == app_name@,
        s.about == about,
        s.version,
        s.args@.len() == 3,
        is_switch(s.args@[0], "quiet"@, Some('q'), "Suppress error messages"@),
        is_switch(s.args@[1], "verbose"@, Some('v'), "Print verbose output"@),
        is_color_option(s.args@[2]),
        s.subcommands@.len() == configs@.len() + 1,
        forall|i: int| 0 <= i < configs@.len() ==> config_mirrors(#[trigger] s.subcommands@[i], configs@[i]),
        is_refresh_command(s.subcommands@[configs@.len() as int]),
{
    let mut args: Vec<ArgSpec> = Vec::new();
    args.push(switch("quiet", Some('q'), "Suppress error messages"));
    args.push(switch("verbose", Some('v'), "Print verbose output"));
    let mut choices: Vec<String> = Vec::new();
    choices.push(String::from_str("auto"));
    choices.push(String::from_str("always"));
    choices.push(String::from_str("never"));
    args.push(
        ArgSpec {
            id: String::from_str("color"),
            long: Some(String::from_str("color")),
            short: None,
            help: Some(String::from_str("Color output")),
            value_name: Some(String::from_str("WHEN")),
            action: ArgAction::Value,
            required: false,
            choices,
            default_value: Some(String::from_str("auto")),
        },
    );
    let mut subcommands: Vec<CommandSpec> = Vec::new();
    let mut i: usize = 0;
    while i < configs.len()
        invariant
            i <= configs@.len(),
            subcommands@.len() == i,
            forall|k: int| 0 <= k < i ==> config_mirrors(#[trigger] subcommands@[k], configs@[k]),
        decreases configs@.len() - i,
    {
        let config = &configs[i];
        let mut cmds: Vec<CommandSpec> = Vec::new();
        let mut j: usize = 0;
        while j < config.commands.len()
            invariant
                j <= config.commands@.len(),
                cmds@.len() == j,
                forall|k: int|
                    0 <= k < j ==> mirrors(
                        #[trigger] cmds@[k],
                        config.commands@[k].0@,
                        config.commands@[k].1,
                    ),
            decreases config.commands@.len() - j,
        {
            cmds.push(command_spec(config.commands[j].0.as_str(), &config.commands[j].1));
            j = j + 1;
        }
        subcommands.push(
            CommandSpec {
                name: config.name.clone(),
                about: Some(config.description.clone()),
                version: false,
                args: Vec::new(),
                subcommands: cmds,
            },
        );
        i = i + 1;
    }
    let mut refresh_args: Vec<ArgSpec> = Vec::new();
    refresh_args.push(switch("yes", Some('y'), "Trust changed configurations without asking"));
    subcommands.push(
        CommandSpec {
            name: String::from_str("refresh-configuration"),
            about: Some(String::from_str("Re-read and trust updated configuration")),
            version: false,
            args: refresh_args,
            subcommands: Vec::new(),
        },
    );
    CommandSpec { name: String::from_str(app_name), about, version: true, args, subcommands }
}

/// `spec` is the `init` subcommand of the installer.
pub open spec fn is_init_command(spec: CommandSpec) -> bool {
    &&& spec.name@ == "init"@
    &&& text_is(spec.about, "Create a new configuration and install as a shell alias"@)
    &&& !spec.version
    &&& spec.subcommands@.len() == 0
    &&& spec.args@.len() == 9
    &&& is_option(
        spec.args@[0],
        "config-path"@,
        "PATH"@,
        "Path to a configuration file (can be specified multiple times)"@,
        ArgAction::Append,
        false,
    )
    &&& is_option(
        spec.args@[1],
        "references"@,
        "PATH"@,
        "Path to a references file listing config paths"@,
        ArgAction::Value,
        false,
    )
    &&& is_option(spec.args@[2], "alias"@, "NAME"@, "Shell alias name to install"@, ArgAction::Value, true)
    &&& is_switch(
        spec.args@[3],
        "warn-only-on-conflict"@,
        None,
        "Warn instead of error on command name conflicts"@,
    )
    &&& is_switch(
        spec.args@[4],
        "check-for-updates"@,
        None,
        "Check for config changes on every new terminal"@,
    )
    &&& is_switch(
        spec.args@[5],
        "force"@,
        Some('f'),
        "Overwrite existing alias (removes old one first)"@,
    )
    &&& is_switch(spec.args@[6], "yes"@, Some('y'), "Trust configurations without asking"@)
    &&& is_switch(spec.args@[7], "verbose"@, Some('v'), "Print verbose output"@)
    &&& is_option(
        spec.args@[8],
        "description"@,
        "TEXT"@,
        "Description of the alias shown in its help"@,
        ArgAction::Value,
        false,
    )
}

/// The command line of the installer: only the `init` subcommand.
pub fn build_ring_cli() -> (s: CommandSpec)
    ensures
        s.name@ == "ring-cli"@,
        text_is(s.about, "CLI generator from YAML configurations"@),
        s.version,
        s.args@.len() == 0,
        s.subcommands@.len() == 1,
        is_init_command(s.subcommands@[0]),
{
    let mut args: Vec<ArgSpec> = Vec::new();
    args.push(
        option(
            "config-path",
            "PATH",
            "Path to a configuration file (can be specified multiple times)",
            ArgAction::Append,
            false,
        ),
    );
    args.push(
        option(
            "references",
            "PATH",
            "Path to a references file listing config paths",
            ArgAction::Value,
            false,
        ),
    );
    args.push(option("alias", "NAME", "Shell alias name to install", ArgAction::Value, true));
    args.push(
        switch("warn-only-on-conflict", None, "Warn instead of error on command name conflicts"),
    );
    args.push(switch("check-for-updates", None, "Check for config changes on every new terminal"));
    args.push(switch("force", Some('f'), "Overwrite existing alias (removes old one first)"));
    args.push(switch("yes", Some('y'), "Trust configurations without asking"));
    args.push(switch("verbose", Some('v'), "Print verbose output"));
    args.push(
        option(
            "description",
            "TEXT",
            "Description of the alias shown in its help",
            ArgAction::Value,
            false,
        ),
    );
    let init = CommandSpec {
        name: String::from_str("init"),
        about: Some(String::from_str("Create a new configuration and install as a shell alias")),
        version: false,
        args,
        subcommands: Vec::new(),
    };
    let mut subcommands: Vec<CommandSpec> = Vec::new();
    subcommands.push(init);
    CommandSpec {
        name: String::from_str("ring-cli"),
        about: Some(String::from_str("CLI generator from YAML configurations")),
        version: true,
        args: Vec::new(),
        subcommands,
    }
}

/// The value given for the flag `name`: that of the last flag of that name,
/// among the first `n`, for which a value was given.
pub open spec fn provided_value(
    flags: Seq<Flag>,
    provided: Seq<Option<String>>,
    n: int,
    name: Seq<char>,
) -> Option<Seq<char>>
    decreases n,
{
    if n <= 0 {
        None
    } else if flags[n - 1].name@ == name && provided[n - 1] is Some {
        Some(provided[n - 1]->0@)
    } else {
        provided_value(flags, provided, n - 1, name)
    }
}

/// The values given for a command's flags, keyed by flag name.
/// `provided[i]` is the value given on the command line for `flags[i]`.
pub fn extract_flag_values(flags: &Vec<Flag>, provided: &Vec<Option<String>>) -> (out: Bindings)
    requires
        provided@.len() == flags@.len(),
    ensures
        forall|name: Seq<char>|
            #[trigger] lookup(out@, name) == provided_value(flags@, provided@, flags@.len() as int, name),
{
    let mut out = Bindings::new();
    let mut i: usize = 0;
    while i < flags.len()
        invariant
            i <= flags@.len(),
            provided@.len() == flags@.len(),
            forall|name: Seq<char>|
                #[trigger] lookup(out@, name) == provided_value(flags@, provided@, i as int, name),
        decreases flags@.len() - i,
    {
        match &provided[i] {
            Some(v) => {
                out.insert(flags[i].name.clone(), v.clone());
            },
            None => {},
        }
        i = i + 1;
    }
    out
}

/// How running one shell command ended.
pub enum ShellOutcome {
    /// The shell could not be started; the message says why.
    NotStarted(String),
    /// The shell ran and exited, with the exit code when it has one.
    Exited { success: bool, code: Option<i32>, stdout: String, stderr: String },
}

/// Records how running `command` ended: the standard output of a successful
/// run is appended to `output`; otherwise `output` is left as it was and
/// the failure is reported, with exit code `-1` when the shell did not
/// start or exited without a code.
pub fn record_shell_outcome(output: &mut String, command: &str, outcome: ShellOutcome) -> (r: Result<(), RingError>)
    ensures
        match outcome {
            ShellOutcome::NotStarted(m) => {
                &&& r matches Err(RingError::ShellCommand { command: c, code, stderr })
                &&& c@ == command@ && code == -1 && stderr@ == m@
                &&& final(output)@ == old(output)@
            },
            ShellOutcome::Exited { success, code, stdout, stderr } => if success {
                r is Ok && final(output)@ == old(output)@ + stdout@
            } else {
                &&& r matches Err(RingError::ShellCommand { command: c, code: k, stderr: e })
                &&& c@ == command@ && e@ == stderr@
                &&& k as int == match code {
                    Some(x) => x as int,
                    None => -1int,
                }
                &&& final(output)@ == old(output)@
            },
        },
{
    match outcome {
        ShellOutcome::NotStarted(m) => Err(
            RingError::ShellCommand { command: String::from_str(command), code: -1, stderr: m },
        ),
        ShellOutcome::Exited { success, code, stdout, stderr } => {
            if success {
                output.append(stdout.as_str());
                Ok(())
            } else {
                let k: i32 = match code {
                    Some(x) => x,
                    None => -1,
                };
                Err(RingError::ShellCommand { command: String::from_str(command), code: k, stderr })
            }
        },
    }
}

/// The progress of running the shell commands of a `run` list, one after
/// the other, stopping at the first failure.
pub struct ShellRun {
    /// The standard output of the commands that succeeded, in order.
    pub output: String,
    /// How many commands have been started.
    pub started: usize,
    /// The failure that stopped the run, if any.
    pub failure: Option<RingError>,
}

impl ShellRun {
    /// A run in which nothing has happened yet.
    pub fn new() -> (r: ShellRun)
        ensures
            r.output@.len() == 0,
            r.started == 0,
            r.failure is None,
    {
        ShellRun { output: String::new(), started: 0, failure: None }
    }

    /// The next command to start: the first template not yet started, with
    /// the flag values and environment variables substituted. `None` once
    /// every template has been started or the run has stopped; a template
    /// that cannot be rendered stops the run.
    pub fn next_command(&mut self, templates: &Vec<String>, flag_values: &Bindings, env: &Bindings) -> (r:
        Option<String>)
        ensures
            final(self).output == old(self).output,
            old(self).failure is Some || old(self).started >= templates@.len() ==> {
                &&& r is None
                &&& final(self).started == old(self).started
                &&& final(self).failure == old(self).failure
            },
            old(self).failure is None && old(self).started < templates@.len() ==> match render_template(
                templates@[old(self).started as int]@,
                flag_values@,
                env@,
            ) {
                Ok(c) => {
                    &&& r matches Some(cmd) && cmd@ == c
                    &&& final(self).started == old(self).started + 1
                    &&& final(self).failure is None
                },
                Err(f) => {
                    &&& r is None
                    &&& final(self).started == old(self).started
                    &&& final(self).failure matches Some(e) && reports_failure(e, f)
                },
            },
    {
        if self.failure.is_some() || self.started >= templates.len() {
            return None;
        }
        match render(templates[self.started].as_str(), flag_values, env) {
            Ok(cmd) => {
                self.started = self.started + 1;
                Some(cmd)
            },
            Err(e) => {
                self.failure = Some(e);
                None
            },
        }
    }

    /// Records how the command `command` ended: the output of a success is
    /// kept; a failure stops the run. Nothing changes once the run has
    /// stopped.
    pub fn record(&mut self, command: &str, outcome: ShellOutcome)
        ensures
            final(self).started == old(self).started,
            old(self).failure is Some ==> final(self).output@ == old(self).output@ && final(self).failure
                == old(self).failure,
            old(self).failure is None ==> match outcome {
                ShellOutcome::NotStarted(m) => {
                    &&& final(self).output@ == old(self).output@
                    &&& final(self).failure matches Some(RingError::ShellCommand { command: c, code, stderr })
                    &&& c@ == command@ && code == -1 && stderr@ == m@
                },
                ShellOutcome::Exited { success, code, stdout, stderr } => if success {
                    final(self).output@ == old(self).output@ + stdout@ && final(self).failure is None
                } else {
                    &&& final(self).output@ == old(self).output@
                    &&& final(self).failure matches Some(RingError::ShellCommand { command: c, code: k, stderr: e })
                    &&& c@ == command@ && e@ == stderr@
                    &&& k as int == match code {
                        Some(x) => x as int,
                        None => -1int,
                    }
                },
            },
    {
        if self.failure.is_some() {
            return ;
        }
        match record_shell_outcome(&mut self.output, command, outcome) {
            Ok(()) => {},
            Err(e) => {
                self.failure = Some(e);
            },
        }
    }

    /// The outcome of the run: everything the commands printed, or the
    /// failure that stopped it.
    pub fn finish(self) -> (r: Result<String, RingError>)
        ensures
            match self.failure {
                None => r matches Ok(out) && out == self.output,
                Some(e) => r == Err::<String, RingError>(e),
            },
    {
        match self.failure {
            None => Ok(self.output),
            Some(e) => Err(e),
        }
    }
}

/// The HTTP methods a request may use.
#[derive(PartialEq, Eq, Structural, Clone, Copy, Debug)]
pub enum HttpMethod {
    Get,
    Post,
    Put,
    Delete,
    Patch,
    Head,
}

/// The method named exactly `name`, in upper case.
pub open spec fn method_named(name: Seq<char>) -> Option<HttpMethod> {
    if name == "GET"@ {
        Some(HttpMethod::Get)
    } else if name == "POST"@ {
        Some(HttpMethod::Post)
    } else if name == "PUT"@ {
        Some(HttpMethod::Put)
    } else if name == "DELETE"@ {
        Some(HttpMethod::Delete)
    } else if name == "PATCH"@ {
        Some(HttpMethod::Patch)
    } else if name == "HEAD"@ {
        Some(HttpMethod::Head)
    } else {
        None
    }
}

/// Methods whose requests carry a body.
pub open spec fn sends_body(m: HttpMethod) -> bool {
    m == HttpMethod::Post || m == HttpMethod::Put || m == HttpMethod::Patch
}

/// The method named `name`.
pub fn parse_method(name: &str) -> (m: Option<HttpMethod>)
    ensures
        m == method_named(name@),
{
    let s = String::from_str(name);
    if s == String::from_str("GET") {
        Some(HttpMethod::Get)
    } else if s == String::from_str("POST") {
        Some(HttpMethod::Post)
    } else if s == String::from_str("PUT") {
        Some(HttpMethod::Put)
    } else if s == String::from_str("DELETE") {
        Some(HttpMethod::Delete)
    } else if s == String::from_str("PATCH") {
        Some(HttpMethod::Patch)
    } else if s == String::from_str("HEAD") {
        Some(HttpMethod::Head)
    } else {
        None
    }
}

/// An HTTP request ready to be sent.
pub struct HttpRequestPlan {
    pub method: HttpMethod,
    pub url: String,
    /// The body, for the methods that send one.
    pub body: Option<String>,
    /// `(name, value)` of each header, in order.
    pub headers: Vec<(String, String)>,
}

/// The abstract content of a request plan.
pub struct PlanView {
    pub method: HttpMethod,
    pub url: Seq<char>,
    pub body: Option<Seq<char>>,
    pub headers: Seq<(Seq<char>, Seq<char>)>,
}

/// Why a request could not be prepared.
pub enum PlanFailure {
    Env(EnvExpansionFailure),
    Unsupported,
}

/// The headers of a request template as text pairs.
pub open spec fn header_views(headers: Option<Vec<(String, String)>>) -> Seq<(Seq<char>, Seq<char>)> {
    match headers {
        Some(hs) => Seq::new(hs@.len(), |i: int| (hs@[i].0@, hs@[i].1@)),
        None => Seq::empty(),
    }
}

/// The header values rendered in order; the first failure wins.
pub open spec fn render_headers(
    headers: Seq<(Seq<char>, Seq<char>)>,
    flags: Seq<(Seq<char>, Seq<char>)>,
    env: Seq<(Seq<char>, Seq<char>)>,
) -> Result<Seq<(Seq<char>, Seq<char>)>, EnvExpansionFailure>
    decreases headers.len(),
{
    if headers.len() == 0 {
        Ok(Seq::empty())
    } else {
        match render_headers(headers.drop_last(), flags, env) {
            Err(f) => Err(f),
            Ok(prev) => match render_template(headers.last().1, flags, env) {
                Err(f) => Err(f),
                Ok(v) => Ok(prev.push((headers.last().0, v))),
            },
        }
    }
}

/// The request described by the template `http`: the URL rendered first,
/// then the body, then the method checked, then each header value rendered
/// in order; the first failure is reported. Methods that send a body send
/// the rendered body, or an empty one; the others send none.
pub open spec fn http_plan(
    http: Http,
    flags: Seq<(Seq<char>, Seq<char>)>,
    env: Seq<(Seq<char>, Seq<char>)>,
) -> Result<PlanView, PlanFailure> {
    match render_template(http.url@, flags, env) {
        Err(f) => Err(PlanFailure::Env(f)),
        Ok(url) => {
            let body: Result<Option<Seq<char>>, EnvExpansionFailure> = match http.body {
                None => Ok(None),
                Some(b) => match render_template(b@, flags, env) {
                    Ok(x) => Ok(Some(x)),
                    Err(f) => Err(f),
                },
            };
            match body {
                Err(f) => Err(PlanFailure::Env(f)),
                Ok(body) => match method_named(http.method@) {
                    None => Err(PlanFailure::Unsupported),
                    Some(m) => match render_headers(header_views(http.headers), flags, env) {
                        Err(f) => Err(PlanFailure::Env(f)),
                        Ok(hs) => Ok(
                            PlanView {
                                method: m,
                                url,
                                body: if sends_body(m) {
                                    Some(
                                        match body {
                                            Some(b) => b,
                                            None => Seq::empty(),
                                        },
                                    )
                                } else {
                                    None
                                },
                                headers: hs,
                            },
                        ),
                    },
                },
            }
        },
    }
}

/// The view of an optional text.
pub open spec fn opt_view(o: Option<String>) -> Option<Seq<char>> {
    match o {
        Some(s) => Some(s@),
        None => None,
    }
}

/// Prepares the request of an HTTP command: flag values and environment
/// variables substituted into the URL, the body and the header values, and
/// the method checked.
#[verifier::loop_isolation(false)]
pub fn prepare_http_request(http: &Http, flag_values: &Bindings, env: &Bindings) -> (res: Result<
    HttpRequestPlan,
    RingError,
>)
    ensures
        match http_plan(*http, flag_values@, env@) {
            Ok(p) => res matches Ok(plan) && plan.method == p.method && plan.url@ == p.url && opt_view(
                plan.body,
            ) == p.body && Seq::new(
                plan.headers@.len(),
                |i: int| (plan.headers@[i].0@, plan.headers@[i].1@),
            ) == p.headers,
            Err(PlanFailure::Env(f)) => res matches Err(e) && reports_failure(e, f),
            Err(PlanFailure::Unsupported) => res matches Err(RingError::UnsupportedMethod(m)) && m@
                == http.method@,
        },
{
    let url = match render(http.url.as_str(), flag_values, env) {
        Ok(u) => u,
        Err(e) => return Err(e),
    };
    let body = match &http.body {
        Some(b) => match render(b.as_str(), flag_values, env) {
            Ok(x) => Some(x),
            Err(e) => return Err(e),
        },
        None => None,
    };
    let method = match parse_method(http.method.as_str()) {
        Some(m) => m,
        None => return Err(RingError::UnsupportedMethod(http.method.clone())),
    };
    let mut headers: Vec<(String, String)> = Vec::new();
    match &http.headers {
        Some(hs) => {
            let ghost all = header_views(http.headers);
            let mut i: usize = 0;
            assert(all.take(0) =~= Seq::<(Seq<char>, Seq<char>)>::empty());
            assert(Seq::new(headers@.len(), |k: int| (headers@[k].0@, headers@[k].1@)) =~= Seq::<
                (Seq<char>, Seq<char>),
            >::empty());
            while i < hs.len()
                invariant
                    headers@.len() == i,
                    http.headers == Some(*hs),
                    all == header_views(http.headers),
                    all.len() == hs@.len(),
                    i <= hs@.len(),
                    render_headers(all.take(i as int), flag_values@, env@) == Ok::<
                        Seq<(Seq<char>, Seq<char>)>,
                        EnvExpansionFailure,
                    >(Seq::new(headers@.len(), |k: int| (headers@[k].0@, headers@[k].1@))),
                decreases hs@.len() - i,
            {
                assert(all.take(i + 1).drop_last() =~= all.take(i as int));
                assert(all.take(i + 1).last() == all[i as int]);
                let ghost before = headers@;
                match render(hs[i].1.as_str(), flag_values, env) {
                    Ok(v) => {
                        headers.push((hs[i].0.clone(), v));
                        assert(Seq::new(headers@.len(), |k: int| (headers@[k].0@, headers@[k].1@))
                            =~= Seq::new(before.len(), |k: int| (before[k].0@, before[k].1@)).push(
                            (hs@[i as int].0@, headers@[i as int].1@),
                        ));
                    },
                    Err(e) => {
                        proof {
                            lemma_render_headers_failure_persists(all, i as int + 1, flag_values@, env@);
                        }
                        return Err(e);
                    },
                }
                i = i + 1;
            }
            assert(all.take(i as int) =~= all);
        },
        None => {
            assert(header_views(http.headers) =~= Seq::<(Seq<char>, Seq<char>)>::empty());
            assert(Seq::new(headers@.len(), |k: int| (headers@[k].0@, headers@[k].1@)) =~= Seq::<
                (Seq<char>, Seq<char>),
            >::empty());
        },
    }
    let body = match method {
        HttpMethod::Post | HttpMethod::Put | HttpMethod::Patch => match body {
            Some(b) => Some(b),
            None => Some(String::new()),
        },
        _ => None,
    };
    Ok(HttpRequestPlan { method, url, body, headers })
}

/// Once rendering a prefix of the headers fails, rendering any longer
/// prefix fails the same way.
proof fn lemma_render_headers_failure_persists(
    headers: Seq<(Seq<char>, Seq<char>)>,
    n: int,
    flags: Seq<(Seq<char>, Seq<char>)>,
    env: Seq<(Seq<char>, Seq<char>)>,
)
    requires
        0 <= n <= headers.len(),
        render_headers(headers.take(n), flags, env) is Err,
    ensures
        render_headers(headers, flags, env) == render_headers(headers.take(n), flags, env),
    decreases headers.len() - n,
{
    if n < headers.len() {
        assert(headers.take(n + 1).drop_last() =~= headers.take(n));
        lemma_render_headers_failure_persists(headers, n + 1, flags, env);
    } else {
        assert(headers.take(n) =~= headers);
    }
}

/// The name by which each HTTP method is written.
pub open spec fn method_name(m: HttpMethod) -> Seq<char> {
    match m {
        HttpMethod::Get => "GET"@,
        HttpMethod::Post => "POST"@,
        HttpMethod::Put => "PUT"@,
        HttpMethod::Delete => "DELETE"@,
        HttpMethod::Patch => "PATCH"@,
        HttpMethod::Head => "HEAD"@,
    }
}

/// Every method is read from its upper-case name, and only from it.
pub proof fn lemma_methods_read_by_name(m: HttpMethod, name: Seq<char>)
    ensures
        method_named(method_name(m)) == Some(m),
        method_named(name) == Some(m) ==> name == method_name(m),
{
    reveal_strlit("GET");
    reveal_strlit("POST");
    reveal_strlit("PUT");
    reveal_strlit("DELETE");
    reveal_strlit("PATCH");
    reveal_strlit("HEAD");
    assert("GET"@.len() == 3 && "PUT"@.len() == 3 && "POST"@.len() == 4 && "HEAD"@.len() == 4);
    assert("DELETE"@.len() == 6 && "PATCH"@.len() == 5);
    assert("GET"@[0] != "PUT"@[0]);
    assert("POST"@[0] != "HEAD"@[0]);
}

/// A prepared request renders its parts like any other template: the URL
/// is the rendered URL template; a method that sends a body sends the
/// rendered body template, or an empty body when there is none; any other
/// method sends no body; each header keeps its name and has its value
/// rendered, in order; and the method is the one named.
pub proof fn lemma_request_parts_rendered(
    http: Http,
    flags: Seq<(Seq<char>, Seq<char>)>,
    env: Seq<(Seq<char>, Seq<char>)>,
)
    ensures
        http_plan(http, flags, env) matches Ok(p) ==> {
            &&& render_template(http.url@, flags, env) == Ok::<Seq<char>, EnvExpansionFailure>(p.url)
            &&& http.method@ == method_name(p.method)
            &&& sends_body(p.method) ==> match http.body {
                Some(b) => p.body matches Some(x) && render_template(b@, flags, env) == Ok::<
                    Seq<char>,
                    EnvExpansionFailure,
                >(x),
                None => p.body == Some(Seq::<char>::empty()),
            }
            &&& !sends_body(p.method) ==> p.body is None
            &&& p.headers.len() == header_views(http.headers).len()
            &&& forall|i: int|
                0 <= i < p.headers.len() ==> {
                    &&& (#[trigger] p.headers[i]).0 == header_views(http.headers)[i].0
                    &&& render_template(header_views(http.headers)[i].1, flags, env) == Ok::<
                        Seq<char>,
                        EnvExpansionFailure,
                    >(p.headers[i].1)
                }
        },
{
    if let Ok(p) = http_plan(http, flags, env) {
        lemma_methods_read_by_name(p.method, http.method@);
        lemma_render_headers_ok(header_views(http.headers), flags, env);
    }
}

/// Rendering headers that succeeds keeps each name and renders each value.
proof fn lemma_render_headers_ok(
    headers: Seq<(Seq<char>, Seq<char>)>,
    flags: Seq<(Seq<char>, Seq<char>)>,
    env: Seq<(Seq<char>, Seq<char>)>,
)
    ensures
        render_headers(headers, flags, env) matches Ok(hs) ==> {
            &&& hs.len() == headers.len()
            &&& forall|i: int|
                0 <= i < hs.len() ==> {
                    &&& (#[trigger] hs[i]).0 == headers[i].0
                    &&& render_template(headers[i].1, flags, env) == Ok::<Seq<char>, EnvExpansionFailure>(hs[i].1)
                }
        },
    decreases headers.len(),
{
    if headers.len() > 0 {
        lemma_render_headers_ok(headers.drop_last(), flags, env);
    }
}

} // verus!
