use vstd::prelude::*;
use vstd::string::*;

verus! {

broadcast use vstd::string::group_string_axioms;

/// When ring-cli's own messages are colored.
#[derive(Clone, Copy, PartialEq, Eq, Structural, Debug)]
pub enum ColorMode {
    Auto,
    Always,
    Never,
}

/// Whether color is used under `mode`: always, never, or, in auto mode,
/// only when `NO_COLOR` is not set and standard output is a terminal.
pub open spec fn color_enabled(mode: ColorMode, no_color_set: bool, stdout_is_terminal: bool) -> bool {
    match mode {
        ColorMode::Always => true,
        ColorMode::Never => false,
        ColorMode::Auto => !no_color_set && stdout_is_terminal,
    }
}

/// Whether color is used under `mode`, given whether `NO_COLOR` is set and
/// whether standard output is a terminal.
pub fn is_color_enabled(mode: ColorMode, no_color_set: bool, stdout_is_terminal: bool) -> (r: bool)
    ensures
        r == color_enabled(mode, no_color_set, stdout_is_terminal),
{
    match mode {
        ColorMode::Always => true,
        ColorMode::Never => false,
        ColorMode::Auto => {
            if no_color_set {
                return false;
            }
            stdout_is_terminal
        },
    }
}

/// The color setting after recording `mode`: the first setting wins.
pub open spec fn recorded(setting: Option<ColorMode>, mode: ColorMode) -> Option<ColorMode> {
    match setting {
        Some(m) => Some(m),
        None => Some(mode),
    }
}

/// The mode in effect under a setting: the recorded one, or `Auto`.
pub open spec fn effective_mode(setting: Option<ColorMode>) -> ColorMode {
    match setting {
        Some(r) => r,
        None => ColorMode::Auto,
    }
}

/// Records `mode` as the color mode of the process, held in `setting`,
/// unless one was recorded already: the first setting wins.
pub fn init(setting: &mut Option<ColorMode>, mode: ColorMode)
    ensures
        *final(setting) == recorded(*old(setting), mode),
{
    if setting.is_none() {
        *setting = Some(mode);
    }
}

/// The color mode in effect: the recorded one, or `Auto` when none was.
pub fn mode_in_effect(setting: Option<ColorMode>) -> (m: ColorMode)
    ensures
        m == effective_mode(setting),
{
    match setting {
        Some(r) => r,
        None => ColorMode::Auto,
    }
}

/// The mode named by the value of `--color`: `always`, `never`, and
/// anything else is `auto`.
pub open spec fn color_mode_named(name: Seq<char>) -> ColorMode {
    if name == "always"@ {
        ColorMode::Always
    } else if name == "never"@ {
        ColorMode::Never
    } else {
        ColorMode::Auto
    }
}

/// The mode named by the value of `--color`.
pub fn color_mode_from_name(name: &str) -> (m: ColorMode)
    ensures
        m == color_mode_named(name@),
{
    let s = String::from_str(name);
    if s == String::from_str("always") {
        ColorMode::Always
    } else if s == String::from_str("never") {
        ColorMode::Never
    } else {
        ColorMode::Auto
    }
}

/// `text` with `prefix` before it.
fn prefixed(prefix: &str, text: &str) -> (out: String)
    ensures
        out@ == prefix@ + text@,
{
    let mut out = String::from_str(prefix);
    out.append(text);
    out
}

/// `text` between `open` and `close`.
fn wrapped(open: &str, text: &str, close: &str) -> (out: String)
    ensures
        out@ == open@ + text@ + close@,
{
    let mut out = String::from_str(open);
    out.append(text);
    out.append(close);
    out
}

/// The text of an error message.
pub open spec fn error_text(msg: Seq<char>, color: bool) -> Seq<char> {
    if color {
        "\x1b[1;31mError:\x1b[0m "@ + msg
    } else {
        "Error: "@ + msg
    }
}

/// The text of a warning.
pub open spec fn warn_text(msg: Seq<char>, color: bool) -> Seq<char> {
    if color {
        "\x1b[33mWarning:\x1b[0m "@ + msg
    } else {
        "Warning: "@ + msg
    }
}

/// `msg` wrapped in the ANSI sequence `open` and a reset when colored,
/// unchanged otherwise.
pub open spec fn styled_text(open: Seq<char>, msg: Seq<char>, color: bool) -> Seq<char> {
    if color {
        open + msg + "\x1b[0m"@
    } else {
        msg
    }
}

/// An error message, `Error: msg`, in bold red when `color` is set.
pub fn error(msg: &str, color: bool) -> (out: String)
    ensures
        out@ == error_text(msg@, color),
{
    if color {
        prefixed("\x1b[1;31mError:\x1b[0m ", msg)
    } else {
        prefixed("Error: ", msg)
    }
}

/// A warning, `Warning: msg`, in yellow when `color` is set.
pub fn warn(msg: &str, color: bool) -> (out: String)
    ensures
        out@ == warn_text(msg@, color),
{
    if color {
        prefixed("\x1b[33mWarning:\x1b[0m ", msg)
    } else {
        prefixed("Warning: ", msg)
    }
}

/// A success message, green when `color` is set.
pub fn success(msg: &str, color: bool) -> (out: String)
    ensures
        out@ == styled_text("\x1b[32m"@, msg@, color),
{
    if color {
        wrapped("\x1b[32m", msg, "\x1b[0m")
    } else {
        String::from_str(msg)
    }
}

/// `msg` in bold when `color` is set.
pub fn bold(msg: &str, color: bool) -> (out: String)
    ensures
        out@ == styled_text("\x1b[1m"@, msg@, color),
{
    if color {
        wrapped("\x1b[1m", msg, "\x1b[0m")
    } else {
        String::from_str(msg)
    }
}

/// `msg` dimmed when `color` is set.
pub fn dim(msg: &str, color: bool) -> (out: String)
    ensures
        out@ == styled_text("\x1b[2m"@, msg@, color),
{
    if color {
        wrapped("\x1b[2m", msg, "\x1b[0m")
    } else {
        String::from_str(msg)
    }
}

/// The escape character that starts every ANSI sequence.
pub open spec fn has_escape(s: Seq<char>) -> bool {
    exists|i: int| 0 <= i < s.len() && s[i] == '\x1b'
}

/// Without color, a message that holds no escape character comes out with
/// none: no ANSI sequence is ever added.
pub proof fn lemma_plain_output_has_no_escape(msg: Seq<char>)
    requires
        !has_escape(msg),
    ensures
        !has_escape(error_text(msg, false)),
        !has_escape(warn_text(msg, false)),
        !has_escape(styled_text("\x1b[32m"@, msg, false)),
        !has_escape(styled_text("\x1b[1m"@, msg, false)),
        !has_escape(styled_text("\x1b[2m"@, msg, false)),
{
    reveal_strlit("Error: ");
    reveal_strlit("Warning: ");
    let e = error_text(msg, false);
    let w = warn_text(msg, false);
    assert forall|i: int| 0 <= i < e.len() implies e[i] != '\x1b' by {
        if i >= 7 {
            assert(e[i] == msg[i - 7]);
        }
    }
    assert forall|i: int| 0 <= i < w.len() implies w[i] != '\x1b' by {
        if i >= 9 {
            assert(w[i] == msg[i - 9]);
        }
    }
}

/// With `--color=never`, or in auto mode when `NO_COLOR` is set or
/// standard output is not a terminal, no message gains an escape character.
pub proof fn lemma_no_color_means_no_escape(mode: ColorMode, no_color_set: bool, stdout_is_terminal: bool, msg: Seq<char>)
    requires
        mode == ColorMode::Never || (mode == ColorMode::Auto && (no_color_set || !stdout_is_terminal)),
        !has_escape(msg),
    ensures
        !color_enabled(mode, no_color_set, stdout_is_terminal),
        !has_escape(error_text(msg, color_enabled(mode, no_color_set, stdout_is_terminal))),
        !has_escape(warn_text(msg, color_enabled(mode, no_color_set, stdout_is_terminal))),
        !has_escape(styled_text("\x1b[32m"@, msg, color_enabled(mode, no_color_set, stdout_is_terminal))),
        !has_escape(styled_text("\x1b[1m"@, msg, color_enabled(mode, no_color_set, stdout_is_terminal))),
        !has_escape(styled_text("\x1b[2m"@, msg, color_enabled(mode, no_color_set, stdout_is_terminal))),
{
    lemma_plain_output_has_no_escape(msg);
}

/// Recording a second mode changes nothing: the mode in effect stays the
/// first one recorded.
pub proof fn lemma_first_mode_wins(setting: Option<ColorMode>, first: ColorMode, later: ColorMode)
    ensures
        recorded(recorded(setting, first), later) == recorded(setting, first),
        effective_mode(recorded(recorded(None, first), later)) == first,
{
}

} // verus!
