use vstd::prelude::*;
use vstd::string::*;

use crate::text::{signed_decimal, signed_decimal_chars, string_of};

verus! {

broadcast use vstd::string::group_string_axioms;

/// Errors raised while loading, validating or running configured commands.
///
/// Errors that come from an outside source (a YAML parser, the file system)
/// carry that source's rendered message as text.
#[derive(Debug)]
pub enum RingError {
    Config(String),
    YamlParse { path: String, source: String },
    Io { path: String, source: String },
    Validation { context: String, message: String },
    ShellCommand { command: String, code: i32, stderr: String },
    Http { method: String, url: String, message: String },
    EnvVar { name: String },
    UnsupportedMethod(String),
}

/// The text shown for an error.
pub open spec fn error_message(e: RingError) -> Seq<char> {
    match e {
        RingError::Config(m) => "Config error: "@ + m@,
        RingError::YamlParse { path, source } => "Error parsing '"@ + path@ + "': "@ + source@,
        RingError::Io { path, source } => "IO error reading '"@ + path@ + "': "@ + source@,
        RingError::Validation { context, message } => context@ + ": "@ + message@,
        RingError::ShellCommand { command, code, stderr } => "Command '"@ + command@
            + "' failed with exit code "@ + signed_decimal(code as int) + ": "@ + stderr@,
        RingError::Http { method, url, message } => method@ + " "@ + url@ + ": "@ + message@,
        RingError::EnvVar { name } => "Environment variable '"@ + name@ + "' is not set"@,
        RingError::UnsupportedMethod(m) => "Unsupported HTTP method '"@ + m@ + "'"@,
    }
}

/// `a` followed by `b`.
fn cat2(a: &str, b: &str) -> (out: String)
    ensures
        out@ == a@ + b@,
{
    let mut out = String::from_str(a);
    out.append(b);
    out
}

/// `a`, `b`, `c` and `d` in sequence.
fn cat4(a: &str, b: &str, c: &str, d: &str) -> (out: String)
    ensures
        out@ == a@ + b@ + c@ + d@,
{
    let mut out = String::from_str(a);
    out.append(b);
    out.append(c);
    out.append(d);
    out
}

impl RingError {
    /// The text shown for this error.
    pub fn describe(&self) -> (s: String)
        ensures
            s@ == error_message(*self),
    {
        match self {
            RingError::Config(m) => cat2("Config error: ", m.as_str()),
            RingError::YamlParse { path, source } => {
                let head = cat4("Error parsing '", path.as_str(), "': ", source.as_str());
                head
            },
            RingError::Io { path, source } => cat4(
                "IO error reading '",
                path.as_str(),
                "': ",
                source.as_str(),
            ),
            RingError::Validation { context, message } => {
                let mut out = cat2(context.as_str(), ": ");
                out.append(message.as_str());
                out
            },
            RingError::ShellCommand { command, code, stderr } => {
                let digits = string_of(&signed_decimal_chars(*code as i64));
                let mut out = cat4(
                    "Command '",
                    command.as_str(),
                    "' failed with exit code ",
                    digits.as_str(),
                );
                out.append(": ");
                out.append(stderr.as_str());
                out
            },
            RingError::Http { method, url, message } => {
                let mut out = cat4(method.as_str(), " ", url.as_str(), ": ");
                out.append(message.as_str());
                out
            },
            RingError::EnvVar { name } => {
                let mut out = cat2("Environment variable '", name.as_str());
                out.append("' is not set");
                out
            },
            RingError::UnsupportedMethod(m) => {
                let mut out = cat2("Unsupported HTTP method '", m.as_str());
                out.append("'");
                out
            },
        }
    }
}

} // verus!
