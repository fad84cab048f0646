//! Discovery of the League Client's port and auth token, from the client's
//! command line (Windows) or from its lockfile.

use vstd::prelude::*;
use crate::number::{parse_u16, parse_u16_spec, decimal_digits, law_u16_decimal_round_trip};
use crate::text::{chars_of, string_of, trim_chars, split_chars, trimmed, split_on, is_white_space,
    trim_start, trim_end};

verus! {

/// Credentials to connect to the local League Client.
#[derive(Debug, Clone)]
pub struct LcuCredentials {
    pub port: u16,
    pub password: String,
}

/// What credentials amount to: a port and the characters of the password.
pub struct CredentialsView {
    pub port: u16,
    pub password: Seq<char>,
}

impl View for LcuCredentials {
    type V = CredentialsView;

    open spec fn view(&self) -> CredentialsView {
        CredentialsView { port: self.port, password: self.password@ }
    }
}

/// The view of optional credentials.
pub open spec fn credentials_view(r: Option<LcuCredentials>) -> Option<CredentialsView> {
    match r {
        Some(c) => Some(c@),
        None => None,
    }
}

/// The credentials a lockfile holds: its trimmed text split at `:` into
/// name, process id, port and password; the port must parse as a `u16` and
/// the password piece must exist. Pieces after the fourth are ignored.
pub open spec fn lockfile_credentials(content: Seq<char>) -> Option<CredentialsView> {
    let parts = split_on(trimmed(content), ':');
    if parts.len() >= 4 && parse_u16_spec(parts[2]) is Ok {
        Some(CredentialsView { port: parse_u16_spec(parts[2])->Ok_0 as u16, password: parts[3] })
    } else {
        None
    }
}

/// Reads credentials from the text of the League Client lockfile
/// (`name:pid:port:password`).
pub fn parse_lockfile(content: &str) -> (r: Option<LcuCredentials>)
    ensures
        credentials_view(r) == lockfile_credentials(content@),
{
    let chars = chars_of(content);
    let trimmed_chars = trim_chars(&chars);
    let parts = split_chars(&trimmed_chars, ':');
    if parts.len() < 3 {
        return None;
    }
    let port_text = string_of(parts[2].as_slice());
    let port = match parse_u16(port_text.as_str()) {
        Ok(p) => p,
        Err(_) => {
            return None;
        },
    };
    if parts.len() < 4 {
        return None;
    }
    let password = string_of(parts[3].as_slice());
    Some(LcuCredentials { port, password })
}

/// What `regex::Regex` finds as the first capture group of `pattern` in
/// `haystack`: `None` when the pattern does not compile, does not match, or
/// its first group takes no part in the match.
pub uninterp spec fn regex_first_group(pattern: Seq<char>, haystack: Seq<char>) -> Option<Seq<char>>;

/// The text of an optional string.
pub open spec fn text_view(r: Option<String>) -> Option<Seq<char>> {
    match r {
        Some(s) => Some(s@),
        None => None,
    }
}

/// Compiles `pattern` with `regex::Regex::new`, searches `haystack` with
/// `Regex::captures` and returns the text of group 1 (`Captures::get`).
/// Trusted: the result is named `regex_first_group` of the two arguments;
/// nothing is claimed about what the regex engine matches.
#[verifier::external_body]
fn first_capture(pattern: &str, haystack: &str) -> (r: Option<String>)
    ensures
        text_view(r) == regex_first_group(pattern@, haystack@),
{
    let re = regex::Regex::new(pattern).ok()?;
    let caps = re.captures(haystack)?;
    caps.get(1).map(|m| m.as_str().to_string())
}

/// Pattern for the port on the client's command line.
pub const APP_PORT_PATTERN: &'static str = "--app-port=(\\d+)";

/// Pattern for the auth token on the client's command line.
pub const AUTH_TOKEN_PATTERN: &'static str = "--remoting-auth-token=([\\w-]+)";

/// Credentials from the two captured command-line values: the port text must
/// parse as a `u16` and a token must have been captured.
pub open spec fn captured_credentials(port_group: Option<Seq<char>>, token_group: Option<Seq<char>>) -> Option<CredentialsView> {
    match port_group {
        None => None,
        Some(p) => match parse_u16_spec(p) {
            Err(_) => None,
            Ok(port) => match token_group {
                None => None,
                Some(t) => Some(CredentialsView { port: port as u16, password: t }),
            },
        },
    }
}

/// Builds credentials from the captured port text and auth token.
pub fn credentials_from_captures(port_group: Option<&str>, token_group: Option<&str>) -> (r: Option<LcuCredentials>)
    ensures
        credentials_view(r) == captured_credentials(
            match port_group {
                Some(p) => Some(p@),
                None => None,
            },
            match token_group {
                Some(t) => Some(t@),
                None => None,
            },
        ),
{
    let port = match port_group {
        None => {
            return None;
        },
        Some(p) => match parse_u16(p) {
            Ok(v) => v,
            Err(_) => {
                return None;
            },
        },
    };
    match token_group {
        None => None,
        Some(t) => Some(LcuCredentials { port, password: t.to_owned() }),
    }
}

/// Reads credentials from the command line of the `LeagueClientUx` process
/// (the output of `wmic ... GET commandline`).
pub fn credentials_from_command_line(output: &str) -> (r: Option<LcuCredentials>)
    ensures
        credentials_view(r) == captured_credentials(
            regex_first_group(APP_PORT_PATTERN@, output@),
            regex_first_group(AUTH_TOKEN_PATTERN@, output@),
        ),
{
    let port_group = first_capture(APP_PORT_PATTERN, output);
    let port_text = match &port_group {
        None => {
            return None;
        },
        Some(p) => p.as_str(),
    };
    let token_group = first_capture(AUTH_TOKEN_PATTERN, output);
    match &token_group {
        None => credentials_from_captures(Some(port_text), None),
        Some(t) => credentials_from_captures(Some(port_text), Some(t.as_str())),
    }
}

/// The credentials that the process command line yields, if any.
pub open spec fn process_credentials(process_output: Option<Seq<char>>) -> Option<CredentialsView> {
    match process_output {
        Some(out) => captured_credentials(
            regex_first_group(APP_PORT_PATTERN@, out),
            regex_first_group(AUTH_TOKEN_PATTERN@, out),
        ),
        None => None,
    }
}

/// Credentials from the process command line when it yields them, else from
/// the lockfile.
pub open spec fn discovered_credentials(process_output: Option<Seq<char>>, lockfile: Option<Seq<char>>) -> Option<CredentialsView> {
    match process_credentials(process_output) {
        Some(c) => Some(c),
        None => match lockfile {
            Some(content) => lockfile_credentials(content),
            None => None,
        },
    }
}

/// The first step of discovery: credentials found on the command line, or
/// the need to read the lockfile.
pub enum DiscoveryStep {
    Found(LcuCredentials),
    ReadLockfile,
}

/// Looks for credentials on the client process's command line (where the
/// platform has one); the lockfile is to be read only when none are found.
pub fn discovery_from_process(process_output: Option<&str>) -> (r: DiscoveryStep)
    ensures
        r matches DiscoveryStep::Found(c) ==> process_credentials(
            match process_output {
                Some(o) => Some(o@),
                None => None,
            },
        ) == Some(c@),
        (r is ReadLockfile) == (process_credentials(
            match process_output {
                Some(o) => Some(o@),
                None => None,
            },
        ) is None),
{
    if let Some(out) = process_output {
        if let Some(c) = credentials_from_command_line(out) {
            return DiscoveryStep::Found(c);
        }
    }
    DiscoveryStep::ReadLockfile
}

/// Discovers LCU credentials: the client process's command line first (the
/// caller passes it where the platform has one), then the lockfile text.
pub fn discover_credentials(process_output: Option<&str>, lockfile: Option<&str>) -> (r: Option<LcuCredentials>)
    ensures
        credentials_view(r) == discovered_credentials(
            match process_output {
                Some(o) => Some(o@),
                None => None,
            },
            match lockfile {
                Some(l) => Some(l@),
                None => None,
            },
        ),
{
    if let Some(out) = process_output {
        let found = credentials_from_command_line(out);
        if found.is_some() {
            return found;
        }
    }
    match lockfile {
        Some(content) => parse_lockfile(content),
        None => None,
    }
}


/// The text of a lockfile that names the client `name`, its process `pid`,
/// the `port` and the `password`.
pub open spec fn lockfile_text(name: Seq<char>, pid: Seq<char>, port: u16, password: Seq<char>) -> Seq<char> {
    name.push(':') + (pid.push(':') + (decimal_digits(port as nat).push(':') + password))
}

/// Law: the lockfile that the client writes is read back as its port and
/// password, whenever no field holds a `:`, and the text neither starts nor
/// ends with white space.
pub proof fn law_lockfile_round_trip(name: Seq<char>, pid: Seq<char>, port: u16, password: Seq<char>)
    requires
        !name.contains(':'),
        !pid.contains(':'),
        !password.contains(':'),
        name.len() > 0 ==> !is_white_space(name[0]),
        password.len() > 0 ==> !is_white_space(password.last()),
    ensures
        lockfile_credentials(lockfile_text(name, pid, port, password)) == Some(
            CredentialsView { port, password },
        ),
{
    let digits = decimal_digits(port as nat);
    let content = lockfile_text(name, pid, port, password);
    law_u16_decimal_round_trip(port);
    crate::number::lemma_decimal_digits_no_colon(port as nat);
    // trimming leaves the text alone
    assert(content[0] == (if name.len() > 0 { name[0] } else { ':' }));
    assert(trim_start(content) == content);
    assert(content.last() == (if password.len() > 0 { password.last() } else { ':' }));
    assert(trim_end(content) == content);
    // splitting at ':'
    crate::text::lemma_split_on_without_sep(name, ':');
    crate::text::lemma_split_on_without_sep(pid, ':');
    crate::text::lemma_split_on_without_sep(digits, ':');
    crate::text::lemma_split_on_without_sep(password, ':');
    crate::text::lemma_split_on_join(digits, password, ':');
    crate::text::lemma_split_on_join(pid, digits.push(':') + password, ':');
    crate::text::lemma_split_on_join(name, pid.push(':') + (digits.push(':') + password), ':');
    let parts = split_on(content, ':');
    assert(parts =~= seq![name, pid, digits, password]);
}

} // verus!
