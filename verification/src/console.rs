//! The grammar of the console commands: a command word, an address and a
//! port, as clap reads them from the pieces of a line.

use crate::text::{split_line, split_whitespace, strings_view};
use crate::validator::{is_val, parse_u16, parses_as_u16, u16_value};
use clap::{App, AppSettings, Arg, SubCommand};
use vstd::prelude::*;
use vstd::string::StringExecFns;

verus! {

/// What clap made of the pieces of a line: the values of the two arguments of
/// the command, where the command was given; nothing, where the line was
/// accepted without it; or the message with which clap refused the line.
pub type Matched = Result<Option<(Option<String>, Option<String>)>, String>;

/// Mathematical value of a [`Matched`].
pub type MatchedView = Result<Option<(Option<Seq<char>>, Option<Seq<char>>)>, Seq<char>>;

/// The view of an optional string.
pub open spec fn optional_view(text: Option<String>) -> Option<Seq<char>> {
    match text {
        Some(t) => Some(t@),
        None => None,
    }
}

/// The view of what clap made of a line.
pub open spec fn matched_view(matched: Matched) -> MatchedView {
    match matched {
        Ok(Some((first, second))) => Ok(Some((optional_view(first), optional_view(second)))),
        Ok(None) => Ok(None),
        Err(message) => Err(message@),
    }
}

/// What clap's parser makes of the arguments `args`, when the parser is the
/// application `program` with the settings `NoBinaryName`, `DisableVersion`
/// and `VersionlessSubcommands` and with one subcommand, `command`, described
/// by `about`. The subcommand has two positional arguments, both required:
/// `first` at index 1, with the help text `first_help`, and `second` at index
/// 2, with the help text `second_help` and [`is_val`] as its validator.
pub uninterp spec fn clap_command(
    program: Seq<char>,
    command: Seq<char>,
    about: Seq<char>,
    first: Seq<char>,
    first_help: Seq<char>,
    second: Seq<char>,
    second_help: Seq<char>,
    args: Seq<Seq<char>>,
) -> MatchedView;

/// `clap::App::get_matches_from_safe`, on the application that
/// [`clap_command`] describes, built with `App::new`, `App::settings`,
/// `SubCommand::with_name`, `App::about`, `Arg::with_name`, `Arg::help`,
/// `Arg::index`, `Arg::required` and `Arg::validator`. Where clap accepts the
/// arguments, the result holds what `ArgMatches::subcommand_matches` and
/// `ArgMatches::value_of` give for the command and its two arguments; where it
/// refuses them, the `message` of its error. Built without the `color`
/// feature and without a version flag, clap reads nothing but the arguments
/// and writes nowhere, so it makes the same of the same arguments every
/// time. The texts are the ones of the two console commands, and no others.
#[verifier::external_body]
pub(crate) fn match_command(
    program: &str,
    command: &str,
    about: &str,
    first: &str,
    first_help: &str,
    second: &str,
    second_help: &str,
    args: &Vec<String>,
) -> (matched: Matched)
    requires
        program@ == "s3tunnel"@,
        command@ == "server"@ || command@ == "connect"@,
        about@ == "Connect to the address."@,
        first@ == "ip"@,
        first_help@ == "ip address to connect to"@,
        second@ == "port"@,
        second_help@ == "port to listen on this machine"@,
    ensures
        matched_view(matched) == clap_command(
            program@,
            command@,
            about@,
            first@,
            first_help@,
            second@,
            second_help@,
            strings_view(args@),
        ),
{
    let address = Arg::with_name(first).help(first_help).index(1).required(true);
    let port = Arg::with_name(second).help(second_help).index(2).required(true).validator(is_val);
    let quiet = [AppSettings::NoBinaryName, AppSettings::DisableVersion, AppSettings::VersionlessSubcommands];
    let sub = SubCommand::with_name(command).about(about).arg(address).arg(port);
    match App::new(program).settings(&quiet).subcommand(sub).get_matches_from_safe(args) {
        Ok(m) => Ok(m.subcommand_matches(command).map(|sub| (
            sub.value_of(first).map(str::to_owned),
            sub.value_of(second).map(str::to_owned),
        ))),
        Err(e) => Err(e.message),
    }
}

/// What clap makes of a line of a console whose one command is `command`,
/// with an address and a port: the line is split at white space and handed
/// to the parser that [`clap_command`] describes.
pub open spec fn command_match(command: Seq<char>, line: Seq<char>) -> MatchedView {
    clap_command(
        "s3tunnel"@,
        command,
        "Connect to the address."@,
        "ip"@,
        "ip address to connect to"@,
        "port"@,
        "port to listen on this machine"@,
        split_whitespace(line),
    )
}

/// Reads a line of a console whose one command is `command`: `server` on the
/// master's console, `connect` on the server's.
pub(crate) fn read_command(command: &str, line: &str) -> (matched: Matched)
    requires
        command@ == "server"@ || command@ == "connect"@,
    ensures
        matched_view(matched) == command_match(command@, line@),
{
    let args = split_line(line);
    match_command(
        "s3tunnel",
        command,
        "Connect to the address.",
        "ip",
        "ip address to connect to",
        "port",
        "port to listen on this machine",
        &args,
    )
}

/// The target that a line asks for, from what clap made of it: the address
/// and the port where the command was given with both and the port is a port
/// number; otherwise an error text. A line without the command is an unknown
/// command. Where clap refused the line the text is clap's message, with a
/// line end behind it if `line_end` is set.
pub open spec fn target_of(matched: MatchedView, line_end: bool) -> Result<
    (Seq<char>, nat),
    Seq<char>,
> {
    match matched {
        Ok(Some((Some(address), Some(port)))) => if parses_as_u16(port) {
            Ok((address, u16_value(port)))
        } else {
            Err("Cannot parse "@ + port)
        },
        Ok(_) => Err("Unknown command"@),
        Err(message) => Err(
            if line_end {
                message + "\n"@
            } else {
                message
            },
        ),
    }
}

/// The view of a target or an error text.
pub open spec fn target_view(target: Result<(String, u16), String>) -> Result<
    (Seq<char>, nat),
    Seq<char>,
> {
    match target {
        Ok((address, port)) => Ok((address@, port as nat)),
        Err(message) => Err(message@),
    }
}

/// Reads the target that a line asks for from what clap made of the line.
pub fn read_target(matched: Matched, line_end: bool) -> (target: Result<(String, u16), String>)
    ensures
        target_view(target) == target_of(matched_view(matched), line_end),
{
    match matched {
        Ok(Some((Some(address), Some(port)))) => {
            match parse_u16(port.as_str()) {
                Some(number) => Ok((address, number)),
                None => {
                    let mut message = String::from_str("Cannot parse ");
                    message.append(port.as_str());
                    Err(message)
                },
            }
        },
        Ok(_) => Err(String::from_str("Unknown command")),
        Err(message) => {
            if line_end {
                let mut text = message;
                text.append("\n");
                Err(text)
            } else {
                Err(message)
            }
        },
    }
}

} // verus!
