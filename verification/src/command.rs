//! The command line.

use vstd::prelude::*;

use crate::text;

verus! {

/// What the program is asked to do.
#[derive(Debug)]
pub enum Command {
    /// Show the timelines.
    Timelines,
    /// Log in at this host.
    Login(String),
    /// Show how the program is used.
    Help,
}

/// Why a command line asks for nothing.
#[derive(Debug)]
pub enum CommandError {
    /// `login` without a host.
    MissingHost,
    /// A command that there is not.
    Unknown(String),
}

/// The argument at `i`.
pub open spec fn arg(args: Seq<String>, i: int) -> Seq<char> {
    args[i]@
}

/// Reads the arguments behind the program's name. Those behind the ones that a
/// command takes are ignored.
pub fn parse(args: &Vec<String>) -> (out: Result<Command, CommandError>)
    ensures
        ({
            let n = args@.len();
            let first = arg(args@, 0);
            if n == 0 {
                out matches Ok(Command::Timelines)
            } else if first == "login"@ {
                if n >= 2 {
                    out matches Ok(Command::Login(host)) && host@ == arg(args@, 1)
                } else {
                    out matches Err(CommandError::MissingHost)
                }
            } else if first == "-h"@ || first == "--help"@ {
                out matches Ok(Command::Help)
            } else {
                out matches Err(CommandError::Unknown(other)) && other@ == first
            }
        }),
{
    if args.len() == 0 {
        return Ok(Command::Timelines);
    }
    let first: &String = &args[0];
    if *first == "login".to_owned() {
        if args.len() >= 2 {
            Ok(Command::Login(args[1].clone()))
        } else {
            Err(CommandError::MissingHost)
        }
    } else if *first == "-h".to_owned() || *first == "--help".to_owned() {
        Ok(Command::Help)
    } else {
        Err(CommandError::Unknown(first.clone()))
    }
}

/// What the user is told of a refused command line.
pub open spec fn error_text(error: CommandError) -> Seq<char> {
    match error {
        CommandError::MissingHost => "usage: notetui login <HOST>  (e.g. misskey.io)"@,
        CommandError::Unknown(other) => "unknown command: "@ + other@
            + " (try `notetui login <HOST>`)"@,
    }
}

impl CommandError {
    /// What the user is told.
    pub fn message(&self) -> (out: String)
        ensures
            out@ == error_text(*self),
    {
        match self {
            CommandError::MissingHost => {
                "usage: notetui login <HOST>  (e.g. misskey.io)".to_owned()
            },
            CommandError::Unknown(other) => {
                let mut out: String = "unknown command: ".to_owned();
                out.append(other.as_str());
                out.append(" (try `notetui login <HOST>`)");
                out
            },
        }
    }
}

/// The host that the user typed at the prompt, without the white space around it;
/// `None` where there is nothing else.
pub fn prompted_host(line: &str) -> (host: Option<String>)
    ensures
        match host {
            Some(h) => h@ == text::trimmed(line@) && h@.len() > 0,
            None => text::trimmed(line@).len() == 0,
        },
{
    let host: String = text::trim(line);
    if host.as_str().is_empty() {
        None
    } else {
        Some(host)
    }
}

/// A refused command line is answered with how to log in; an unknown command is named.
pub proof fn law_error_texts(args: Seq<String>, other: String)
    ensures
        args.len() > 0 ==> arg(args, 0) == args[0]@,
        args.len() > 1 ==> arg(args, 1) == args[1]@,
        error_text(CommandError::MissingHost) == "usage: notetui login <HOST>  (e.g. misskey.io)"@,
        ({
            let told = error_text(CommandError::Unknown(other));
            let start = "unknown command: "@;
            let end = " (try `notetui login <HOST>`)"@;
            &&& told.len() == start.len() + other@.len() + end.len()
            &&& told.take(start.len() as int) == start
            &&& told.subrange(start.len() as int, (start.len() + other@.len()) as int) == other@
            &&& told.skip((start.len() + other@.len()) as int) == end
        }),
{
    let told = error_text(CommandError::Unknown(other));
    let start = "unknown command: "@;
    let end = " (try `notetui login <HOST>`)"@;
    assert(told.take(start.len() as int) =~= start);
    assert(told.subrange(start.len() as int, (start.len() + other@.len()) as int) =~= other@);
    assert(told.skip((start.len() + other@.len()) as int) =~= end);
}

} // verus!
