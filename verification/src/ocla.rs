//! The `ocla` subcommand: what a parsed command line asks for.
//!
//! A command line reaches the handler as the chain of subcommand names that
//! the parser matched, outermost first. Nested `ocla` levels are passed
//! through; `status`, or no further subcommand, asks for the status report.

use vstd::prelude::*;
use crate::text::{chars_of, push_chars, str_eq, string_from_chars};

verus! {

/// What an `ocla` command line asks for.
#[derive(Debug, Clone, Copy, PartialEq, Eq, Structural)]
pub enum OclaCommand {
    /// Print the trait registry, the event bus and the ledger coverage.
    Status,
}

/// Why an `ocla` command line is refused.
#[derive(Debug, Clone, PartialEq, Eq)]
pub enum OclaError {
    /// A subcommand other than `status`.
    UnknownSubcommand(String),
}

/// The first subcommand name that is neither a nested `ocla` nor `status`,
/// when it comes before any `status`.
pub open spec fn unknown_subcommand(names: Seq<Seq<char>>) -> Option<Seq<char>>
    decreases names.len(),
{
    if names.len() == 0 {
        None
    } else if names[0] == "ocla"@ {
        unknown_subcommand(names.drop_first())
    } else if names[0] == "status"@ {
        None
    } else {
        Some(names[0])
    }
}

/// The views of a list of strings.
pub open spec fn views(names: Seq<String>) -> Seq<Seq<char>> {
    names.map_values(|s: String| s@)
}

impl OclaError {
    /// The error's message: `unknown ocla subcommand: ` and the name.
    pub fn message(&self) -> (r: String)
        ensures
            self matches OclaError::UnknownSubcommand(n) ==> r@ == "unknown ocla subcommand: "@ + n@,
    {
        match self {
            OclaError::UnknownSubcommand(n) => {
                let mut out = chars_of("unknown ocla subcommand: ");
                let name = chars_of(n.as_str());
                push_chars(&mut out, name.as_slice());
                string_from_chars(out.as_slice())
            },
        }
    }
}

/// Decides an `ocla` command line from its chain of subcommand names.
pub fn handle(subcommands: &[String]) -> (r: Result<OclaCommand, OclaError>)
    ensures
        unknown_subcommand(views(subcommands@)) is None ==> r == Ok::<OclaCommand, OclaError>(
            OclaCommand::Status,
        ),
        unknown_subcommand(views(subcommands@)) matches Some(n) ==> (r matches Err(
            OclaError::UnknownSubcommand(m),
        ) && m@ == n),
{
    let ghost all = views(subcommands@);
    let mut i: usize = 0;
    assert(all.skip(0) =~= all);
    while i < subcommands.len()
        invariant
            i <= subcommands.len(),
            all == views(subcommands@),
            unknown_subcommand(all) == unknown_subcommand(all.skip(i as int)),
        decreases subcommands.len() - i,
    {
        let ghost rest = all.skip(i as int);
        assert(rest[0] == subcommands@[i as int]@);
        if str_eq(subcommands[i].as_str(), "ocla") {
            assert(rest.drop_first() =~= all.skip(i + 1));
            i = i + 1;
        } else if str_eq(subcommands[i].as_str(), "status") {
            return Ok(OclaCommand::Status);
        } else {
            return Err(OclaError::UnknownSubcommand(subcommands[i].clone()));
        }
    }
    assert(all.skip(i as int).len() == 0);
    Ok(OclaCommand::Status)
}

} // verus!
