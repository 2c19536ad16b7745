//! Errors of the fetching and presenting stages.

use vstd::prelude::*;
use crate::link::contains_seq;

verus! {

/// `std::io::Error`, carried unopened by `CommandError`.
#[verifier::external_type_specification]
#[verifier::external_body]
pub struct ExIoError(std::io::Error);

/// No character of `s` is the escape that starts a terminal colour code.
pub open spec fn plain_text(s: Seq<char>) -> bool {
    forall|i: int| 0 <= i < s.len() ==> s[i] != '\u{1b}'
}

/// Relies on colored's `Colorize::red` and on the `Display` of the
/// `ColoredString` it makes: the text as it is or, where the environment asks
/// for colour, between a colour code and a reset code. Text without an escape
/// character is kept whole either way.
#[verifier::external_body]
fn red(label: &str) -> (r: String)
    requires
        plain_text(label@),
    ensures
        contains_seq(r@, label@),
{
    colored::Colorize::red(label).to_string()
}

/// An error message: the label, in red where the terminal shows colour,
/// then `: ` and the details.
pub fn labelled(label: &str, details: &str) -> (r: String)
    requires
        plain_text(label@),
    ensures
        exists|p: Seq<char>| contains_seq(p, label@) && r@ == p + ": "@ + details@,
{
    let mut r = red(label);
    let ghost p = r@;
    r.append(": ");
    r.append(details);
    assert(r@ == p + ": "@ + details@);
    r
}

/// A page could not be fetched.
pub enum BrowseError {
    Browser(String),
}

impl BrowseError {
    /// The message shown for this error.
    pub fn print(&self) -> (r: String)
        ensures
            match self {
                BrowseError::Browser(e) => exists|p: Seq<char>| contains_seq(p, "Browser error"@) && r@ == p + ": "@ + e@,
            },
    {
        proof {
            reveal_strlit("Browser error");
        }
        match self {
            BrowseError::Browser(e) => labelled("Browser error", e.as_str()),
        }
    }
}

/// A page could not be fetched.
pub enum ScrapyError {
    Browser(String),
}

impl ScrapyError {
    /// The message shown for this error.
    pub fn print(&self) -> (r: String)
        ensures
            match self {
                ScrapyError::Browser(e) => exists|p: Seq<char>| contains_seq(p, "Browser error"@) && r@ == p + ": "@ + e@,
            },
    {
        proof {
            reveal_strlit("Browser error");
        }
        match self {
            ScrapyError::Browser(e) => labelled("Browser error", e.as_str()),
        }
    }
}

/// The output could not be shown or saved.
pub enum CommandError {
    Graph,
    IO(std::io::Error),
}

} // verus!
