//! What a connection does with each line it reads.
use vstd::prelude::*;
use vstd::string::*;
use crate::text::{lower_of, lowercase, same_text, trim, trimmed};

verus! {

/// What to do with one line read from a client.
#[derive(Debug, PartialEq, Eq)]
pub enum LineKind {
    /// A blank line: read the next one.
    Skip,
    /// `quit` or `exit`: answer `BYE` and close the connection.
    Quit,
    /// A statement to execute, without surrounding white space.
    Execute(String),
}

/// Whether a line asks to close the connection, given its lower-case form.
pub open spec fn is_quit(lower: Seq<char>) -> bool {
    lower == "quit"@ || lower == "exit"@
}

/// Classifies a line, given it without surrounding white space and the
/// lower-case form of that.
pub fn classify_trimmed(line: &str, lower: &str) -> (r: LineKind)
    ensures
        line@.len() == 0 ==> r is Skip,
        line@.len() > 0 && is_quit(lower@) ==> r is Quit,
        line@.len() > 0 && !is_quit(lower@) ==> (r matches LineKind::Execute(s) && s@ == line@),
{
    if line.is_empty() {
        LineKind::Skip
    } else if same_text(lower, "quit") || same_text(lower, "exit") {
        LineKind::Quit
    } else {
        LineKind::Execute(line.to_owned())
    }
}

/// Classifies one line read from a client: blank lines are skipped, `quit`
/// and `exit` in any case close the connection, and anything else is a
/// statement to execute.
pub fn classify_line(line: &str) -> (r: LineKind)
    ensures
        trimmed(line@).len() == 0 ==> r is Skip,
        trimmed(line@).len() > 0 && is_quit(lower_of(trimmed(line@))) ==> r is Quit,
        trimmed(line@).len() > 0 && !is_quit(lower_of(trimmed(line@)))
            ==> (r matches LineKind::Execute(s) && s@ == trimmed(line@)),
{
    let t = trim(line);
    let lower = lowercase(t);
    classify_trimmed(t, lower.as_str())
}

} // verus!
