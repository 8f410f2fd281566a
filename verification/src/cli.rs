//! The arguments of the command line program.
use vstd::prelude::*;

verus! {

/// The arguments of the command line: the script to run, or none for the interactive
/// prompt
#[derive(Debug, Clone)]
pub struct Cli {
    /// The path to the script file to use
    pub file: Option<String>,
}

impl Cli {
    /// Whether the program runs a script rather than the interactive prompt.
    pub fn runs_script(&self) -> (r: bool)
        ensures
            r == self.file is Some,
    {
        self.file.is_some()
    }
}

/// Whether a line at the prompt is evaluated as one expression: when the expression
/// reaches the end of the line and is not a lone string, which may be an implicit
/// string; otherwise the line is read as statements.
pub fn prompt_takes_expression(reaches_end: bool, lone_string: bool) -> (r: bool)
    ensures
        r == (reaches_end && !lone_string),
{
    reaches_end && !lone_string
}

/// How many of the values that a line at the prompt gave are shown: those up to the
/// last one that is not `undefined` (`undefined[j]` says whether value `j` is).
pub fn shown_results(undefined: &[bool]) -> (r: usize)
    ensures
        r <= undefined@.len(),
        forall|j: int| r <= j < undefined@.len() ==> undefined@[j],
        r > 0 ==> !undefined@[r - 1],
{
    let mut r = undefined.len();
    while r > 0 && undefined[r - 1]
        invariant
            r <= undefined@.len(),
            forall|j: int| r <= j < undefined@.len() ==> undefined@[j],
        decreases r,
    {
        r = r - 1;
    }
    r
}

} // verus!
