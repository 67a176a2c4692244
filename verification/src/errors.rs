use vstd::prelude::*;

verus! {

/// A static error found while reading program text: malformed syntax,
/// reported with the best available location context.
#[derive(Debug)]
pub struct SyntaxError {
    pub line: Option<usize>,
    pub msg: String,
    pub file: Option<String>,
}

impl SyntaxError {
    /// An error at a known line, optionally tied to a file name.
    pub fn new(l: usize, m: String, f: Option<String>) -> (e: Self)
        ensures
            e.line == Some(l),
            e.msg@ == m@,
            e.file == f,
    {
        SyntaxError { line: Some(l), msg: m, file: f }
    }

    /// A location-less error: only a message.
    pub fn lnew(m: &str) -> (e: Self)
        ensures
            e.line is None,
            e.msg@ == m@,
            e.file is None,
    {
        SyntaxError { line: None, msg: m.to_owned(), file: None }
    }
}

} // verus!
