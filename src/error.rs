//! What can go wrong around the index: no lines to index, or a failed read.
use vstd::prelude::*;

verus! {

#[verifier::external_type_specification]
#[verifier::external_body]
pub struct ExIoError(std::io::Error);

/// The errors of the tool around the index. Building the index itself
/// never fails.
#[derive(Debug)]
pub enum KwicError {
    /// The input held no line.
    EmptyInput,
    /// Reading or writing a file failed.
    IoError(std::io::Error),
}

/// Relies on `std::io::Error`'s `Display`: its text.
#[verifier::external_body]
fn io_error_text(e: &std::io::Error) -> String {
    e.to_string()
}

impl KwicError {
    /// The text that describes the error.
    pub fn message(&self) -> (r: String)
        ensures
            self is EmptyInput ==> r@ == "Input text is empty"@,
            self is IoError ==> "IO error: "@.is_prefix_of(r@),
    {
        match self {
            KwicError::EmptyInput => String::from_str("Input text is empty"),
            KwicError::IoError(e) => {
                let prefix = String::from_str("IO error: ");
                let text = io_error_text(e);
                let r = prefix.concat(text.as_str());
                assert(r@.subrange(0, "IO error: "@.len() as int) =~= "IO error: "@);
                r
            },
        }
    }
}

impl From<std::io::Error> for KwicError {
    fn from(err: std::io::Error) -> (r: Self)
        ensures
            r == KwicError::IoError(err),
    {
        KwicError::IoError(err)
    }
}

impl vstd::std_specs::convert::FromSpecImpl<std::io::Error> for KwicError {
    open spec fn obeys_from_spec() -> bool {
        true
    }

    open spec fn from_spec(v: std::io::Error) -> Self {
        KwicError::IoError(v)
    }
}

/// Accepts the lines read from the input when there is at least one.
pub fn nonempty_lines(lines: Vec<String>) -> (r: Result<Vec<String>, KwicError>)
    ensures
        lines@.len() == 0 <==> r is Err,
        r matches Ok(v) ==> v@ == lines@,
        r matches Err(e) ==> e is EmptyInput,
{
    if lines.len() == 0 {
        Err(KwicError::EmptyInput)
    } else {
        Ok(lines)
    }
}

} // verus!
