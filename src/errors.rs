//! The error type of parsing and typed conversion.
use vstd::prelude::*;

verus! {

/// Why the text could not be read as a tree of blocks.
#[derive(Debug, Clone, Copy, PartialEq, Eq, Structural)]
pub enum ParseErrorKind {
    /// The text ended inside a block or between a key and its value.
    UnexpectedEnd,
    /// A quoted string was opened and never closed.
    UnterminatedString,
    /// A character that cannot start the expected token.
    UnexpectedChar,
    /// A closing brace with no open block.
    UnbalancedClose,
}

/// A structural failure, with the character offset where it was found.
#[derive(Debug, Clone, Copy, PartialEq, Eq, Structural)]
pub struct ParseError {
    pub position: usize,
    pub kind: ParseErrorKind,
}

/// The text of a value that failed to read as a number.
#[derive(Debug, Clone, PartialEq, Eq)]
pub struct NumberError {
    pub text: String,
}

/// Represents an error that occurred during VMF parsing or processing.
#[derive(Debug, Clone, PartialEq, Eq)]
pub enum VmfError {
    /// An I/O error occurred, with its description.
    Io(String),
    /// The text does not have the block structure of the format.
    Parse(ParseError),
    /// The VMF structure or content is invalid or unexpected.
    InvalidFormat(String),
    /// An integer value for a specific key failed to parse.
    ParseInt { key: String, source: NumberError },
    /// A float value for a specific key failed to parse.
    ParseFloat { key: String, source: NumberError },
}

/// The content of a `VmfError`, with its texts as character sequences.
pub enum ErrorView {
    Io(Seq<char>),
    Parse(ParseError),
    InvalidFormat(Seq<char>),
    ParseInt { key: Seq<char>, text: Seq<char> },
    ParseFloat { key: Seq<char>, text: Seq<char> },
}

impl View for VmfError {
    type V = ErrorView;

    open spec fn view(&self) -> ErrorView {
        match self {
            VmfError::Io(m) => ErrorView::Io(m@),
            VmfError::Parse(p) => ErrorView::Parse(*p),
            VmfError::InvalidFormat(m) => ErrorView::InvalidFormat(m@),
            VmfError::ParseInt { key, source } => ErrorView::ParseInt {
                key: key@,
                text: source.text@,
            },
            VmfError::ParseFloat { key, source } => ErrorView::ParseFloat {
                key: key@,
                text: source.text@,
            },
        }
    }
}

/// The message of a missing key.
pub open spec fn missing_key_message(key: Seq<char>) -> Seq<char> {
    "'"@ + key + "' key not found"@
}

/// The error of a required key that is absent.
pub open spec fn missing_key(key: Seq<char>) -> ErrorView {
    ErrorView::InvalidFormat(missing_key_message(key))
}

/// Builds the error of a required key that is absent.
pub fn missing_key_error(key: &str) -> (e: VmfError)
    ensures
        e@ == missing_key(key@),
{
    let mut m = "'".to_string();
    m.push_str(key);
    m.push_str("' key not found");
    VmfError::InvalidFormat(m)
}

/// Builds the error of a value that is no integer of the expected type.
pub fn int_error(key: &str, text: &str) -> (e: VmfError)
    ensures
        e@ == (ErrorView::ParseInt { key: key@, text: text@ }),
{
    VmfError::ParseInt { key: key.to_string(), source: NumberError { text: text.to_string() } }
}

/// Builds the error of a value that is no decimal float.
pub fn float_error(key: &str, text: &str) -> (e: VmfError)
    ensures
        e@ == (ErrorView::ParseFloat { key: key@, text: text@ }),
{
    VmfError::ParseFloat { key: key.to_string(), source: NumberError { text: text.to_string() } }
}

/// A type alias for `Result` that uses `VmfError` as the error type.
pub type VmfResult<T> = Result<T, VmfError>;

} // verus!

verus! {

/// A result with its error seen through the error's view.
pub open spec fn res_view<T>(r: Result<T, VmfError>) -> Result<T, ErrorView> {
    match r {
        Ok(v) => Ok(v),
        Err(e) => Err(e@),
    }
}

} // verus!
