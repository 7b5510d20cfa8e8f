//! The errors of the library.
use vstd::prelude::*;

verus! {

/// Why an operation of the library failed.
#[derive(Debug)]
pub enum PassageError {
    /// The pattern does not compile as a regular expression.
    RegexCompile(String),
    /// The line with this number does not match the regular expression.
    NoMatch(usize),
    /// The match on the line with this number has no value group.
    NoValueGroup(usize),
    /// The YAML index has no block of this name.
    MissingBlock(String),
    /// The block has no field of this key.
    MissingField(String),
    /// The server list has no entry at this position.
    MissingEntry(usize),
    /// The bytes hold sequences that the named encoding cannot decode.
    InvalidEncoding(String),
    /// The text holds no `wget ... http(s)://...` download command.
    NoUrls,
    /// The configuration is not JSON.
    JsonParse,
    /// The JSON configuration has no usable value at this pointer.
    JsonField(String),
    /// The server address is not of the form `server:port`.
    BadServerFormat(String),
    /// The port of the server address is not a 16-bit number.
    PortParse,
}

/// The abstract value of a [`PassageError`].
pub enum PassageErrorView {
    RegexCompile(Seq<char>),
    NoMatch(nat),
    NoValueGroup(nat),
    MissingBlock(Seq<char>),
    MissingField(Seq<char>),
    MissingEntry(nat),
    InvalidEncoding(Seq<char>),
    NoUrls,
    JsonParse,
    JsonField(Seq<char>),
    BadServerFormat(Seq<char>),
    PortParse,
}

impl View for PassageError {
    type V = PassageErrorView;

    open spec fn view(&self) -> PassageErrorView {
        match self {
            PassageError::RegexCompile(s) => PassageErrorView::RegexCompile(s@),
            PassageError::NoMatch(n) => PassageErrorView::NoMatch(*n as nat),
            PassageError::NoValueGroup(n) => PassageErrorView::NoValueGroup(*n as nat),
            PassageError::MissingBlock(s) => PassageErrorView::MissingBlock(s@),
            PassageError::MissingField(s) => PassageErrorView::MissingField(s@),
            PassageError::MissingEntry(n) => PassageErrorView::MissingEntry(*n as nat),
            PassageError::InvalidEncoding(s) => PassageErrorView::InvalidEncoding(s@),
            PassageError::NoUrls => PassageErrorView::NoUrls,
            PassageError::JsonParse => PassageErrorView::JsonParse,
            PassageError::JsonField(s) => PassageErrorView::JsonField(s@),
            PassageError::BadServerFormat(s) => PassageErrorView::BadServerFormat(s@),
            PassageError::PortParse => PassageErrorView::PortParse,
        }
    }
}

/// The abstract value of an outcome.
pub open spec fn result_view<T>(r: Result<T, PassageError>) -> Result<T, PassageErrorView> {
    match r {
        Ok(t) => Ok(t),
        Err(e) => Err(e@),
    }
}

} // verus!
