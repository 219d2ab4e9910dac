use vstd::prelude::*;

verus! {

/// Why a template and its bound arguments could not be rendered.
#[derive(Debug, Clone, Copy, PartialEq, Eq)]
pub enum BindError {
    /// A `?` was reached and no bound argument was left for it.
    MissingArgument,
    /// The template ended and bound arguments were left over.
    UnusedArguments,
    /// A `?fields` was reached and no column list was bound.
    UnboundFields,
    /// An identifier argument holds a character that no object name may hold.
    InvalidIdentifier,
}

/// Why a request could not be put together from the client's configuration.
#[derive(Debug, Clone, Copy, PartialEq, Eq)]
pub enum ConfigError {
    /// The base URL does not parse.
    Url,
    /// The URL would grow past what a URL can hold.
    UrlTooLong,
    /// The finished URL is no request target.
    Uri,
    /// The user name is no header value.
    UserHeader,
    /// The password is no header value.
    PasswordHeader,
}

/// Why a byte stream is not a sequence of rows.
#[derive(Debug, Clone, Copy, PartialEq, Eq)]
pub enum DecodeError {
    /// The stream ended inside a row.
    Truncated,
    /// A byte that must be 0 or 1 is neither.
    InvalidDiscriminant,
    /// A length prefix does not end, or does not fit in 64 bits.
    MalformedLength,
}

/// Every failure that the library reports.
#[derive(Debug, Clone, PartialEq, Eq)]
pub enum Error {
    /// The configuration gives no valid request; nothing was sent.
    Config(ConfigError),
    /// The query text could not be rendered; nothing was sent.
    Bind(BindError),
    /// The server answered with a status that is no success; the text is its reason.
    BadResponse(String),
    /// One row was asked for and the result is empty.
    RowNotFound,
    /// The response body is malformed.
    Decode(DecodeError),
}

} // verus!
