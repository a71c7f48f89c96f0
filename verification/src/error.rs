//! The errors of an exchange.

use vstd::prelude::*;

verus! {

/// The four families of failure.
#[derive(Clone, Copy, Debug, PartialEq, Eq, Structural)]
pub enum ErrorKind {
    /// The request cannot be put on the wire.
    Format,
    /// The response does not follow the wire format.
    Parse,
    /// The response asks for something this client does not do.
    UnsupportedFeature,
    /// The connection cannot be made, or the stream failed or ended too early.
    Transport,
}

/// Why an exchange failed.
#[derive(Clone, Copy, Debug, PartialEq, Eq, Structural)]
pub enum HttpError {
    /// A request header value holds a byte that is neither visible ASCII nor a tab.
    HeaderValueNotText,
    /// The status line has fewer than two words.
    MalformedStatusLine,
    /// The first word of the status line names no supported protocol version.
    UnsupportedVersion,
    /// The second word of the status line is no decimal number from 100 to 599.
    InvalidStatusCode,
    /// The name of a response header is empty, too long or holds a forbidden character.
    InvalidHeaderName,
    /// The value of a response header holds a control character.
    InvalidHeaderValue,
    /// The header collection refused another field.
    TooManyHeaders,
    /// The value of `content-length` is no unsigned decimal number.
    InvalidContentLength,
    /// A chunk-size line is no unsigned hexadecimal number.
    InvalidChunkSize,
    /// The data of a chunk is not followed by CR LF.
    InvalidChunkedEncoding,
    /// The value of `transfer-encoding` is not `chunked`.
    UnsupportedTransferEncoding,
    /// The stream ended before the bytes asked for had arrived.
    UnexpectedEof,
    /// A line of the stream is not UTF-8.
    InvalidUtf8,
    /// The request URI names no host.
    MissingAuthority,
    /// The request URI has no scheme.
    MissingScheme,
    /// The scheme is none of `http`, `https`, `ws`, `wss`, or the port is 0.
    UnsupportedScheme,
}

impl HttpError {
    /// The family of this error.
    pub open spec fn spec_kind(self) -> ErrorKind {
        match self {
            HttpError::HeaderValueNotText => ErrorKind::Format,
            HttpError::MalformedStatusLine
            | HttpError::UnsupportedVersion
            | HttpError::InvalidStatusCode
            | HttpError::InvalidHeaderName
            | HttpError::InvalidHeaderValue
            | HttpError::TooManyHeaders
            | HttpError::InvalidContentLength
            | HttpError::InvalidChunkSize
            | HttpError::InvalidChunkedEncoding => ErrorKind::Parse,
            HttpError::UnsupportedTransferEncoding => ErrorKind::UnsupportedFeature,
            HttpError::UnexpectedEof
            | HttpError::InvalidUtf8
            | HttpError::MissingAuthority
            | HttpError::MissingScheme
            | HttpError::UnsupportedScheme => ErrorKind::Transport,
        }
    }

    /// The family of this error.
    #[verifier::when_used_as_spec(spec_kind)]
    pub fn kind(self) -> (k: ErrorKind)
        ensures
            k == self.spec_kind(),
    {
        match self {
            HttpError::HeaderValueNotText => ErrorKind::Format,
            HttpError::MalformedStatusLine
            | HttpError::UnsupportedVersion
            | HttpError::InvalidStatusCode
            | HttpError::InvalidHeaderName
            | HttpError::InvalidHeaderValue
            | HttpError::TooManyHeaders
            | HttpError::InvalidContentLength
            | HttpError::InvalidChunkSize
            | HttpError::InvalidChunkedEncoding => ErrorKind::Parse,
            HttpError::UnsupportedTransferEncoding => ErrorKind::UnsupportedFeature,
            HttpError::UnexpectedEof
            | HttpError::InvalidUtf8
            | HttpError::MissingAuthority
            | HttpError::MissingScheme
            | HttpError::UnsupportedScheme => ErrorKind::Transport,
        }
    }

    /// A short description of this error.
    pub fn message(self) -> (text: &'static str)
        ensures
            text@ == self.spec_message(),
    {
        match self {
            HttpError::HeaderValueNotText => "header value is not visible ASCII",
            HttpError::MalformedStatusLine => "malformed status line",
            HttpError::UnsupportedVersion => "unsupported version",
            HttpError::InvalidStatusCode => "invalid status code",
            HttpError::InvalidHeaderName => "invalid header name",
            HttpError::InvalidHeaderValue => "invalid header value",
            HttpError::TooManyHeaders => "too many headers",
            HttpError::InvalidContentLength => "invalid content length",
            HttpError::InvalidChunkSize => "invalid chunk size",
            HttpError::InvalidChunkedEncoding => "invalid chunked encoding",
            HttpError::UnsupportedTransferEncoding => "unsupported transfer encoding",
            HttpError::UnexpectedEof => "unexpected end of stream",
            HttpError::InvalidUtf8 => "stream did not contain valid UTF-8",
            HttpError::MissingAuthority => "no authority found in URI",
            HttpError::MissingScheme => "no scheme found in URI",
            HttpError::UnsupportedScheme => "unsupported URL scheme",
        }
    }

    /// The text of [`HttpError::message`].
    pub open spec fn spec_message(self) -> Seq<char> {
        match self {
            HttpError::HeaderValueNotText => "header value is not visible ASCII"@,
            HttpError::MalformedStatusLine => "malformed status line"@,
            HttpError::UnsupportedVersion => "unsupported version"@,
            HttpError::InvalidStatusCode => "invalid status code"@,
            HttpError::InvalidHeaderName => "invalid header name"@,
            HttpError::InvalidHeaderValue => "invalid header value"@,
            HttpError::TooManyHeaders => "too many headers"@,
            HttpError::InvalidContentLength => "invalid content length"@,
            HttpError::InvalidChunkSize => "invalid chunk size"@,
            HttpError::InvalidChunkedEncoding => "invalid chunked encoding"@,
            HttpError::UnsupportedTransferEncoding => "unsupported transfer encoding"@,
            HttpError::UnexpectedEof => "unexpected end of stream"@,
            HttpError::InvalidUtf8 => "stream did not contain valid UTF-8"@,
            HttpError::MissingAuthority => "no authority found in URI"@,
            HttpError::MissingScheme => "no scheme found in URI"@,
            HttpError::UnsupportedScheme => "unsupported URL scheme"@,
        }
    }
}

} // verus!
