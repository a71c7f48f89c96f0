//! Requests and their serialization.

use vstd::prelude::*;
use vstd::string::StringExecFns;
use vstd::utf8::is_ascii_chars;

use crate::error::HttpError;
use crate::header::{
    all_visible_ascii, ascii_lowercase, ascii_text, header_map_entries, header_map_fields,
    header_name_as_str, header_value_to_str, is_header_name,
};
use crate::text::is_whitespace;
use crate::version::Version;
use http::{HeaderMap, HeaderValue};

verus! {

/// The host and port of a URI.
#[derive(Clone, Debug, PartialEq, Eq)]
pub struct Authority {
    /// The host, as written.
    pub host: String,
    /// The port, where the URI gives one.
    pub port: Option<u16>,
}

/// The parts of a URI that an exchange reads.
#[derive(Clone, Debug, PartialEq, Eq)]
pub struct Uri {
    /// The scheme, as written.
    pub scheme: Option<String>,
    /// Host and port.
    pub authority: Option<Authority>,
    /// Path and query, as they go on the request line.
    pub path_and_query: Option<String>,
}

/// A request to send.
#[derive(Debug)]
pub struct Request {
    /// The method token.
    pub method: String,
    /// The target.
    pub uri: Uri,
    /// The protocol version.
    pub version: Version,
    /// The header fields.
    pub headers: HeaderMap<HeaderValue>,
    /// The payload, if any.
    pub body: Option<Vec<u8>>,
}

impl Uri {
    /// What goes on the request line for this URI: path and query, or `/` without them.
    pub open spec fn request_target(self) -> Seq<char> {
        match self.path_and_query {
            Some(p) => p@,
            None => "/"@,
        }
    }
}

/// One header field on the wire: `name: value` and CR LF.
pub open spec fn header_line(entry: (Seq<char>, Seq<u8>)) -> Seq<char> {
    entry.0 + ": "@ + ascii_text(entry.1) + "\r\n"@
}

/// The header fields `entries` on the wire, one line each, in order.
pub open spec fn header_lines(entries: Seq<(Seq<char>, Seq<u8>)>) -> Seq<char>
    decreases entries.len(),
{
    if entries.len() == 0 {
        Seq::empty()
    } else {
        header_lines(entries.drop_last()) + header_line(entries.last())
    }
}

/// The request line: method, target and version name, separated by one space, and CR LF.
pub open spec fn request_line(method: Seq<char>, target: Seq<char>, version: Version) -> Seq<
    char,
> {
    method + " "@ + target + " "@ + version.spec_request_name() + "\r\n"@
}

/// Whether `s` can stand as one word on a request line: not empty, ASCII, without
/// white space.
pub open spec fn is_word(s: Seq<char>) -> bool {
    &&& s.len() > 0
    &&& is_ascii_chars(s)
    &&& forall|i: int| 0 <= i < s.len() ==> !is_whitespace(#[trigger] s[i])
}

/// Whether every name in `entries` is a header name in lower case, as a header
/// collection holds it.
pub open spec fn names_are_header_names(entries: Seq<(Seq<char>, Seq<u8>)>) -> bool {
    forall|i: int|
        0 <= i < entries.len() ==> is_header_name((#[trigger] entries[i]).0) && ascii_lowercase(
            entries[i].0,
        ) == entries[i].0
}

/// Whether every value in `entries` can be written as text.
pub open spec fn values_are_text(entries: Seq<(Seq<char>, Seq<u8>)>) -> bool {
    forall|i: int| 0 <= i < entries.len() ==> all_visible_ascii((#[trigger] entries[i]).1)
}

/// The head of a request on the wire: the request line, the header lines and the
/// empty line that ends them.
pub open spec fn request_head(
    method: Seq<char>,
    target: Seq<char>,
    version: Version,
    entries: Seq<(Seq<char>, Seq<u8>)>,
) -> Seq<char> {
    request_line(method, target, version) + header_lines(entries) + "\r\n"@
}

impl Request {
    /// Whether this request is one that a peer can read: the method and the target
    /// are words, and the names of the fields are header names.
    pub open spec fn well_formed(self) -> bool {
        &&& is_word(self.method@)
        &&& is_word(self.uri.request_target())
        &&& names_are_header_names(header_map_entries(self.headers))
    }

    /// The head of this request on the wire, as [`request_head`] says.
    pub open spec fn head_text(self) -> Seq<char> {
        request_head(
            self.method@,
            self.uri.request_target(),
            self.version,
            header_map_entries(self.headers),
        )
    }

    /// The payload to write after the head: the body, unless it is absent or empty.
    pub open spec fn spec_payload(self) -> Option<Seq<u8>> {
        match self.body {
            Some(body) => if body@.len() > 0 {
                Some(body@)
            } else {
                None
            },
            None => None,
        }
    }

    /// The payload to write after the head: the body, unless it is absent or empty.
    pub fn payload(&self) -> (r: Option<&Vec<u8>>)
        ensures
            r is Some <==> self.spec_payload() is Some,
            r matches Some(body) ==> Some(body@) == self.spec_payload(),
    {
        match &self.body {
            Some(body) => if body.len() > 0 {
                Some(body)
            } else {
                None
            },
            None => None,
        }
    }
}

/// Serializes the head of `req`: request line, header lines, empty line.
///
/// Fails exactly when some header value holds a byte that is neither visible ASCII nor
/// a tab. No header is added and none is left out; the body is not part of the result.
pub fn serialize_http_request(req: &Request) -> (r: Result<String, HttpError>)
    ensures
        r is Ok <==> values_are_text(header_map_entries(req.headers)),
        r matches Ok(text) ==> text@ == req.head_text(),
        r matches Err(e) ==> e == HttpError::HeaderValueNotText,
{
    let target: &str = match &req.uri.path_and_query {
        Some(p) => p.as_str(),
        None => "/",
    };
    let mut out = String::new();
    out.append(req.method.as_str());
    out.append(" ");
    out.append(target);
    out.append(" ");
    out.append(req.version.request_name());
    out.append("\r\n");
    assert(out@ == request_line(req.method@, req.uri.request_target(), req.version));

    let fields = header_map_fields(&req.headers);
    let ghost entries = header_map_entries(req.headers);
    let ghost line = out@;
    let mut i: usize = 0;
    while i < fields.len()
        invariant
            i <= fields.len(),
            entries == header_map_entries(req.headers),
            fields@.len() == entries.len(),
            forall|k: int|
                0 <= k < fields@.len() ==> (
                    crate::header::header_name_text(*(#[trigger] fields@[k]).0),
                    crate::header::header_value_bytes(*fields@[k].1),
                ) == entries[k],
            values_are_text(entries.take(i as int)),
            out@ == line + header_lines(entries.take(i as int)),
        decreases fields.len() - i,
    {
        let (name, value) = fields[i];
        let ghost seen = entries.take(i as int);
        let ghost next = entries.take(i + 1);
        assert(next.drop_last() == seen);
        assert(next.last() == entries[i as int]);
        match header_value_to_str(value) {
            Ok(text) => {
                out.append(header_name_as_str(name));
                out.append(": ");
                out.append(text);
                out.append("\r\n");
                assert(out@ == line + header_lines(next));
                assert(values_are_text(next)) by {
                    assert forall|k: int| 0 <= k < next.len() implies all_visible_ascii(
                        (#[trigger] next[k]).1,
                    ) by {
                        if k < seen.len() {
                            assert(next[k] == seen[k]);
                        }
                    }
                }
            },
            Err(_) => {
                assert(!all_visible_ascii(entries[i as int].1));
                return Err(HttpError::HeaderValueNotText);
            },
        }
        i += 1;
    }
    assert(entries.take(fields.len() as int) == entries);
    out.append("\r\n");
    Ok(out)
}

} // verus!
