//! Where a request is to be sent, and over what kind of stream.

use vstd::prelude::*;

use crate::async_connection::Transport;
use crate::error::HttpError;
use crate::request::{Request, Uri};
use crate::text::str_equal;

verus! {

/// Decides where and how to connect for a request.
pub struct AsyncConnectionFactory;

/// The port that a scheme stands for where the URI names none.
pub open spec fn default_port(scheme: Seq<char>) -> Option<u16> {
    if scheme == "http"@ || scheme == "ws"@ {
        Some(80u16)
    } else if scheme == "https"@ || scheme == "wss"@ {
        Some(443u16)
    } else {
        None
    }
}

/// Whether connections for a scheme are wrapped in TLS.
pub open spec fn scheme_is_secure(scheme: Seq<char>) -> bool {
    scheme == "https"@ || scheme == "wss"@
}

/// Scheme, host and port to connect to for `uri`.
///
/// The URI must name a host and have one of the schemes `http`, `https`, `ws` and
/// `wss`. The port is the one the URI gives, or else the scheme's own; port 0 is
/// refused.
pub open spec fn connection_target(uri: Uri) -> Result<(Seq<char>, Seq<char>, u16), HttpError> {
    match uri.authority {
        None => Err(HttpError::MissingAuthority),
        Some(authority) => match uri.scheme {
            None => Err(HttpError::MissingScheme),
            Some(scheme) => match default_port(scheme@) {
                None => Err(HttpError::UnsupportedScheme),
                Some(default) => {
                    let port = match authority.port {
                        Some(port) => port,
                        None => default,
                    };
                    if port == 0 {
                        Err(HttpError::UnsupportedScheme)
                    } else {
                        Ok((scheme@, authority.host@, port))
                    }
                },
            },
        },
    }
}

impl AsyncConnectionFactory {
    /// The port that `scheme` stands for, as [`default_port`] says.
    pub fn default_port(scheme: &str) -> (r: Option<u16>)
        ensures
            r == default_port(scheme@),
    {
        if str_equal(scheme, "http") || str_equal(scheme, "ws") {
            Some(80)
        } else if str_equal(scheme, "https") || str_equal(scheme, "wss") {
            Some(443)
        } else {
            None
        }
    }

    /// The kind of stream to open for `scheme`: TLS for `https` and `wss`, plain
    /// otherwise.
    pub fn transport_for(scheme: &str) -> (r: Transport)
        ensures
            r == if scheme_is_secure(scheme@) {
                Transport::Tls
            } else {
                Transport::Plain
            },
    {
        if str_equal(scheme, "https") || str_equal(scheme, "wss") {
            Transport::Tls
        } else {
            Transport::Plain
        }
    }

    /// Extracts scheme, host and port from the URI of `req`, as [`connection_target`]
    /// says.
    pub fn extract_host_from_request(req: &Request) -> (r: Result<(String, String, u16), HttpError>)
        ensures
            r matches Ok(target) ==> connection_target(req.uri) == Ok::<_, HttpError>(
                (target.0@, target.1@, target.2),
            ),
            r matches Err(e) ==> connection_target(req.uri) == Err::<
                (Seq<char>, Seq<char>, u16),
                _,
            >(e),
    {
        let authority = match &req.uri.authority {
            Some(authority) => authority,
            None => {
                return Err(HttpError::MissingAuthority);
            },
        };
        let scheme = match &req.uri.scheme {
            Some(scheme) => scheme,
            None => {
                return Err(HttpError::MissingScheme);
            },
        };
        let default = match Self::default_port(scheme.as_str()) {
            Some(default) => default,
            None => {
                return Err(HttpError::UnsupportedScheme);
            },
        };
        let port = match authority.port {
            Some(port) => port,
            None => default,
        };
        if port == 0 {
            return Err(HttpError::UnsupportedScheme);
        }
        Ok((scheme.clone(), authority.host.clone(), port))
    }
}

} // verus!
