//! Protocol versions and their wire names.

use vstd::prelude::*;

verus! {

/// A version of the protocol.
#[derive(Clone, Copy, Debug, PartialEq, Eq, Structural)]
pub enum Version {
    /// `HTTP/0.9`
    Http09,
    /// `HTTP/1.0`
    Http10,
    /// `HTTP/1.1`
    Http11,
    /// `HTTP/2.0`
    H2,
    /// `HTTP/3.0`
    H3,
}

impl Version {
    /// The name under which a request line announces this version. A version without a
    /// name of its own is announced as `HTTP/1.1`.
    pub open spec fn spec_request_name(self) -> Seq<char> {
        match self {
            Version::Http10 => "HTTP/1.0"@,
            Version::Http11 => "HTTP/1.1"@,
            Version::H2 => "HTTP/2.0"@,
            Version::H3 => "HTTP/3.0"@,
            Version::Http09 => "HTTP/1.1"@,
        }
    }

    /// The name under which a request line announces this version.
    pub fn request_name(self) -> (name: &'static str)
        ensures
            name@ == self.spec_request_name(),
    {
        match self {
            Version::Http10 => "HTTP/1.0",
            Version::Http11 => "HTTP/1.1",
            Version::H2 => "HTTP/2.0",
            Version::H3 => "HTTP/3.0",
            Version::Http09 => "HTTP/1.1",
        }
    }

    /// The version that a status line announces by the word `word`, if it is one of
    /// `HTTP/1.0`, `HTTP/1.1` and `HTTP/2.0`.
    pub open spec fn from_status_word(word: Seq<char>) -> Option<Version> {
        if word == "HTTP/1.0"@ {
            Some(Version::Http10)
        } else if word == "HTTP/1.1"@ {
            Some(Version::Http11)
        } else if word == "HTTP/2.0"@ {
            Some(Version::H2)
        } else {
            None
        }
    }
}

} // verus!
