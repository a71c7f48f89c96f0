//! A byte stream held in memory: the bytes a peer has sent, read front to back.

use std::str::Utf8Error;
use vstd::prelude::*;
use vstd::slice::{slice_subrange, slice_to_vec};
use vstd::utf8::{decode_utf8, valid_utf8};

use crate::error::HttpError;

verus! {

/// The error of `std::str::from_utf8`.
#[verifier::external_type_specification]
#[verifier::external_body]
pub struct ExUtf8Error(std::str::Utf8Error);

/// `std::str::from_utf8`: succeeds exactly on well-formed UTF-8, and then yields the
/// text that the bytes encode.
#[verifier::external_body]
pub(crate) fn str_from_utf8(bytes: &[u8]) -> (r: Result<&str, Utf8Error>)
    ensures
        r is Ok <==> valid_utf8(bytes@),
        r matches Ok(s) ==> s@ == decode_utf8(bytes@),
{
    std::str::from_utf8(bytes)
}

/// The index just after the first line feed at or after `from`; the length of `bytes`
/// if there is none.
pub open spec fn line_end(bytes: Seq<u8>, from: int) -> int
    decreases bytes.len() - from,
{
    if 0 <= from < bytes.len() {
        if bytes[from] == 10 {
            from + 1
        } else {
            line_end(bytes, from + 1)
        }
    } else {
        from
    }
}

/// `line_end` stays within the bytes, and goes past `from` unless nothing is left.
pub proof fn lemma_line_end(bytes: Seq<u8>, from: int)
    requires
        0 <= from <= bytes.len(),
    ensures
        from <= line_end(bytes, from) <= bytes.len(),
        from < bytes.len() ==> from < line_end(bytes, from),
    decreases bytes.len() - from,
{
    if from < bytes.len() && bytes[from] != 10 {
        lemma_line_end(bytes, from + 1);
    }
}

/// The first line of `bytes`: everything up to and including the first line feed, or
/// all of `bytes` where there is no line feed.
pub open spec fn first_line(bytes: Seq<u8>) -> Seq<u8> {
    bytes.take(line_end(bytes, 0))
}

/// What follows the first line of `bytes`.
pub open spec fn after_first_line(bytes: Seq<u8>) -> Seq<u8> {
    bytes.skip(line_end(bytes, 0))
}

/// A byte stream held in memory, with a cursor.
pub struct ByteReader {
    data: Vec<u8>,
    pos: usize,
}

impl View for ByteReader {
    type V = Seq<u8>;

    /// The bytes not yet read.
    closed spec fn view(&self) -> Seq<u8> {
        self.data@.skip(self.pos as int)
    }
}

impl ByteReader {
    #[verifier::type_invariant]
    spec fn cursor_in_bounds(self) -> bool {
        self.pos <= self.data.len()
    }

    /// A reader over `data`, with nothing read yet.
    pub fn new(data: Vec<u8>) -> (reader: ByteReader)
        ensures
            reader@ == data@,
    {
        ByteReader { data, pos: 0 }
    }

    /// Reads one line: the bytes up to and including the next line feed, or up to the
    /// end of the stream. At the end of the stream the line is empty. The bytes are
    /// consumed whether or not they are UTF-8.
    pub fn read_line(&mut self) -> (r: Result<String, HttpError>)
        ensures
            final(self)@ == after_first_line(old(self)@),
            r is Ok <==> valid_utf8(first_line(old(self)@)),
            r matches Ok(line) ==> line@ == decode_utf8(first_line(old(self)@)),
            r matches Err(e) ==> e == HttpError::InvalidUtf8,
    {
        proof {
            use_type_invariant(&*self);
        }
        let start = self.pos;
        let ghost rest = self.data@.skip(start as int);
        let mut end = start;
        while end < self.data.len() && self.data[end] != 10
            invariant
                start <= end <= self.data.len(),
                rest == self.data@.skip(start as int),
                line_end(rest, 0) == line_end(rest, end - start),
            decreases self.data.len() - end,
        {
            end += 1;
        }
        if end < self.data.len() {
            end += 1;
        }
        assert(end - start == line_end(rest, 0));
        let bytes = slice_subrange(self.data.as_slice(), start, end);
        assert(bytes@ == first_line(rest));
        let r = match str_from_utf8(bytes) {
            Ok(s) => Ok(s.to_owned()),
            Err(_) => Err(HttpError::InvalidUtf8),
        };
        self.pos = end;
        assert(self.data@.skip(end as int) == after_first_line(rest));
        r
    }

    /// Reads exactly `n` bytes, or fails where the stream holds fewer; then nothing is
    /// consumed.
    pub fn read_exact(&mut self, n: usize) -> (r: Result<Vec<u8>, HttpError>)
        ensures
            r is Ok <==> n <= old(self)@.len(),
            r matches Ok(bytes) ==> bytes@ == old(self)@.take(n as int) && final(self)@ == old(
                self,
            )@.skip(n as int),
            r matches Err(e) ==> e == HttpError::UnexpectedEof && final(self)@ == old(self)@,
    {
        proof {
            use_type_invariant(&*self);
        }
        let start = self.pos;
        if n > self.data.len() - start {
            return Err(HttpError::UnexpectedEof);
        }
        let end = start + n;
        let bytes = slice_to_vec(slice_subrange(self.data.as_slice(), start, end));
        self.pos = end;
        assert(bytes@ == self.data@.skip(start as int).take(n as int));
        assert(self.data@.skip(end as int) == self.data@.skip(start as int).skip(n as int));
        Ok(bytes)
    }

    /// Reads all that is left.
    pub fn read_to_end(&mut self) -> (bytes: Vec<u8>)
        ensures
            bytes@ == old(self)@,
            final(self)@ == Seq::<u8>::empty(),
    {
        proof {
            use_type_invariant(&*self);
        }
        let start = self.pos;
        let end = self.data.len();
        let bytes = slice_to_vec(slice_subrange(self.data.as_slice(), start, end));
        self.pos = end;
        assert(bytes@ == self.data@.skip(start as int));
        assert(self.data@.skip(end as int) == Seq::<u8>::empty());
        bytes
    }
}

} // verus!
