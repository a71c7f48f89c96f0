//! Responses: the status line, the header block, body framing and the chunked
//! transfer coding.
//!
//! Each step of reading a response is a function of the text or bytes just read, so
//! that any transport can drive it; the `read_*` functions drive the steps over a
//! [`ByteReader`], and state what they return as a function of the bytes in it.

use vstd::prelude::*;
use vstd::string::StrSliceExecFns;
use vstd::utf8::{decode_utf8, encode_utf8, is_ascii_chars, valid_utf8};

use crate::error::HttpError;
use crate::header::{
    all_visible_ascii, ascii_lowercase, ascii_text, header_map_entries, header_map_get,
    header_map_new, header_map_try_insert, header_name_from_str, header_name_text,
    header_value_as_bytes, header_value_bytes, header_value_from_str, header_value_to_str,
    is_header_name, is_header_value_text, lookup, names_are_distinct, with_field,
    HEADER_MAP_SAFE_LEN,
};
use crate::fields::{lemma_with_field_distinct, lemma_with_field_keeps_len};
use crate::reader::{after_first_line, first_line, lemma_line_end, ByteReader};
use crate::text::{
    bytes_equal, bytes_equal_ignoring_case, chars_equal, collect_chars, find_separator,
    lemma_words_from, lowercase, parse_unsigned, same_ignoring_case, scan_line_end,
    scan_separator, scan_whitespace, scan_word, to_lowercase, trim, trim_bounds, trim_line_end,
    unsigned_number, words,
};
use crate::version::Version;
use http::status::InvalidStatusCode;
use http::{HeaderMap, HeaderName, HeaderValue, StatusCode};

verus! {

/// The error of `StatusCode::from_u16`.
#[verifier::external_type_specification]
#[verifier::external_body]
pub struct ExInvalidStatusCode(http::status::InvalidStatusCode);

/// `StatusCode::from_u16`, read back with `StatusCode::as_u16`: accepts exactly the
/// codes from 100 to 999, and keeps the number.
#[verifier::external_body]
pub(crate) fn status_code_from_u16(code: u16) -> (r: Result<u16, InvalidStatusCode>)
    ensures
        r is Ok <==> 100 <= code <= 999,
        r matches Ok(kept) ==> kept == code,
{
    match StatusCode::from_u16(code) {
        Ok(status) => Ok(status.as_u16()),
        Err(invalid) => Err(invalid),
    }
}

/// The largest status code.
pub const MAX_STATUS_CODE: u16 = 599;

/// What a status line says: the version named by its first word and the status code
/// written by its second, a decimal number from 100 to 599. Further words are not
/// looked at.
pub open spec fn status_line(line: Seq<char>) -> Result<(Version, u16), HttpError> {
    let w = words(line);
    if w.len() < 2 {
        Err(HttpError::MalformedStatusLine)
    } else {
        match Version::from_status_word(w[0]) {
            None => Err(HttpError::UnsupportedVersion),
            Some(version) => match unsigned_number(w[1], 10, 65535) {
                Some(code) => if 100 <= code <= MAX_STATUS_CODE {
                    Ok((version, code as u16))
                } else {
                    Err(HttpError::InvalidStatusCode)
                },
                None => Err(HttpError::InvalidStatusCode),
            },
        }
    }
}

/// Reads the status line of a response from `reader`.
pub fn read_response_status_line(reader: &mut ByteReader) -> (r: Result<String, HttpError>)
    ensures
        final(reader)@ == after_first_line(old(reader)@),
        r is Ok <==> valid_utf8(first_line(old(reader)@)),
        r matches Ok(line) ==> line@ == decode_utf8(first_line(old(reader)@)),
        r matches Err(e) ==> e == HttpError::InvalidUtf8,
{
    reader.read_line()
}

/// Parses a status line into the protocol version and the status code.
///
/// The line is split on white space. With fewer than two words it is malformed. The
/// first word must be `HTTP/1.0`, `HTTP/1.1` or `HTTP/2.0`; the second must be a
/// decimal number from 100 to 599.
pub fn parse_response_status_line(response_status_line: &str) -> (r: Result<
    (Version, u16),
    HttpError,
>)
    ensures
        r == status_line(response_status_line@),
{
    let chars = collect_chars(response_status_line);
    let ghost s = chars@;
    proof {
        lemma_words_from(s, 0);
    }
    let a0 = scan_whitespace(&chars, 0);
    if a0 == chars.len() {
        return Err(HttpError::MalformedStatusLine);
    }
    let b0 = scan_word(&chars, a0);
    proof {
        lemma_words_from(s, b0 as int);
    }
    let a1 = scan_whitespace(&chars, b0);
    if a1 == chars.len() {
        return Err(HttpError::MalformedStatusLine);
    }
    let b1 = scan_word(&chars, a1);
    assert(words(s).len() >= 2);
    assert(words(s)[0] == s.subrange(a0 as int, b0 as int));
    assert(words(s)[1] == s.subrange(a1 as int, b1 as int));
    let version = if chars_equal(&chars, a0, b0, "HTTP/1.0") {
        Version::Http10
    } else if chars_equal(&chars, a0, b0, "HTTP/1.1") {
        Version::Http11
    } else if chars_equal(&chars, a0, b0, "HTTP/2.0") {
        Version::H2
    } else {
        return Err(HttpError::UnsupportedVersion);
    };
    match parse_unsigned(&chars, a1, b1, 10, 65535) {
        None => Err(HttpError::InvalidStatusCode),
        Some(code) => match status_code_from_u16(code as u16) {
            Ok(status) => if status <= MAX_STATUS_CODE {
                Ok((version, status))
            } else {
                Err(HttpError::InvalidStatusCode)
            },
            Err(_) => Err(HttpError::InvalidStatusCode),
        },
    }
}

/// Whether a line ends the header block: the empty line `CR LF`, or no line at all,
/// as read at the end of the stream.
pub open spec fn is_block_end(line: Seq<char>) -> bool {
    line.len() == 0 || line == "\r\n"@
}

/// The header field made of a name and a value, where both are acceptable. The name
/// is checked first.
pub open spec fn field_from_parts(name: Seq<char>, value: Seq<char>) -> Result<
    (Seq<char>, Seq<u8>),
    HttpError,
> {
    if !is_header_name(name) {
        Err(HttpError::InvalidHeaderName)
    } else if !is_header_value_text(value) {
        Err(HttpError::InvalidHeaderValue)
    } else {
        Ok((ascii_lowercase(name), encode_utf8(value)))
    }
}

/// The text from which the name of a header is made: `key` itself where it is ASCII,
/// since a header name is put in lower case when it is made; else `key` in lower case
/// under the Unicode case mapping.
pub open spec fn name_source(key: Seq<char>) -> Seq<char> {
    if is_ascii_chars(key) {
        key
    } else {
        lowercase(key)
    }
}

/// What a line of the header block holds. A line without `: ` holds nothing. Another
/// line is split at the first `: `; the name is what stands before it, in lower case,
/// and the value is what follows it, without the line's ending.
pub open spec fn header_field(line: Seq<char>) -> Result<Option<(Seq<char>, Seq<u8>)>, HttpError> {
    match find_separator(line, 0) {
        None => Ok(None),
        Some(k) => match field_from_parts(
            name_source(line.take(k)),
            trim_line_end(line.skip(k + 2)),
        ) {
            Ok(field) => Ok(Some(field)),
            Err(e) => Err(e),
        },
    }
}

/// Executable form of [`is_block_end`].
pub fn is_header_block_end(line: &str) -> (b: bool)
    ensures
        b == is_block_end(line@),
{
    let chars = collect_chars(line);
    assert(chars@.subrange(0, chars.len() as int) == line@);
    chars.len() == 0 || chars_equal(&chars, 0, chars.len(), "\r\n")
}

/// Makes a header field of a name and a value, as [`field_from_parts`] says.
pub fn header_field_from_parts(name: &str, value: &str) -> (r: Result<
    (HeaderName, HeaderValue),
    HttpError,
>)
    ensures
        r matches Ok(field) ==> field_from_parts(name@, value@) == Ok::<_, HttpError>(
            (header_name_text(field.0), header_value_bytes(field.1)),
        ),
        r matches Err(e) ==> field_from_parts(name@, value@) == Err::<(Seq<char>, Seq<u8>), _>(e),
{
    let header_name = match header_name_from_str(name) {
        Ok(n) => n,
        Err(_) => {
            return Err(HttpError::InvalidHeaderName);
        },
    };
    let header_value = match header_value_from_str(value) {
        Ok(v) => v,
        Err(_) => {
            return Err(HttpError::InvalidHeaderValue);
        },
    };
    Ok((header_name, header_value))
}

/// Parses one line of the header block, as [`header_field`] says. A line without
/// `: ` is passed over: the result is `Ok(None)`.
pub fn parse_header_line(line: &str) -> (r: Result<Option<(HeaderName, HeaderValue)>, HttpError>)
    ensures
        r matches Ok(Some(field)) ==> header_field(line@) == Ok::<_, HttpError>(
            Some((header_name_text(field.0), header_value_bytes(field.1))),
        ),
        r matches Ok(None) ==> header_field(line@) == Ok::<Option<(Seq<char>, Seq<u8>)>, HttpError>(
            None,
        ),
        r matches Err(e) ==> header_field(line@) == Err::<Option<(Seq<char>, Seq<u8>)>, _>(e),
{
    let chars = collect_chars(line);
    match scan_separator(&chars) {
        None => Ok(None),
        Some(k) => {
            let end = scan_line_end(&chars, k + 2);
            let key = line.substring_char(0, k);
            let value = line.substring_char(k + 2, end);
            assert(line@.subrange(0, k as int) == line@.take(k as int));
            let made = if key.is_ascii() {
                header_field_from_parts(key, value)
            } else {
                let lowered = to_lowercase(key);
                header_field_from_parts(lowered.as_str(), value)
            };
            match made {
                Ok(field) => Ok(Some(field)),
                Err(e) => Err(e),
            }
        },
    }
}

/// What taking one line of the header block did.
#[derive(Clone, Copy, Debug, PartialEq, Eq, Structural)]
pub enum HeaderStep {
    /// The line ended the block.
    End,
    /// The line holds no field and was passed over.
    Skipped,
    /// The line held a field, which the collection now holds.
    Stored,
}

/// Takes one line of the header block into `headers`, and says what the line was.
///
/// The end of the block and a line without `: ` leave `headers` as it is. A field
/// replaces what `headers` held under its name. The collection may refuse a field
/// once it holds [`HEADER_MAP_SAFE_LEN`] fields or more.
pub fn header_line_step(headers: &mut HeaderMap<HeaderValue>, line: &str) -> (r: Result<
    HeaderStep,
    HttpError,
>)
    ensures
        is_block_end(line@) ==> r == Ok::<_, HttpError>(HeaderStep::End) && header_map_entries(
            *final(headers),
        ) == header_map_entries(*old(headers)),
        !is_block_end(line@) ==> match header_field(line@) {
            Err(e) => r == Err::<HeaderStep, _>(e) && header_map_entries(*final(headers))
                == header_map_entries(*old(headers)),
            Ok(None) => r == Ok::<_, HttpError>(HeaderStep::Skipped) && header_map_entries(
                *final(headers),
            ) == header_map_entries(*old(headers)),
            Ok(Some(field)) => {
                ||| r == Ok::<_, HttpError>(HeaderStep::Stored) && header_map_entries(
                    *final(headers),
                ) == with_field(header_map_entries(*old(headers)), field.0, field.1)
                ||| r == Err::<HeaderStep, _>(HttpError::TooManyHeaders) && header_map_entries(
                    *final(headers),
                ) == header_map_entries(*old(headers)) && header_map_entries(*old(headers)).len()
                    >= HEADER_MAP_SAFE_LEN
            },
        },
{
    if is_header_block_end(line) {
        return Ok(HeaderStep::End);
    }
    match parse_header_line(line) {
        Err(e) => Err(e),
        Ok(None) => Ok(HeaderStep::Skipped),
        Ok(Some(field)) => match header_map_try_insert(headers, field.0, field.1) {
            Ok(()) => Ok(HeaderStep::Stored),
            Err(_) => Err(HttpError::TooManyHeaders),
        },
    }
}

/// The header block at the start of `bytes`, taken line by line into `entries`: the
/// fields once the block has ended, and the bytes that follow the block.
///
/// The block ends with the empty line `CR LF` or with the stream. A line that is not
/// UTF-8 and a field with a bad name or value fail the block.
pub open spec fn header_block(bytes: Seq<u8>, entries: Seq<(Seq<char>, Seq<u8>)>) -> Result<
    (Seq<(Seq<char>, Seq<u8>)>, Seq<u8>),
    HttpError,
>
    decreases bytes.len(),
{
    if bytes.len() == 0 {
        Ok((entries, bytes))
    } else if !valid_utf8(first_line(bytes)) {
        Err(HttpError::InvalidUtf8)
    } else {
        let line = decode_utf8(first_line(bytes));
        if is_block_end(line) {
            Ok((entries, after_first_line(bytes)))
        } else {
            proof {
                lemma_line_end(bytes, 0);
            }
            match header_field(line) {
                Err(e) => Err(e),
                Ok(None) => header_block(after_first_line(bytes), entries),
                Ok(Some(field)) => header_block(
                    after_first_line(bytes),
                    with_field(entries, field.0, field.1),
                ),
            }
        }
    }
}

/// The fields held when the header block at the start of `bytes`, taken line by line
/// into `entries`, ends or fails.
pub open spec fn fields_read(bytes: Seq<u8>, entries: Seq<(Seq<char>, Seq<u8>)>) -> Seq<
    (Seq<char>, Seq<u8>),
>
    decreases bytes.len(),
{
    if bytes.len() == 0 || !valid_utf8(first_line(bytes)) {
        entries
    } else {
        let line = decode_utf8(first_line(bytes));
        if is_block_end(line) {
            entries
        } else {
            proof {
                lemma_line_end(bytes, 0);
            }
            match header_field(line) {
                Err(e) => entries,
                Ok(None) => fields_read(after_first_line(bytes), entries),
                Ok(Some(field)) => fields_read(
                    after_first_line(bytes),
                    with_field(entries, field.0, field.1),
                ),
            }
        }
    }
}

/// The fields held when a header block has ended are the fields of the block.
pub proof fn lemma_fields_read_of_block(bytes: Seq<u8>, held: Seq<(Seq<char>, Seq<u8>)>)
    ensures
        header_block(bytes, held) matches Ok(read) ==> fields_read(bytes, held) == read.0,
    decreases bytes.len(),
{
    if bytes.len() != 0 && valid_utf8(first_line(bytes)) {
        let line = decode_utf8(first_line(bytes));
        if !is_block_end(line) {
            lemma_line_end(bytes, 0);
            match header_field(line) {
                Err(e) => {},
                Ok(None) => {
                    lemma_fields_read_of_block(after_first_line(bytes), held);
                },
                Ok(Some(field)) => {
                    lemma_fields_read_of_block(
                        after_first_line(bytes),
                        with_field(held, field.0, field.1),
                    );
                },
            }
        }
    }
}

/// While a header block is read into fields with distinct names, the names stay
/// distinct and no field is dropped.
pub proof fn lemma_fields_read_grows(bytes: Seq<u8>, held: Seq<(Seq<char>, Seq<u8>)>)
    requires
        names_are_distinct(held),
    ensures
        names_are_distinct(fields_read(bytes, held)),
        fields_read(bytes, held).len() >= held.len(),
    decreases bytes.len(),
{
    if bytes.len() != 0 && valid_utf8(first_line(bytes)) {
        let line = decode_utf8(first_line(bytes));
        if !is_block_end(line) {
            lemma_line_end(bytes, 0);
            match header_field(line) {
                Err(e) => {},
                Ok(None) => {
                    lemma_fields_read_grows(after_first_line(bytes), held);
                },
                Ok(Some(field)) => {
                    lemma_with_field_distinct(held, field.0, field.1);
                    lemma_with_field_keeps_len(held, field.0, field.1);
                    lemma_fields_read_grows(
                        after_first_line(bytes),
                        with_field(held, field.0, field.1),
                    );
                },
            }
        }
    }
}

/// Whether `outcome` is what reading the header block at the start of `bytes` may
/// give: the fields and the bytes after the block; or the error that fails the block;
/// or the refusal of the collection, where the block has brought it to
/// [`HEADER_MAP_SAFE_LEN`] fields or more.
pub open spec fn is_header_reading(
    bytes: Seq<u8>,
    outcome: Result<(Seq<(Seq<char>, Seq<u8>)>, Seq<u8>), HttpError>,
) -> bool {
    match outcome {
        Ok(read) => header_block(bytes, Seq::empty()) == Ok::<_, HttpError>(read),
        Err(e) => if e == HttpError::TooManyHeaders {
            fields_read(bytes, Seq::empty()).len() >= HEADER_MAP_SAFE_LEN
        } else {
            header_block(bytes, Seq::empty()) == Err::<(Seq<(Seq<char>, Seq<u8>)>, Seq<u8>), _>(e)
        },
    }
}

/// Reads the header block of a response from `reader`.
///
/// Lines are read until the empty line `CR LF` or the end of the stream. A line
/// without `: ` is passed over. A field replaces an earlier field of the same name.
/// The result is the collection that [`header_block`] describes, and the reader stands
/// after the block. The collection itself may refuse a field, but only once it holds
/// [`HEADER_MAP_SAFE_LEN`] fields: a block that ends with fewer fields is never refused.
pub fn read_response_headers(reader: &mut ByteReader) -> (r: Result<
    HeaderMap<HeaderValue>,
    HttpError,
>)
    ensures
        r matches Ok(headers) ==> names_are_distinct(header_map_entries(headers)) && header_block(
            old(reader)@,
            Seq::empty(),
        ) == Ok::<_, HttpError>((header_map_entries(headers), final(reader)@)),
        r matches Err(e) ==> if e == HttpError::TooManyHeaders {
            &&& fields_read(old(reader)@, Seq::empty()).len() >= HEADER_MAP_SAFE_LEN
            &&& header_block(old(reader)@, Seq::empty()) matches Ok(read) ==> read.0.len()
                >= HEADER_MAP_SAFE_LEN
        } else {
            header_block(old(reader)@, Seq::empty()) == Err::<
                (Seq<(Seq<char>, Seq<u8>)>, Seq<u8>),
                _,
            >(e)
        },
        is_header_reading(
            old(reader)@,
            match r {
                Ok(headers) => Ok((header_map_entries(headers), final(reader)@)),
                Err(e) => Err(e),
            },
        ),
{
    let mut headers = header_map_new();
    let ghost start = reader@;
    proof {
        lemma_fields_read_of_block(start, Seq::empty());
    }
    loop
        invariant
            start == old(reader)@,
            header_block(start, Seq::empty()) == header_block(
                reader@,
                header_map_entries(headers),
            ),
            fields_read(start, Seq::empty()) == fields_read(reader@, header_map_entries(headers)),
            header_block(start, Seq::empty()) matches Ok(read) ==> fields_read(
                start,
                Seq::empty(),
            ) == read.0,
            names_are_distinct(header_map_entries(headers)),
        decreases reader@.len(),
    {
        let ghost before = reader@;
        let ghost entries = header_map_entries(headers);
        proof {
            lemma_line_end(before, 0);
            if before.len() == 0 {
                assert(first_line(before) == Seq::<u8>::empty());
                assert(after_first_line(before) == before);
                assert(decode_utf8(Seq::<u8>::empty()) == Seq::<char>::empty());
            }
        }
        let line = match reader.read_line() {
            Ok(line) => line,
            Err(e) => {
                return Err(e);
            },
        };
        proof {
            match header_field(line@) {
                Ok(Some(field)) => {
                    lemma_with_field_distinct(entries, field.0, field.1);
                    lemma_with_field_keeps_len(entries, field.0, field.1);
                    lemma_fields_read_grows(reader@, with_field(entries, field.0, field.1));
                },
                _ => {},
            }
        }
        match header_line_step(&mut headers, line.as_str()) {
            Err(e) => {
                return Err(e);
            },
            Ok(HeaderStep::End) => {
                return Ok(headers);
            },
            Ok(HeaderStep::Skipped) => {},
            Ok(HeaderStep::Stored) => {},
        }
    }
}

/// The size that a chunk-size line announces: the line without the white space around
/// it, read as a hexadecimal number.
pub open spec fn chunk_size(line: Seq<char>) -> Result<usize, HttpError> {
    match unsigned_number(trim(line), 16, usize::MAX as nat) {
        Some(n) => Ok(n as usize),
        None => Err(HttpError::InvalidChunkSize),
    }
}

/// Parses a chunk-size line, as [`chunk_size`] says.
pub fn parse_chunk_size_line(line: &str) -> (r: Result<usize, HttpError>)
    ensures
        r == chunk_size(line@),
{
    let chars = collect_chars(line);
    let (a, b) = trim_bounds(&chars);
    match parse_unsigned(&chars, a, b, 16, usize::MAX) {
        Some(n) => Ok(n),
        None => Err(HttpError::InvalidChunkSize),
    }
}

/// What a chunk-size line asks for.
#[derive(Clone, Copy, Debug, PartialEq, Eq, Structural)]
pub enum ChunkStep {
    /// The size is zero: the body has ended.
    End,
    /// A chunk of that many bytes follows, and then CR LF.
    Data(usize),
}

/// Takes a chunk-size line: a size of zero ends the body, another size announces
/// that many bytes of data.
pub fn chunk_step(line: &str) -> (r: Result<ChunkStep, HttpError>)
    ensures
        r == match chunk_size(line@) {
            Ok(n) => Ok::<_, HttpError>(
                if n == 0 {
                    ChunkStep::End
                } else {
                    ChunkStep::Data(n)
                },
            ),
            Err(e) => Err(e),
        },
{
    match parse_chunk_size_line(line) {
        Ok(size) => if size == 0 {
            Ok(ChunkStep::End)
        } else {
            Ok(ChunkStep::Data(size))
        },
        Err(e) => Err(e),
    }
}

/// The two bytes that end the data of a chunk: carriage return, line feed.
pub open spec fn chunk_terminator() -> Seq<u8> {
    seq![13u8, 10u8]
}

/// Checks the two bytes read after the data of a chunk.
pub fn check_chunk_terminator(bytes: &[u8]) -> (r: Result<(), HttpError>)
    ensures
        r is Ok <==> bytes@ == chunk_terminator(),
        r matches Err(e) ==> e == HttpError::InvalidChunkedEncoding,
{
    if bytes.len() == 2 && bytes[0] == 13 && bytes[1] == 10 {
        assert(bytes@ =~= chunk_terminator());
        Ok(())
    } else {
        Err(HttpError::InvalidChunkedEncoding)
    }
}

/// The body that the chunked transfer coding at the start of `bytes` carries, and the
/// bytes that follow the line of the last chunk.
///
/// Each chunk is a size line, that many bytes of data, and CR LF. A chunk of size zero
/// ends the body; neither what follows its size line nor a trailer is read.
pub open spec fn chunked_body(bytes: Seq<u8>) -> Result<(Seq<u8>, Seq<u8>), HttpError>
    decreases bytes.len(),
{
    if !valid_utf8(first_line(bytes)) {
        Err(HttpError::InvalidUtf8)
    } else {
        match chunk_size(decode_utf8(first_line(bytes))) {
            Err(e) => Err(e),
            Ok(size) => {
                let rest = after_first_line(bytes);
                if size == 0 {
                    Ok((Seq::empty(), rest))
                } else if rest.len() < size + 2 {
                    Err(HttpError::UnexpectedEof)
                } else if rest.subrange(size as int, size + 2) != chunk_terminator() {
                    Err(HttpError::InvalidChunkedEncoding)
                } else {
                    proof {
                        lemma_line_end(bytes, 0);
                    }
                    match chunked_body(rest.skip(size + 2)) {
                        Ok((body, after)) => Ok((rest.take(size as int) + body, after)),
                        Err(e) => Err(e),
                    }
                }
            },
        }
    }
}

/// The chunked transfer coding fails in four ways only.
pub proof fn lemma_chunked_body_errors(bytes: Seq<u8>)
    ensures
        chunked_body(bytes) matches Err(e) ==> e == HttpError::InvalidUtf8 || e
            == HttpError::InvalidChunkSize || e == HttpError::UnexpectedEof || e
            == HttpError::InvalidChunkedEncoding,
    decreases bytes.len(),
{
    if valid_utf8(first_line(bytes)) {
        match chunk_size(decode_utf8(first_line(bytes))) {
            Err(e) => {},
            Ok(size) => {
                let rest = after_first_line(bytes);
                if size != 0 && rest.len() >= size + 2 && rest.subrange(size as int, size + 2)
                    == chunk_terminator() {
                    lemma_line_end(bytes, 0);
                    lemma_chunked_body_errors(rest.skip(size + 2));
                }
            },
        }
    }
}

/// Reads a body in the chunked transfer coding from `reader`, as [`chunked_body`] says.
pub fn read_chunked_body(reader: &mut ByteReader) -> (r: Result<Vec<u8>, HttpError>)
    ensures
        r matches Ok(body) ==> chunked_body(old(reader)@) == Ok::<_, HttpError>(
            (body@, final(reader)@),
        ),
        r matches Err(e) ==> chunked_body(old(reader)@) == Err::<(Seq<u8>, Seq<u8>), _>(e),
{
    let mut body: Vec<u8> = Vec::new();
    loop
        invariant
            chunked_body(old(reader)@) == match chunked_body(reader@) {
                Ok((more, after)) => Ok((body@ + more, after)),
                Err(e) => Err(e),
            },
        decreases reader@.len(),
    {
        let ghost before = reader@;
        let ghost done = body@;
        proof {
            lemma_line_end(before, 0);
        }
        let line = match reader.read_line() {
            Ok(line) => line,
            Err(e) => {
                return Err(e);
            },
        };
        let size = match chunk_step(line.as_str()) {
            Ok(ChunkStep::Data(size)) => size,
            Ok(ChunkStep::End) => {
                assert(done + Seq::<u8>::empty() == done);
                return Ok(body);
            },
            Err(e) => {
                return Err(e);
            },
        };
        let ghost rest = reader@;
        let mut chunk = match reader.read_exact(size) {
            Ok(chunk) => chunk,
            Err(e) => {
                return Err(e);
            },
        };
        let crlf = match reader.read_exact(2) {
            Ok(crlf) => crlf,
            Err(e) => {
                return Err(e);
            },
        };
        assert(crlf@ == rest.subrange(size as int, size + 2));
        assert(reader@ == rest.skip(size + 2));
        match check_chunk_terminator(crlf.as_slice()) {
            Ok(()) => {},
            Err(e) => {
                return Err(e);
            },
        }
        body.append(&mut chunk);
        proof {
            match chunked_body(reader@) {
                Ok((more, after)) => {
                    assert(done + (rest.take(size as int) + more) == (done + rest.take(
                        size as int,
                    )) + more);
                },
                Err(e) => {},
            }
        }
    }
}

/// How the end of a response body is found.
#[derive(Clone, Copy, Debug, PartialEq, Eq, Structural)]
pub enum BodyFraming {
    /// The body is the given number of bytes.
    ContentLength(usize),
    /// The body comes in the chunked transfer coding.
    Chunked,
    /// There is no body: the connection changes protocol.
    Empty,
    /// The body goes on until the stream ends.
    UntilClose,
}

/// The framing that a header collection asks for. `content-length` goes before
/// `transfer-encoding`, and that before `connection`; without any of them the body
/// goes on until the stream ends.
///
/// A `content-length` must be a decimal number. A `transfer-encoding` must be exactly
/// `chunked`. A `connection` of `upgrade`, in any case, means that there is no body.
pub open spec fn body_framing(entries: Seq<(Seq<char>, Seq<u8>)>) -> Result<
    BodyFraming,
    HttpError,
> {
    match lookup(entries, "content-length"@) {
        Some(value) => if all_visible_ascii(value) {
            match unsigned_number(ascii_text(value), 10, usize::MAX as nat) {
                Some(n) => Ok(BodyFraming::ContentLength(n as usize)),
                None => Err(HttpError::InvalidContentLength),
            }
        } else {
            Err(HttpError::InvalidContentLength)
        },
        None => match lookup(entries, "transfer-encoding"@) {
            Some(value) => if value == encode_utf8("chunked"@) {
                Ok(BodyFraming::Chunked)
            } else {
                Err(HttpError::UnsupportedTransferEncoding)
            },
            None => match lookup(entries, "connection"@) {
                Some(value) => if same_ignoring_case(value, encode_utf8("upgrade"@)) {
                    Ok(BodyFraming::Empty)
                } else {
                    Ok(BodyFraming::UntilClose)
                },
                None => Ok(BodyFraming::UntilClose),
            },
        },
    }
}

/// The three header names that decide the framing are lower-case header names.
proof fn lemma_framing_names()
    ensures
        is_header_name("content-length"@),
        ascii_lowercase("content-length"@) == "content-length"@,
        is_header_name("transfer-encoding"@),
        ascii_lowercase("transfer-encoding"@) == "transfer-encoding"@,
        is_header_name("connection"@),
        ascii_lowercase("connection"@) == "connection"@,
{
    reveal_strlit("content-length");
    reveal_strlit("transfer-encoding");
    reveal_strlit("connection");
    assert(ascii_lowercase("content-length"@) =~= "content-length"@);
    assert(ascii_lowercase("transfer-encoding"@) =~= "transfer-encoding"@);
    assert(ascii_lowercase("connection"@) =~= "connection"@);
}

/// Chooses the framing of the body from the headers, as [`body_framing`] says.
pub fn select_body_framing(headers: &HeaderMap<HeaderValue>) -> (r: Result<
    BodyFraming,
    HttpError,
>)
    ensures
        r == body_framing(header_map_entries(*headers)),
{
    proof {
        lemma_framing_names();
    }
    if let Some(value) = header_map_get(headers, "content-length") {
        let text = match header_value_to_str(value) {
            Ok(text) => text,
            Err(_) => {
                return Err(HttpError::InvalidContentLength);
            },
        };
        let chars = collect_chars(text);
        assert(chars@.subrange(0, chars.len() as int) == chars@);
        return match parse_unsigned(&chars, 0, chars.len(), 10, usize::MAX) {
            Some(n) => Ok(BodyFraming::ContentLength(n)),
            None => Err(HttpError::InvalidContentLength),
        };
    }
    if let Some(value) = header_map_get(headers, "transfer-encoding") {
        return if bytes_equal(header_value_as_bytes(value), "chunked".as_bytes()) {
            Ok(BodyFraming::Chunked)
        } else {
            Err(HttpError::UnsupportedTransferEncoding)
        };
    }
    if let Some(value) = header_map_get(headers, "connection") {
        if bytes_equal_ignoring_case(header_value_as_bytes(value), "upgrade".as_bytes()) {
            return Ok(BodyFraming::Empty);
        }
    }
    Ok(BodyFraming::UntilClose)
}

/// The body that `framing` finds at the start of `bytes`, and the bytes after it.
pub open spec fn framed_body(framing: BodyFraming, bytes: Seq<u8>) -> Result<
    (Seq<u8>, Seq<u8>),
    HttpError,
> {
    match framing {
        BodyFraming::ContentLength(n) => if n <= bytes.len() {
            Ok((bytes.take(n as int), bytes.skip(n as int)))
        } else {
            Err(HttpError::UnexpectedEof)
        },
        BodyFraming::Chunked => chunked_body(bytes),
        BodyFraming::Empty => Ok((Seq::empty(), bytes)),
        BodyFraming::UntilClose => Ok((bytes, Seq::empty())),
    }
}

/// The body of a response with the header fields `entries`, at the start of `bytes`,
/// and the bytes after it.
pub open spec fn response_body(entries: Seq<(Seq<char>, Seq<u8>)>, bytes: Seq<u8>) -> Result<
    (Seq<u8>, Seq<u8>),
    HttpError,
> {
    match body_framing(entries) {
        Ok(framing) => framed_body(framing, bytes),
        Err(e) => Err(e),
    }
}

/// Reads a body from `reader` under the given framing, as [`framed_body`] says.
pub fn read_framed_body(reader: &mut ByteReader, framing: BodyFraming) -> (r: Result<
    Vec<u8>,
    HttpError,
>)
    ensures
        r matches Ok(body) ==> framed_body(framing, old(reader)@) == Ok::<_, HttpError>(
            (body@, final(reader)@),
        ),
        r matches Err(e) ==> framed_body(framing, old(reader)@) == Err::<(Seq<u8>, Seq<u8>), _>(
            e,
        ),
{
    match framing {
        BodyFraming::ContentLength(n) => reader.read_exact(n),
        BodyFraming::Chunked => read_chunked_body(reader),
        BodyFraming::Empty => Ok(Vec::new()),
        BodyFraming::UntilClose => Ok(reader.read_to_end()),
    }
}

/// Reads the body of a response from `reader`, framed as `headers` ask.
pub fn read_response_body(reader: &mut ByteReader, headers: &HeaderMap<HeaderValue>) -> (r:
    Result<Vec<u8>, HttpError>)
    ensures
        r matches Ok(body) ==> response_body(header_map_entries(*headers), old(reader)@) == Ok::<
            _,
            HttpError,
        >((body@, final(reader)@)),
        r matches Err(e) ==> response_body(header_map_entries(*headers), old(reader)@) == Err::<
            (Seq<u8>, Seq<u8>),
            _,
        >(e),
{
    match select_body_framing(headers) {
        Ok(framing) => read_framed_body(reader, framing),
        Err(e) => Err(e),
    }
}

/// A response as received.
#[derive(Debug)]
pub struct Response {
    /// The protocol version of the status line.
    pub version: Version,
    /// The status code, from 100 to 599.
    pub status: u16,
    /// The header fields.
    pub headers: HeaderMap<HeaderValue>,
    /// The body.
    pub body: Vec<u8>,
}

/// What a response holds.
pub struct ResponseParts {
    /// The protocol version.
    pub version: Version,
    /// The status code.
    pub status: u16,
    /// The header fields, in iteration order.
    pub fields: Seq<(Seq<char>, Seq<u8>)>,
    /// The body.
    pub body: Seq<u8>,
}

impl View for Response {
    type V = ResponseParts;

    open spec fn view(&self) -> ResponseParts {
        ResponseParts {
            version: self.version,
            status: self.status,
            fields: header_map_entries(self.headers),
            body: self.body@,
        }
    }
}

impl Response {
    /// Whether this response is one that can be read from a stream: the status code
    /// is one that a status line can carry, and no two fields share a name.
    pub open spec fn well_formed(self) -> bool {
        &&& 100 <= self.status <= MAX_STATUS_CODE
        &&& names_are_distinct(header_map_entries(self.headers))
    }
}

/// The response at the start of `bytes`, and the bytes after it: a status line, a
/// header block, and a body framed as the headers ask.
pub open spec fn response(bytes: Seq<u8>) -> Result<(ResponseParts, Seq<u8>), HttpError> {
    if !valid_utf8(first_line(bytes)) {
        Err(HttpError::InvalidUtf8)
    } else {
        match status_line(decode_utf8(first_line(bytes))) {
            Err(e) => Err(e),
            Ok((version, status)) => match header_block(after_first_line(bytes), Seq::empty()) {
                Err(e) => Err(e),
                Ok((fields, rest)) => match response_body(fields, rest) {
                    Err(e) => Err(e),
                    Ok((body, after)) => Ok(
                        (ResponseParts { version, status, fields, body }, after),
                    ),
                },
            },
        }
    }
}

/// Reads one response from `reader`: status line, header block and body.
///
/// The result is the response that [`response`] describes. The header collection
/// itself may refuse a field, but only once it holds [`HEADER_MAP_SAFE_LEN`] fields: a
/// response with fewer fields is never refused.
pub fn read_response(reader: &mut ByteReader) -> (r: Result<Response, HttpError>)
    ensures
        r matches Ok(received) ==> received.well_formed() && response(old(reader)@) == Ok::<
            _,
            HttpError,
        >((received@, final(reader)@)),
        r matches Err(e) ==> if e == HttpError::TooManyHeaders {
            &&& fields_read(after_first_line(old(reader)@), Seq::empty()).len()
                >= HEADER_MAP_SAFE_LEN
            &&& response(old(reader)@) matches Ok(read) ==> read.0.fields.len()
                >= HEADER_MAP_SAFE_LEN
        } else {
            response(old(reader)@) == Err::<(ResponseParts, Seq<u8>), _>(e)
        },
{
    let line = read_response_status_line(reader)?;
    let (version, status) = parse_response_status_line(line.as_str())?;
    let headers = read_response_headers(reader)?;
    proof {
        lemma_chunked_body_errors(reader@);
    }
    let body = read_response_body(reader, &headers)?;
    Ok(Response { version, status, headers, body })
}

} // verus!
