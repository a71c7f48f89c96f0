//! What holds of the library as a whole: statements that relate its functions to each
//! other, each proved from the definitions the contracts use.

use vstd::prelude::*;
use vstd::utf8::{
    decode_utf8, encode_utf8, encode_utf8_decode_utf8, encode_utf8_valid_utf8, is_ascii_chars,
    is_ascii_chars_encode_utf8, valid_utf8,
};

use crate::error::{ErrorKind, HttpError};
use crate::fields::{
    last_value, lemma_last_field_wins, lemma_with_fields_distinct, lemma_with_fields_twice,
    lemma_with_new_fields,
};
use crate::header::{
    all_visible_ascii, ascii_lowercase, ascii_text, header_map_entries, is_header_name,
    is_header_value_text, is_name_char, is_visible_ascii, lookup, names_are_distinct,
    with_field, with_fields, HEADER_MAP_SAFE_LEN,
};
use crate::request::{
    header_line, header_lines, is_word, names_are_header_names, request_head, request_line,
    values_are_text, Request,
};
use crate::reader::{after_first_line, first_line, lemma_line_end, line_end};
use crate::response::{
    body_framing, chunk_size, chunk_terminator, chunked_body, fields_read, header_block,
    header_field, is_block_end, is_header_reading, lemma_chunked_body_errors,
    lemma_fields_read_of_block, name_source, response, response_body, status_line, BodyFraming,
};
use crate::text::{
    all_digits, digit_value, digits_value, find_separator, is_whitespace,
    lemma_skip_whitespace_run, lemma_skip_word_run, lemma_words_from, same_ignoring_case, trim,
    trim_end_index, trim_line_end, unsigned_number, words, words_from,
};
use crate::version::Version;

verus! {

/// The character that writes the digit `d`.
pub open spec fn digit_char(d: int) -> char {
    ((48 + d) as u8) as char
}

/// The three decimal digits of a status code.
pub open spec fn status_code_digits(code: u16) -> Seq<char> {
    seq![
        digit_char(code as int / 100),
        digit_char(code as int / 10 % 10),
        digit_char(code as int % 10),
    ]
}

/// A status line: version name, status code and reason, separated by one space, and
/// CR LF.
pub open spec fn status_line_text(version: Version, code: u16, reason: Seq<char>) -> Seq<char> {
    version.spec_request_name() + " "@ + status_code_digits(code) + " "@ + reason + "\r\n"@
}

/// Every status line made of a supported version, a status code from 100 to 599 and
/// any reason is parsed into that version and that code.
pub proof fn lemma_status_line_reads_back(version: Version, code: u16, reason: Seq<char>)
    requires
        version == Version::Http10 || version == Version::Http11 || version == Version::H2,
        100 <= code <= 599,
    ensures
        status_line(status_line_text(version, code, reason)) == Ok::<_, HttpError>(
            (version, code),
        ),
{
    lemma_status_line_words(version, code, reason);
}

/// A status line with a code of three digits above 599 is refused, whatever its
/// version and reason.
pub proof fn lemma_status_line_refuses_codes_above_599(
    version: Version,
    code: u16,
    reason: Seq<char>,
)
    requires
        version == Version::Http10 || version == Version::Http11 || version == Version::H2,
        600 <= code <= 999,
    ensures
        status_line(status_line_text(version, code, reason)) == Err::<(Version, u16), _>(
            HttpError::InvalidStatusCode,
        ),
{
    lemma_status_line_words(version, code, reason);
}

/// The first two words of a status line are the version name and the digits of the
/// code.
proof fn lemma_status_line_words(version: Version, code: u16, reason: Seq<char>)
    requires
        version == Version::Http10 || version == Version::Http11 || version == Version::H2,
        100 <= code <= 999,
    ensures
        words(status_line_text(version, code, reason)).len() >= 2,
        Version::from_status_word(words(status_line_text(version, code, reason))[0]) == Some(
            version,
        ),
        unsigned_number(words(status_line_text(version, code, reason))[1], 10, 65535) == Some(
            code as nat,
        ),
{
    reveal_strlit("HTTP/1.0");
    reveal_strlit("HTTP/1.1");
    reveal_strlit("HTTP/2.0");
    reveal_strlit(" ");
    reveal_strlit("\r\n");
    let name = version.spec_request_name();
    let digits = status_code_digits(code);
    let s = status_line_text(version, code, reason);
    assert(name.len() == 8);
    assert(s.len() == 15 + reason.len());
    assert forall|k: int| 0 <= k < 8 implies !is_whitespace(#[trigger] s[k]) by {
        assert(s[k] == name[k]);
    }
    assert(s[8] == ' ');
    assert(s[9] == digits[0] && s[10] == digits[1] && s[11] == digits[2]);
    assert(s[12] == ' ');
    lemma_skip_whitespace_run(s, 0, 0);
    lemma_skip_word_run(s, 0, 8);
    lemma_skip_whitespace_run(s, 8, 9);
    lemma_skip_word_run(s, 9, 12);
    lemma_words_from(s, 0);
    lemma_words_from(s, 8);
    assert(words(s)[0] == s.subrange(0, 8));
    assert(words(s)[1] == s.subrange(9, 12));
    assert(s.subrange(0, 8) =~= name);
    assert(s.subrange(9, 12) =~= digits);
    assert("HTTP/1.0"@[7] == '0' && "HTTP/1.1"@[7] == '1' && "HTTP/2.0"@[5] == '2');
    assert("HTTP/1.0"@[5] == '1' && "HTTP/1.1"@[5] == '1');
    assert(Version::from_status_word(name) == Some(version));
    let a = code as int / 100;
    let b = code as int / 10 % 10;
    let c = code as int % 10;
    assert(digit_value(digits[0], 10) == Some(a as nat));
    assert(digit_value(digits[1], 10) == Some(b as nat));
    assert(digit_value(digits[2], 10) == Some(c as nat));
    assert(all_digits(digits, 10));
    let two = digits.drop_last();
    let one = two.drop_last();
    assert(one.drop_last().len() == 0);
    assert(digits_value(one, 10) == a) by {
        assert(digits_value(one.drop_last(), 10) == 0);
        assert(one.last() == digits[0]);
    }
    assert(digits_value(two, 10) == a * 10 + b) by {
        assert(two.last() == digits[1]);
    }
    assert(digits_value(digits, 10) == code) by {
        assert(digits.last() == digits[2]);
    }
    assert(unsigned_number(digits, 10, 65535) == Some(code as nat));
}

/// A status line whose second word writes a number below 100 or above 599 is refused.
pub proof fn lemma_status_code_out_of_range_fails(line: Seq<char>, code: nat)
    requires
        words(line).len() >= 2,
        Version::from_status_word(words(line)[0]) is Some,
        unsigned_number(words(line)[1], 10, 65535) == Some(code),
        code < 100 || code > 599,
    ensures
        status_line(line) == Err::<(Version, u16), _>(HttpError::InvalidStatusCode),
{
}

/// A line with fewer than two words is no status line.
pub proof fn lemma_short_status_line_fails(line: Seq<char>)
    requires
        words(line).len() < 2,
    ensures
        status_line(line) == Err::<(Version, u16), _>(HttpError::MalformedStatusLine),
{
}

/// Two readings of the same header block agree: both fail with the same error, or
/// both give the same fields and leave the same bytes. The one exception is the
/// refusal of the collection, which one reading may meet and the other not; it cannot
/// come where the block brings the collection to fewer than [`HEADER_MAP_SAFE_LEN`]
/// fields.
pub proof fn lemma_header_readings_agree(
    bytes: Seq<u8>,
    first: Result<(Seq<(Seq<char>, Seq<u8>)>, Seq<u8>), HttpError>,
    second: Result<(Seq<(Seq<char>, Seq<u8>)>, Seq<u8>), HttpError>,
)
    requires
        is_header_reading(bytes, first),
        is_header_reading(bytes, second),
    ensures
        first == second || first == Err::<(Seq<(Seq<char>, Seq<u8>)>, Seq<u8>), _>(
            HttpError::TooManyHeaders,
        ) || second == Err::<(Seq<(Seq<char>, Seq<u8>)>, Seq<u8>), _>(HttpError::TooManyHeaders),
        fields_read(bytes, Seq::empty()).len() < HEADER_MAP_SAFE_LEN ==> first == second,
        first is Ok && second is Ok ==> first == second,
{
}

/// A block that fails is failed by every reading, and a block that ends with fewer
/// than [`HEADER_MAP_SAFE_LEN`] fields is read by every reading.
pub proof fn lemma_header_reading_succeeds(
    bytes: Seq<u8>,
    outcome: Result<(Seq<(Seq<char>, Seq<u8>)>, Seq<u8>), HttpError>,
)
    requires
        is_header_reading(bytes, outcome),
    ensures
        header_block(bytes, Seq::empty()) is Err ==> outcome is Err,
        header_block(bytes, Seq::empty()) matches Ok(read) ==> read.0.len() < HEADER_MAP_SAFE_LEN
            ==> outcome == Ok::<_, HttpError>(read),
{
    lemma_fields_read_of_block(bytes, Seq::empty());
}

/// A header block has one result: the bytes determine the fields and what follows the
/// block.
pub proof fn lemma_header_block_reads_the_same(
    bytes: Seq<u8>,
    first: (Seq<(Seq<char>, Seq<u8>)>, Seq<u8>),
    second: (Seq<(Seq<char>, Seq<u8>)>, Seq<u8>),
)
    requires
        header_block(bytes, Seq::empty()) == Ok::<_, HttpError>(first),
        header_block(bytes, Seq::empty()) == Ok::<_, HttpError>(second),
    ensures
        first == second,
{
}

/// The fields that the lines of the header block at the start of `bytes` hold, in the
/// order of the lines, and the bytes that follow the block.
pub open spec fn block_fields(bytes: Seq<u8>) -> Result<
    (Seq<(Seq<char>, Seq<u8>)>, Seq<u8>),
    HttpError,
>
    decreases bytes.len(),
{
    if bytes.len() == 0 {
        Ok((Seq::empty(), bytes))
    } else if !valid_utf8(first_line(bytes)) {
        Err(HttpError::InvalidUtf8)
    } else {
        let line = decode_utf8(first_line(bytes));
        if is_block_end(line) {
            Ok((Seq::empty(), after_first_line(bytes)))
        } else {
            proof {
                lemma_line_end(bytes, 0);
            }
            match header_field(line) {
                Err(e) => Err(e),
                Ok(None) => block_fields(after_first_line(bytes)),
                Ok(Some(field)) => match block_fields(after_first_line(bytes)) {
                    Ok((fields, rest)) => Ok((seq![field] + fields, rest)),
                    Err(e) => Err(e),
                },
            }
        }
    }
}

/// Reading a header block into a collection sets the fields of its lines, one after
/// the other.
pub proof fn lemma_header_block_sets_fields(bytes: Seq<u8>, held: Seq<(Seq<char>, Seq<u8>)>)
    ensures
        header_block(bytes, held) == match block_fields(bytes) {
            Ok((fields, rest)) => Ok((with_fields(held, fields), rest)),
            Err(e) => Err(e),
        },
    decreases bytes.len(),
{
    if bytes.len() != 0 && valid_utf8(first_line(bytes)) {
        let line = decode_utf8(first_line(bytes));
        if !is_block_end(line) {
            lemma_line_end(bytes, 0);
            let after = after_first_line(bytes);
            match header_field(line) {
                Err(e) => {},
                Ok(None) => {
                    lemma_header_block_sets_fields(after, held);
                },
                Ok(Some(field)) => {
                    lemma_header_block_sets_fields(after, with_field(held, field.0, field.1));
                    match block_fields(after) {
                        Ok((fields, rest)) => {
                            let all = seq![field] + fields;
                            assert(all[0] == field);
                            assert(all.drop_first() =~= fields);
                        },
                        Err(e) => {},
                    }
                },
            }
        }
    }
}

/// Reading a header block is idempotent: read again into the collection that the
/// first reading gave, the block leaves that collection as it is.
pub proof fn lemma_header_block_read_again(
    bytes: Seq<u8>,
    entries: Seq<(Seq<char>, Seq<u8>)>,
    rest: Seq<u8>,
)
    requires
        header_block(bytes, Seq::empty()) == Ok::<_, HttpError>((entries, rest)),
    ensures
        header_block(bytes, entries) == Ok::<_, HttpError>((entries, rest)),
{
    lemma_header_block_sets_fields(bytes, Seq::empty());
    lemma_header_block_sets_fields(bytes, entries);
    match block_fields(bytes) {
        Ok((fields, after)) => {
            lemma_with_fields_twice(fields);
        },
        Err(e) => {},
    }
}

/// The last write wins: once a header block is read, under each name stands the value
/// of the last line with that name, and a name that no line has is not held.
pub proof fn lemma_header_block_last_wins(
    bytes: Seq<u8>,
    entries: Seq<(Seq<char>, Seq<u8>)>,
    rest: Seq<u8>,
    name: Seq<char>,
)
    requires
        header_block(bytes, Seq::empty()) == Ok::<_, HttpError>((entries, rest)),
    ensures
        block_fields(bytes) matches Ok(lines) && lookup(entries, name) == last_value(
            lines.0,
            name,
        ),
{
    lemma_header_block_sets_fields(bytes, Seq::empty());
    match block_fields(bytes) {
        Ok((fields, after)) => {
            lemma_last_field_wins(Seq::empty(), fields, name);
        },
        Err(e) => {},
    }
}

/// A header block that is read holds distinct names: no name comes twice.
pub proof fn lemma_header_block_names_are_distinct(
    bytes: Seq<u8>,
    entries: Seq<(Seq<char>, Seq<u8>)>,
    rest: Seq<u8>,
)
    requires
        header_block(bytes, Seq::empty()) == Ok::<_, HttpError>((entries, rest)),
    ensures
        names_are_distinct(entries),
{
    lemma_header_block_sets_fields(bytes, Seq::empty());
    match block_fields(bytes) {
        Ok((fields, after)) => {
            lemma_with_fields_distinct(Seq::empty(), fields);
        },
        Err(e) => {},
    }
}

/// A header block fails in three ways only.
pub proof fn lemma_header_block_errors(bytes: Seq<u8>, held: Seq<(Seq<char>, Seq<u8>)>)
    ensures
        header_block(bytes, held) matches Err(e) ==> e == HttpError::InvalidUtf8 || e
            == HttpError::InvalidHeaderName || e == HttpError::InvalidHeaderValue,
    decreases bytes.len(),
{
    if bytes.len() != 0 && valid_utf8(first_line(bytes)) {
        let line = decode_utf8(first_line(bytes));
        if !is_block_end(line) {
            lemma_line_end(bytes, 0);
            match header_field(line) {
                Err(e) => {},
                Ok(None) => {
                    lemma_header_block_errors(after_first_line(bytes), held);
                },
                Ok(Some(field)) => {
                    lemma_header_block_errors(
                        after_first_line(bytes),
                        with_field(held, field.0, field.1),
                    );
                },
            }
        }
    }
}

/// Whatever fails a response, it is the wire format, a feature this client lacks, or
/// the stream: never the request.
pub proof fn lemma_response_errors(bytes: Seq<u8>)
    ensures
        response(bytes) matches Err(e) ==> e.spec_kind() == ErrorKind::Parse || e.spec_kind()
            == ErrorKind::UnsupportedFeature || e.spec_kind() == ErrorKind::Transport,
{
    if valid_utf8(first_line(bytes)) {
        match status_line(decode_utf8(first_line(bytes))) {
            Err(e) => {},
            Ok(_) => {
                lemma_header_block_errors(after_first_line(bytes), Seq::empty());
                match header_block(after_first_line(bytes), Seq::empty()) {
                    Err(e) => {},
                    Ok((fields, rest)) => {
                        lemma_chunked_body_errors(rest);
                    },
                }
            },
        }
    }
}

/// Under a `content-length` of `n`, a stream of exactly `n` bytes is the body, a
/// longer stream gives its first `n` bytes, and a shorter one fails.
pub proof fn lemma_content_length_framing(
    entries: Seq<(Seq<char>, Seq<u8>)>,
    value: Seq<u8>,
    n: usize,
    bytes: Seq<u8>,
)
    requires
        lookup(entries, "content-length"@) == Some(value),
        all_visible_ascii(value),
        unsigned_number(ascii_text(value), 10, usize::MAX as nat) == Some(n as nat),
    ensures
        body_framing(entries) == Ok::<_, HttpError>(BodyFraming::ContentLength(n)),
        bytes.len() == n ==> response_body(entries, bytes) == Ok::<_, HttpError>(
            (bytes, Seq::<u8>::empty()),
        ),
        bytes.len() >= n ==> response_body(entries, bytes) == Ok::<_, HttpError>(
            (bytes.take(n as int), bytes.skip(n as int)),
        ),
        bytes.len() < n ==> response_body(entries, bytes) == Err::<(Seq<u8>, Seq<u8>), _>(
            HttpError::UnexpectedEof,
        ),
{
    if bytes.len() == n {
        assert(bytes.take(n as int) == bytes);
        assert(bytes.skip(n as int) == Seq::<u8>::empty());
    }
}

/// A chunk whose data is followed by two bytes other than CR LF fails the body.
pub proof fn lemma_chunk_needs_terminator(bytes: Seq<u8>, size: usize)
    requires
        valid_utf8(first_line(bytes)),
        chunk_size(decode_utf8(first_line(bytes))) == Ok::<_, HttpError>(size),
        size > 0,
        after_first_line(bytes).len() >= size + 2,
        after_first_line(bytes).subrange(size as int, size + 2) != chunk_terminator(),
    ensures
        chunked_body(bytes) == Err::<(Seq<u8>, Seq<u8>), _>(HttpError::InvalidChunkedEncoding),
{
}

/// A chunk of size zero ends the body at once: what follows its size line is left
/// in the stream.
pub proof fn lemma_last_chunk_ends_body(bytes: Seq<u8>)
    requires
        valid_utf8(first_line(bytes)),
        chunk_size(decode_utf8(first_line(bytes))) == Ok::<_, HttpError>(0usize),
    ensures
        chunked_body(bytes) == Ok::<_, HttpError>((Seq::<u8>::empty(), after_first_line(bytes))),
{
}

/// With `connection: upgrade`, in any case, and neither `content-length` nor
/// `transfer-encoding`, the body is empty and no byte of the stream is read.
pub proof fn lemma_upgrade_reads_nothing(
    entries: Seq<(Seq<char>, Seq<u8>)>,
    value: Seq<u8>,
    bytes: Seq<u8>,
)
    requires
        lookup(entries, "content-length"@) is None,
        lookup(entries, "transfer-encoding"@) is None,
        lookup(entries, "connection"@) == Some(value),
        same_ignoring_case(value, encode_utf8("upgrade"@)),
    ensures
        response_body(entries, bytes) == Ok::<_, HttpError>((Seq::<u8>::empty(), bytes)),
{
}

/// Without `content-length`, `transfer-encoding` and `connection`, the body is all
/// that the stream holds.
pub proof fn lemma_unframed_body_runs_to_the_end(entries: Seq<(Seq<char>, Seq<u8>)>, bytes: Seq<u8>)
    requires
        lookup(entries, "content-length"@) is None,
        lookup(entries, "transfer-encoding"@) is None,
        lookup(entries, "connection"@) is None,
    ensures
        response_body(entries, bytes) == Ok::<_, HttpError>((bytes, Seq::<u8>::empty())),
{
}

/// Whether `entries` can be written as header lines: each name a header name, each
/// value visible ASCII.
pub open spec fn are_wire_fields(entries: Seq<(Seq<char>, Seq<u8>)>) -> bool {
    forall|i: int|
        0 <= i < entries.len() ==> is_header_name((#[trigger] entries[i]).0) && all_visible_ascii(
            entries[i].1,
        )
}

/// `entries` with each name in lower case.
pub open spec fn lower_names(entries: Seq<(Seq<char>, Seq<u8>)>) -> Seq<(Seq<char>, Seq<u8>)> {
    Seq::new(entries.len(), |i: int| (ascii_lowercase(entries[i].0), entries[i].1))
}

/// The bytes of an ASCII text are its characters, one byte each.
proof fn lemma_ascii_bytes(s: Seq<char>)
    requires
        is_ascii_chars(s),
    ensures
        encode_utf8(s).len() == s.len(),
        forall|i: int| 0 <= i < s.len() ==> #[trigger] encode_utf8(s)[i] == s[i] as u8,
        valid_utf8(encode_utf8(s)),
        decode_utf8(encode_utf8(s)) == s,
{
    is_ascii_chars_encode_utf8(s);
    encode_utf8_valid_utf8(s);
    encode_utf8_decode_utf8(s);
}

/// The bytes of an ASCII text in two parts are the bytes of the parts.
proof fn lemma_ascii_bytes_concat(a: Seq<char>, b: Seq<char>)
    requires
        is_ascii_chars(a),
        is_ascii_chars(b),
    ensures
        is_ascii_chars(a + b),
        encode_utf8(a + b) == encode_utf8(a) + encode_utf8(b),
{
    assert(is_ascii_chars(a + b)) by {
        assert forall|i: int| 0 <= i < (a + b).len() implies '\0' <= #[trigger] (a + b)[i]
            <= '\u{7f}' by {
            if i < a.len() {
                assert((a + b)[i] == a[i]);
            } else {
                assert((a + b)[i] == b[i - a.len()]);
            }
        }
    }
    lemma_ascii_bytes(a);
    lemma_ascii_bytes(b);
    lemma_ascii_bytes(a + b);
    assert(encode_utf8(a + b) =~= encode_utf8(a) + encode_utf8(b));
}

/// A run of bytes without a line feed, followed by a line feed, is one line.
proof fn lemma_line_end_run(bytes: Seq<u8>, from: int, end: int)
    requires
        0 <= from < end <= bytes.len(),
        forall|k: int| from <= k < end - 1 ==> #[trigger] bytes[k] != 10,
        bytes[end - 1] == 10,
    ensures
        line_end(bytes, from) == end,
    decreases end - from,
{
    if from < end - 1 {
        lemma_line_end_run(bytes, from + 1, end);
    }
}

/// Where bytes start with an ASCII line, their first line is that line.
proof fn lemma_first_line_of_bytes(line: Seq<char>, rest: Seq<u8>)
    requires
        is_ascii_chars(line),
        line.len() > 0,
        line.last() == '\n',
        forall|i: int| 0 <= i < line.len() - 1 ==> #[trigger] line[i] != '\n',
    ensures
        first_line(encode_utf8(line) + rest) == encode_utf8(line),
        after_first_line(encode_utf8(line) + rest) == rest,
        valid_utf8(encode_utf8(line)),
        decode_utf8(encode_utf8(line)) == line,
{
    lemma_ascii_bytes(line);
    let bytes = encode_utf8(line) + rest;
    let n = line.len() as int;
    assert forall|k: int| 0 <= k < n - 1 implies #[trigger] bytes[k] != 10 by {
        assert(bytes[k] == encode_utf8(line)[k]);
        assert(line[k] != '\n');
    }
    assert(bytes[n - 1] == 10) by {
        assert(bytes[n - 1] == encode_utf8(line)[n - 1]);
    }
    lemma_line_end_run(bytes, 0, n);
    assert(bytes.take(n) =~= encode_utf8(line));
    assert(bytes.skip(n) =~= rest);
}

/// Where an ASCII text starts with a line, the first line of its bytes is that line.
proof fn lemma_first_line_of_text(line: Seq<char>, rest: Seq<char>)
    requires
        is_ascii_chars(line),
        is_ascii_chars(rest),
        line.len() > 0,
        line.last() == '\n',
        forall|i: int| 0 <= i < line.len() - 1 ==> #[trigger] line[i] != '\n',
    ensures
        first_line(encode_utf8(line + rest)) == encode_utf8(line),
        after_first_line(encode_utf8(line + rest)) == encode_utf8(rest),
        valid_utf8(encode_utf8(line)),
        decode_utf8(encode_utf8(line)) == line,
        encode_utf8(line + rest).len() > 0,
{
    lemma_ascii_bytes_concat(line, rest);
    lemma_ascii_bytes(line);
    lemma_first_line_of_bytes(line, encode_utf8(rest));
}

/// Where `: ` stands at `k` and nowhere before, it is found there.
proof fn lemma_find_separator_run(s: Seq<char>, i: int, k: int)
    requires
        0 <= i <= k,
        k + 1 < s.len(),
        s[k] == ':' && s[k + 1] == ' ',
        forall|j: int| i <= j < k ==> #[trigger] s[j] != ':',
    ensures
        find_separator(s, i) == Some(k),
    decreases k - i,
{
    if i < k {
        lemma_find_separator_run(s, i + 1, k);
    }
}

/// A text that does not end in CR or LF, followed by CR LF, is that text once the
/// line's ending is left out.
proof fn lemma_trim_line_end_of_line(text: Seq<char>)
    requires
        text.len() > 0 ==> text.last() != '\r' && text.last() != '\n',
    ensures
        trim_line_end(text + seq!['\r', '\n']) == text,
{
    let line = text + seq!['\r', '\n'];
    let shorter = line.drop_last();
    assert(line.last() == '\n');
    assert(shorter.last() == '\r');
    assert(shorter.drop_last() =~= text);
    assert(trim_line_end(shorter) == trim_line_end(text));
    assert(trim_line_end(text) == text);
}

/// One serialized header line is an ASCII line, and is read back as its field.
proof fn lemma_header_line_reads_back(name: Seq<char>, value: Seq<u8>)
    requires
        is_header_name(name),
        all_visible_ascii(value),
    ensures
        is_ascii_chars(header_line((name, value))),
        header_line((name, value)).len() > 2,
        header_line((name, value)).last() == '\n',
        forall|i: int|
            0 <= i < header_line((name, value)).len() - 1 ==> #[trigger] header_line(
                (name, value),
            )[i] != '\n',
        header_field(header_line((name, value))) == Ok::<_, HttpError>(
            Some((ascii_lowercase(name), value)),
        ),
{
    reveal_strlit(": ");
    reveal_strlit("\r\n");
    let text = ascii_text(value);
    let line = header_line((name, value));
    let k = name.len() as int;
    assert(": "@ =~= seq![':', ' ']);
    assert("\r\n"@ =~= seq!['\r', '\n']);
    assert(line =~= name + seq![':', ' '] + text + seq!['\r', '\n']);
    assert(line.len() == k + 2 + text.len() + 2);
    assert forall|i: int| 0 <= i < k implies line[i] == name[i] by {}
    assert(line[k] == ':' && line[k + 1] == ' ');
    assert forall|i: int| 0 <= i < text.len() implies #[trigger] line[k + 2 + i] == text[i] by {}
    assert forall|i: int| 0 <= i < text.len() implies (#[trigger] text[i]) as u32 == value[i]
        && is_visible_ascii(value[i]) by {}
    assert(line[line.len() - 2] == '\r' && line[line.len() - 1] == '\n');
    assert(is_ascii_chars(line)) by {
        assert forall|i: int| 0 <= i < line.len() implies '\0' <= #[trigger] line[i]
            <= '\u{7f}' by {
            if i < k {
                assert(is_name_char(name[i]));
            } else if i < k + 2 {
            } else if i < k + 2 + text.len() {
                assert(line[k + 2 + (i - k - 2)] == text[i - k - 2]);
            } else {
            }
        }
    }
    assert forall|i: int| 0 <= i < line.len() - 1 implies #[trigger] line[i] != '\n' by {
        if i < k {
            assert(is_name_char(name[i]));
        } else if i < k + 2 {
        } else if i < k + 2 + text.len() {
            assert(line[k + 2 + (i - k - 2)] == text[i - k - 2]);
        } else {
        }
    }
    assert forall|j: int| 0 <= j < k implies #[trigger] line[j] != ':' by {
        assert(is_name_char(name[j]));
    }
    lemma_find_separator_run(line, 0, k);
    assert(line.take(k) =~= name);
    assert(is_ascii_chars(name)) by {
        assert forall|i: int| 0 <= i < k implies '\0' <= #[trigger] name[i] <= '\u{7f}' by {
            assert(is_name_char(name[i]));
        }
    }
    assert(name_source(name) == name);
    assert(line.skip(k + 2) =~= text + seq!['\r', '\n']);
    lemma_trim_line_end_of_line(text);
    assert(is_header_value_text(text));
    assert(is_ascii_chars(text));
    lemma_ascii_bytes(text);
    assert(encode_utf8(text) =~= value);
}

/// The lines of some fields are the line of the first, then the lines of the others.
proof fn lemma_header_lines_front(entries: Seq<(Seq<char>, Seq<u8>)>)
    requires
        entries.len() > 0,
    ensures
        header_lines(entries) == header_line(entries[0]) + header_lines(entries.drop_first()),
    decreases entries.len(),
{
    if entries.len() == 1 {
        assert(entries.drop_last().len() == 0);
        assert(entries.drop_first().len() == 0);
        assert(header_lines(entries.drop_last()) =~= Seq::<char>::empty());
        assert(header_lines(entries.drop_first()) =~= Seq::<char>::empty());
        assert(entries.last() == entries[0]);
        assert(header_lines(entries) =~= header_line(entries[0]));
        assert(header_line(entries[0]) + Seq::<char>::empty() =~= header_line(entries[0]));
    } else {
        let shorter = entries.drop_last();
        lemma_header_lines_front(shorter);
        assert(shorter[0] == entries[0]);
        assert(shorter.drop_first() =~= entries.drop_first().drop_last());
        assert(entries.drop_first().last() == entries.last());
        assert(header_lines(entries) =~= header_line(entries[0]) + header_lines(
            entries.drop_first(),
        ));
    }
}

/// The lines of request fields are ASCII.
proof fn lemma_header_lines_are_ascii(entries: Seq<(Seq<char>, Seq<u8>)>)
    requires
        are_wire_fields(entries),
    ensures
        is_ascii_chars(header_lines(entries)),
    decreases entries.len(),
{
    if entries.len() > 0 {
        let shorter = entries.drop_last();
        assert(are_wire_fields(shorter)) by {
            assert forall|i: int| 0 <= i < shorter.len() implies is_header_name(
                (#[trigger] shorter[i]).0,
            ) && all_visible_ascii(shorter[i].1) by {
                assert(shorter[i] == entries[i]);
            }
        }
        lemma_header_lines_are_ascii(shorter);
        let last = entries.last();
        assert(last == entries[entries.len() - 1]);
        lemma_header_line_reads_back(last.0, last.1);
        lemma_ascii_bytes_concat(header_lines(shorter), header_line(last));
    }
}

/// Header lines, ended by the empty line, are read as their fields, names in lower
/// case, set one after the other; what follows the empty line is left in the stream.
pub proof fn lemma_header_lines_are_read(
    entries: Seq<(Seq<char>, Seq<u8>)>,
    held: Seq<(Seq<char>, Seq<u8>)>,
    rest: Seq<u8>,
)
    requires
        are_wire_fields(entries),
    ensures
        header_block(encode_utf8(header_lines(entries) + "\r\n"@) + rest, held) == Ok::<
            _,
            HttpError,
        >((with_fields(held, lower_names(entries)), rest)),
    decreases entries.len(),
{
    reveal_strlit("\r\n");
    let end = "\r\n"@;
    assert(end =~= seq!['\r', '\n']);
    assert(is_ascii_chars(end));
    if entries.len() == 0 {
        assert(header_lines(entries) + end =~= end);
        lemma_first_line_of_bytes(end, rest);
        lemma_ascii_bytes(end);
        assert(lower_names(entries) =~= Seq::<(Seq<char>, Seq<u8>)>::empty());
    } else {
        let first = entries[0];
        let others = entries.drop_first();
        assert(are_wire_fields(others)) by {
            assert forall|i: int| 0 <= i < others.len() implies is_header_name(
                (#[trigger] others[i]).0,
            ) && all_visible_ascii(others[i].1) by {
                assert(others[i] == entries[i + 1]);
            }
        }
        lemma_header_lines_front(entries);
        lemma_header_line_reads_back(first.0, first.1);
        lemma_header_lines_are_ascii(others);
        let line = header_line(first);
        let tail = header_lines(others) + end;
        lemma_ascii_bytes_concat(header_lines(others), end);
        lemma_ascii_bytes_concat(line, tail);
        assert(header_lines(entries) + end =~= line + tail);
        assert(encode_utf8(header_lines(entries) + end) + rest =~= encode_utf8(line) + (
        encode_utf8(tail) + rest));
        lemma_first_line_of_bytes(line, encode_utf8(tail) + rest);
        lemma_ascii_bytes(line);
        assert(!is_block_end(line));
        let lowered = lower_names(entries);
        assert(lowered[0] == (ascii_lowercase(first.0), first.1));
        assert(lowered.drop_first() =~= lower_names(others));
        lemma_header_lines_are_read(
            others,
            with_field(held, ascii_lowercase(first.0), first.1),
            rest,
        );
    }
}

/// The words of a request line are the method, the target and the version name.
proof fn lemma_request_line_words(method: Seq<char>, target: Seq<char>, version: Version)
    requires
        is_word(method),
        is_word(target),
    ensures
        words(request_line(method, target, version)) == seq![
            method,
            target,
            version.spec_request_name(),
        ],
        is_ascii_chars(request_line(method, target, version)),
        request_line(method, target, version).len() > 0,
        request_line(method, target, version).last() == '\n',
        forall|i: int|
            0 <= i < request_line(method, target, version).len() - 1 ==> #[trigger] request_line(
                method,
                target,
                version,
            )[i] != '\n',
{
    reveal_strlit("HTTP/1.0");
    reveal_strlit("HTTP/1.1");
    reveal_strlit("HTTP/2.0");
    reveal_strlit("HTTP/3.0");
    reveal_strlit(" ");
    reveal_strlit("\r\n");
    let name = version.spec_request_name();
    let s = request_line(method, target, version);
    let m = method.len() as int;
    let t = target.len() as int;
    assert(name.len() == 8);
    assert(s =~= method + seq![' '] + target + seq![' '] + name + seq!['\r', '\n']);
    assert(s.len() == m + t + 12);
    assert forall|k: int| 0 <= k < m implies #[trigger] s[k] == method[k] by {}
    assert(s[m] == ' ');
    assert forall|k: int| 0 <= k < t implies #[trigger] s[m + 1 + k] == target[k] by {}
    assert(s[m + 1 + t] == ' ');
    assert forall|k: int| 0 <= k < 8 implies #[trigger] s[m + t + 2 + k] == name[k] by {}
    assert(s[m + t + 10] == '\r' && s[m + t + 11] == '\n');
    assert forall|k: int| 0 <= k < m implies !is_whitespace(#[trigger] s[k]) by {
        assert(s[k] == method[k]);
    }
    assert forall|k: int| m + 1 <= k < m + 1 + t implies !is_whitespace(#[trigger] s[k]) by {
        assert(s[m + 1 + (k - m - 1)] == target[k - m - 1]);
    }
    assert forall|k: int| m + t + 2 <= k < m + t + 10 implies !is_whitespace(#[trigger] s[k]) by {
        assert(s[m + t + 2 + (k - m - t - 2)] == name[k - m - t - 2]);
    }
    lemma_skip_whitespace_run(s, 0, 0);
    lemma_skip_word_run(s, 0, m);
    lemma_skip_whitespace_run(s, m, m + 1);
    lemma_skip_word_run(s, m + 1, m + 1 + t);
    lemma_skip_whitespace_run(s, m + 1 + t, m + t + 2);
    lemma_skip_word_run(s, m + t + 2, m + t + 10);
    lemma_skip_whitespace_run(s, m + t + 10, m + t + 12);
    lemma_words_from(s, 0);
    lemma_words_from(s, m);
    lemma_words_from(s, m + 1 + t);
    lemma_words_from(s, m + t + 10);
    assert(s.subrange(0, m) =~= method);
    assert(s.subrange(m + 1, m + 1 + t) =~= target);
    assert(s.subrange(m + t + 2, m + t + 10) =~= name);
    assert(words_from(s, m + t + 10).len() == 0);
    assert(words_from(s, m + 1 + t).len() == 1);
    assert(words_from(s, m).len() == 2);
    assert(words(s).len() == 3);
    assert(words(s)[0] == method);
    assert(words(s)[1] == words_from(s, m)[0]);
    assert(words(s)[2] == words_from(s, m)[1]);
    assert(words_from(s, m)[1] == words_from(s, m + 1 + t)[0]);
    assert(words(s) =~= seq![method, target, name]);
    assert(is_ascii_chars(s)) by {
        assert forall|k: int| 0 <= k < s.len() implies '\0' <= #[trigger] s[k] <= '\u{7f}' by {
            if k < m {
                assert(s[k] == method[k]);
            } else if k == m {
            } else if k < m + 1 + t {
                assert(s[m + 1 + (k - m - 1)] == target[k - m - 1]);
            } else if k == m + 1 + t {
            } else if k < m + t + 10 {
                assert(s[m + t + 2 + (k - m - t - 2)] == name[k - m - t - 2]);
            } else {
            }
        }
    }
    assert forall|k: int| 0 <= k < s.len() - 1 implies #[trigger] s[k] != '\n' by {
        if k < m + t + 10 && k != m && k != m + 1 + t {
            assert(!is_whitespace(s[k]));
        }
    }
}

/// The head of a request made of words and request fields is read back as they are.
proof fn lemma_request_head_reads_back(
    method: Seq<char>,
    target: Seq<char>,
    version: Version,
    entries: Seq<(Seq<char>, Seq<u8>)>,
)
    requires
        is_word(method),
        is_word(target),
        names_are_header_names(entries),
        values_are_text(entries),
    ensures
        ({
            let bytes = encode_utf8(request_head(method, target, version, entries));
            &&& valid_utf8(first_line(bytes))
            &&& words(decode_utf8(first_line(bytes))) == seq![
                method,
                target,
                version.spec_request_name(),
            ]
            &&& header_block(after_first_line(bytes), Seq::empty()) == Ok::<_, HttpError>(
                (with_fields(Seq::empty(), entries), Seq::<u8>::empty()),
            )
            &&& names_are_distinct(entries) ==> with_fields(Seq::empty(), entries) == entries
        }),
{
    reveal_strlit("\r\n");
    let line = request_line(method, target, version);
    let end = "\r\n"@;
    let rest = header_lines(entries) + end;
    assert(are_wire_fields(entries));
    lemma_request_line_words(method, target, version);
    lemma_header_lines_are_ascii(entries);
    assert(is_ascii_chars(end));
    lemma_ascii_bytes_concat(header_lines(entries), end);
    assert(request_head(method, target, version, entries) =~= line + rest);
    lemma_first_line_of_text(line, rest);
    lemma_header_lines_are_read(entries, Seq::empty(), Seq::empty());
    assert(lower_names(entries) =~= entries);
    assert(encode_utf8(rest) + Seq::<u8>::empty() =~= encode_utf8(rest));
    if names_are_distinct(entries) {
        assert(Seq::<(Seq<char>, Seq<u8>)>::empty() + entries =~= entries);
        lemma_with_new_fields(Seq::empty(), entries);
    }
}

/// What the serializer writes, a reader of this library reads back.
///
/// Take a well-formed request whose values are text, so that it can be serialized.
/// The first line of the bytes of its head splits into the method, the target and the
/// version name. The header block after it holds the fields of the request, set one
/// after the other, and nothing is left in the stream; where no two fields share a
/// name, these are the fields themselves, in order.
pub proof fn lemma_serialized_request_reads_back(request: Request)
    requires
        request.well_formed(),
        values_are_text(header_map_entries(request.headers)),
    ensures
        ({
            let bytes = encode_utf8(request.head_text());
            let entries = header_map_entries(request.headers);
            &&& valid_utf8(first_line(bytes))
            &&& words(decode_utf8(first_line(bytes))) == seq![
                request.method@,
                request.uri.request_target(),
                request.version.spec_request_name(),
            ]
            &&& header_block(after_first_line(bytes), Seq::empty()) == Ok::<_, HttpError>(
                (with_fields(Seq::empty(), entries), Seq::<u8>::empty()),
            )
            &&& names_are_distinct(entries) ==> with_fields(Seq::empty(), entries) == entries
        }),
{
    lemma_request_head_reads_back(
        request.method@,
        request.uri.request_target(),
        request.version,
        header_map_entries(request.headers),
    );
}

/// The character that writes the hexadecimal digit `d`, in lower case.
pub open spec fn hex_digit_char(d: nat) -> char {
    if d < 10 {
        ((48 + d) as u8) as char
    } else {
        ((87 + d) as u8) as char
    }
}

/// The hexadecimal digits that write `n`, without leading zeros.
pub open spec fn hex_text(n: nat) -> Seq<char>
    decreases n,
{
    if n < 16 {
        seq![hex_digit_char(n)]
    } else {
        hex_text(n / 16).push(hex_digit_char(n % 16))
    }
}

/// One chunk on the wire: the size in hexadecimal and CR LF, the data, and CR LF.
pub open spec fn chunk_bytes(data: Seq<u8>) -> Seq<u8> {
    encode_utf8(hex_text(data.len()) + "\r\n"@) + data + chunk_terminator()
}

/// A body on the wire in the chunked transfer coding: the chunks, then the chunk of
/// size zero.
pub open spec fn chunked_bytes(chunks: Seq<Seq<u8>>) -> Seq<u8>
    decreases chunks.len(),
{
    if chunks.len() == 0 {
        encode_utf8(hex_text(0) + "\r\n"@)
    } else {
        chunk_bytes(chunks[0]) + chunked_bytes(chunks.drop_first())
    }
}

/// The chunks one after the other.
pub open spec fn joined(chunks: Seq<Seq<u8>>) -> Seq<u8>
    decreases chunks.len(),
{
    if chunks.len() == 0 {
        Seq::empty()
    } else {
        chunks[0] + joined(chunks.drop_first())
    }
}

/// The hexadecimal digits of a number are digits, and write that number.
proof fn lemma_hex_text(n: nat)
    ensures
        hex_text(n).len() > 0,
        all_digits(hex_text(n), 16),
        digits_value(hex_text(n), 16) == n,
        is_ascii_chars(hex_text(n)),
        forall|i: int|
            0 <= i < hex_text(n).len() ==> !is_whitespace(#[trigger] hex_text(n)[i]) && hex_text(
                n,
            )[i] != '+',
    decreases n,
{
    let text = hex_text(n);
    if n < 16 {
        assert(digit_value(hex_digit_char(n), 16) == Some(n));
        assert(text.drop_last().len() == 0);
        assert(digits_value(text.drop_last(), 16) == 0);
        assert(text.last() == hex_digit_char(n));
    } else {
        let front = hex_text(n / 16);
        let last = hex_digit_char(n % 16);
        lemma_hex_text(n / 16);
        assert(digit_value(last, 16) == Some(n % 16));
        assert(text.drop_last() =~= front);
        assert(text.last() == last);
        assert forall|i: int| 0 <= i < text.len() implies (#[trigger] digit_value(text[i], 16))
            is Some && !is_whitespace(text[i]) && text[i] != '+' && '\0' <= text[i]
            <= '\u{7f}' by {
            if i < front.len() {
                assert(text[i] == front[i]);
                assert(digit_value(front[i], 16) is Some);
            }
        }
        assert(n == (n / 16) * 16 + n % 16);
    }
}

/// A size line made of hexadecimal digits and CR LF announces the number they write.
proof fn lemma_size_line(n: nat)
    requires
        n <= usize::MAX,
    ensures
        chunk_size(hex_text(n) + "\r\n"@) == Ok::<_, HttpError>(n as usize),
        is_ascii_chars(hex_text(n) + "\r\n"@),
        (hex_text(n) + "\r\n"@).last() == '\n',
        forall|i: int|
            0 <= i < (hex_text(n) + "\r\n"@).len() - 1 ==> #[trigger] (hex_text(n) + "\r\n"@)[i]
                != '\n',
{
    reveal_strlit("\r\n");
    lemma_hex_text(n);
    let text = hex_text(n);
    let line = text + "\r\n"@;
    let k = text.len() as int;
    assert(line.len() == k + 2);
    assert(line[k] == '\r' && line[k + 1] == '\n');
    assert forall|i: int| 0 <= i < k implies #[trigger] line[i] == text[i] by {}
    assert forall|i: int| 0 <= i < k implies !is_whitespace(#[trigger] line[i]) by {
        assert(line[i] == text[i]);
    }
    lemma_skip_whitespace_run(line, 0, 0);
    let shorter = line.drop_last();
    assert(line.last() == '\n');
    assert(shorter.last() == '\r');
    assert(shorter.drop_last() =~= text);
    assert(text.last() == text[k - 1]);
    assert(trim_end_index(text) == k);
    assert(trim_end_index(shorter) == k);
    assert(trim_end_index(line) == k);
    assert(line.subrange(0, k) =~= text);
    assert(trim(line) == text);
    assert(text[0] != '+');
    assert(unsigned_number(text, 16, usize::MAX as nat) == Some(n));
    assert(is_ascii_chars(line)) by {
        assert forall|i: int| 0 <= i < line.len() implies '\0' <= #[trigger] line[i]
            <= '\u{7f}' by {
            if i < k {
                assert(line[i] == text[i]);
            }
        }
    }
    assert forall|i: int| 0 <= i < line.len() - 1 implies #[trigger] line[i] != '\n' by {
        if i < k {
            assert(!is_whitespace(line[i]));
        }
    }
}

/// What the chunked transfer coding carries, the decoder gives back: a body written
/// as chunks, none of them empty, is read as the chunks one after the other, and what
/// follows the line of the last chunk is left in the stream.
pub proof fn lemma_chunked_body_reads_back(chunks: Seq<Seq<u8>>, rest: Seq<u8>)
    requires
        forall|i: int| 0 <= i < chunks.len() ==> 0 < (#[trigger] chunks[i]).len() <= usize::MAX,
    ensures
        chunked_body(chunked_bytes(chunks) + rest) == Ok::<_, HttpError>((joined(chunks), rest)),
    decreases chunks.len(),
{
    if chunks.len() == 0 {
        lemma_size_line(0);
        lemma_first_line_of_bytes(hex_text(0) + "\r\n"@, rest);
    } else {
        let data = chunks[0];
        let others = chunks.drop_first();
        let size = data.len() as int;
        let line = hex_text(size as nat) + "\r\n"@;
        let tail = chunked_bytes(others) + rest;
        let after = data + chunk_terminator() + tail;
        lemma_size_line(size as nat);
        lemma_first_line_of_bytes(line, after);
        assert(chunked_bytes(chunks) + rest =~= encode_utf8(line) + after);
        assert(after.len() >= size + 2);
        assert(after.subrange(size, size + 2) =~= chunk_terminator());
        assert(after.take(size) =~= data);
        assert(after.skip(size + 2) =~= tail);
        assert forall|i: int| 0 <= i < others.len() implies 0 < (#[trigger] others[i]).len()
            <= usize::MAX by {
            assert(others[i] == chunks[i + 1]);
        }
        lemma_chunked_body_reads_back(others, rest);
    }
}

} // verus!
