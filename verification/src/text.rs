//! The lexical layer of the wire format: character classes, words, trimming and
//! unsigned numbers, each with a mathematical definition and an executable twin.

use vstd::prelude::*;

verus! {

/// Whether `c` is white space: the code points that Unicode classes as `White_Space`.
pub open spec fn is_whitespace(c: char) -> bool {
    let v = c as u32;
    (0x09 <= v <= 0x0D) || v == 0x20 || v == 0x85 || v == 0xA0 || v == 0x1680 || (0x2000 <= v
        <= 0x200A) || v == 0x2028 || v == 0x2029 || v == 0x202F || v == 0x205F || v == 0x3000
}

/// Executable form of [`is_whitespace`].
pub fn char_is_whitespace(c: char) -> (b: bool)
    ensures
        b == is_whitespace(c),
{
    let v: u32 = c as u32;
    (0x09 <= v && v <= 0x0D) || v == 0x20 || v == 0x85 || v == 0xA0 || v == 0x1680 || (0x2000 <= v
        && v <= 0x200A) || v == 0x2028 || v == 0x2029 || v == 0x202F || v == 0x205F || v == 0x3000
}

/// The characters of `s`, in order.
pub fn collect_chars(s: &str) -> (out: Vec<char>)
    ensures
        out@ == s@,
{
    let mut out: Vec<char> = Vec::new();
    for c in it: s.chars()
        invariant
            it.seq() == s@,
            out@ == s@.take(it.index() as int),
    {
        out.push(c);
        assert(s@.take(it.index() + 1) == s@.take(it.index() as int).push(c));
    }
    assert(s@.take(s@.len() as int) == s@);
    out
}

/// The first index at or after `i` that holds no white space; the length of `s` if there is none.
pub open spec fn skip_whitespace(s: Seq<char>, i: int) -> int
    decreases s.len() - i,
{
    if 0 <= i < s.len() && is_whitespace(s[i]) {
        skip_whitespace(s, i + 1)
    } else {
        i
    }
}

/// The first index at or after `i` that holds white space; the length of `s` if there is none.
pub open spec fn skip_word(s: Seq<char>, i: int) -> int
    decreases s.len() - i,
{
    if 0 <= i < s.len() && !is_whitespace(s[i]) {
        skip_word(s, i + 1)
    } else {
        i
    }
}

/// `skip_whitespace` stays within the text and passes over white space only.
pub proof fn lemma_skip_whitespace(s: Seq<char>, i: int)
    requires
        0 <= i <= s.len(),
    ensures
        i <= skip_whitespace(s, i) <= s.len(),
        forall|k: int| i <= k < skip_whitespace(s, i) ==> is_whitespace(#[trigger] s[k]),
        skip_whitespace(s, i) < s.len() ==> !is_whitespace(s[skip_whitespace(s, i)]),
    decreases s.len() - i,
{
    if i < s.len() && is_whitespace(s[i]) {
        lemma_skip_whitespace(s, i + 1);
    }
}

/// `skip_word` stays within the text and passes over one word only.
pub proof fn lemma_skip_word(s: Seq<char>, i: int)
    requires
        0 <= i <= s.len(),
    ensures
        i <= skip_word(s, i) <= s.len(),
        forall|k: int| i <= k < skip_word(s, i) ==> !is_whitespace(#[trigger] s[k]),
        skip_word(s, i) < s.len() ==> is_whitespace(s[skip_word(s, i)]),
        i < s.len() && !is_whitespace(s[i]) ==> i < skip_word(s, i),
    decreases s.len() - i,
{
    if i < s.len() && !is_whitespace(s[i]) {
        lemma_skip_word(s, i + 1);
    }
}

/// A run of characters that are not white space, ended by white space or by the end
/// of the text, is passed over as one word.
pub proof fn lemma_skip_word_run(s: Seq<char>, i: int, j: int)
    requires
        0 <= i <= j <= s.len(),
        forall|k: int| i <= k < j ==> !is_whitespace(#[trigger] s[k]),
        j == s.len() || is_whitespace(s[j]),
    ensures
        skip_word(s, i) == j,
    decreases j - i,
{
    if i < j {
        lemma_skip_word_run(s, i + 1, j);
    }
}

/// A run of white space, ended by another character or by the end of the text, is
/// passed over as a whole.
pub proof fn lemma_skip_whitespace_run(s: Seq<char>, i: int, j: int)
    requires
        0 <= i <= j <= s.len(),
        forall|k: int| i <= k < j ==> is_whitespace(#[trigger] s[k]),
        j == s.len() || !is_whitespace(s[j]),
    ensures
        skip_whitespace(s, i) == j,
    decreases j - i,
{
    if i < j {
        lemma_skip_whitespace_run(s, i + 1, j);
    }
}

/// The words of `s` from index `i` on: the maximal runs of characters that are not white space.
pub open spec fn words_from(s: Seq<char>, i: int) -> Seq<Seq<char>>
    decreases s.len() - i,
{
    if 0 <= i <= s.len() {
        let a = skip_whitespace(s, i);
        let b = skip_word(s, a);
        if a < s.len() {
            proof {
                lemma_skip_whitespace(s, i);
                lemma_skip_word(s, a);
            }
            seq![s.subrange(a, b)] + words_from(s, b)
        } else {
            Seq::empty()
        }
    } else {
        Seq::empty()
    }
}

/// The words of `s`: what splitting on white space yields.
pub open spec fn words(s: Seq<char>) -> Seq<Seq<char>> {
    words_from(s, 0)
}

/// The words of a text start with its first word, and go on after it.
pub proof fn lemma_words_from(s: Seq<char>, i: int)
    requires
        0 <= i <= s.len(),
    ensures
        i <= skip_whitespace(s, i) <= s.len(),
        skip_whitespace(s, i) == s.len() ==> words_from(s, i).len() == 0,
        skip_whitespace(s, i) < s.len() ==> {
            let a = skip_whitespace(s, i);
            let b = skip_word(s, a);
            &&& a < b <= s.len()
            &&& words_from(s, i).len() == 1 + words_from(s, b).len()
            &&& words_from(s, i)[0] == s.subrange(a, b)
            &&& forall|k: int|
                0 <= k < words_from(s, b).len() ==> words_from(s, i)[k + 1] == words_from(s, b)[k]
        },
{
    lemma_skip_whitespace(s, i);
    let a = skip_whitespace(s, i);
    if a < s.len() {
        lemma_skip_word(s, a);
    }
}

/// Executable form of [`skip_whitespace`].
pub fn scan_whitespace(chars: &Vec<char>, from: usize) -> (r: usize)
    requires
        from <= chars.len(),
    ensures
        r == skip_whitespace(chars@, from as int),
        from <= r <= chars.len(),
{
    let mut i: usize = from;
    while i < chars.len() && char_is_whitespace(chars[i])
        invariant
            from <= i <= chars.len(),
            skip_whitespace(chars@, from as int) == skip_whitespace(chars@, i as int),
        decreases chars.len() - i,
    {
        i += 1;
    }
    i
}

/// Executable form of [`skip_word`].
pub fn scan_word(chars: &Vec<char>, from: usize) -> (r: usize)
    requires
        from <= chars.len(),
    ensures
        r == skip_word(chars@, from as int),
        from <= r <= chars.len(),
{
    let mut i: usize = from;
    while i < chars.len() && !char_is_whitespace(chars[i])
        invariant
            from <= i <= chars.len(),
            skip_word(chars@, from as int) == skip_word(chars@, i as int),
        decreases chars.len() - i,
    {
        i += 1;
    }
    i
}

/// The end of `s` once trailing white space is left out.
pub open spec fn trim_end_index(s: Seq<char>) -> int
    decreases s.len(),
{
    if s.len() > 0 && is_whitespace(s.last()) {
        trim_end_index(s.drop_last())
    } else {
        s.len() as int
    }
}

/// `s` without leading and trailing white space.
pub open spec fn trim(s: Seq<char>) -> Seq<char> {
    let a = skip_whitespace(s, 0);
    let b = trim_end_index(s);
    if a < b {
        s.subrange(a, b)
    } else {
        Seq::empty()
    }
}

/// The bounds of [`trim`]: `(a, b)` with `trim(chars@) == chars@.subrange(a, b)`.
pub fn trim_bounds(chars: &Vec<char>) -> (r: (usize, usize))
    ensures
        r.0 <= r.1 <= chars.len(),
        trim(chars@) == chars@.subrange(r.0 as int, r.1 as int),
{
    let mut b: usize = chars.len();
    assert(chars@.take(chars.len() as int) == chars@);
    while b > 0 && char_is_whitespace(chars[b - 1])
        invariant
            b <= chars.len(),
            trim_end_index(chars@) == trim_end_index(chars@.take(b as int)),
        decreases b,
    {
        assert(chars@.take(b as int).drop_last() == chars@.take(b - 1));
        b -= 1;
    }
    let a = scan_whitespace(chars, 0);
    if a < b {
        (a, b)
    } else {
        assert(chars@.subrange(b as int, b as int) == Seq::<char>::empty());
        (b, b)
    }
}

/// The value of `c` as a digit in base `radix`, for `0-9`, `a-z` and `A-Z`.
pub open spec fn digit_value(c: char, radix: nat) -> Option<nat> {
    let v = c as u32 as nat;
    let d: Option<nat> = if '0' <= c <= '9' {
        Some((v - 48) as nat)
    } else if 'a' <= c <= 'z' {
        Some((v - 87) as nat)
    } else if 'A' <= c <= 'Z' {
        Some((v - 55) as nat)
    } else {
        None
    };
    match d {
        Some(x) => if x < radix {
            Some(x)
        } else {
            None
        },
        None => None,
    }
}

/// Whether every character of `s` is a digit in base `radix`.
pub open spec fn all_digits(s: Seq<char>, radix: nat) -> bool {
    forall|i: int| 0 <= i < s.len() ==> (#[trigger] digit_value(s[i], radix)) is Some
}

/// The number that the digits `s` write in base `radix`.
pub open spec fn digits_value(s: Seq<char>, radix: nat) -> nat
    decreases s.len(),
{
    if s.len() == 0 {
        0
    } else {
        digits_value(s.drop_last(), radix) * radix + digit_value(s.last(), radix).unwrap()
    }
}

/// What `s` denotes as an unsigned number in base `radix` no larger than `max`: an
/// optional `+`, then at least one digit, and nothing else.
pub open spec fn unsigned_number(s: Seq<char>, radix: nat, max: nat) -> Option<nat> {
    let d = if s.len() > 0 && s[0] == '+' {
        s.skip(1)
    } else {
        s
    };
    if d.len() > 0 && all_digits(d, radix) && digits_value(d, radix) <= max {
        Some(digits_value(d, radix))
    } else {
        None
    }
}

/// Executable form of [`digit_value`].
pub fn char_digit(c: char, radix: u32) -> (r: Option<u32>)
    requires
        2 <= radix <= 36,
    ensures
        r is Some <==> digit_value(c, radix as nat) is Some,
        r is Some ==> r.unwrap() == digit_value(c, radix as nat).unwrap() && r.unwrap() < radix,
{
    let v: u32 = c as u32;
    let d: u32 = if 48 <= v && v <= 57 {
        v - 48
    } else if 97 <= v && v <= 122 {
        v - 87
    } else if 65 <= v && v <= 90 {
        v - 55
    } else {
        return None;
    };
    if d < radix {
        Some(d)
    } else {
        None
    }
}

/// Appending digits never makes the number smaller.
pub proof fn lemma_digits_value_grows(s: Seq<char>, i: int, radix: nat)
    requires
        0 <= i <= s.len(),
        radix >= 1,
        all_digits(s, radix),
    ensures
        digits_value(s.take(i), radix) <= digits_value(s, radix),
    decreases s.len() - i,
{
    if i < s.len() {
        let t = s.drop_last();
        assert(all_digits(t, radix)) by {
            assert forall|k: int| 0 <= k < t.len() implies (#[trigger] digit_value(
                t[k],
                radix,
            )) is Some by {
                assert(t[k] == s[k]);
            }
        }
        assert(t.take(i) == s.take(i));
        lemma_digits_value_grows(t, i, radix);
        let v = digits_value(t, radix);
        assert(v <= v * radix) by (nonlinear_arith)
            requires
                radix >= 1,
        ;
    } else {
        assert(s.take(i) == s);
    }
}

/// Executable form of [`unsigned_number`] on the characters `from..to` of `chars`.
pub fn parse_unsigned(chars: &Vec<char>, from: usize, to: usize, radix: u32, max: usize) -> (r:
    Option<usize>)
    requires
        from <= to <= chars.len(),
        2 <= radix <= 36,
    ensures
        r is Some <==> unsigned_number(
            chars@.subrange(from as int, to as int),
            radix as nat,
            max as nat,
        ) is Some,
        r is Some ==> r.unwrap() == unsigned_number(
            chars@.subrange(from as int, to as int),
            radix as nat,
            max as nat,
        ).unwrap(),
{
    let ghost s = chars@.subrange(from as int, to as int);
    let start: usize = if from < to && chars[from] == '+' {
        from + 1
    } else {
        from
    };
    let ghost d = chars@.subrange(start as int, to as int);
    let ghost expected = if d.len() > 0 && all_digits(d, radix as nat) && digits_value(
        d,
        radix as nat,
    ) <= max {
        Some(digits_value(d, radix as nat))
    } else {
        None
    };
    assert(expected == unsigned_number(s, radix as nat, max as nat)) by {
        assert(d == if s.len() > 0 && s[0] == '+' {
            s.skip(1)
        } else {
            s
        });
    }
    if start == to {
        return None;
    }
    let mut acc: usize = 0;
    let mut i: usize = start;
    while i < to
        invariant
            start <= i <= to <= chars.len(),
            2 <= radix <= 36,
            d == chars@.subrange(start as int, to as int),
            expected == unsigned_number(
                chars@.subrange(from as int, to as int),
                radix as nat,
                max as nat,
            ),
            expected == if d.len() > 0 && all_digits(d, radix as nat) && digits_value(
                d,
                radix as nat,
            ) <= max {
                Some(digits_value(d, radix as nat))
            } else {
                None
            },
            all_digits(d.take(i - start), radix as nat),
            acc == digits_value(d.take(i - start), radix as nat),
            acc <= max,
        decreases to - i,
    {
        let ghost prefix = d.take(i - start);
        let ghost next = d.take(i - start + 1);
        assert(next.drop_last() == prefix);
        assert(next.last() == chars@[i as int]);
        match char_digit(chars[i], radix) {
            None => {
                assert(digit_value(d[i - start], radix as nat) is None);
                return None;
            },
            Some(digit) => {
                assert(acc as nat * radix as nat <= 36 * usize::MAX) by (nonlinear_arith)
                    requires
                        acc <= usize::MAX,
                        radix <= 36,
                ;
                let wide: u128 = acc as u128 * radix as u128 + digit as u128;
                assert(wide == digits_value(next, radix as nat));
                assert(all_digits(next, radix as nat)) by {
                    assert forall|k: int| 0 <= k < next.len() implies (#[trigger] digit_value(
                        next[k],
                        radix as nat,
                    )) is Some by {
                        if k < prefix.len() {
                            assert(next[k] == prefix[k]);
                        }
                    }
                }
                if wide > max as u128 {
                    proof {
                        if all_digits(d, radix as nat) {
                            lemma_digits_value_grows(d, i - start + 1, radix as nat);
                        }
                    }
                    return None;
                }
                acc = wide as usize;
            },
        }
        i += 1;
    }
    assert(d.take(to - start) == d);
    Some(acc)
}

/// The lower-case form of a text under the Unicode case mapping: what `str::to_lowercase`
/// returns.
pub uninterp spec fn lowercase(s: Seq<char>) -> Seq<char>;

/// `str::to_lowercase`: the lower-case form of `s`.
#[verifier::external_body]
pub(crate) fn to_lowercase(s: &str) -> (r: String)
    ensures
        r@ == lowercase(s@),
{
    s.to_lowercase()
}

/// The first index at or after `i` where `: ` (colon, space) starts.
pub open spec fn find_separator(s: Seq<char>, i: int) -> Option<int>
    decreases s.len() - i,
{
    if 0 <= i && i + 1 < s.len() {
        if s[i] == ':' && s[i + 1] == ' ' {
            Some(i)
        } else {
            find_separator(s, i + 1)
        }
    } else {
        None
    }
}

/// Executable form of [`find_separator`] from the start of the text.
pub fn scan_separator(chars: &Vec<char>) -> (r: Option<usize>)
    ensures
        r is Some <==> find_separator(chars@, 0) is Some,
        r matches Some(k) ==> find_separator(chars@, 0) == Some(k as int) && k + 2 <= chars.len(),
{
    let mut i: usize = 0;
    while i < chars.len() && i + 1 < chars.len()
        invariant
            find_separator(chars@, 0) == find_separator(chars@, i as int),
        decreases chars.len() - i,
    {
        if chars[i] == ':' && chars[i + 1] == ' ' {
            return Some(i);
        }
        i += 1;
    }
    None
}

/// `s` without the carriage returns and line feeds at its end.
pub open spec fn trim_line_end(s: Seq<char>) -> Seq<char>
    decreases s.len(),
{
    if s.len() > 0 && (s.last() == '\r' || s.last() == '\n') {
        trim_line_end(s.drop_last())
    } else {
        s
    }
}

/// The length of [`trim_line_end`] of the characters `from..` of `chars`, counted from
/// the start of `chars`.
pub fn scan_line_end(chars: &Vec<char>, from: usize) -> (r: usize)
    requires
        from <= chars.len(),
    ensures
        from <= r <= chars.len(),
        trim_line_end(chars@.skip(from as int)) == chars@.subrange(from as int, r as int),
{
    let mut b: usize = chars.len();
    assert(chars@.skip(from as int) == chars@.subrange(from as int, b as int));
    while b > from && (chars[b - 1] == '\r' || chars[b - 1] == '\n')
        invariant
            from <= b <= chars.len(),
            trim_line_end(chars@.skip(from as int)) == trim_line_end(
                chars@.subrange(from as int, b as int),
            ),
        decreases b,
    {
        assert(chars@.subrange(from as int, b as int).drop_last() == chars@.subrange(
            from as int,
            b - 1,
        ));
        b -= 1;
    }
    b
}

/// Whether the characters `from..to` of `chars` are exactly the text `expected`.
pub fn chars_equal(chars: &Vec<char>, from: usize, to: usize, expected: &str) -> (b: bool)
    requires
        from <= to <= chars.len(),
    ensures
        b == (chars@.subrange(from as int, to as int) == expected@),
{
    let want = collect_chars(expected);
    if want.len() != to - from {
        return false;
    }
    let mut i: usize = 0;
    while i < want.len()
        invariant
            from <= to <= chars.len(),
            want.len() == to - from,
            i <= want.len(),
            want@ == expected@,
            forall|k: int| 0 <= k < i ==> chars@[from + k] == want@[k],
        decreases want.len() - i,
    {
        if chars[from + i] != want[i] {
            assert(chars@.subrange(from as int, to as int)[i as int] != expected@[i as int]);
            return false;
        }
        i += 1;
    }
    assert(chars@.subrange(from as int, to as int) =~= expected@);
    true
}

/// Whether `a` and `b` are the same text.
pub fn str_equal(a: &str, b: &str) -> (r: bool)
    ensures
        r == (a@ == b@),
{
    let chars = collect_chars(a);
    assert(chars@.subrange(0, chars.len() as int) == a@);
    chars_equal(&chars, 0, chars.len(), b)
}

/// `b` with the letters `A` to `Z` mapped to `a` to `z`.
pub open spec fn byte_lower(b: u8) -> u8 {
    if 65 <= b <= 90 {
        (b + 32) as u8
    } else {
        b
    }
}

/// Whether `a` and `b` are the same bytes, the case of ASCII letters aside.
pub open spec fn same_ignoring_case(a: Seq<u8>, b: Seq<u8>) -> bool {
    &&& a.len() == b.len()
    &&& forall|i: int| 0 <= i < a.len() ==> byte_lower(#[trigger] a[i]) == byte_lower(b[i])
}

/// Executable form of equality on bytes.
pub fn bytes_equal(a: &[u8], b: &[u8]) -> (r: bool)
    ensures
        r == (a@ == b@),
{
    if a.len() != b.len() {
        return false;
    }
    let mut i: usize = 0;
    while i < a.len()
        invariant
            a.len() == b.len(),
            i <= a.len(),
            forall|k: int| 0 <= k < i ==> a@[k] == b@[k],
        decreases a.len() - i,
    {
        if a[i] != b[i] {
            return false;
        }
        i += 1;
    }
    assert(a@ =~= b@);
    true
}

/// Executable form of [`same_ignoring_case`].
pub fn bytes_equal_ignoring_case(a: &[u8], b: &[u8]) -> (r: bool)
    ensures
        r == same_ignoring_case(a@, b@),
{
    if a.len() != b.len() {
        return false;
    }
    let mut i: usize = 0;
    while i < a.len()
        invariant
            a.len() == b.len(),
            i <= a.len(),
            forall|k: int| 0 <= k < i ==> byte_lower(#[trigger] a@[k]) == byte_lower(b@[k]),
        decreases a.len() - i,
    {
        let x = if 65 <= a[i] && a[i] <= 90 {
            a[i] + 32
        } else {
            a[i]
        };
        let y = if 65 <= b[i] && b[i] <= 90 {
            b[i] + 32
        } else {
            b[i]
        };
        if x != y {
            return false;
        }
        i += 1;
    }
    true
}

} // verus!
