//! Operations on text that errors and ops are put together from.
use vstd::prelude::*;
use vstd::utf8::{
    decode_utf8, encode_utf8, encode_utf8_decode_utf8, encode_utf8_valid_utf8,
    is_ascii_chars, is_ascii_chars_encode_utf8, is_char_boundary,
    is_char_boundary_iff_not_is_continuation_byte, is_char_boundary_start_end_of_seq,
    utf8_byte_ranges_bitwise, valid_utf8,
};

verus! {

/// `String::push` appends a character.
pub assume_specification[ std::string::String::push ](s: &mut std::string::String, c: char)
    ensures
        final(s)@ == old(s)@.push(c),
;

/// Calls `String::from_utf8`, which gives a string if and only if the bytes are valid UTF-8, and
/// then the one that they encode.
#[verifier::external_body]
pub(crate) fn string_from_utf8(bytes: Vec<u8>) -> (decoded: Option<String>)
    ensures
        match decoded {
            Some(text) => valid_utf8(bytes@) && text@ == decode_utf8(bytes@),
            None => !valid_utf8(bytes@),
        },
{
    String::from_utf8(bytes).ok()
}

/// The text that `String::from_utf8_lossy` makes of bytes.
pub uninterp spec fn replaced_text(bytes: Seq<u8>) -> Seq<char>;

/// Calls `String::from_utf8_lossy`, which puts U+FFFD in place of what is not UTF-8 among the bytes.
/// The result depends on the bytes alone; the contract gives it a name.
#[verifier::external_body]
pub(crate) fn string_from_utf8_lossy(bytes: &[u8]) -> (text: String)
    ensures
        text@ == replaced_text(bytes@),
{
    String::from_utf8_lossy(bytes).into_owned()
}

/// The text that `format!("{:?}", s)` makes of a string: in quotes, with escapes.
pub uninterp spec fn debug_text(s: Seq<char>) -> Seq<char>;

/// Formats a string with its `Debug` implementation, whose result depends on the string alone.
#[verifier::external_body]
pub(crate) fn debug_string(s: &str) -> (shown: String)
    ensures
        shown@ == debug_text(s@),
{
    format!("{:?}", s)
}

/// How many line breaks are in `s`.
pub open spec fn line_breaks(s: Seq<char>) -> nat
    decreases s.len(),
{
    if s.len() == 0 {
        0
    } else {
        line_breaks(s.drop_last()) + if s.last() == '\n' {
            1nat
        } else {
            0
        }
    }
}

/// How many lines `s` has, a line break at its very end being the end of its last line.
pub open spec fn line_count(s: Seq<char>) -> nat {
    line_breaks(s) + if s.len() > 0 && s.last() != '\n' {
        1nat
    } else {
        0
    }
}

/// `s` without the copies of `prefix` that it starts with.
pub open spec fn trimmed_start(s: Seq<char>, prefix: Seq<char>) -> Seq<char>
    decreases s.len(),
{
    if prefix.len() > 0 && prefix.is_prefix_of(s) {
        trimmed_start(s.skip(prefix.len() as int), prefix)
    } else {
        s
    }
}

/// The decimal digit `d`.
pub open spec fn digit(d: nat) -> char {
    (48 + d) as char
}

/// `n` in decimal.
pub open spec fn decimal(n: nat) -> Seq<char>
    decreases n,
{
    if n < 10 {
        seq![digit(n)]
    } else {
        decimal(n / 10).push(digit(n % 10))
    }
}

/// `v` in decimal, with a minus sign where it is negative.
pub open spec fn signed_decimal(v: int) -> Seq<char> {
    if v < 0 {
        seq!['-'] + decimal((-v) as nat)
    } else {
        decimal(v as nat)
    }
}

/// Where `c` first stands in `s`, which holds it.
pub open spec fn first_index(s: Seq<char>, c: char) -> int {
    choose|i: int|
        0 <= i < s.len() && #[trigger] s[i] == c && forall|k: int| 0 <= k < i ==> s[k] != c
}

/// `s` in two, before and after the first `c` in it.
pub open spec fn split_at_first(s: Seq<char>, c: char) -> Option<(Seq<char>, Seq<char>)> {
    if s.contains(c) {
        Some((s.take(first_index(s, c)), s.skip(first_index(s, c) + 1)))
    } else {
        None
    }
}

/// The first `count` bytes of the UTF-8 form of `s`, where they are whole characters.
pub open spec fn first_bytes(s: Seq<char>, count: nat) -> Option<Seq<char>> {
    let bytes = encode_utf8(s);
    if count <= bytes.len() && is_char_boundary(bytes, count as int) {
        Some(decode_utf8(bytes.take(count as int)))
    } else {
        None
    }
}

/// The last `count` bytes of the UTF-8 form of `s`, where they are whole characters.
pub open spec fn last_bytes(s: Seq<char>, count: nat) -> Option<Seq<char>> {
    let bytes = encode_utf8(s);
    if count <= bytes.len() && is_char_boundary(bytes, bytes.len() - count) {
        Some(decode_utf8(bytes.skip(bytes.len() - count)))
    } else {
        None
    }
}

/// The characters of a string.
pub fn chars_of(s: &str) -> (chars: Vec<char>)
    ensures
        chars@ == s@,
{
    let mut chars: Vec<char> = Vec::new();
    for c in it: s.chars()
        invariant
            chars@ == s@.take(it.index() as int),
            it.seq() == s@,
    {
        chars.push(c);
        assert(s@.take(it.index() as int + 1) == s@.take(it.index() as int).push(c));
    }
    assert(s@.take(s@.len() as int) == s@);
    chars
}

/// Whether two strings are the same.
pub fn same_text(a: &str, b: &str) -> (same: bool)
    ensures
        same == (a@ == b@),
{
    let left = a.as_bytes();
    let right = b.as_bytes();
    proof {
        vstd::utf8::encode_utf8_decode_utf8(a@);
        vstd::utf8::encode_utf8_decode_utf8(b@);
    }
    if left.len() != right.len() {
        return false;
    }
    let mut i: usize = 0;
    while i < left.len()
        invariant
            left@ == encode_utf8(a@),
            right@ == encode_utf8(b@),
            left.len() == right.len(),
            i <= left.len(),
            left@.take(i as int) == right@.take(i as int),
        decreases left.len() - i,
    {
        if left[i] != right[i] {
            return false;
        }
        assert(left@.take(i as int + 1) == left@.take(i as int).push(left@[i as int]));
        assert(right@.take(i as int + 1) == right@.take(i as int).push(right@[i as int]));
        i = i + 1;
    }
    assert(left@.take(i as int) == left@);
    assert(right@.take(i as int) == right@);
    true
}

/// `format!("{}", v)` for an integer.
pub fn signed_to_string(v: i64) -> (out: String)
    ensures
        out@ == signed_decimal(v as int),
{
    let mut out = String::new();
    if v < 0 {
        out.push('-');
        let magnitude: u64 = if v == i64::MIN { 0x8000_0000_0000_0000 } else { (-v) as u64 };
        push_decimal(&mut out, magnitude);
        assert(out@ == signed_decimal(v as int));
    } else {
        push_decimal(&mut out, v as u64);
        assert(out@ == signed_decimal(v as int));
    }
    out
}

/// Whether `s` has more than one line.
pub fn is_multiline(s: &str) -> (multiline: bool)
    ensures
        multiline == (line_count(s@) > 1),
{
    let chars = chars_of(s);
    let mut lines: usize = 0;
    let mut i: usize = 0;
    while i < chars.len()
        invariant
            chars@ == s@,
            i <= chars.len(),
            lines <= i,
            lines == line_breaks(s@.take(i as int)),
        decreases chars.len() - i,
    {
        assert(s@.take(i as int + 1).drop_last() == s@.take(i as int));
        if chars[i] == '\n' {
            lines = lines + 1;
        }
        i = i + 1;
    }
    assert(s@.take(i as int) == s@);
    if chars.len() > 0 && chars[chars.len() - 1] != '\n' {
        lines >= 1
    } else {
        lines > 1
    }
}

/// Whether `part` stands in `chars` at `at`.
fn stands_at(chars: &Vec<char>, at: usize, part: &Vec<char>) -> (found: bool)
    requires
        at <= chars.len(),
    ensures
        found == part@.is_prefix_of(chars@.skip(at as int)),
{
    if part.len() > chars.len() - at {
        return false;
    }
    let mut i: usize = 0;
    while i < part.len()
        invariant
            at <= chars.len(),
            part.len() <= chars.len() - at,
            i <= part.len(),
            forall|k: int| 0 <= k < i ==> part@[k] == chars@[at + k],
        decreases part.len() - i,
    {
        if part[i] != chars[at + i] {
            assert(part@[i as int] != chars@.skip(at as int)[i as int]);
            return false;
        }
        i = i + 1;
    }
    assert(part@ == chars@.skip(at as int).take(part@.len() as int));
    true
}

/// `s.trim_start_matches(prefix)`.
pub fn trim_start_matches(s: &str, prefix: &str) -> (trimmed: String)
    ensures
        trimmed@ == trimmed_start(s@, prefix@),
{
    let chars = chars_of(s);
    let part = chars_of(prefix);
    let mut at: usize = 0;
    assert(s@.skip(0) == s@);
    while part.len() > 0 && stands_at(&chars, at, &part)
        invariant
            chars@ == s@,
            part@ == prefix@,
            at <= chars.len(),
            trimmed_start(s@, prefix@) == trimmed_start(s@.skip(at as int), prefix@),
        decreases chars.len() - at,
    {
        assert(s@.skip(at as int).skip(part@.len() as int) == s@.skip(at + part@.len()));
        at = at + part.len();
    }
    assert(s@.skip(at as int) == s@.subrange(at as int, s@.len() as int));
    s.substring_char(at, chars.len()).to_owned()
}

/// `s.split_once(separator)`.
pub fn split_once(s: &str, separator: char) -> (halves: Option<(String, String)>)
    ensures
        match halves {
            Some((head, tail)) => split_at_first(s@, separator) == Some((head@, tail@)),
            None => split_at_first(s@, separator) is None,
        },
{
    let chars = chars_of(s);
    let mut i: usize = 0;
    while i < chars.len()
        invariant
            chars@ == s@,
            i <= chars.len(),
            forall|k: int| 0 <= k < i ==> s@[k] != separator,
        decreases chars.len() - i,
    {
        if chars[i] == separator {
            let head = s.substring_char(0, i).to_owned();
            let tail = s.substring_char(i + 1, chars.len()).to_owned();
            proof {
                lemma_index_of_first(s@, separator, i as int);
                assert(s@.take(i as int) == s@.subrange(0, i as int));
            }
            return Some((head, tail));
        }
        i = i + 1;
    }
    None
}

/// `s.get(..count)`: the first `count` bytes, where they are whole characters.
pub fn get_first_bytes(s: &str, count: usize) -> (part: Option<String>)
    ensures
        match part {
            Some(part) => first_bytes(s@, count as nat) == Some(part@),
            None => first_bytes(s@, count as nat) is None,
        },
{
    if count <= s.as_bytes().len() && s.is_char_boundary(count) {
        let part = s.split_at(count).0;
        proof {
            vstd::utf8::encode_utf8_decode_utf8(part@);
            assert(encode_utf8(s@).take(count as int) == encode_utf8(s@).subrange(0, count as int));
        }
        Some(part.to_owned())
    } else {
        None
    }
}

/// `s.get(s.len() - count..)`: the last `count` bytes, where they are whole characters.
pub fn get_last_bytes(s: &str, count: usize) -> (part: Option<String>)
    requires
        count <= encode_utf8(s@).len(),
    ensures
        match part {
            Some(part) => last_bytes(s@, count as nat) == Some(part@),
            None => last_bytes(s@, count as nat) is None,
        },
{
    let start: usize = s.as_bytes().len() - count;
    if s.is_char_boundary(start) {
        let part = s.split_at(start).1;
        proof {
            vstd::utf8::encode_utf8_decode_utf8(part@);
            assert(encode_utf8(s@).skip(start as int) == encode_utf8(s@).subrange(
                start as int,
                encode_utf8(s@).len() as int,
            ));
        }
        Some(part.to_owned())
    } else {
        None
    }
}

/// Of ASCII text every byte is a character.
pub proof fn lemma_ascii_bytes(s: Seq<char>, count: nat)
    requires
        is_ascii_chars(s),
        count <= s.len(),
    ensures
        encode_utf8(s).len() == s.len(),
        first_bytes(s, count) == Some(s.take(count as int)),
        last_bytes(s, count) == Some(s.skip(s.len() - count)),
{
    let bytes = encode_utf8(s);
    is_ascii_chars_encode_utf8(s);
    encode_utf8_valid_utf8(s);
    lemma_ascii_boundary(s, count as int);
    lemma_ascii_boundary(s, s.len() - count);
    lemma_ascii_part(s, 0, count as int);
    lemma_ascii_part(s, s.len() - count, s.len() as int);
    assert(bytes.take(count as int) == bytes.subrange(0, count as int));
    assert(bytes.skip(s.len() - count) == bytes.subrange(s.len() - count, s.len() as int));
    assert(s.take(count as int) == s.subrange(0, count as int));
    assert(s.skip(s.len() - count) == s.subrange(s.len() - count, s.len() as int));
}

proof fn lemma_ascii_boundary(s: Seq<char>, at: int)
    requires
        is_ascii_chars(s),
        0 <= at <= s.len(),
    ensures
        is_char_boundary(encode_utf8(s), at),
{
    let bytes = encode_utf8(s);
    is_ascii_chars_encode_utf8(s);
    encode_utf8_valid_utf8(s);
    if at == s.len() {
        is_char_boundary_start_end_of_seq(bytes);
    } else {
        let c = s[at];
        assert(0 <= c as u32 <= 0x7f);
        assert(bytes[at] == c as u8);
        assert(bytes[at] <= 0x7f);
        utf8_byte_ranges_bitwise(bytes[at]);
        is_char_boundary_iff_not_is_continuation_byte(bytes, at);
    }
}

proof fn lemma_ascii_part(s: Seq<char>, from: int, to: int)
    requires
        is_ascii_chars(s),
        0 <= from <= to <= s.len(),
    ensures
        decode_utf8(encode_utf8(s).subrange(from, to)) == s.subrange(from, to),
{
    let part = s.subrange(from, to);
    assert(is_ascii_chars(part));
    is_ascii_chars_encode_utf8(s);
    is_ascii_chars_encode_utf8(part);
    assert forall|i: int| 0 <= i < part.len() implies encode_utf8(part)[i] == encode_utf8(
        s,
    ).subrange(from, to)[i] by {
        assert(part[i] == s[from + i]);
        assert(encode_utf8(s)[from + i] == s[from + i] as u8);
    }
    assert(encode_utf8(part) =~= encode_utf8(s).subrange(from, to));
    encode_utf8_decode_utf8(part);
}

pub proof fn lemma_index_of_first(s: Seq<char>, c: char, i: int)
    requires
        0 <= i < s.len(),
        s[i] == c,
        forall|k: int| 0 <= k < i ==> s[k] != c,
    ensures
        split_at_first(s, c) == Some((s.take(i), s.skip(i + 1))),
{
    assert(s.contains(c));
    let k = first_index(s, c);
    assert(s[k] == c && (forall|j: int| 0 <= j < k ==> s[j] != c) && 0 <= k < s.len());
}

/// A character that stands in a text has a first place in it.
pub proof fn lemma_first_index(s: Seq<char>, c: char)
    requires
        s.contains(c),
    ensures
        0 <= first_index(s, c) < s.len(),
        s[first_index(s, c)] == c,
        forall|k: int| 0 <= k < first_index(s, c) ==> s[k] != c,
{
    lemma_first_place(s, c, s.len() as int);
}

proof fn lemma_first_place(s: Seq<char>, c: char, to: int)
    requires
        0 <= to <= s.len(),
        exists|i: int| 0 <= i < to && s[i] == c,
    ensures
        exists|i: int|
            0 <= i < s.len() && #[trigger] s[i] == c && forall|k: int| 0 <= k < i ==> s[k] != c,
    decreases to,
{
    let i = choose|i: int| 0 <= i < to && s[i] == c;
    if exists|k: int| 0 <= k < i && s[k] == c {
        lemma_first_place(s, c, i);
    }
}

fn push_decimal(out: &mut String, n: u64)
    ensures
        final(out)@ == old(out)@ + decimal(n as nat),
    decreases n,
{
    if n >= 10 {
        push_decimal(out, n / 10);
    }
    let d: u8 = (n % 10) as u8;
    let c: char = (48 + d) as char;
    out.push(c);
}

/// A copy of a text that may be absent.
pub(crate) fn copy_text(text: &Option<String>) -> (copy: Option<String>)
    ensures
        copy == *text,
{
    match text {
        Some(text) => Some(text.clone()),
        None => None,
    }
}

} // verus!
