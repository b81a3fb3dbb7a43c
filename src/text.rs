//! Character widths and string helpers shared by the chunker and the identifier deriver.

use vstd::prelude::*;
use vstd::string::*;
use vstd::utf8::*;

verus! {

/// Number of bytes `c` occupies in UTF-8.
pub open spec fn utf8_width(c: char) -> nat {
    let v = c as u32;
    if v <= 0x7F {
        1
    } else if v <= 0x7FF {
        2
    } else if v <= 0xFFFF {
        3
    } else {
        4
    }
}

/// Number of bytes the character sequence `s` occupies in UTF-8.
pub open spec fn utf8_len(s: Seq<char>) -> nat
    decreases s.len(),
{
    if s.len() == 0 {
        0
    } else {
        utf8_width(s[0]) + utf8_len(s.drop_first())
    }
}

/// The widths agree with the encoding that `str` uses, so `str::len` is `utf8_len` of the view.
pub proof fn lemma_utf8_len_is_encoding_len(s: Seq<char>)
    ensures
        utf8_len(s) == encode_utf8(s).len(),
    decreases s.len(),
{
    if s.len() > 0 {
        char_is_scalar(s[0]);
        lemma_utf8_len_is_encoding_len(s.drop_first());
    }
}

/// Byte lengths add up over concatenation.
pub proof fn lemma_utf8_len_concat(a: Seq<char>, b: Seq<char>)
    ensures
        utf8_len(a + b) == utf8_len(a) + utf8_len(b),
    decreases a.len(),
{
    if a.len() == 0 {
        assert(a + b =~= b);
    } else {
        assert((a + b).drop_first() =~= a.drop_first() + b);
        lemma_utf8_len_concat(a.drop_first(), b);
    }
}

/// Byte length of the string, stated over its characters.
pub fn str_len(s: &str) -> (r: usize)
    ensures
        r == utf8_len(s@),
{
    proof {
        lemma_utf8_len_is_encoding_len(s@);
    }
    s.as_bytes().len()
}

/// UTF-8 width of a single character.
pub fn char_width_utf8(c: char) -> (r: usize)
    ensures
        r == utf8_width(c),
{
    let v = c as u32;
    if v <= 0x7F {
        1
    } else if v <= 0x7FF {
        2
    } else if v <= 0xFFFF {
        3
    } else {
        4
    }
}

/// The characters of `s`, in order.
pub fn chars_of(s: &str) -> (r: Vec<char>)
    ensures
        r@ == s@,
{
    let mut r: Vec<char> = Vec::new();
    for c in it: s.chars()
        invariant
            r@ == it.seq().take(it.index() as int),
    {
        r.push(c);
    }
    r
}

/// Relies on `String::push`: appends one character at the end.
#[verifier::external_body]
pub fn push_char(s: &mut String, c: char)
    ensures
        final(s)@ == old(s)@.push(c),
{
    s.push(c)
}

/// The string made of the characters `cs[start..end]`.
pub fn string_from_chars(cs: &Vec<char>, start: usize, end: usize) -> (r: String)
    requires
        start <= end <= cs@.len(),
    ensures
        r@ == cs@.subrange(start as int, end as int),
{
    let mut r = String::new();
    let mut i: usize = start;
    while i < end
        invariant
            start <= i <= end <= cs@.len(),
            r@ == cs@.subrange(start as int, i as int),
        decreases end - i,
    {
        push_char(&mut r, cs[i]);
        assert(cs@.subrange(start as int, i + 1) =~= cs@.subrange(start as int, i as int).push(cs@[i as int]));
        i = i + 1;
    }
    r
}

/// How a string's size is counted when it is truncated.
#[derive(Clone, Copy, Debug, PartialEq, Eq, Structural)]
pub enum StrEncoding {
    /// Bytes of the UTF-8 encoding.
    Utf8,
    /// Bytes of the UTF-16 encoding (two per code unit).
    Utf16,
}

/// Number of bytes `c` occupies in the given encoding.
pub open spec fn encoded_width(c: char, encoding: StrEncoding) -> nat {
    match encoding {
        StrEncoding::Utf8 => utf8_width(c),
        StrEncoding::Utf16 => if (c as u32) < 0x10000 { 2nat } else { 4nat },
    }
}

/// Number of bytes the character sequence `s` occupies in the given encoding.
pub open spec fn encoded_len(s: Seq<char>, encoding: StrEncoding) -> nat
    decreases s.len(),
{
    if s.len() == 0 {
        0
    } else {
        encoded_width(s[0], encoding) + encoded_len(s.drop_first(), encoding)
    }
}

proof fn lemma_encoded_len_push(s: Seq<char>, c: char, encoding: StrEncoding)
    ensures
        encoded_len(s.push(c), encoding) == encoded_len(s, encoding) + encoded_width(c, encoding),
    decreases s.len(),
{
    if s.len() == 0 {
        assert(s.push(c).drop_first() =~= Seq::<char>::empty());
        assert(encoded_len(s.push(c).drop_first(), encoding) == 0);
    } else {
        assert(s.push(c).drop_first() =~= s.drop_first().push(c));
        assert(s.push(c)[0] == s[0]);
        lemma_encoded_len_push(s.drop_first(), c, encoding);
    }
}

/// The longest prefix of `s` whose size in `encoding` is at most `max_len`.
pub open spec fn is_truncation(s: Seq<char>, max_len: nat, encoding: StrEncoding, r: Seq<char>) -> bool {
    &&& r.len() <= s.len()
    &&& r == s.take(r.len() as int)
    &&& encoded_len(r, encoding) <= max_len
    &&& r.len() < s.len() ==> encoded_len(s.take(r.len() + 1 as int), encoding) > max_len
}

proof fn lemma_encoded_len_take_mono(s: Seq<char>, i: int, j: int, encoding: StrEncoding)
    requires
        0 <= i <= j <= s.len(),
    ensures
        encoded_len(s.take(i), encoding) <= encoded_len(s.take(j), encoding),
    decreases j - i,
{
    if i < j {
        lemma_encoded_len_take_mono(s, i, j - 1, encoding);
        assert(s.take(j) =~= s.take(j - 1).push(s[j - 1]));
        lemma_encoded_len_push(s.take(j - 1), s[j - 1], encoding);
    }
}

/// A string has only one truncation to a given size.
pub proof fn lemma_truncation_unique(
    s: Seq<char>,
    max_len: nat,
    encoding: StrEncoding,
    r1: Seq<char>,
    r2: Seq<char>,
)
    requires
        is_truncation(s, max_len, encoding, r1),
        is_truncation(s, max_len, encoding, r2),
    ensures
        r1 == r2,
{
    if r1.len() < r2.len() {
        lemma_encoded_len_take_mono(s, r1.len() + 1 as int, r2.len() as int, encoding);
    } else if r2.len() < r1.len() {
        lemma_encoded_len_take_mono(s, r2.len() + 1 as int, r1.len() as int, encoding);
    }
}

fn encoded_width_exec(c: char, encoding: StrEncoding) -> (r: usize)
    ensures
        r == encoded_width(c, encoding),
{
    match encoding {
        StrEncoding::Utf8 => char_width_utf8(c),
        StrEncoding::Utf16 => if (c as u32) < 0x10000 { 2 } else { 4 },
    }
}

/// Truncates `string` to its longest prefix that occupies at most `max_len` bytes in `encoding`,
/// never splitting a character. At least four bytes are needed so that any one character fits.
pub fn truncate_to_bytes(string: &str, max_len: usize, encoding: StrEncoding) -> (r: String)
    requires
        max_len >= 4,
    ensures
        is_truncation(string@, max_len as nat, encoding, r@),
{
    let cs = chars_of(string);
    let mut r = String::new();
    let mut byte_count: usize = 0;
    let mut i: usize = 0;
    while i < cs.len()
        invariant
            i <= cs@.len(),
            cs@ == string@,
            r@ == cs@.take(i as int),
            byte_count == encoded_len(r@, encoding),
            byte_count <= max_len,
        decreases cs@.len() - i,
    {
        let w = encoded_width_exec(cs[i], encoding);
        proof {
            lemma_encoded_len_push(r@, cs@[i as int], encoding);
            assert(cs@.take(i + 1) =~= cs@.take(i as int).push(cs@[i as int]));
        }
        if w > max_len - byte_count {
            return r;
        }
        byte_count = byte_count + w;
        push_char(&mut r, cs[i]);
        i = i + 1;
    }
    proof {
        assert(cs@.take(i as int) =~= cs@);
    }
    r
}

} // verus!
