//! Content-derived article identifiers: a filesystem-safe short title and a hash of the content.

use vstd::prelude::*;
use vstd::string::StringExecFns;
use vstd::utf8::{encode_utf8, encode_utf8_decode_utf8};
use crate::article::ArticleTextSubmission;
use crate::text::{chars_of, push_char, is_truncation, lemma_truncation_unique, truncate_to_bytes, StrEncoding};
use byteorder::ByteOrder;
use blake2::Digest;

verus! {

/// Identifiers are of the form `TITLE-HASH`; this is the most bytes that `TITLE` may take.
pub const FILENAME_TITLE_MAXLEN: usize = 20;

/// The number of leading bits of the digest that go into the identifier.
pub const ARTICLE_HASH_BITLEN: u64 = 128;

/// A character that the file-name sanitizer replaces: a path separator, a character Windows
/// reserves, or a C0 or C1 control character (but not DEL).
pub open spec fn replaced_by_sanitizer(c: char) -> bool {
    ||| c == '/' || c == '\\' || c == '?' || c == '<' || c == '>'
    ||| c == ':' || c == '*' || c == '|' || c == '"'
    ||| (c as u32) <= 0x1f
    ||| 0x80 <= (c as u32) <= 0x9f
}

/// A character that may not appear in a file name on the most restrictive supported filesystem:
/// a path separator, a character Windows reserves, or a control character.
pub open spec fn forbidden_in_filename(c: char) -> bool {
    replaced_by_sanitizer(c) || (c as u32) == 0x7f
}

/// The title with DEL, the one control character the sanitizer keeps, replaced by `_`.
pub open spec fn without_del(s: Seq<char>) -> Seq<char> {
    s.map_values(|c: char| if (c as u32) == 0x7f { '_' } else { c })
}

/// The short-title part of an identifier before truncation.
pub open spec fn safe_title(title: Seq<char>) -> Seq<char> {
    without_del(sanitized_of(title))
}

/// A character of the z-base-32 alphabet `ybndrfg8ejkmcpqxot1uwisza345h769`.
pub open spec fn is_zbase32_digit(c: char) -> bool {
    ||| ('a' <= c <= 'z' && c != 'l' && c != 'v')
    ||| ('1' <= c <= '9' && c != '2')
}

/// The title with every character that is unsafe in a file name replaced.
pub uninterp spec fn sanitized_of(title: Seq<char>) -> Seq<char>;

/// The BLAKE2s-256 digest of a message.
pub uninterp spec fn blake2s256_of(msg: Seq<u8>) -> Seq<u8>;

/// The z-base-32 encoding of the first `bits` bits of `data`.
pub uninterp spec fn zbase32_of(data: Seq<u8>, bits: u64) -> Seq<char>;

/// The eight big-endian bytes of `x`.
pub open spec fn be_bytes(x: u64) -> Seq<u8> {
    seq![
        (x >> 56) as u8,
        (x >> 48) as u8,
        (x >> 40) as u8,
        (x >> 32) as u8,
        (x >> 24) as u8,
        (x >> 16) as u8,
        (x >> 8) as u8,
        x as u8,
    ]
}

/// What is hashed for an article: the title's byte length, the title, then the body.
pub open spec fn digest_input(title: Seq<char>, body: Seq<char>) -> Seq<u8> {
    be_bytes(encode_utf8(title).len() as u64) + encode_utf8(title) + encode_utf8(body)
}

/// The hash part of an article's identifier.
pub open spec fn article_hash(title: Seq<char>, body: Seq<char>) -> Seq<char> {
    zbase32_of(blake2s256_of(digest_input(title, body)), ARTICLE_HASH_BITLEN)
}

/// `t` with each character the sanitizer replaces turned into `_`.
pub open spec fn underscore_replaced(t: Seq<char>) -> Seq<char> {
    t.map_values(|c: char| if replaced_by_sanitizer(c) { '_' } else { c })
}

/// A non-empty name of dots only.
pub open spec fn all_dots(t: Seq<char>) -> bool {
    t.len() > 0 && forall|i: int| 0 <= i < t.len() ==> t[i] == '.'
}

/// `c` is the lower-case ASCII letter `l` in either case.
pub open spec fn is_letter_ci(c: char, l: char) -> bool {
    c == l || (c as u32) + 32 == (l as u32)
}

/// The name might be a Windows device name (`con`, `prn`, `aux`, `nul`, `com0`-`com9`,
/// `lpt0`-`lpt9`, in any case, alone or before a `.`): it starts with one of those three-letter
/// stems, or with a character outside ASCII. Any name that is one is among these.
pub open spec fn may_be_device_name(t: Seq<char>) -> bool {
    &&& t.len() >= 3
    &&& {
        ||| (t[0] as u32) >= 0x80 || (t[1] as u32) >= 0x80 || (t[2] as u32) >= 0x80
        ||| is_letter_ci(t[0], 'c') && is_letter_ci(t[1], 'o') && is_letter_ci(t[2], 'n')
        ||| is_letter_ci(t[0], 'p') && is_letter_ci(t[1], 'r') && is_letter_ci(t[2], 'n')
        ||| is_letter_ci(t[0], 'a') && is_letter_ci(t[1], 'u') && is_letter_ci(t[2], 'x')
        ||| is_letter_ci(t[0], 'n') && is_letter_ci(t[1], 'u') && is_letter_ci(t[2], 'l')
        ||| is_letter_ci(t[0], 'c') && is_letter_ci(t[1], 'o') && is_letter_ci(t[2], 'm')
        ||| is_letter_ci(t[0], 'l') && is_letter_ci(t[1], 'p') && is_letter_ci(t[2], 't')
    }
}

/// Relies on `sanitize_filename::sanitize_with_options` with Windows rules, no truncation and `_`
/// as the replacement: every path separator, Windows-reserved or control character is replaced
/// by `_` (DEL is kept), a name of dots only becomes `_`, and so does a Windows device name;
/// every other character is kept.
#[verifier::external_body]
fn sanitize_title(title: &str) -> (r: String)
    ensures
        r@ == sanitized_of(title@),
        forall|i: int| 0 <= i < r@.len() ==> !replaced_by_sanitizer(#[trigger] r@[i]),
        !all_dots(underscore_replaced(title@)) && !may_be_device_name(underscore_replaced(title@))
            ==> r@ == underscore_replaced(title@),
        all_dots(underscore_replaced(title@)) ==> r@ == "_"@,
{
    let options = sanitize_filename::Options { windows: true, truncate: false, replacement: "_" };
    sanitize_filename::sanitize_with_options(title, options)
}

/// Relies on `byteorder::BigEndian::write_u64`: the eight bytes of `x`, most significant first.
#[verifier::external_body]
fn u64_to_be_bytes(x: u64) -> (r: [u8; 8])
    ensures
        r@ == be_bytes(x),
{
    let mut buf = [0u8; 8];
    byteorder::BigEndian::write_u64(&mut buf, x);
    buf
}

/// Relies on `blake2::Blake2s256::digest`: the 32-byte BLAKE2s digest of `msg`.
#[verifier::external_body]
fn blake2s256(msg: &[u8]) -> (r: Vec<u8>)
    ensures
        r@ == blake2s256_of(msg@),
        r@.len() == 32,
{
    blake2::Blake2s256::digest(msg).to_vec()
}

/// Relies on `zbase32::encode`: the first `bits` bits of `data`, five to a digit of the z-base-32
/// alphabet, the last digit padded with zero bits.
#[verifier::external_body]
fn zbase32_encode(data: &[u8], bits: u64) -> (r: String)
    requires
        data@.len() * 8 >= bits,
    ensures
        r@ == zbase32_of(data@, bits),
        r@.len() == (bits + 4) / 5,
        forall|i: int| 0 <= i < r@.len() ==> is_zbase32_digit(#[trigger] r@[i]),
{
    zbase32::encode(data, bits)
}

/// `s` with every DEL replaced by `_`.
fn replace_del(s: &str) -> (r: String)
    ensures
        r@ == without_del(s@),
{
    let cs = chars_of(s);
    let mut r = String::new();
    let mut i: usize = 0;
    while i < cs.len()
        invariant
            i <= cs@.len(),
            cs@ == s@,
            r@ == without_del(s@).take(i as int),
        decreases cs@.len() - i,
    {
        let c = if cs[i] as u32 == 0x7f {
            '_'
        } else {
            cs[i]
        };
        push_char(&mut r, c);
        proof {
            assert(without_del(s@).take(i + 1) =~= without_del(s@).take(i as int).push(c));
        }
        i = i + 1;
    }
    proof {
        assert(without_del(s@).take(i as int) =~= without_del(s@));
    }
    r
}

/// Appends the bytes of `src` to `dst`.
fn append_bytes(dst: &mut Vec<u8>, src: &[u8])
    ensures
        final(dst)@ == old(dst)@ + src@,
{
    let mut i: usize = 0;
    while i < src.len()
        invariant
            i <= src@.len(),
            dst@ == old(dst)@ + src@.take(i as int),
        decreases src@.len() - i,
    {
        dst.push(src[i]);
        proof {
            assert(src@.take(i + 1) =~= src@.take(i as int).push(src@[i as int]));
        }
        i = i + 1;
    }
    proof {
        assert(src@.take(i as int) =~= src@);
    }
}

/// The z-base-32 encoded hash of an article: the first 128 bits of BLAKE2s-256 over the title's
/// length (eight bytes, big-endian), the title and the body.
fn hash_article(article: &ArticleTextSubmission) -> (r: String)
    ensures
        r@ == article_hash(article.title@, article.body@),
        r@.len() == 26,
        forall|i: int| 0 <= i < r@.len() ==> is_zbase32_digit(#[trigger] r@[i]),
{
    let title = article.title.as_str().as_bytes();
    let body = article.body.as_str().as_bytes();
    let len_buf = u64_to_be_bytes(title.len() as u64);
    let mut msg: Vec<u8> = Vec::new();
    append_bytes(&mut msg, &len_buf);
    append_bytes(&mut msg, title);
    append_bytes(&mut msg, body);
    proof {
        assert(msg@ =~= digest_input(article.title@, article.body@));
    }
    let digest = blake2s256(msg.as_slice());
    zbase32_encode(digest.as_slice(), ARTICLE_HASH_BITLEN)
}

/// The identifier of an article with the given title and body.
pub open spec fn is_article_id(title: Seq<char>, body: Seq<char>, id: Seq<char>) -> bool {
    exists|short: Seq<char>|
        #![trigger is_truncation(safe_title(title), FILENAME_TITLE_MAXLEN as nat, StrEncoding::Utf8, short)]
        is_truncation(safe_title(title), FILENAME_TITLE_MAXLEN as nat, StrEncoding::Utf8, short)
            && id == short + seq!['-'] + article_hash(title, body)
}

/// Derives the identifier of an article, `SHORTTITLE-HASH`, where `SHORTTITLE` is the title made
/// safe for file names and truncated to at most 20 bytes, and `HASH` encodes a hash of the title
/// and the body. The identifier holds no character that a file name may not hold.
pub fn derive_article_id(article: &ArticleTextSubmission) -> (r: String)
    ensures
        is_article_id(article.title@, article.body@, r@),
        forall|i: int| 0 <= i < r@.len() ==> !forbidden_in_filename(#[trigger] r@[i]),
{
    let sanitized = replace_del(sanitize_title(article.title.as_str()).as_str());
    let short = truncate_to_bytes(sanitized.as_str(), FILENAME_TITLE_MAXLEN, StrEncoding::Utf8);
    let hash = hash_article(article);
    let mut id = short;
    let ghost short_v = id@;
    id.append("-");
    id.append(hash.as_str());
    proof {
        reveal_strlit("-");
        assert(id@ == short_v + seq!['-'] + hash@);
        assert(is_truncation(
            safe_title(article.title@),
            FILENAME_TITLE_MAXLEN as nat,
            StrEncoding::Utf8,
            short_v,
        ));
        assert forall|i: int| 0 <= i < id@.len() implies !forbidden_in_filename(#[trigger] id@[i]) by {
            if i < short_v.len() {
                assert(short_v[i] == sanitized@[i]);
            } else if i > short_v.len() {
                assert(id@[i] == hash@[i - short_v.len() - 1]);
            }
        }
    }
    id
}

/// An article has exactly one identifier: deriving it twice from the same title and body gives
/// the same result.
pub proof fn lemma_article_id_deterministic(
    title: Seq<char>,
    body: Seq<char>,
    id1: Seq<char>,
    id2: Seq<char>,
)
    requires
        is_article_id(title, body, id1),
        is_article_id(title, body, id2),
    ensures
        id1 == id2,
{
    let s = safe_title(title);
    let m = FILENAME_TITLE_MAXLEN as nat;
    let short1 = choose|short: Seq<char>|
        is_truncation(s, m, StrEncoding::Utf8, short) && id1 == short + seq!['-'] + article_hash(
            title,
            body,
        );
    let short2 = choose|short: Seq<char>|
        is_truncation(s, m, StrEncoding::Utf8, short) && id2 == short + seq!['-'] + article_hash(
            title,
            body,
        );
    lemma_truncation_unique(s, m, StrEncoding::Utf8, short1, short2);
}

proof fn lemma_be_bytes_injective(x: u64, y: u64)
    requires
        be_bytes(x) == be_bytes(y),
    ensures
        x == y,
{
    assert(be_bytes(x)[0] == be_bytes(y)[0]);
    assert(be_bytes(x)[1] == be_bytes(y)[1]);
    assert(be_bytes(x)[2] == be_bytes(y)[2]);
    assert(be_bytes(x)[3] == be_bytes(y)[3]);
    assert(be_bytes(x)[4] == be_bytes(y)[4]);
    assert(be_bytes(x)[5] == be_bytes(y)[5]);
    assert(be_bytes(x)[6] == be_bytes(y)[6]);
    assert(be_bytes(x)[7] == be_bytes(y)[7]);
    assert(x == y) by (bit_vector)
        requires
            (x >> 56) as u8 == (y >> 56) as u8,
            (x >> 48) as u8 == (y >> 48) as u8,
            (x >> 40) as u8 == (y >> 40) as u8,
            (x >> 32) as u8 == (y >> 32) as u8,
            (x >> 24) as u8 == (y >> 24) as u8,
            (x >> 16) as u8 == (y >> 16) as u8,
            (x >> 8) as u8 == (y >> 8) as u8,
            x as u8 == y as u8,
    ;
}

/// Different articles hash different messages: because the title's length comes first, no two
/// (title, body) pairs give the same input to the digest, even where their concatenations agree.
pub proof fn lemma_digest_input_injective(
    t1: Seq<char>,
    b1: Seq<char>,
    t2: Seq<char>,
    b2: Seq<char>,
)
    requires
        encode_utf8(t1).len() <= u64::MAX,
        encode_utf8(t2).len() <= u64::MAX,
        digest_input(t1, b1) == digest_input(t2, b2),
    ensures
        t1 == t2,
        b1 == b2,
{
    let m = digest_input(t1, b1);
    let l1 = encode_utf8(t1).len();
    let l2 = encode_utf8(t2).len();
    assert(m.take(8) =~= be_bytes(l1 as u64));
    assert(m.take(8) =~= be_bytes(l2 as u64));
    lemma_be_bytes_injective(l1 as u64, l2 as u64);
    assert(m.subrange(8, 8 + l1 as int) =~= encode_utf8(t1));
    assert(m.subrange(8, 8 + l2 as int) =~= encode_utf8(t2));
    assert(m.skip(8 + l1 as int) =~= encode_utf8(b1));
    assert(m.skip(8 + l2 as int) =~= encode_utf8(b2));
    encode_utf8_decode_utf8(t1);
    encode_utf8_decode_utf8(t2);
    encode_utf8_decode_utf8(b1);
    encode_utf8_decode_utf8(b2);
}

} // verus!
