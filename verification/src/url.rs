//! Percent-encoding of text for URLs.
use vstd::prelude::*;
use vstd::utf8::{decode_utf8, encode_utf8};

verus! {

/// The bytes that stand for themselves in a URL.
pub open spec fn unreserved(b: u8) -> bool {
    ||| 'A' as u8 <= b <= 'Z' as u8
    ||| 'a' as u8 <= b <= 'z' as u8
    ||| '0' as u8 <= b <= '9' as u8
    ||| b == '-' as u8
    ||| b == '_' as u8
    ||| b == '.' as u8
    ||| b == '~' as u8
}

/// The upper-case hexadecimal digit of `n`.
pub open spec fn hex_digit(n: int) -> char {
    if n < 10 {
        ('0' as u32 + n) as char
    } else {
        ('A' as u32 + n - 10) as char
    }
}

/// One byte in a URL.
pub open spec fn encoded_byte(b: u8) -> Seq<char> {
    if unreserved(b) {
        seq![b as char]
    } else {
        seq!['%', hex_digit(b as int / 16), hex_digit(b as int % 16)]
    }
}

/// The bytes in a URL.
pub open spec fn encoded_bytes(bytes: Seq<u8>) -> Seq<char>
    decreases bytes.len(),
{
    if bytes.len() == 0 {
        Seq::empty()
    } else {
        encoded_byte(bytes[0]) + encoded_bytes(bytes.skip(1))
    }
}

/// The text in a URL: its UTF-8 bytes, percent-encoded.
pub open spec fn url_encoded(s: Seq<char>) -> Seq<char> {
    encoded_bytes(encode_utf8(s))
}

fn is_unreserved(b: u8) -> (r: bool)
    ensures
        r == unreserved(b),
{
    ('A' as u8 <= b && b <= 'Z' as u8) || ('a' as u8 <= b && b <= 'z' as u8) || ('0' as u8 <= b && b
        <= '9' as u8) || b == '-' as u8 || b == '_' as u8 || b == '.' as u8 || b == '~' as u8
}

fn hex_char(n: u8) -> (c: char)
    requires
        n < 16,
    ensures
        c == hex_digit(n as int),
{
    if n < 10 {
        ('0' as u8 + n) as char
    } else {
        ('A' as u8 + (n - 10)) as char
    }
}

/// Percent-encodes the text for use in a URL.
pub fn url_encode(s: &str) -> (r: String)
    ensures
        r@ == url_encoded(s@),
{
    let bytes = s.as_bytes();
    let len: usize = bytes.len();
    let mut out = String::new();
    let mut i: usize = 0;
    assert(bytes@.skip(0) =~= bytes@);
    assert(out@ + encoded_bytes(bytes@.skip(0)) =~= encoded_bytes(bytes@));
    while i < len
        invariant
            i <= len,
            len == bytes@.len(),
            out@ + encoded_bytes(bytes@.skip(i as int)) == encoded_bytes(bytes@),
        decreases len - i,
    {
        let b = bytes[i];
        let ghost earlier = out@;
        let ghost rest = bytes@.skip(i as int);
        if is_unreserved(b) {
            out.push(b as char);
        } else {
            out.push('%');
            out.push(hex_char(b / 16));
            out.push(hex_char(b % 16));
        }
        i += 1;
        proof {
            assert(rest.skip(1) =~= bytes@.skip(i as int));
            assert(out@ =~= earlier + encoded_byte(b));
            assert(out@ + encoded_bytes(bytes@.skip(i as int)) =~= earlier + (encoded_byte(b)
                + encoded_bytes(bytes@.skip(i as int))));
        }
    }
    assert(out@ + encoded_bytes(bytes@.skip(i as int)) =~= out@);
    out
}

// ---------------------------------------------------------------------------
// Laws
// ---------------------------------------------------------------------------

/// The value of an upper-case hexadecimal digit.
pub open spec fn hex_value(c: char) -> int {
    if c <= '9' {
        c as u32 - '0' as u32
    } else {
        c as u32 - 'A' as u32 + 10
    }
}

/// The bytes that a percent-encoded text stands for.
pub open spec fn percent_decoded(s: Seq<char>) -> Seq<u8>
    decreases s.len(),
{
    if s.len() == 0 {
        Seq::empty()
    } else if s[0] == '%' && s.len() >= 3 {
        seq![(16 * hex_value(s[1]) + hex_value(s[2])) as u8] + percent_decoded(s.skip(3))
    } else {
        seq![s[0] as u8] + percent_decoded(s.skip(1))
    }
}

/// Decoding a percent-encoded text gives its UTF-8 bytes back.
pub proof fn law_url_encoding_decodes(s: Seq<char>)
    ensures
        percent_decoded(url_encoded(s)) == encode_utf8(s),
{
    lemma_bytes_decode(encode_utf8(s));
}

/// Two texts with the same percent-encoding are the same text.
pub proof fn law_url_encoding_is_injective(s: Seq<char>, t: Seq<char>)
    requires
        url_encoded(s) == url_encoded(t),
    ensures
        s == t,
{
    law_url_encoding_decodes(s);
    law_url_encoding_decodes(t);
    vstd::utf8::encode_utf8_decode_utf8(s);
    vstd::utf8::encode_utf8_decode_utf8(t);
    assert(decode_utf8(encode_utf8(s)) == s);
}

/// A percent-encoded text holds only unreserved characters and percent signs,
/// so none that has a meaning in a URL.
pub proof fn law_url_encoding_is_safe(s: Seq<char>, i: int)
    requires
        0 <= i < url_encoded(s).len(),
    ensures
        url_encoded(s)[i] == '%' || (url_encoded(s)[i] <= '~' && unreserved(
            url_encoded(s)[i] as u8,
        )),
{
    lemma_bytes_safe(encode_utf8(s), i);
}

proof fn lemma_bytes_decode(bytes: Seq<u8>)
    ensures
        percent_decoded(encoded_bytes(bytes)) == bytes,
    decreases bytes.len(),
{
    let s = encoded_bytes(bytes);
    if bytes.len() > 0 {
        let b = bytes[0];
        let rest = encoded_bytes(bytes.skip(1));
        lemma_bytes_decode(bytes.skip(1));
        if unreserved(b) {
            assert(s.skip(1) =~= rest);
            assert(s[0] == b as char);
            assert(percent_decoded(s) == seq![b] + bytes.skip(1));
        } else {
            assert(s.skip(3) =~= rest);
            assert(s[1] == hex_digit(b as int / 16));
            assert(s[2] == hex_digit(b as int % 16));
            assert(percent_decoded(s) == seq![b] + bytes.skip(1));
        }
        assert(seq![b] + bytes.skip(1) =~= bytes);
    } else {
        assert(bytes =~= Seq::empty());
    }
}

proof fn lemma_bytes_safe(bytes: Seq<u8>, i: int)
    requires
        0 <= i < encoded_bytes(bytes).len(),
    ensures
        encoded_bytes(bytes)[i] == '%' || (encoded_bytes(bytes)[i] <= '~' && unreserved(
            encoded_bytes(bytes)[i] as u8,
        )),
    decreases bytes.len(),
{
    let n = encoded_byte(bytes[0]).len();
    if i >= n {
        lemma_bytes_safe(bytes.skip(1), i - n);
    }
}

/// Bytes are encoded one by one: letters, digits and four marks by themselves, and
/// each other byte by a percent sign and its two hexadecimal digits.
pub proof fn law_bytes_are_encoded_one_by_one(a: Seq<u8>, b: u8, c: Seq<u8>)
    ensures
        encoded_bytes(Seq::empty()) == Seq::<char>::empty(),
        encoded_bytes(a + c) == encoded_bytes(a) + encoded_bytes(c),
        0x41 <= b <= 0x5a || 0x61 <= b <= 0x7a || 0x30 <= b <= 0x39 || b == 0x2d || b == 0x5f || b
            == 0x2e || b == 0x7e ==> encoded_bytes(seq![b]) == seq![b as char],
        !(0x41 <= b <= 0x5a || 0x61 <= b <= 0x7a || 0x30 <= b <= 0x39 || b == 0x2d || b == 0x5f
            || b == 0x2e || b == 0x7e) ==> encoded_bytes(seq![b]) == seq![
            '%',
            "0123456789ABCDEF"@[b as int / 16],
            "0123456789ABCDEF"@[b as int % 16],
        ],
    decreases a.len(),
{
    let none = Seq::<u8>::empty();
    reveal_strlit("0123456789ABCDEF");
    assert(seq![b].skip(1) =~= none);
    assert(encoded_bytes(none) =~= Seq::empty());
    assert(encoded_bytes(seq![b]) == encoded_byte(seq![b][0]) + encoded_bytes(seq![b].skip(1)));
    assert(encoded_bytes(seq![b]) =~= encoded_byte(b));
    if a.len() == 0 {
        assert(a + c =~= c);
        assert(encoded_bytes(a) + encoded_bytes(c) =~= encoded_bytes(c));
    } else {
        law_bytes_are_encoded_one_by_one(a.skip(1), b, c);
        assert((a + c).skip(1) =~= a.skip(1) + c);
        assert(encoded_bytes(a + c) =~= encoded_bytes(a) + encoded_bytes(c));
    }
}

/// The bytes of two texts, one behind the other, are those of the first and then
/// those of the second.
proof fn lemma_bytes_of_both(s: Seq<char>, t: Seq<char>)
    ensures
        encode_utf8(s + t) == encode_utf8(s) + encode_utf8(t),
    decreases s.len(),
{
    if s.len() == 0 {
        assert(s + t =~= t);
        assert(encode_utf8(s) + encode_utf8(t) =~= encode_utf8(t));
    } else {
        lemma_bytes_of_both(s.drop_first(), t);
        assert((s + t).drop_first() =~= s.drop_first() + t);
        assert(encode_utf8(s + t) =~= encode_utf8(s) + encode_utf8(t));
    }
}

/// A text is encoded by its UTF-8 bytes: two texts one behind the other as the two
/// encodings, one behind the other.
pub proof fn law_text_is_encoded_by_its_bytes(s: Seq<char>, t: Seq<char>)
    ensures
        url_encoded(s) == encoded_bytes(encode_utf8(s)),
        url_encoded(s + t) == url_encoded(s) + url_encoded(t),
{
    lemma_bytes_of_both(s, t);
    law_bytes_are_encoded_one_by_one(encode_utf8(s), 0, encode_utf8(t));
}

} // verus!
