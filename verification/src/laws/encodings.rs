//! Laws of the encodings: what the characters of a content identifier and of a
//! base64 text stand for.
use crate::encoding;
use crate::hash;
use vstd::prelude::*;

verus! {

/// The byte at a place; zero behind the end.
pub open spec fn byte_at(bytes: Seq<u8>, i: int) -> int {
    if 0 <= i < bytes.len() {
        bytes[i] as int
    } else {
        0
    }
}

// ----------------------------------------------------------------------- base32
/// The number that a lower-case base32 digit stands for.
pub open spec fn base32_digit(c: char) -> int {
    if 'a' <= c <= 'z' {
        c as int - 'a' as int
    } else if '2' <= c <= '7' {
        c as int - '2' as int + 26
    } else {
        -1
    }
}

/// The number at a place of a base32 text; zero behind its end.
pub open spec fn base32_at(s: Seq<char>, i: int) -> int {
    if 0 <= i < s.len() {
        base32_digit(s[i])
    } else {
        0
    }
}

/// The byte at a place, put together from the digits of the base32 text that
/// hold its eight bits.
pub open spec fn base32_byte(s: Seq<char>, i: int) -> int {
    let g = 8 * (i / 5);
    if i % 5 == 0 {
        base32_at(s, g) * 8 + base32_at(s, g + 1) / 4
    } else if i % 5 == 1 {
        base32_at(s, g + 1) % 4 * 64 + base32_at(s, g + 2) * 2 + base32_at(s, g + 3) / 16
    } else if i % 5 == 2 {
        base32_at(s, g + 3) % 16 * 16 + base32_at(s, g + 4) / 2
    } else if i % 5 == 3 {
        base32_at(s, g + 4) % 2 * 128 + base32_at(s, g + 5) * 4 + base32_at(s, g + 6) / 8
    } else {
        base32_at(s, g + 6) % 8 * 32 + base32_at(s, g + 7)
    }
}

proof fn lemma_base32_value(bytes: Seq<u8>, i: int)
    requires
        0 <= i,
    ensures
        base32_at(hash::base32_text(bytes), i) == hash::five_bits(bytes, i),
        0 <= hash::five_bits(bytes, i) < 32,
{
    let n = bytes.len() as int;
    let s = hash::base32_text(bytes);
    let v = hash::five_bits(bytes, i);
    assert(s.len() == (8 * n + 4) / 5);
    if i < s.len() {
        assert(s[i] == hash::base32_char(v));
    } else {
        assert(5 * i >= 8 * n);
        let first = 5 * i / 8;
        assert(first >= n);
        assert(encoding::byte_or_zero(bytes, first) == 0);
        assert(encoding::byte_or_zero(bytes, first + 1) == 0);
        assert(v == 0);
    }
}

/// A base32 text has one digit for every five bits begun; decoding it gives back
/// every byte, and the bits that fill up the last digit are zero.
#[verifier::rlimit(40)]
pub proof fn law_base32_can_be_decoded(bytes: Seq<u8>, i: int)
    requires
        0 <= i,
    ensures
        ({
            let s = hash::base32_text(bytes);
            &&& 5 * s.len() >= 8 * bytes.len()
            &&& 5 * s.len() < 8 * bytes.len() + 5
            &&& i < s.len() ==> 0 <= base32_digit(s[i]) < 32
            &&& base32_byte(s, i) == byte_at(bytes, i)
        }),
{
    let group = i / 5;
    hash::lemma_group_bytes(bytes, group);
    lemma_base32_value(bytes, i);
    lemma_base32_value(bytes, 8 * group);
    lemma_base32_value(bytes, 8 * group + 1);
    lemma_base32_value(bytes, 8 * group + 2);
    lemma_base32_value(bytes, 8 * group + 3);
    lemma_base32_value(bytes, 8 * group + 4);
    lemma_base32_value(bytes, 8 * group + 5);
    lemma_base32_value(bytes, 8 * group + 6);
    lemma_base32_value(bytes, 8 * group + 7);
}

/// A content identifier is the letter `b` and a base32 text of the version, the
/// codec, the hash function, the digest's length, and the digest, byte for byte.
pub proof fn law_cid_can_be_decoded(digest: Seq<u8>, i: int)
    requires
        0 <= i < digest.len(),
    ensures
        ({
            let cid = hash::cid_text(digest);
            let s = cid.skip(1);
            &&& digest.len() == 32 ==> cid.len() == 59
            &&& cid.len() == 1 + (8 * (4 + digest.len()) + 4) / 5
            &&& cid[0] == 'b'
            &&& base32_byte(s, 0) == 0x01
            &&& base32_byte(s, 1) == 0x55
            &&& base32_byte(s, 2) == 0x12
            &&& base32_byte(s, 3) == 0x20
            &&& base32_byte(s, 4 + i) == digest[i]
        }),
{
    reveal_strlit("b");
    let bytes = seq![0x01u8, 0x55u8, 0x12u8, 0x20u8] + digest;
    let cid = hash::cid_text(digest);
    assert(cid.skip(1) =~= hash::base32_text(bytes));
    law_base32_can_be_decoded(bytes, 0);
    law_base32_can_be_decoded(bytes, 1);
    law_base32_can_be_decoded(bytes, 2);
    law_base32_can_be_decoded(bytes, 3);
    law_base32_can_be_decoded(bytes, 4 + i);
    assert(bytes[4 + i] == digest[i]);
}

// ----------------------------------------------------------------------- base64
/// The number that a base64 digit stands for; padding stands for zero.
pub open spec fn base64_digit(c: char) -> int {
    if 'A' <= c <= 'Z' {
        c as int - 'A' as int
    } else if 'a' <= c <= 'z' {
        c as int - 'a' as int + 26
    } else if '0' <= c <= '9' {
        c as int - '0' as int + 52
    } else if c == '+' {
        62
    } else if c == '/' {
        63
    } else if c == '=' {
        0
    } else {
        -1
    }
}

/// The byte at a place, put together from the digits of the base64 text that
/// hold its eight bits.
pub open spec fn base64_byte(s: Seq<char>, i: int) -> int {
    let g = 4 * (i / 3);
    if i % 3 == 0 {
        base64_digit(s[g]) * 4 + base64_digit(s[g + 1]) / 16
    } else if i % 3 == 1 {
        base64_digit(s[g + 1]) % 16 * 16 + base64_digit(s[g + 2]) / 4
    } else {
        base64_digit(s[g + 2]) % 4 * 64 + base64_digit(s[g + 3])
    }
}

proof fn lemma_base64_value(bytes: Seq<u8>, group: int, place: int)
    requires
        0 <= group,
        3 * group < bytes.len(),
        0 <= place < 4,
    ensures
        ({
            let s = encoding::base64_text(bytes);
            &&& 4 * group + place < s.len()
            &&& base64_digit(s[4 * group + place]) == encoding::sextet(
                encoding::group_value(bytes, group),
                place,
            )
            &&& s[4 * group + place] == '=' <==> 3 * group + place > bytes.len()
        }),
{
    let i = 4 * group + place;
    let n = bytes.len() as int;
    assert(i / 4 == group && i % 4 == place);
    let x = encoding::group_value(bytes, group);
    let v = encoding::sextet(x, place);
    assert(0 <= x < 0x1000000);
    assert(0 <= v < 64);
    if 3 * group + place > n {
        assert(encoding::byte_or_zero(bytes, 3 * group + 2) == 0);
        if place == 2 {
            assert(encoding::byte_or_zero(bytes, 3 * group + 1) == 0);
        }
        assert(v == 0);
    } else {
        lemma_base64_char(v);
    }
}

proof fn lemma_base64_char(v: int)
    requires
        0 <= v < 64,
    ensures
        base64_digit(encoding::alphabet_char(v)) == v,
        encoding::alphabet_char(v) != '=',
{
}

/// A base64 text has four characters for every three bytes begun; decoding it
/// gives back every byte, and padding stands only where there is no byte left to
/// tell.
pub proof fn law_base64_can_be_decoded(bytes: Seq<u8>, i: int)
    requires
        0 <= i < bytes.len(),
    ensures
        ({
            let s = encoding::base64_text(bytes);
            let g = i / 3;
            &&& s.len() == 4 * ((bytes.len() + 2) / 3)
            &&& base64_byte(s, i) == bytes[i]
            &&& s[4 * g] != '=' && s[4 * g + 1] != '='
            &&& s[4 * g + 2] == '=' <==> 3 * g + 1 == bytes.len()
            &&& s[4 * g + 3] == '=' <==> 3 * g + 3 > bytes.len()
        }),
{
    let group = i / 3;
    encoding::lemma_group_bytes(bytes, group);
    lemma_base64_value(bytes, group, 0);
    lemma_base64_value(bytes, group, 1);
    lemma_base64_value(bytes, group, 2);
    lemma_base64_value(bytes, group, 3);
}

} // verus!
