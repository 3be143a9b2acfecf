//! Content identifiers: the textual hash under which a file is stored.
use crate::encoding;
use vstd::prelude::*;

verus! {

/// The SHA-256 digest of a message.
pub uninterp spec fn sha256_digest(message: Seq<u8>) -> Seq<u8>;

/// The longest message, in bytes, whose length in bits SHA-256 can count.
pub const SHA256_MAX_LEN: u64 = 0x1fff_ffff_ffff_ffff;

/// `sha2::Sha256::digest`: 32 bytes that depend on the message alone.
#[verifier::external_body]
fn sha256(message: &[u8]) -> (res: Vec<u8>)
    requires
        message@.len() <= SHA256_MAX_LEN,
    ensures
        res@ == sha256_digest(message@),
        res@.len() == 32,
{
    <sha2::Sha256 as sha2::Digest>::digest(message).to_vec()
}

/// The character of the lower-case base32 alphabet (RFC 4648, section 6) for a
/// value below 32.
pub open spec fn base32_char(v: int) -> char {
    if v < 26 {
        (0x61 + v) as u8 as char
    } else {
        (0x32 + v - 26) as u8 as char
    }
}

/// The weight of the lowest of the five bits that begin `offset` bits into a
/// window of two bytes.
pub open spec fn window_weight(offset: int) -> int {
    if offset == 0 {
        2048
    } else if offset == 1 {
        1024
    } else if offset == 2 {
        512
    } else if offset == 3 {
        256
    } else if offset == 4 {
        128
    } else if offset == 5 {
        64
    } else if offset == 6 {
        32
    } else {
        16
    }
}

/// The five bits of `bytes` from bit `5 * i` on, as a number; bits behind the
/// end are zero.
pub open spec fn five_bits(bytes: Seq<u8>, i: int) -> int {
    let first = 5 * i / 8;
    let window = encoding::byte_or_zero(bytes, first) * 256 + encoding::byte_or_zero(
        bytes,
        first + 1,
    );
    window / window_weight(5 * i % 8) % 32
}

/// The base32 text of `bytes`, without padding: one character for every five
/// bits begun.
pub open spec fn base32_text(bytes: Seq<u8>) -> Seq<char> {
    Seq::new(
        ((8 * bytes.len() + 4) / 5) as nat,
        |i: int| base32_char(five_bits(bytes, i)),
    )
}

/// The content identifier for a SHA-256 digest: version 1, raw bytes, in
/// base32 behind its prefix `b`.
pub open spec fn cid_text(digest: Seq<u8>) -> Seq<char> {
    "b"@ + base32_text(seq![0x01u8, 0x55u8, 0x12u8, 0x20u8] + digest)
}

fn base32_digit(v: u32) -> (res: char)
    requires
        v < 32,
    ensures
        res == base32_char(v as int),
{
    if v < 26 {
        (0x61 + v) as u8 as char
    } else {
        (0x32 + (v - 26)) as u8 as char
    }
}

/// The five bits that begin `offset` bits into the window `high`, `low`.
fn window_bits(high: u8, low: u8, offset: usize) -> (res: u32)
    requires
        offset < 8,
    ensures
        res == (high as int * 256 + low as int) / window_weight(offset as int) % 32,
{
    let window: u32 = high as u32 * 256 + low as u32;
    if offset == 0 {
        window / 2048 % 32
    } else if offset == 1 {
        window / 1024 % 32
    } else if offset == 2 {
        window / 512 % 32
    } else if offset == 3 {
        window / 256 % 32
    } else if offset == 4 {
        window / 128 % 32
    } else if offset == 5 {
        window / 64 % 32
    } else if offset == 6 {
        window / 32 % 32
    } else {
        window / 16 % 32
    }
}

/// The base32 text of `bytes`, without padding.
fn base32(bytes: &Vec<u8>) -> (res: String)
    ensures
        res@ == base32_text(bytes@),
{
    let mut out = String::new();
    let mut first: usize = 0;
    let mut offset: usize = 0;
    let ghost mut i: int = 0;
    assert(out@ =~= base32_text(bytes@).take(0));
    while first < bytes.len()
        invariant
            0 <= i <= base32_text(bytes@).len(),
            first as int == 5 * i / 8,
            offset as int == 5 * i % 8,
            out@ == base32_text(bytes@).take(i),
        decreases base32_text(bytes@).len() - i,
    {
        let low: u8 = if bytes.len() - first > 1 {
            bytes[first + 1]
        } else {
            0
        };
        let v: u32 = window_bits(bytes[first], low, offset);
        assert(i < base32_text(bytes@).len());
        assert(v == five_bits(bytes@, i));
        out.push(base32_digit(v));
        assert(out@ =~= base32_text(bytes@).take(i + 1));
        if offset < 3 {
            offset = offset + 5;
        } else {
            offset = offset - 3;
            first = first + 1;
        }
        proof {
            i = i + 1;
        }
    }
    assert(base32_text(bytes@).take(i) =~= base32_text(bytes@));
    out
}

/// The content identifier for a digest.
pub fn cid_of_digest(digest: &Vec<u8>) -> (res: String)
    ensures
        res@ == cid_text(digest@),
{
    let mut bytes: Vec<u8> = Vec::new();
    bytes.push(0x01);
    bytes.push(0x55);
    bytes.push(0x12);
    bytes.push(0x20);
    let mut i: usize = 0;
    while i < digest.len()
        invariant
            i <= digest@.len(),
            bytes@ == seq![0x01u8, 0x55u8, 0x12u8, 0x20u8] + digest@.take(i as int),
        decreases digest@.len() - i,
    {
        bytes.push(digest[i]);
        assert(digest@.take(i + 1) =~= digest@.take(i as int).push(digest@[i as int]));
        i = i + 1;
    }
    assert(digest@.take(i as int) =~= digest@);
    let mut res = "b".to_string();
    res.push_str(base32(&bytes).as_str());
    res
}

/// The content identifier of a file.
pub fn compute_ipfs_cid(bytes: &[u8]) -> (res: String)
    requires
        bytes@.len() <= SHA256_MAX_LEN,
    ensures
        res@ == cid_text(sha256_digest(bytes@)),
{
    cid_of_digest(&sha256(bytes))
}

// ------------------------------------------------------------------------ laws
/// The eight characters of a group of five bytes stand for these values.
proof fn lemma_group_values(bytes: Seq<u8>, group: int)
    requires
        0 <= group,
    ensures
        ({
            let b = |k: int| encoding::byte_or_zero(bytes, 5 * group + k);
            let c = |j: int| five_bits(bytes, 8 * group + j);
            &&& c(0) == b(0) / 8
            &&& c(1) == b(0) % 8 * 4 + b(1) / 64
            &&& c(2) == b(1) / 2 % 32
            &&& c(3) == b(1) % 2 * 16 + b(2) / 16
            &&& c(4) == b(2) % 16 * 2 + b(3) / 128
            &&& c(5) == b(3) / 4 % 32
            &&& c(6) == b(3) % 4 * 8 + b(4) / 32
            &&& c(7) == b(4) % 32
        }),
{
    lemma_window(bytes, 8 * group + 0, 5 * group + 0, 0);
    lemma_window(bytes, 8 * group + 1, 5 * group + 0, 5);
    lemma_window(bytes, 8 * group + 2, 5 * group + 1, 2);
    lemma_window(bytes, 8 * group + 3, 5 * group + 1, 7);
    lemma_window(bytes, 8 * group + 4, 5 * group + 2, 4);
    lemma_window(bytes, 8 * group + 5, 5 * group + 3, 1);
    lemma_window(bytes, 8 * group + 6, 5 * group + 3, 6);
    lemma_window(bytes, 8 * group + 7, 5 * group + 4, 3);
}

/// Each byte of a group, put together from the values that hold its bits.
pub proof fn lemma_group_bytes(bytes: Seq<u8>, group: int)
    requires
        0 <= group,
    ensures
        ({
            let b = |k: int| encoding::byte_or_zero(bytes, 5 * group + k);
            let c = |j: int| five_bits(bytes, 8 * group + j);
            &&& b(0) == c(0) * 8 + c(1) / 4
            &&& b(1) == c(1) % 4 * 64 + c(2) * 2 + c(3) / 16
            &&& b(2) == c(3) % 16 * 16 + c(4) / 2
            &&& b(3) == c(4) % 2 * 128 + c(5) * 4 + c(6) / 8
            &&& b(4) == c(6) % 8 * 32 + c(7)
        }),
{
    lemma_group_values(bytes, group);
    let b0 = encoding::byte_or_zero(bytes, 5 * group + 0);
    let b1 = encoding::byte_or_zero(bytes, 5 * group + 1);
    let b2 = encoding::byte_or_zero(bytes, 5 * group + 2);
    let b3 = encoding::byte_or_zero(bytes, 5 * group + 3);
    let b4 = encoding::byte_or_zero(bytes, 5 * group + 4);
    lemma_cut(b0, b1);
    lemma_cut(b1, b2);
    lemma_cut(b2, b3);
    lemma_cut(b3, b4);
}

/// Two neighbouring bytes, cut into values and put together again.
proof fn lemma_cut(x: int, y: int)
    requires
        0 <= x < 256,
        0 <= y < 256,
    ensures
        (x % 8 * 4 + y / 64) / 4 == x % 8,
        (x % 8 * 4 + y / 64) % 4 == y / 64,
        (x % 2 * 16 + y / 16) / 16 == x % 2,
        (x % 2 * 16 + y / 16) % 16 == y / 16,
        (x % 16 * 2 + y / 128) / 2 == x % 16,
        (x % 16 * 2 + y / 128) % 2 == y / 128,
        (x % 4 * 8 + y / 32) / 8 == x % 4,
        (x % 4 * 8 + y / 32) % 8 == y / 32,
        y == y / 64 * 64 + y / 2 % 32 * 2 + y % 2,
        y == y / 128 * 128 + y / 4 % 32 * 4 + y % 4,
{
}

/// The five bits that begin `offset` bits into the byte at `first`.
proof fn lemma_window(bytes: Seq<u8>, i: int, first: int, offset: int)
    requires
        0 <= i,
        0 <= offset < 8,
        5 * i == 8 * first + offset,
    ensures
        ({
            let high = encoding::byte_or_zero(bytes, first);
            let low = encoding::byte_or_zero(bytes, first + 1);
            five_bits(bytes, i) == (if offset == 0 {
                high / 8
            } else if offset == 1 {
                high / 4 % 32
            } else if offset == 2 {
                high / 2 % 32
            } else if offset == 3 {
                high % 32
            } else if offset == 4 {
                high % 16 * 2 + low / 128
            } else if offset == 5 {
                high % 8 * 4 + low / 64
            } else if offset == 6 {
                high % 4 * 8 + low / 32
            } else {
                high % 2 * 16 + low / 16
            })
        }),
{
    assert(5 * i / 8 == first && 5 * i % 8 == offset);
    let high: u8 = if first < bytes.len() {
        bytes[first]
    } else {
        0
    };
    let low: u8 = if first + 1 < bytes.len() {
        bytes[first + 1]
    } else {
        0
    };
    lemma_window_bits(high, low);
}

/// Five bits of two bytes, for each offset at which they can begin.
proof fn lemma_window_bits(high: u8, low: u8)
    ensures
        (high * 256 + low) / 2048 % 32 == high / 8,
        (high * 256 + low) / 1024 % 32 == high / 4 % 32,
        (high * 256 + low) / 512 % 32 == high / 2 % 32,
        (high * 256 + low) / 256 % 32 == high % 32,
        (high * 256 + low) / 128 % 32 == high % 16 * 2 + low / 128,
        (high * 256 + low) / 64 % 32 == high % 8 * 4 + low / 64,
        (high * 256 + low) / 32 % 32 == high % 4 * 8 + low / 32,
        (high * 256 + low) / 16 % 32 == high % 2 * 16 + low / 16,
{
    assert((high * 256 + low) / 2048 % 32 == high / 8) by (bit_vector);
    assert((high * 256 + low) / 1024 % 32 == high / 4 % 32) by (bit_vector);
    assert((high * 256 + low) / 512 % 32 == high / 2 % 32) by (bit_vector);
    assert((high * 256 + low) / 256 % 32 == high % 32) by (bit_vector);
    assert((high * 256 + low) / 128 % 32 == high % 16 * 2 + low / 128) by (bit_vector);
    assert((high * 256 + low) / 64 % 32 == high % 8 * 4 + low / 64) by (bit_vector);
    assert((high * 256 + low) / 32 % 32 == high % 4 * 8 + low / 32) by (bit_vector);
    assert((high * 256 + low) / 16 % 32 == high % 2 * 16 + low / 16) by (bit_vector);
}

/// The digest can be read off the identifier: files with different digests have
/// different identifiers.
pub proof fn law_cid_tells_the_digest(a: Seq<u8>, b: Seq<u8>)
    requires
        a.len() == b.len(),
        cid_text(a) == cid_text(b),
    ensures
        a == b,
{
    let head = seq![0x01u8, 0x55u8, 0x12u8, 0x20u8];
    let x = base32_text(head + a);
    let y = base32_text(head + b);
    assert(("b"@ + x).skip("b"@.len() as int) =~= x);
    assert(("b"@ + y).skip("b"@.len() as int) =~= y);
    lemma_base32_injective(head + a, head + b);
    assert((head + a).skip(4) =~= a);
    assert((head + b).skip(4) =~= b);
}

proof fn lemma_base32_injective(a: Seq<u8>, b: Seq<u8>)
    requires
        a.len() == b.len(),
        base32_text(a) == base32_text(b),
    ensures
        a == b,
{
    assert forall|i: int| 0 <= i < a.len() implies a[i] == b[i] by {
        lemma_same_byte(a, b, i / 5, i % 5);
    }
    assert(a =~= b);
}

/// Equal texts stand for equal values.
proof fn lemma_same_value(a: Seq<u8>, b: Seq<u8>, group: int, place: int)
    requires
        a.len() == b.len(),
        base32_text(a) == base32_text(b),
        0 <= group,
        0 <= place,
        5 * (8 * group + place) < 8 * a.len(),
    ensures
        five_bits(a, 8 * group + place) == five_bits(b, 8 * group + place),
{
    let i = 8 * group + place;
    lemma_character(a, i);
    lemma_character(b, i);
    lemma_five_bits_range(a, i);
    lemma_five_bits_range(b, i);
    lemma_base32_char_injective(five_bits(a, i), five_bits(b, i));
}

proof fn lemma_character(bytes: Seq<u8>, i: int)
    requires
        0 <= i,
        5 * i < 8 * bytes.len(),
    ensures
        base32_text(bytes)[i] == base32_char(five_bits(bytes, i)),
{
    assert(i < (8 * bytes.len() + 4) / 5);
}

proof fn lemma_five_bits_range(bytes: Seq<u8>, i: int)
    requires
        0 <= i,
    ensures
        0 <= five_bits(bytes, i) < 32,
{
}

proof fn lemma_base32_char_injective(a: int, b: int)
    requires
        0 <= a < 32,
        0 <= b < 32,
        base32_char(a) == base32_char(b),
    ensures
        a == b,
{
}

/// Equal texts come from equal bytes.
proof fn lemma_same_byte(a: Seq<u8>, b: Seq<u8>, group: int, k: int)
    requires
        a.len() == b.len(),
        base32_text(a) == base32_text(b),
        0 <= group,
        0 <= k < 5,
        5 * group + k < a.len(),
    ensures
        a[5 * group + k] == b[5 * group + k],
{
    lemma_group_bytes(a, group);
    lemma_group_bytes(b, group);
    if k == 0 {
        lemma_same_value(a, b, group, 0);
        lemma_same_value(a, b, group, 1);
    } else if k == 1 {
        lemma_same_value(a, b, group, 1);
        lemma_same_value(a, b, group, 2);
        lemma_same_value(a, b, group, 3);
    } else if k == 2 {
        lemma_same_value(a, b, group, 3);
        lemma_same_value(a, b, group, 4);
    } else if k == 3 {
        lemma_same_value(a, b, group, 4);
        lemma_same_value(a, b, group, 5);
        lemma_same_value(a, b, group, 6);
    } else {
        lemma_same_value(a, b, group, 6);
        lemma_same_value(a, b, group, 7);
    }
}

} // verus!
