//! Base64, in which file contents travel inside a JSON answer.
use vstd::prelude::*;

verus! {

/// The character of the standard base64 alphabet (RFC 4648, section 4) for a
/// value below 64.
pub open spec fn alphabet_char(v: int) -> char {
    if v < 26 {
        (0x41 + v) as u8 as char
    } else if v < 52 {
        (0x61 + v - 26) as u8 as char
    } else if v < 62 {
        (0x30 + v - 52) as u8 as char
    } else if v == 62 {
        '+'
    } else {
        '/'
    }
}

/// The byte at `i`; zero behind the end.
pub open spec fn byte_or_zero(bytes: Seq<u8>, i: int) -> int {
    if i < bytes.len() {
        bytes[i] as int
    } else {
        0
    }
}

/// Three bytes as one number of 24 bits.
pub open spec fn group_value(bytes: Seq<u8>, group: int) -> int {
    byte_or_zero(bytes, 3 * group) * 0x10000 + byte_or_zero(bytes, 3 * group + 1) * 0x100
        + byte_or_zero(bytes, 3 * group + 2)
}

/// The 6 bits that the character at `place` of a group of four stands for.
pub open spec fn sextet(value: int, place: int) -> int {
    if place == 0 {
        value / 0x40000
    } else if place == 1 {
        value / 0x1000 % 64
    } else if place == 2 {
        value / 64 % 64
    } else {
        value % 64
    }
}

/// The length of the base64 text of `n` bytes, padding included.
pub open spec fn base64_len(n: nat) -> nat {
    (4 * ((n + 2) / 3)) as nat
}

/// The base64 text of `bytes`: four characters for every three bytes; in the
/// last group a character that stands for no bit of the input is `=`.
pub open spec fn base64_text(bytes: Seq<u8>) -> Seq<char> {
    Seq::new(
        base64_len(bytes.len()),
        |i: int|
            if 3 * (i / 4) + i % 4 <= bytes.len() {
                alphabet_char(sextet(group_value(bytes, i / 4), i % 4))
            } else {
                '='
            },
    )
}

/// `base64::Engine::encode` of `general_purpose::STANDARD`: the padded text in
/// the standard alphabet. The text has to fit into one allocation.
#[verifier::external_body]
pub(crate) fn base64_encode(bytes: &[u8]) -> (res: String)
    requires
        base64_len(bytes@.len()) <= isize::MAX,
    ensures
        res@ == base64_text(bytes@),
{
    base64::Engine::encode(&base64::engine::general_purpose::STANDARD, bytes)
}

proof fn lemma_alphabet_injective(a: int, b: int)
    requires
        0 <= a < 64,
        0 <= b < 64,
        alphabet_char(a) == alphabet_char(b),
    ensures
        a == b,
{
}

proof fn lemma_alphabet_not_padding(a: int)
    requires
        0 <= a < 64,
    ensures
        alphabet_char(a) != '=',
{
}

proof fn lemma_sextet_range(bytes: Seq<u8>, group: int, place: int)
    requires
        0 <= group,
        0 <= place < 4,
    ensures
        0 <= group_value(bytes, group) < 0x1000000,
        0 <= sextet(group_value(bytes, group), place) < 64,
{
}

/// The character at `place` of a group, and how many there are in all.
proof fn lemma_character(bytes: Seq<u8>, group: int, place: int)
    requires
        0 <= group,
        0 <= place < 4,
        3 * group < bytes.len(),
    ensures
        base64_text(bytes).len() == base64_len(bytes.len()),
        4 * group + place < base64_len(bytes.len()),
        base64_text(bytes)[4 * group + place] == (if 3 * group + place <= bytes.len() {
            alphabet_char(sextet(group_value(bytes, group), place))
        } else {
            '='
        }),
{
    let i = 4 * group + place;
    assert(i / 4 == group && i % 4 == place);
    assert(i < base64_len(bytes.len()));
}

/// Equal texts have equal characters in place, and each stands for the same
/// six bits.
proof fn lemma_same_sextet(a: Seq<u8>, b: Seq<u8>, group: int, place: int)
    requires
        a.len() == b.len(),
        base64_text(a) == base64_text(b),
        0 <= group,
        0 <= place < 4,
        3 * group < a.len(),
        3 * group + place <= a.len(),
    ensures
        sextet(group_value(a, group), place) == sextet(group_value(b, group), place),
{
    lemma_character(a, group, place);
    lemma_character(b, group, place);
    lemma_sextet_range(a, group, place);
    lemma_sextet_range(b, group, place);
    lemma_alphabet_injective(
        sextet(group_value(a, group), place),
        sextet(group_value(b, group), place),
    );
}

/// Each byte of a group, put together from the sextets that hold its bits.
pub proof fn lemma_group_bytes(bytes: Seq<u8>, group: int)
    requires
        0 <= group,
    ensures
        ({
            let x = group_value(bytes, group);
            &&& byte_or_zero(bytes, 3 * group) == sextet(x, 0) * 4 + sextet(x, 1) / 16
            &&& byte_or_zero(bytes, 3 * group + 1) == sextet(x, 1) % 16 * 16 + sextet(x, 2) / 4
            &&& byte_or_zero(bytes, 3 * group + 2) == sextet(x, 2) % 4 * 64 + sextet(x, 3)
        }),
{
    let b0 = byte_or_zero(bytes, 3 * group);
    let b1 = byte_or_zero(bytes, 3 * group + 1);
    let b2 = byte_or_zero(bytes, 3 * group + 2);
    let x = group_value(bytes, group);
    assert(x == b0 * 0x10000 + b1 * 0x100 + b2);
    let h0 = b0 / 4;
    let l0 = b0 % 4;
    let h1 = b1 / 16;
    let l1 = b1 % 16;
    let h2 = b2 / 64;
    let l2 = b2 % 64;
    assert(x == h0 * 0x40000 + (l0 * 16 + h1) * 0x1000 + (l1 * 4 + h2) * 64 + l2);
    assert(x / 0x40000 == h0);
    assert(x / 0x1000 == h0 * 64 + l0 * 16 + h1);
    assert(x / 64 == (h0 * 64 + l0 * 16 + h1) * 64 + l1 * 4 + h2);
    assert(sextet(x, 1) == l0 * 16 + h1);
    assert(sextet(x, 2) == l1 * 4 + h2);
    assert(sextet(x, 3) == l2);
}

/// Two numbers of 24 bits whose leading sextets agree have their leading
/// bytes in common.
proof fn lemma_bytes_of_sextets(a: Seq<u8>, b: Seq<u8>, group: int, k: int)
    requires
        0 <= group,
        0 <= k < 3,
        3 * group + k < a.len(),
        a.len() == b.len(),
        forall|place: int|
            0 <= place <= k + 1 ==> #[trigger] sextet(group_value(a, group), place) == sextet(
                group_value(b, group),
                place,
            ),
    ensures
        a[3 * group + k] == b[3 * group + k],
{
    lemma_group_bytes(a, group);
    lemma_group_bytes(b, group);
    assert(sextet(group_value(a, group), 0) == sextet(group_value(b, group), 0));
    assert(sextet(group_value(a, group), 1) == sextet(group_value(b, group), 1));
    if k >= 1 {
        assert(sextet(group_value(a, group), 2) == sextet(group_value(b, group), 2));
    }
    if k >= 2 {
        assert(sextet(group_value(a, group), 3) == sextet(group_value(b, group), 3));
    }
}

/// Texts of equal length whose padding is equal come from as many bytes.
proof fn lemma_same_length(a: Seq<u8>, b: Seq<u8>)
    requires
        base64_text(a) == base64_text(b),
    ensures
        a.len() == b.len(),
{
    assert(base64_text(a).len() == base64_len(a.len()));
    assert(base64_len(a.len()) == base64_text(b).len()) by {
        assert(base64_text(b) == base64_text(a));
    }
    if a.len() != b.len() {
        let (s, l) = if a.len() < b.len() {
            (a, b)
        } else {
            (b, a)
        };
        // One group more or less would change the length, so both end in the
        // same group; the longer one has a character where the shorter is padded.
        let group = (l.len() - 1) / 3;
        assert(group == (s.len() - 1) / 3);
        let place = l.len() - 3 * group;
        lemma_character(s, group, place);
        lemma_character(l, group, place);
        lemma_sextet_range(l, group, place);
        lemma_alphabet_not_padding(sextet(group_value(l, group), place));
    }
}

/// The base64 text determines the bytes: whoever reads it gets back exactly
/// what was written.
pub proof fn law_base64_is_lossless(a: Seq<u8>, b: Seq<u8>)
    requires
        base64_text(a) == base64_text(b),
    ensures
        a == b,
{
    lemma_same_length(a, b);
    assert forall|i: int| 0 <= i < a.len() implies a[i] == b[i] by {
        let group = i / 3;
        lemma_same_sextet(a, b, group, 0);
        lemma_same_sextet(a, b, group, 1);
        if 3 * group + 1 < a.len() {
            lemma_same_sextet(a, b, group, 2);
        }
        if 3 * group + 2 < a.len() {
            lemma_same_sextet(a, b, group, 3);
        }
        lemma_bytes_of_sextets(a, b, group, i - 3 * group);
    }
    assert(a =~= b);
}

} // verus!
