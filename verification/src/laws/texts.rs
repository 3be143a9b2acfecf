//! Laws of trimming, splitting, joining, ordering and writing numbers.
use crate::text;
use vstd::prelude::*;

verus! {

/// Whitespace is what Unicode calls so: the characters from tab to carriage
/// return, the space, the next line, and the spaces and separators beyond ASCII.
pub proof fn law_whitespace_by_code_point(c: char)
    ensures
        text::is_white_space(c) <==> {
            let n = c as u32;
            ||| 0x9 <= n <= 0xd
            ||| n == 0x20
            ||| n == 0x85
            ||| n == 0xa0
            ||| n == 0x1680
            ||| 0x2000 <= n <= 0x200a
            ||| 0x2028 <= n <= 0x2029
            ||| n == 0x202f
            ||| n == 0x205f
            ||| n == 0x3000
        },
{
}

/// Every character is whitespace.
pub open spec fn all_blank(s: Seq<char>) -> bool {
    forall|i: int| 0 <= i < s.len() ==> text::is_white_space(#[trigger] s[i])
}

/// `t` stands in `s` with nothing but whitespace around it, and neither begins
/// nor ends in whitespace.
pub open spec fn is_core(s: Seq<char>, t: Seq<char>) -> bool {
    &&& exists|from: int|
        0 <= from <= from + t.len() <= s.len() && t == #[trigger] s.subrange(from, from + t.len())
            && all_blank(s.take(from)) && all_blank(s.skip(from + t.len()))
    &&& t.len() > 0 ==> !text::is_white_space(t[0]) && !text::is_white_space(t.last())
}

proof fn lemma_start(s: Seq<char>)
    ensures
        ({
            let t = text::trimmed_start(s);
            &&& t.len() <= s.len()
            &&& t == s.skip(s.len() - t.len())
            &&& all_blank(s.take(s.len() - t.len()))
            &&& t.len() > 0 ==> !text::is_white_space(t[0])
        }),
    decreases s.len(),
{
    if s.len() > 0 && text::is_white_space(s[0]) {
        let rest = s.drop_first();
        lemma_start(rest);
        let t = text::trimmed_start(s);
        let n = s.len() - t.len();
        assert(rest.skip(n - 1) =~= s.skip(n));
        assert forall|i: int| 0 <= i < n implies text::is_white_space(#[trigger] s.take(n)[i]) by {
            if i > 0 {
                assert(rest.take(n - 1)[i - 1] == s.take(n)[i]);
            }
        }
    } else {
        assert(s.skip(0) =~= s);
    }
}

proof fn lemma_end(s: Seq<char>)
    ensures
        ({
            let t = text::trimmed_end(s);
            &&& t.len() <= s.len()
            &&& t == s.take(t.len() as int)
            &&& all_blank(s.skip(t.len() as int))
            &&& t.len() > 0 ==> !text::is_white_space(t.last())
        }),
    decreases s.len(),
{
    if s.len() > 0 && text::is_white_space(s.last()) {
        let rest = s.drop_last();
        lemma_end(rest);
        let n = text::trimmed_end(s).len() as int;
        assert(rest.take(n) =~= s.take(n));
        assert forall|i: int| 0 <= i < s.skip(n).len() implies text::is_white_space(
            #[trigger] s.skip(n)[i],
        ) by {
            if i < rest.skip(n).len() {
                assert(rest.skip(n)[i] == s.skip(n)[i]);
            } else {
                assert(s.skip(n)[i] == s.last());
            }
        }
    } else {
        assert(s.take(s.len() as int) =~= s);
    }
}

/// Trimming takes the whitespace at both ends away, all of it and nothing else.
pub proof fn law_trim(s: Seq<char>)
    ensures
        is_core(s, text::trimmed(s)),
{
    let a = text::trimmed_start(s);
    let t = text::trimmed(s);
    lemma_start(s);
    lemma_end(a);
    let from = s.len() - a.len();
    assert(s.subrange(from, from + t.len()) =~= a.take(t.len() as int));
    assert(s.skip(from + t.len()) =~= a.skip(t.len() as int));
    if t.len() > 0 {
        assert(t[0] == a[0]);
    }
}

/// There is one core: two texts that both stand in `s` with nothing but
/// whitespace around them are the same.
pub proof fn law_core_is_unique(s: Seq<char>, a: Seq<char>, b: Seq<char>)
    requires
        is_core(s, a),
        is_core(s, b),
    ensures
        a == b,
{
    let i = choose|from: int|
        0 <= from <= from + a.len() <= s.len() && a == #[trigger] s.subrange(from, from + a.len())
            && all_blank(s.take(from)) && all_blank(s.skip(from + a.len()));
    let j = choose|from: int|
        0 <= from <= from + b.len() <= s.len() && b == #[trigger] s.subrange(from, from + b.len())
            && all_blank(s.take(from)) && all_blank(s.skip(from + b.len()));
    if a.len() > 0 {
        lemma_core_inside(s, i, i + a.len(), j, j + b.len());
    }
    if b.len() > 0 {
        lemma_core_inside(s, j, j + b.len(), i, i + a.len());
    }
    assert(a =~= b);
}

/// What is not whitespace at both its ends lies within what has nothing but
/// whitespace around it.
proof fn lemma_core_inside(s: Seq<char>, from: int, to: int, outer_from: int, outer_to: int)
    requires
        0 <= from < to <= s.len(),
        0 <= outer_from <= outer_to <= s.len(),
        !text::is_white_space(s.subrange(from, to)[0]),
        !text::is_white_space(s.subrange(from, to).last()),
        all_blank(s.take(outer_from)),
        all_blank(s.skip(outer_to)),
    ensures
        outer_from <= from,
        to <= outer_to,
{
    if from < outer_from {
        assert(s.take(outer_from)[from] == s[from]);
    }
    if outer_to < to {
        assert(s.skip(outer_to)[to - 1 - outer_to] == s[to - 1]);
    }
}

/// Dropping a character at the end drops every occurrence there, and nothing
/// else.
pub proof fn law_without_trailing(s: Seq<char>, c: char)
    ensures
        ({
            let t = text::without_trailing(s, c);
            &&& t.len() <= s.len()
            &&& t == s.take(t.len() as int)
            &&& forall|i: int| t.len() <= i < s.len() ==> #[trigger] s[i] == c
            &&& t.len() > 0 ==> t.last() != c
        }),
    decreases s.len(),
{
    if s.len() > 0 && s.last() == c {
        let rest = s.drop_last();
        law_without_trailing(rest, c);
        let t = text::without_trailing(s, c);
        assert(rest.take(t.len() as int) =~= s.take(t.len() as int));
        assert forall|i: int| t.len() <= i < s.len() implies #[trigger] s[i] == c by {
            if i < rest.len() {
                assert(rest[i] == s[i]);
            }
        }
    } else {
        assert(s.take(s.len() as int) =~= s);
    }
}

/// Blanks hold no word.
pub proof fn law_blanks_hold_no_word(s: Seq<char>)
    requires
        all_blank(s),
    ensures
        text::words(s).len() == 0,
    decreases s.len(),
{
    if s.len() > 0 {
        let rest = s.drop_last();
        assert forall|i: int| 0 <= i < rest.len() implies text::is_white_space(
            #[trigger] rest[i],
        ) by {
            assert(rest[i] == s[i]);
        }
        law_blanks_hold_no_word(rest);
        assert(text::is_white_space(s[s.len() - 1]));
    }
}

/// A run of other characters is one word.
pub proof fn law_a_word_is_one_word(w: Seq<char>)
    requires
        text::is_word(w),
    ensures
        text::words(w) == seq![w],
    decreases w.len(),
{
    let t = w.drop_last();
    assert(!text::is_white_space(w[w.len() - 1]));
    if w.len() == 1 {
        assert(text::words(t) =~= Seq::empty());
        assert(w =~= seq![w.last()]);
        assert(text::words(w) =~= seq![w]);
    } else {
        assert forall|i: int| 0 <= i < t.len() implies !text::is_white_space(#[trigger] t[i]) by {
            assert(t[i] == w[i]);
        }
        law_a_word_is_one_word(t);
        assert(!text::is_white_space(w[w.len() - 2]));
        assert(t.push(w.last()) =~= w);
        assert(text::words(w) =~= seq![w]);
    }
}

/// Whitespace parts words: the words of a text are those before it and those
/// after it.
pub proof fn law_whitespace_parts_words(a: Seq<char>, blank: char, b: Seq<char>)
    requires
        text::is_white_space(blank),
    ensures
        text::words(a.push(blank) + b) == text::words(a) + text::words(b),
    decreases b.len(),
{
    let s = a.push(blank) + b;
    if b.len() == 0 {
        assert(s.drop_last() =~= a);
        assert(s.last() == blank);
        assert(text::words(s) =~= text::words(a) + text::words(b));
    } else {
        let t = b.drop_last();
        law_whitespace_parts_words(a, blank, t);
        assert(s.drop_last() =~= a.push(blank) + t);
        assert(s.last() == b.last());
        if !text::is_white_space(b.last()) {
            if b.len() == 1 {
                assert(s[s.len() - 2] == blank);
                assert(text::words(t) =~= Seq::empty());
            } else {
                assert(s[s.len() - 2] == b[b.len() - 2]);
                if !text::is_white_space(b[b.len() - 2]) {
                    text::lemma_words(t);
                    assert(t.last() == b[b.len() - 2]);
                    let x = text::words(a);
                    let y = text::words(t);
                    assert((x + y).drop_last() =~= x + y.drop_last());
                    assert((x + y).last() == y.last());
                }
            }
        }
        assert(text::words(s) =~= text::words(a) + text::words(b));
    }
}

/// A text is single-spaced: no whitespace at its ends, and inside of it only
/// spaces, each by itself.
pub open spec fn single_spaced(s: Seq<char>) -> bool {
    &&& s.len() > 0 ==> !text::is_white_space(s[0]) && !text::is_white_space(s.last())
    &&& forall|i: int| 0 <= i < s.len() && text::is_white_space(#[trigger] s[i]) ==> s[i] == ' '
    &&& forall|i: int|
        0 < i < s.len() && text::is_white_space(#[trigger] s[i]) ==> !text::is_white_space(
            s[i - 1],
        )
}

/// The parts with the separator between neighbours: nothing for no part, a part
/// alone as it is, and two lists one after the other with one separator between
/// them.
pub proof fn law_join(a: Seq<Seq<char>>, b: Seq<Seq<char>>, separator: Seq<char>)
    ensures
        text::joined(Seq::<Seq<char>>::empty(), separator) == Seq::<char>::empty(),
        a.len() == 1 ==> text::joined(a, separator) == a[0],
        a.len() > 0 && b.len() > 0 ==> text::joined(a + b, separator) == text::joined(a, separator)
            + separator + text::joined(b, separator),
    decreases b.len(),
{
    if a.len() > 0 && b.len() > 0 {
        assert((a + b).drop_last() =~= a + b.drop_last());
        assert((a + b).last() == b.last());
        let ja = text::joined(a, separator);
        if b.len() == 1 {
            assert(a + b.drop_last() =~= a);
        } else {
            law_join(a, b.drop_last(), separator);
            let jb = text::joined(b.drop_last(), separator);
            assert(ja + separator + jb + separator + b.last() =~= ja + separator + (jb + separator
                + b.last()));
        }
    }
}

/// Words that are joined by single spaces make a single-spaced text.
pub proof fn law_joined_words_are_single_spaced(list: Seq<Seq<char>>)
    requires
        forall|i: int| 0 <= i < list.len() ==> text::is_word(#[trigger] list[i]),
    ensures
        single_spaced(text::joined(list, " "@)),
        list.len() > 0 ==> text::joined(list, " "@).len() > 0,
    decreases list.len(),
{
    reveal_strlit(" ");
    let s = text::joined(list, " "@);
    if list.len() == 1 {
        assert(text::is_word(list[0]));
        assert(!text::is_white_space(list[0][0]));
    } else if list.len() > 1 {
        let before = list.drop_last();
        assert forall|i: int| 0 <= i < before.len() implies text::is_word(#[trigger] before[i]) by {
            assert(before[i] == list[i]);
        }
        law_joined_words_are_single_spaced(before);
        let head = text::joined(before, " "@);
        let last = list[list.len() - 1];
        assert(text::is_word(last));
        assert(s == head + " "@ + last);
        let n = head.len() as int;
        assert(s[0] == head[0]);
        assert(s.last() == last.last());
        assert(!text::is_white_space(last[last.len() - 1]));
        assert forall|i: int| 0 <= i < s.len() && text::is_white_space(#[trigger] s[i]) implies s[i]
            == ' ' && (i > 0 ==> !text::is_white_space(s[i - 1])) by {
            if i < n {
                assert(s[i] == head[i]);
                if i > 0 {
                    assert(s[i - 1] == head[i - 1]);
                }
            } else if i == n {
                assert(s[i] == " "@[0]);
                assert(s[i - 1] == head.last());
            } else {
                assert(s[i] == last[i - n - 1]);
            }
        }
    }
}

/// Splitting at a character gives the parts between its occurrences: none of
/// them holds it, and joined by it they are the text again.
pub proof fn law_split(s: Seq<char>, c: char)
    ensures
        text::pieces(s, c).len() >= 1,
        text::joined(text::pieces(s, c), seq![c]) == s,
        forall|i: int|
            0 <= i < text::pieces(s, c).len() ==> !(#[trigger] text::pieces(s, c)[i]).contains(c),
    decreases s.len(),
{
    let p = text::pieces(s, c);
    if s.len() == 0 {
        assert(text::joined(p, seq![c]) =~= s);
    } else {
        let t = s.drop_last();
        law_split(t, c);
        let q = text::pieces(t, c);
        assert(t.push(s.last()) =~= s);
        if s.last() == c {
            assert(p.drop_last() =~= q);
            assert(text::joined(p, seq![c]) =~= s);
            assert forall|i: int| 0 <= i < p.len() implies !(#[trigger] p[i]).contains(c) by {
                if i < q.len() {
                    assert(p[i] == q[i]);
                }
            }
        } else {
            let last = q.last().push(s.last());
            assert(!q[q.len() - 1].contains(c));
            assert(p.last() == last);
            assert forall|i: int| 0 <= i < p.len() implies !(#[trigger] p[i]).contains(c) by {
                if i < q.len() - 1 {
                    assert(p[i] == q[i]);
                } else {
                    assert forall|k: int| 0 <= k < last.len() implies last[k] != c by {
                        if k < q.last().len() {
                            assert(q.last().contains(q.last()[k]));
                        }
                    }
                }
            }
            if q.len() == 1 {
                assert(p =~= seq![last]);
                assert(text::joined(p, seq![c]) =~= s);
            } else {
                assert(p.drop_last() =~= q.drop_last());
                assert(text::joined(p, seq![c]) =~= s);
            }
        }
    }
}

/// The first occurrence of a character: it stands there, and not before.
pub proof fn law_first_occurrence(s: Seq<char>, c: char)
    ensures
        ({
            let n = text::before_first(s, c);
            &&& 0 <= n <= s.len()
            &&& n < s.len() ==> s[n] == c
            &&& forall|i: int| 0 <= i < n ==> #[trigger] s[i] != c
        }),
    decreases s.len(),
{
    if s.len() > 0 && s[0] != c {
        let rest = s.drop_first();
        law_first_occurrence(rest, c);
        assert forall|i: int| 0 <= i < text::before_first(s, c) implies #[trigger] s[i] != c by {
            if i > 0 {
                assert(s[i] == rest[i - 1]);
            }
        }
    }
}

/// What follows the last occurrence of a character: an end of the text that does
/// not hold it, with an occurrence right before it where there is one.
pub proof fn law_after_the_last(s: Seq<char>, c: char)
    ensures
        ({
            let t = text::after_last(s, c);
            &&& t.len() <= s.len()
            &&& t == s.skip(s.len() - t.len())
            &&& !t.contains(c)
            &&& t.len() < s.len() ==> s[s.len() - t.len() - 1] == c
        }),
    decreases s.len(),
{
    if s.len() > 0 && s.last() != c {
        let rest = s.drop_last();
        law_after_the_last(rest, c);
        let u = text::after_last(rest, c);
        let t = text::after_last(s, c);
        assert(t =~= s.skip(s.len() - t.len()));
        assert forall|i: int| 0 <= i < t.len() implies t[i] != c by {
            if i < u.len() {
                assert(u.contains(u[i]));
            }
        }
        if t.len() < s.len() {
            assert(s[s.len() - t.len() - 1] == rest[rest.len() - u.len() - 1]);
        }
    } else {
        assert(text::after_last(s, c) =~= s.skip(s.len() as int));
    }
}

/// `a` and `b` agree on their first `n` characters, and then `a` is at its end,
/// with more to come in `b`, or has the lesser character.
pub open spec fn lesser_from(a: Seq<char>, b: Seq<char>, n: int) -> bool {
    &&& 0 <= n <= a.len()
    &&& n < b.len()
    &&& forall|i: int| 0 <= i < n ==> #[trigger] a[i] == b[i]
    &&& n < a.len() ==> a[n] < b[n]
}

/// The order of texts is the one of dictionaries.
pub proof fn law_dictionary_order(a: Seq<char>, b: Seq<char>)
    ensures
        text::text_before(a, b) <==> exists|n: int| lesser_from(a, b, n),
    decreases a.len(),
{
    if b.len() == 0 {
    } else if a.len() == 0 {
        assert(lesser_from(a, b, 0));
    } else if a[0] != b[0] {
        if a[0] < b[0] {
            assert(lesser_from(a, b, 0));
        }
        if exists|n: int| lesser_from(a, b, n) {
            let n = choose|n: int| lesser_from(a, b, n);
            if n > 0 {
                assert(a[0] == b[0]);
            }
        }
    } else {
        let x = a.drop_first();
        let y = b.drop_first();
        law_dictionary_order(x, y);
        if exists|n: int| lesser_from(x, y, n) {
            let n = choose|n: int| lesser_from(x, y, n);
            assert forall|i: int| 0 <= i < n + 1 implies #[trigger] a[i] == b[i] by {
                if i > 0 {
                    assert(x[i - 1] == a[i]);
                    assert(y[i - 1] == b[i]);
                }
            }
            assert(lesser_from(a, b, n + 1));
        }
        if exists|n: int| lesser_from(a, b, n) {
            let n = choose|n: int| lesser_from(a, b, n);
            assert(n > 0);
            assert forall|i: int| 0 <= i < n - 1 implies #[trigger] x[i] == y[i] by {
                assert(a[i + 1] == b[i + 1]);
            }
            assert(lesser_from(x, y, n - 1));
        }
    }
}

/// The number that a row of decimal digits stands for.
pub open spec fn number_of(digits: Seq<char>) -> int
    decreases digits.len(),
{
    if digits.len() == 0 {
        0
    } else {
        number_of(digits.drop_last()) * 10 + (digits.last() as int - '0' as int)
    }
}

/// A number is written in decimal digits that stand for it, with no zero before
/// them.
pub proof fn law_decimal(n: nat)
    ensures
        text::decimal(n).len() > 0,
        forall|i: int|
            0 <= i < text::decimal(n).len() ==> '0' <= #[trigger] text::decimal(n)[i] <= '9',
        number_of(text::decimal(n)) == n,
        n > 0 ==> text::decimal(n)[0] != '0',
        n == 0 ==> text::decimal(n).len() == 1,
    decreases n,
{
    let s = text::decimal(n);
    assert(s.drop_last().len() == 0 ==> number_of(s.drop_last()) == 0);
    if n >= 10 {
        law_decimal(n / 10);
        assert(s.drop_last() =~= text::decimal(n / 10));
        assert forall|i: int| 0 <= i < s.len() implies '0' <= #[trigger] s[i] <= '9' by {
            if i < s.len() - 1 {
                assert(s[i] == text::decimal(n / 10)[i]);
            }
        }
        assert(s[0] == text::decimal(n / 10)[0]);
    }
}

} // verus!
