//! Lists in the order of their entries' ids.
use crate::text;
use crate::text::precedes;
use vstd::prelude::*;

verus! {

/// Something that is listed by its id.
pub trait Listed: View {
    /// The id of an entry with these contents.
    spec fn id_of(contents: Self::V) -> Seq<char>;

    /// The entry's id.
    fn listed_id(&self) -> (res: &str)
        ensures
            res@ == Self::id_of(self@),
    ;
}

/// The contents of a list.
pub open spec fn views<T: View>(list: Seq<T>) -> Seq<T::V> {
    Seq::new(list.len(), |i: int| list[i]@)
}

/// No entry stands behind one whose id is greater.
pub open spec fn ordered<T: Listed>(list: Seq<T::V>) -> bool {
    forall|i: int, j: int|
        0 <= i < j < list.len() ==> !text::text_before(
            T::id_of(#[trigger] list[j]),
            T::id_of(#[trigger] list[i]),
        )
}

/// The entries with this id, in the order of the list.
pub open spec fn with_id<T: Listed>(list: Seq<T::V>, id: Seq<char>) -> Seq<T::V>
    decreases list.len(),
{
    if list.len() == 0 {
        Seq::empty()
    } else {
        let before = with_id::<T>(list.drop_last(), id);
        if T::id_of(list.last()) == id {
            before.push(list.last())
        } else {
            before
        }
    }
}

/// `out` is `list` in the order of the ids, and entries with the same id stand
/// in the order in which they came.
pub open spec fn listing_of<T: Listed>(list: Seq<T::V>, out: Seq<T::V>) -> bool {
    &&& ordered::<T>(out)
    &&& forall|id: Seq<char>| #[trigger] with_id::<T>(out, id) == with_id::<T>(list, id)
}

/// No two entries have the same id.
pub open spec fn distinct_ids<T: Listed>(list: Seq<T::V>) -> bool {
    forall|i: int, j: int|
        0 <= i < j < list.len() ==> T::id_of(#[trigger] list[i]) != T::id_of(#[trigger] list[j])
}

proof fn lemma_with_id_add<T: Listed>(a: Seq<T::V>, b: Seq<T::V>, id: Seq<char>)
    ensures
        with_id::<T>(a + b, id) == with_id::<T>(a, id) + with_id::<T>(b, id),
    decreases b.len(),
{
    if b.len() == 0 {
        assert(a + b =~= a);
        assert(with_id::<T>(a, id) + with_id::<T>(b, id) =~= with_id::<T>(a, id));
    } else {
        lemma_with_id_add::<T>(a, b.drop_last(), id);
        assert((a + b).drop_last() =~= a + b.drop_last());
        assert(with_id::<T>(a + b, id) =~= with_id::<T>(a, id) + with_id::<T>(b, id));
    }
}

/// Where no entry has this id.
pub proof fn lemma_without_id<T: Listed>(list: Seq<T::V>, id: Seq<char>)
    requires
        forall|i: int| 0 <= i < list.len() ==> T::id_of(#[trigger] list[i]) != id,
    ensures
        with_id::<T>(list, id).len() == 0,
    decreases list.len(),
{
    if list.len() > 0 {
        assert forall|i: int| 0 <= i < list.len() - 1 implies T::id_of(
            #[trigger] list.drop_last()[i],
        ) != id by {
            assert(list.drop_last()[i] == list[i]);
        }
        lemma_without_id::<T>(list.drop_last(), id);
    }
}

/// Putting `x` behind every entry whose id is not greater keeps a listing one.
proof fn lemma_inserted<T: Listed>(
    list: Seq<T::V>,
    out: Seq<T::V>,
    at: int,
    x: T::V,
)
    requires
        listing_of::<T>(list, out),
        0 <= at <= out.len(),
        forall|i: int|
            0 <= i < at ==> !text::text_before(T::id_of(x), T::id_of(#[trigger] out[i])),
        forall|i: int|
            at <= i < out.len() ==> text::text_before(T::id_of(x), T::id_of(#[trigger] out[i])),
    ensures
        listing_of::<T>(list.push(x), out.insert(at, x)),
{
    let new = out.insert(at, x);
    assert forall|i: int, j: int| 0 <= i < j < new.len() implies !text::text_before(
        T::id_of(#[trigger] new[j]),
        T::id_of(#[trigger] new[i]),
    ) by {
        if i == at {
            assert(new[j] == out[j - 1]);
            if text::text_before(T::id_of(new[j]), T::id_of(x)) {
                text::lemma_before_transitive(T::id_of(x), T::id_of(new[j]), T::id_of(x));
                text::lemma_before_irreflexive(T::id_of(x));
            }
        } else if j == at {
            assert(new[i] == out[i]);
        } else {
            let a = if i < at {
                i
            } else {
                i - 1
            };
            let b = if j < at {
                j
            } else {
                j - 1
            };
            assert(new[i] == out[a]);
            assert(new[j] == out[b]);
        }
    }
    assert forall|id: Seq<char>| #[trigger] with_id::<T>(new, id) == with_id::<T>(
        list.push(x),
        id,
    ) by {
        let head = out.take(at);
        let tail = out.skip(at);
        assert(new =~= head.push(x) + tail);
        assert(out =~= head + tail);
        lemma_with_id_add::<T>(head.push(x), tail, id);
        lemma_with_id_add::<T>(head, tail, id);
        assert(head.push(x).drop_last() =~= head);
        assert(list.push(x).drop_last() =~= list);
        assert(with_id::<T>(out, id) == with_id::<T>(list, id));
        if id == T::id_of(x) {
            assert forall|i: int| 0 <= i < tail.len() implies T::id_of(#[trigger] tail[i]) != id by {
                assert(tail[i] == out[at + i]);
                text::lemma_before_irreflexive(id);
            }
            lemma_without_id::<T>(tail, id);
            assert(with_id::<T>(tail, id) =~= Seq::empty());
            assert(with_id::<T>(new, id) =~= with_id::<T>(list, id).push(x));
        }
    }
}

/// Lists the entries in the order of their ids; entries with the same id stay
/// in the order in which they came.
pub fn sort_by_id<T: Listed>(list: Vec<T>) -> (res: Vec<T>)
    ensures
        listing_of::<T>(views(list@), views(res@)),
{
    let mut out: Vec<T> = Vec::new();
    let ghost all = list@;
    for x in it: list.into_iter()
        invariant
            it.seq() == all,
            listing_of::<T>(views(all.take(it.index())), views(out@)),
    {
        let ghost done = all.take(it.index());
        let ghost before = out@;
        let mut at: usize = out.len();
        while at > 0 && precedes(x.listed_id(), out[at - 1].listed_id())
            invariant
                at <= out@.len(),
                forall|i: int|
                    at <= i < out@.len() ==> text::text_before(
                        T::id_of(x@),
                        T::id_of(#[trigger] views(out@)[i]),
                    ),
            decreases at,
        {
            assert(views(out@)[at - 1] == out@[at - 1]@);
            at = at - 1;
        }
        proof {
            let v = views(out@);
            assert forall|i: int| 0 <= i < at implies !text::text_before(
                T::id_of(x@),
                T::id_of(#[trigger] v[i]),
            ) by {
                assert(v[at - 1] == out@[at - 1]@);
                if i < at - 1 && text::text_before(T::id_of(x@), T::id_of(v[i])) {
                    // v[i] is not greater than v[at - 1], which is not greater than x.
                    text::lemma_before_total(T::id_of(v[i]), T::id_of(v[at - 1]));
                    assert(!text::text_before(T::id_of(v[at - 1]), T::id_of(v[i])));
                    if text::text_before(T::id_of(v[i]), T::id_of(v[at - 1])) {
                        text::lemma_before_transitive(
                            T::id_of(x@),
                            T::id_of(v[i]),
                            T::id_of(v[at - 1]),
                        );
                    }
                }
            }
            lemma_inserted::<T>(views(done), v, at as int, x@);
            assert(views(all.take(it.index() + 1)) =~= views(done).push(x@));
            assert(views(before.insert(at as int, x)) =~= v.insert(at as int, x@));
        }
        out.insert(at, x);
    }
    assert(all.take(all.len() as int) =~= all);
    out
}

/// The entries with the id of the last one end in it.
proof fn lemma_greatest_last<T: Listed>(list: Seq<T::V>, id: Seq<char>)
    requires
        ordered::<T>(list),
        list.len() > 0,
        text::text_before(T::id_of(list.last()), id),
    ensures
        with_id::<T>(list, id).len() == 0,
{
    assert forall|i: int| 0 <= i < list.len() implies T::id_of(#[trigger] list[i]) != id by {
        if T::id_of(list[i]) == id {
            if i < list.len() - 1 {
                assert(!text::text_before(T::id_of(list[list.len() - 1]), T::id_of(list[i])));
            } else {
                text::lemma_before_irreflexive(id);
            }
        }
    }
    lemma_without_id::<T>(list, id);
}

/// There is one listing of a list: what [`sort_by_id`] returns is determined.
pub proof fn law_listing_is_unique<T: Listed>(list: Seq<T::V>, a: Seq<T::V>, b: Seq<T::V>)
    requires
        listing_of::<T>(list, a),
        listing_of::<T>(list, b),
    ensures
        a == b,
{
    assert forall|id: Seq<char>| #[trigger] with_id::<T>(a, id) == with_id::<T>(b, id) by {
        assert(with_id::<T>(a, id) == with_id::<T>(list, id));
        assert(with_id::<T>(b, id) == with_id::<T>(list, id));
    }
    lemma_ordered_unique::<T>(a, b);
}

proof fn lemma_ordered_unique<T: Listed>(a: Seq<T::V>, b: Seq<T::V>)
    requires
        ordered::<T>(a),
        ordered::<T>(b),
        forall|id: Seq<char>| #[trigger] with_id::<T>(a, id) == with_id::<T>(b, id),
    ensures
        a == b,
    decreases a.len(),
{
    if a.len() == 0 {
        if b.len() > 0 {
            let id = T::id_of(b.last());
            assert(with_id::<T>(b, id).len() > 0);
            assert(with_id::<T>(a, id) == with_id::<T>(b, id));
        }
        assert(a =~= b);
    } else {
        let ida = T::id_of(a.last());
        assert(with_id::<T>(a, ida).len() > 0);
        assert(with_id::<T>(a, ida) == with_id::<T>(b, ida));
        assert(b.len() > 0);
        let idb = T::id_of(b.last());
        assert(with_id::<T>(b, idb).len() > 0);
        assert(with_id::<T>(a, idb) == with_id::<T>(b, idb));
        text::lemma_before_total(ida, idb);
        if text::text_before(ida, idb) {
            lemma_greatest_last::<T>(a, idb);
        } else if text::text_before(idb, ida) {
            lemma_greatest_last::<T>(b, ida);
        }
        assert(ida == idb);
        assert(with_id::<T>(a, ida).last() == a.last());
        assert(with_id::<T>(b, ida).last() == b.last());
        let x = a.drop_last();
        let y = b.drop_last();
        assert forall|id: Seq<char>| #[trigger] with_id::<T>(x, id) == with_id::<T>(y, id) by {
            assert(with_id::<T>(a, id) == with_id::<T>(b, id));
            if id == ida {
                assert(with_id::<T>(x, id) =~= with_id::<T>(a, id).drop_last());
                assert(with_id::<T>(y, id) =~= with_id::<T>(b, id).drop_last());
            }
        }
        assert forall|i: int, j: int| 0 <= i < j < x.len() implies !text::text_before(
            T::id_of(#[trigger] x[j]),
            T::id_of(#[trigger] x[i]),
        ) by {
            assert(x[i] == a[i] && x[j] == a[j]);
        }
        assert forall|i: int, j: int| 0 <= i < j < y.len() implies !text::text_before(
            T::id_of(#[trigger] y[j]),
            T::id_of(#[trigger] y[i]),
        ) by {
            assert(y[i] == b[i] && y[j] == b[j]);
        }
        lemma_ordered_unique::<T>(x, y);
        assert(a =~= x.push(a.last()));
        assert(b =~= y.push(b.last()));
    }
}

/// Where ids are distinct, the one entry with an id.
proof fn lemma_one_with_id<T: Listed>(list: Seq<T::V>, at: int)
    requires
        distinct_ids::<T>(list),
        0 <= at < list.len(),
    ensures
        with_id::<T>(list, T::id_of(list[at])) == seq![list[at]],
{
    let id = T::id_of(list[at]);
    let head = list.take(at);
    let tail = list.skip(at + 1);
    assert(list =~= head.push(list[at]) + tail);
    lemma_with_id_add::<T>(head.push(list[at]), tail, id);
    assert(head.push(list[at]).drop_last() =~= head);
    assert forall|i: int| 0 <= i < head.len() implies T::id_of(#[trigger] head[i]) != id by {
        assert(head[i] == list[i]);
    }
    assert forall|i: int| 0 <= i < tail.len() implies T::id_of(#[trigger] tail[i]) != id by {
        assert(tail[i] == list[at + 1 + i]);
    }
    lemma_without_id::<T>(head, id);
    lemma_without_id::<T>(tail, id);
    assert(with_id::<T>(list, id) =~= seq![list[at]]);
}

/// Where no two entries share an id, the listing does not depend on the order
/// in which the entries came.
pub proof fn law_listing_ignores_order<T: Listed>(
    a: Seq<T::V>,
    b: Seq<T::V>,
    listing_a: Seq<T::V>,
    listing_b: Seq<T::V>,
)
    requires
        distinct_ids::<T>(a),
        distinct_ids::<T>(b),
        forall|x: T::V| #[trigger] a.contains(x) <==> b.contains(x),
        listing_of::<T>(a, listing_a),
        listing_of::<T>(b, listing_b),
    ensures
        listing_a == listing_b,
{
    assert forall|id: Seq<char>| #[trigger] with_id::<T>(listing_a, id) == with_id::<T>(
        listing_b,
        id,
    ) by {
        assert(with_id::<T>(listing_a, id) == with_id::<T>(a, id));
        assert(with_id::<T>(listing_b, id) == with_id::<T>(b, id));
        if exists|i: int| 0 <= i < a.len() && T::id_of(#[trigger] a[i]) == id {
            let i = choose|i: int| 0 <= i < a.len() && T::id_of(#[trigger] a[i]) == id;
            assert(a.contains(a[i]));
            let j = choose|j: int| 0 <= j < b.len() && b[j] == a[i];
            lemma_one_with_id::<T>(a, i);
            lemma_one_with_id::<T>(b, j);
        } else {
            lemma_without_id::<T>(a, id);
            assert forall|j: int| 0 <= j < b.len() implies T::id_of(#[trigger] b[j]) != id by {
                assert(b.contains(b[j]));
                assert(a.contains(b[j]));
                let i = choose|i: int| 0 <= i < a.len() && a[i] == b[j];
                assert(T::id_of(a[i]) != id);
            }
            lemma_without_id::<T>(b, id);
            assert(with_id::<T>(a, id) =~= with_id::<T>(b, id));
        }
    }
    lemma_ordered_unique::<T>(listing_a, listing_b);
}

/// A listing begins with the first entry of the lowest id.
pub proof fn lemma_first_with_id<T: Listed>(list: Seq<T::V>, out: Seq<T::V>, first: T::V)
    requires
        listing_of::<T>(list, out),
        with_id::<T>(list, T::id_of(first)).len() > 0,
        with_id::<T>(list, T::id_of(first))[0] == first,
        forall|i: int|
            0 <= i < list.len() ==> !text::text_before(
                T::id_of(#[trigger] list[i]),
                T::id_of(first),
            ),
    ensures
        out.len() > 0,
        out[0] == first,
{
    let id = T::id_of(first);
    assert(with_id::<T>(out, id) == with_id::<T>(list, id));
    assert(out.len() > 0);
    let low = T::id_of(out[0]);
    // The head's id is some entry's id, so it is not below the lowest ...
    lemma_with_id_add::<T>(seq![out[0]], out.skip(1), low);
    assert(out =~= seq![out[0]] + out.skip(1));
    assert(seq![out[0]].drop_last() =~= Seq::empty());
    assert(with_id::<T>(seq![out[0]].drop_last(), low) =~= Seq::empty());
    assert(with_id::<T>(seq![out[0]], low) =~= seq![out[0]]);
    assert(with_id::<T>(out, low) == with_id::<T>(list, low));
    assert(with_id::<T>(list, low).len() > 0);
    if forall|i: int| 0 <= i < list.len() ==> T::id_of(#[trigger] list[i]) != low {
        lemma_without_id::<T>(list, low);
    }
    let k = choose|i: int| 0 <= i < list.len() && T::id_of(#[trigger] list[i]) == low;
    assert(!text::text_before(T::id_of(list[k]), id));
    // ... and the lowest id stands somewhere in the listing, so it is not above.
    if forall|i: int| 0 <= i < out.len() ==> T::id_of(#[trigger] out[i]) != id {
        lemma_without_id::<T>(out, id);
    }
    let j = choose|i: int| 0 <= i < out.len() && T::id_of(#[trigger] out[i]) == id;
    if j > 0 {
        assert(!text::text_before(T::id_of(out[j]), T::id_of(out[0])));
    }
    text::lemma_before_total(low, id);
    assert(low == id);
    assert(with_id::<T>(out, low)[0] == out[0]);
}

} // verus!
