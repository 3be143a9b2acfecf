//! An ordered map from texts to values: keys are unique and kept in ascending
//! order, so a walk over the entries is deterministic.
use crate::text;
use crate::text::{precedes, same_text};
use vstd::prelude::*;

verus! {

/// A map keyed by text, ordered by key.
#[derive(Debug, PartialEq)]
pub struct TextMap<V> {
    entries: Vec<(String, V)>,
}

/// The keys of `list` are strictly ascending.
pub open spec fn ascending<V>(list: Seq<(String, V)>) -> bool {
    forall|i: int, j: int|
        0 <= i < j < list.len() ==> text::text_before(#[trigger] list[i].0@, #[trigger] list[j].0@)
}

/// `list` holds the key `k`.
pub open spec fn has_key<V>(list: Seq<(String, V)>, k: Seq<char>) -> bool {
    exists|i: int| 0 <= i < list.len() && #[trigger] list[i].0@ == k
}

/// A place at which `list` holds the key `k`.
pub open spec fn place_of<V>(list: Seq<(String, V)>, k: Seq<char>) -> int {
    choose|i: int| 0 <= i < list.len() && #[trigger] list[i].0@ == k
}

/// What a list of entries maps its keys to.
pub open spec fn map_of<V: View>(list: Seq<(String, V)>) -> Map<Seq<char>, V::V> {
    Map::new(|k: Seq<char>| has_key(list, k), |k: Seq<char>| list[place_of(list, k)].1@)
}

/// In an ascending list a key stands at one place only.
proof fn lemma_key_unique<V>(list: Seq<(String, V)>, i: int, j: int)
    requires
        ascending(list),
        0 <= i < list.len(),
        0 <= j < list.len(),
        list[i].0@ == list[j].0@,
    ensures
        i == j,
{
    text::lemma_before_irreflexive(list[i].0@);
}

/// An entry of an ascending list is in its map.
pub proof fn lemma_map_at<V: View>(list: Seq<(String, V)>, i: int)
    requires
        ascending(list),
        0 <= i < list.len(),
    ensures
        map_of(list).contains_key(list[i].0@),
        map_of(list)[list[i].0@] == list[i].1@,
{
    let k = list[i].0@;
    assert(has_key(list, k));
    lemma_key_unique(list, i, place_of(list, k));
}

/// One entry more adds its key to the map.
pub proof fn lemma_map_of_longer<V: View>(list: Seq<(String, V)>, n: int)
    requires
        ascending(list),
        0 <= n < list.len(),
    ensures
        map_of(list.take(n + 1)) == map_of(list.take(n)).insert(list[n].0@, list[n].1@),
{
    let before = list.take(n);
    let after = list.take(n + 1);
    assert(after.len() == n + 1 && before.len() == n);
    if n > 0 {
        assert forall|i: int| 0 <= i < n implies text::text_before(
            #[trigger] before[i].0@,
            list[n].0@,
        ) by {
            assert(before[i] == list[i]);
        }
    }
    assert(ascending(before)) by {
        assert forall|i: int, j: int| 0 <= i < j < before.len() implies text::text_before(
            #[trigger] before[i].0@,
            #[trigger] before[j].0@,
        ) by {
            assert(before[i] == list[i] && before[j] == list[j]);
        }
    }
    assert(after =~= before.insert(n, after[n]));
    lemma_inserted(before, after, n, list[n].0@, list[n].1@);
}

impl<V: View> View for TextMap<V> {
    type V = Map<Seq<char>, V::V>;

    closed spec fn view(&self) -> Map<Seq<char>, V::V> {
        map_of(self.entries@)
    }
}

impl<V> TextMap<V> {
    #[verifier::type_invariant]
    spec fn ordered(&self) -> bool {
        ascending(self.entries@)
    }
}

impl<V: View> TextMap<V> {
    /// The empty map.
    pub fn new() -> (res: Self)
        ensures
            res@ == Map::<Seq<char>, V::V>::empty(),
    {
        let res = TextMap { entries: Vec::new() };
        assert(res@ =~= Map::<Seq<char>, V::V>::empty());
        res
    }

    /// The entries in ascending order of their keys.
    pub fn entries(&self) -> (res: &Vec<(String, V)>)
        ensures
            ascending(res@),
            map_of(res@) == self@,
    {
        proof {
            use_type_invariant(self);
        }
        &self.entries
    }

    /// The value stored under `key`.
    pub fn get(&self, key: &str) -> (res: Option<&V>)
        ensures
            match res {
                Some(value) => self@.contains_key(key@) && value@ == self@[key@],
                None => !self@.contains_key(key@),
            },
    {
        proof {
            use_type_invariant(self);
        }
        let mut i: usize = 0;
        while i < self.entries.len()
            invariant
                i <= self.entries@.len(),
                forall|k: int| 0 <= k < i ==> #[trigger] self.entries@[k].0@ != key@,
            decreases self.entries@.len() - i,
        {
            if same_text(self.entries[i].0.as_str(), key) {
                proof {
                    use_type_invariant(self);
                    lemma_map_at(self.entries@, i as int);
                }
                return Some(&self.entries[i].1);
            }
            i = i + 1;
        }
        None
    }

    /// Stores `value` under `key`, in place of what stood there.
    pub fn insert(&mut self, key: String, value: V)
        ensures
            final(self)@ == old(self)@.insert(key@, value@),
    {
        proof {
            use_type_invariant(&*self);
        }
        let mut list: Vec<(String, V)> = Vec::new();
        std::mem::swap(&mut list, &mut self.entries);
        let ghost before = list@;
        let ghost k = key@;
        let ghost v = value@;
        let mut at: usize = 0;
        while at < list.len() && precedes(list[at].0.as_str(), key.as_str())
            invariant
                list@ == before,
                key@ == k,
                at <= before.len(),
                forall|i: int| 0 <= i < at ==> text::text_before(#[trigger] before[i].0@, k),
            decreases before.len() - at,
        {
            at = at + 1;
        }
        if at < list.len() && same_text(list[at].0.as_str(), key.as_str()) {
            list[at] = (key, value);
            proof {
                lemma_replaced(before, list@, at as int, k, v);
            }
        } else {
            list.insert(at, (key, value));
            proof {
                lemma_inserted(before, list@, at as int, k, v);
            }
        }
        self.entries = list;
    }
}

/// `b` is what a clone of a value with the contents `a` holds.
pub open spec fn clone_of<V: Clone + View>(a: V::V, b: V::V) -> bool {
    exists|x: V, y: V| #[trigger] cloned::<V>(x, y) && x@ == a && y@ == b
}

impl<V: Clone + View> Clone for TextMap<V> {
    /// The same keys, each with a clone of its value.
    fn clone(&self) -> (res: Self)
        ensures
            res@.dom() == self@.dom(),
            forall|k: Seq<char>| #[trigger]
                res@.contains_key(k) ==> clone_of::<V>(self@[k], res@[k]),
    {
        proof {
            use_type_invariant(self);
        }
        let mut list: Vec<(String, V)> = Vec::new();
        let mut i: usize = 0;
        while i < self.entries.len()
            invariant
                ascending(self.entries@),
                i <= self.entries@.len(),
                list@.len() == i,
                forall|k: int| 0 <= k < i ==> (#[trigger] list@[k]).0@ == self.entries@[k].0@,
                forall|k: int|
                    0 <= k < i ==> cloned::<V>(self.entries@[k].1, (#[trigger] list@[k]).1),
            decreases self.entries@.len() - i,
        {
            list.push((self.entries[i].0.clone(), self.entries[i].1.clone()));
            i = i + 1;
        }
        proof {
            let old_list = self.entries@;
            let new_list = list@;
            assert forall|k: Seq<char>| has_key(new_list, k) == has_key(old_list, k) by {
                if has_key(new_list, k) {
                    let n = place_of(new_list, k);
                    assert(old_list[n].0@ == k);
                }
                if has_key(old_list, k) {
                    let n = place_of(old_list, k);
                    assert(new_list[n].0@ == k);
                }
            }
            assert forall|k: Seq<char>| has_key(new_list, k) implies clone_of::<V>(
                map_of(old_list)[k],
                map_of(new_list)[k],
            ) by {
                let n = place_of(new_list, k);
                assert(old_list[n].0@ == k);
                lemma_map_at(old_list, n);
                assert(ascending(new_list));
                lemma_map_at(new_list, n);
                assert(cloned::<V>(old_list[n].1, new_list[n].1));
            }
            assert(map_of(new_list).dom() =~= map_of(old_list).dom());
        }
        TextMap { entries: list }
    }
}

proof fn lemma_replaced<V: View>(
    before: Seq<(String, V)>,
    after: Seq<(String, V)>,
    at: int,
    k: Seq<char>,
    v: V::V,
)
    requires
        ascending(before),
        0 <= at < before.len(),
        after == before.update(at, after[at]),
        before[at].0@ == k,
        after[at].0@ == k,
        after[at].1@ == v,
    ensures
        ascending(after),
        map_of(after) == map_of(before).insert(k, v),
{
    assert forall|i: int, j: int| 0 <= i < j < after.len() implies text::text_before(
        #[trigger] after[i].0@,
        #[trigger] after[j].0@,
    ) by {
        assert(after[i].0@ == before[i].0@);
        assert(after[j].0@ == before[j].0@);
    }
    let target = map_of(before).insert(k, v);
    assert forall|x: Seq<char>| map_of(after).contains_key(x) == target.contains_key(x) by {
        if has_key(after, x) {
            let i = choose|i: int| 0 <= i < after.len() && #[trigger] after[i].0@ == x;
            assert(before[i].0@ == x);
        }
        if has_key(before, x) {
            let i = choose|i: int| 0 <= i < before.len() && #[trigger] before[i].0@ == x;
            assert(after[i].0@ == x);
        }
        if x == k {
            assert(after[at].0@ == x);
        }
    }
    assert forall|x: Seq<char>| target.contains_key(x) implies map_of(after)[x] == target[x] by {
        if x == k {
            lemma_map_at(after, at);
        } else {
            let i = choose|i: int| 0 <= i < before.len() && #[trigger] before[i].0@ == x;
            lemma_map_at(before, i);
            lemma_map_at(after, i);
        }
    }
    assert(map_of(after) =~= target);
}

proof fn lemma_inserted<V: View>(
    before: Seq<(String, V)>,
    after: Seq<(String, V)>,
    at: int,
    k: Seq<char>,
    v: V::V,
)
    requires
        ascending(before),
        0 <= at <= before.len(),
        after.len() == before.len() + 1,
        after == before.insert(at, after[at]),
        after[at].0@ == k,
        after[at].1@ == v,
        forall|i: int| 0 <= i < at ==> text::text_before(#[trigger] before[i].0@, k),
        at < before.len() ==> !text::text_before(before[at].0@, k) && before[at].0@ != k,
    ensures
        ascending(after),
        map_of(after) == map_of(before).insert(k, v),
{
    assert forall|j: int| at <= j < before.len() implies text::text_before(
        k,
        #[trigger] before[j].0@,
    ) by {
        text::lemma_before_total(before[at].0@, k);
        if at < j {
            text::lemma_before_transitive(k, before[at].0@, before[j].0@);
        }
    }
    assert forall|i: int, j: int| 0 <= i < j < after.len() implies text::text_before(
        #[trigger] after[i].0@,
        #[trigger] after[j].0@,
    ) by {
        let p = if i < at { i } else { i - 1 };
        let q = if j < at { j } else { j - 1 };
        if i == at {
            assert(after[j] == before[q]);
        } else if j == at {
            assert(after[i] == before[p]);
        } else {
            assert(after[i] == before[p]);
            assert(after[j] == before[q]);
        }
    }
    let target = map_of(before).insert(k, v);
    assert forall|x: Seq<char>| map_of(after).contains_key(x) == target.contains_key(x) by {
        if has_key(after, x) {
            let i = choose|i: int| 0 <= i < after.len() && #[trigger] after[i].0@ == x;
            if i != at {
                let p = if i < at { i } else { i - 1 };
                assert(before[p] == after[i]);
                assert(before[p].0@ == x);
            }
        }
        if has_key(before, x) {
            let i = choose|i: int| 0 <= i < before.len() && #[trigger] before[i].0@ == x;
            let p = if i < at { i } else { i + 1 };
            assert(after[p] == before[i]);
            assert(after[p].0@ == x);
        }
        if x == k {
            assert(after[at].0@ == x);
        }
    }
    assert forall|x: Seq<char>| target.contains_key(x) implies map_of(after)[x] == target[x] by {
        if x == k {
            lemma_map_at(after, at);
        } else {
            let i = choose|i: int| 0 <= i < before.len() && #[trigger] before[i].0@ == x;
            let p = if i < at { i } else { i + 1 };
            assert(after[p] == before[i]);
            lemma_map_at(before, i);
            lemma_map_at(after, p);
        }
    }
    assert(map_of(after) =~= target);
}

} // verus!
