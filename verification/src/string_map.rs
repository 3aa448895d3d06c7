//! A map from strings to values that is walked in ascending key order.
use vstd::prelude::*;

use crate::text::{
    lemma_text_lt_irreflexive, lemma_text_lt_total, lemma_text_lt_transitive, same_text,
    text_before, text_lt,
};

verus! {

/// Whether the keys of a pair list ascend strictly.
pub open spec fn ascending<V>(pairs: Seq<(Seq<char>, V)>) -> bool {
    forall|i: int, j: int|
        0 <= i < j < pairs.len() ==> text_lt(#[trigger] pairs[i].0, #[trigger] pairs[j].0)
}

/// Whether some pair of the list has the key.
pub open spec fn has_key<V>(pairs: Seq<(Seq<char>, V)>, key: Seq<char>) -> bool {
    exists|i: int| 0 <= i < pairs.len() && #[trigger] pairs[i].0 == key
}

/// A position of the key in the pair list.
pub open spec fn position<V>(pairs: Seq<(Seq<char>, V)>, key: Seq<char>) -> int {
    choose|i: int| 0 <= i < pairs.len() && #[trigger] pairs[i].0 == key
}

/// The map that a pair list stands for.
pub open spec fn map_of<V>(pairs: Seq<(Seq<char>, V)>) -> Map<Seq<char>, V> {
    Map::new(|key: Seq<char>| has_key(pairs, key), |key: Seq<char>| pairs[position(pairs, key)].1)
}

/// In a list with ascending keys a key stands in one place, and the map gives the value there.
pub proof fn lemma_pair_in_map<V>(pairs: Seq<(Seq<char>, V)>, i: int)
    requires
        ascending(pairs),
        0 <= i < pairs.len(),
    ensures
        map_of(pairs).contains_key(pairs[i].0),
        map_of(pairs)[pairs[i].0] == pairs[i].1,
{
    let key = pairs[i].0;
    let p = position(pairs, key);
    assert(pairs[i].0 == key);
    assert(0 <= p < pairs.len() && pairs[p].0 == key);
    lemma_text_lt_irreflexive(key);
    assert(p == i);
}

/// Two lists with ascending keys that stand for the same map are the same list: the walking order
/// is a function of the contents alone.
pub proof fn law_order_is_canonical<V>(a: Seq<(Seq<char>, V)>, b: Seq<(Seq<char>, V)>)
    requires
        ascending(a),
        ascending(b),
        map_of(a) == map_of(b),
    ensures
        a == b,
    decreases a.len(),
{
    if a.len() > 0 && b.len() > 0 {
        lemma_last_key(a, b);
        lemma_last_key(b, a);
        lemma_pair_in_map(a, a.len() - 1);
        lemma_pair_in_map(b, b.len() - 1);
        if a.last().0 != b.last().0 {
            lemma_text_lt_transitive(a.last().0, b.last().0, a.last().0);
            lemma_text_lt_irreflexive(a.last().0);
        }
        assert(a.last() == b.last());
        let key = a.last().0;
        lemma_without_last(a);
        lemma_without_last(b);
        assert(map_of(a.drop_last()) =~= map_of(b.drop_last()));
        law_order_is_canonical(a.drop_last(), b.drop_last());
        assert(a =~= a.drop_last().push(a.last()));
        assert(b =~= b.drop_last().push(b.last()));
    } else if a.len() > 0 {
        lemma_pair_in_map(a, 0);
        assert(map_of(b).contains_key(a[0].0));
    } else if b.len() > 0 {
        lemma_pair_in_map(b, 0);
        assert(map_of(a).contains_key(b[0].0));
    } else {
        assert(a =~= b);
    }
}

proof fn lemma_last_key<V>(a: Seq<(Seq<char>, V)>, b: Seq<(Seq<char>, V)>)
    requires
        ascending(a),
        ascending(b),
        map_of(a) == map_of(b),
        a.len() > 0,
        b.len() > 0,
    ensures
        a.last().0 == b.last().0 || text_lt(a.last().0, b.last().0),
{
    lemma_pair_in_map(a, a.len() - 1);
    assert(map_of(b).contains_key(a.last().0));
    let p = position(b, a.last().0);
    assert(b[p].0 == a.last().0);
    if p < b.len() - 1 {
        assert(text_lt(b[p].0, b[b.len() - 1].0));
    }
}

proof fn lemma_without_last<V>(a: Seq<(Seq<char>, V)>)
    requires
        ascending(a),
        a.len() > 0,
    ensures
        ascending(a.drop_last()),
        map_of(a.drop_last()) == map_of(a).remove(a.last().0),
{
    let rest = a.drop_last();
    let key = a.last().0;
    assert forall|i: int, j: int| 0 <= i < j < rest.len() implies text_lt(
        #[trigger] rest[i].0,
        #[trigger] rest[j].0,
    ) by {
        assert(text_lt(a[i].0, a[j].0));
    }
    assert forall|k: Seq<char>| #[trigger]
        map_of(rest).contains_key(k) == map_of(a).remove(key).contains_key(k) by {
        if has_key(rest, k) {
            let p = position(rest, k);
            assert(a[p].0 == k);
            assert(text_lt(a[p].0, a[a.len() - 1].0));
            lemma_text_lt_irreflexive(key);
        }
        if has_key(a, k) && k != key {
            let p = position(a, k);
            assert(a[p].0 == k);
            assert(rest[p].0 == k);
        }
    }
    assert forall|k: Seq<char>| #[trigger] map_of(rest).contains_key(k) implies map_of(rest)[k]
        == map_of(a).remove(key)[k] by {
        let p = position(rest, k);
        assert(rest[p].0 == k);
        lemma_pair_in_map(rest, p);
        lemma_pair_in_map(a, p);
    }
    assert(map_of(rest) =~= map_of(a).remove(key));
}

/// Walking one entry further adds that entry to the map of what was walked.
pub proof fn lemma_walk<V>(pairs: Seq<(Seq<char>, V)>, i: int)
    requires
        ascending(pairs),
        0 <= i < pairs.len(),
    ensures
        map_of(pairs.take(i + 1)) == map_of(pairs.take(i)).insert(pairs[i].0, pairs[i].1),
        !map_of(pairs.take(i)).contains_key(pairs[i].0),
{
    let longer = pairs.take(i + 1);
    assert(ascending(longer)) by {
        assert forall|a: int, b: int| 0 <= a < b < longer.len() implies text_lt(
            #[trigger] longer[a].0,
            #[trigger] longer[b].0,
        ) by {
            assert(text_lt(pairs[a].0, pairs[b].0));
        }
    }
    lemma_without_last(longer);
    lemma_pair_in_map(longer, i);
    assert(longer.drop_last() =~= pairs.take(i));
    assert(map_of(longer) =~= map_of(pairs.take(i)).insert(pairs[i].0, pairs[i].1));
}

/// Nothing walked is the empty map.
pub proof fn lemma_walk_start<V>(pairs: Seq<(Seq<char>, V)>)
    ensures
        map_of(pairs.take(0)) == Map::<Seq<char>, V>::empty(),
{
    assert(map_of(pairs.take(0)) =~= Map::<Seq<char>, V>::empty());
}

/// Everything walked is the whole map.
pub proof fn lemma_walk_end<V>(pairs: Seq<(Seq<char>, V)>)
    ensures
        map_of(pairs.take(pairs.len() as int)) == map_of(pairs),
{
    assert(pairs.take(pairs.len() as int) =~= pairs);
}

/// A map from strings to values. Its entries are kept in ascending key order.
#[derive(Debug, PartialEq, Eq)]
pub struct StringMap<V> {
    entries: Vec<(String, V)>,
}

impl<V> View for StringMap<V> {
    type V = Map<Seq<char>, V>;

    open spec fn view(&self) -> Map<Seq<char>, V> {
        map_of(self.pairs())
    }
}

impl<V> StringMap<V> {
    /// The entries in the order in which they are walked.
    pub closed spec fn pairs(self) -> Seq<(Seq<char>, V)> {
        self.entries@.map_values(|e: (String, V)| (e.0@, e.1))
    }

    /// The keys ascend strictly, so that no key occurs twice.
    #[verifier::type_invariant]
    pub open spec fn wf(self) -> bool {
        ascending(self.pairs())
    }

    pub fn new() -> (r: Self)
        ensures
            r@ == Map::<Seq<char>, V>::empty(),
            r.pairs().len() == 0,
            r.wf(),
    {
        let r = StringMap { entries: Vec::new() };
        assert(r@ =~= Map::<Seq<char>, V>::empty());
        r
    }

    /// The number of entries.
    pub fn len(&self) -> (r: usize)
        ensures
            r == self.pairs().len(),
            self.wf(),
    {
        proof {
            use_type_invariant(self);
        }
        self.entries.len()
    }

    /// The key of the entry at a place in the walking order.
    pub fn key_at(&self, i: usize) -> (r: &String)
        requires
            i < self.pairs().len(),
        ensures
            r@ == self.pairs()[i as int].0,
            self@.contains_key(r@),
    {
        proof {
            use_type_invariant(self);
            lemma_pair_in_map(self.pairs(), i as int);
        }
        &self.entries[i].0
    }

    /// The value of the entry at a place in the walking order.
    pub fn value_at(&self, i: usize) -> (r: &V)
        requires
            i < self.pairs().len(),
        ensures
            *r == self.pairs()[i as int].1,
            self@.contains_key(self.pairs()[i as int].0),
            *r == self@[self.pairs()[i as int].0],
    {
        proof {
            use_type_invariant(self);
            lemma_pair_in_map(self.pairs(), i as int);
        }
        &self.entries[i].1
    }

    /// The place of a key, or the place at which it would have to be put in.
    fn find(&self, key: &str) -> (r: (usize, bool))
        ensures
            r.0 <= self.pairs().len(),
            r.1 ==> r.0 < self.pairs().len() && self.pairs()[r.0 as int].0 == key@,
            !r.1 ==> !has_key(self.pairs(), key@),
            forall|j: int| 0 <= j < r.0 ==> text_lt(#[trigger] self.pairs()[j].0, key@),
            !r.1 ==> forall|j: int|
                r.0 <= j < self.pairs().len() ==> text_lt(key@, #[trigger] self.pairs()[j].0),
    {
        proof {
            use_type_invariant(self);
        }
        let ghost pairs = self.pairs();
        let mut i: usize = 0;
        while i < self.entries.len()
            invariant
                i <= self.entries@.len() == pairs.len(),
                pairs == self.pairs(),
                ascending(pairs),
                forall|j: int| 0 <= j < i ==> text_lt(#[trigger] pairs[j].0, key@),
            decreases self.entries@.len() - i,
        {
            assert(self.entries@[i as int].0@ == pairs[i as int].0);
            if same_text(&self.entries[i].0, key) {
                return (i, true);
            }
            if !text_before(&self.entries[i].0, key) {
                proof {
                    lemma_text_lt_total(pairs[i as int].0, key@);
                    assert forall|j: int| i <= j < pairs.len() implies text_lt(
                        key@,
                        #[trigger] pairs[j].0,
                    ) by {
                        if j > i {
                            assert(text_lt(pairs[i as int].0, pairs[j].0));
                            lemma_text_lt_transitive(key@, pairs[i as int].0, pairs[j].0);
                        }
                    }
                    lemma_absent(pairs, key@, i as int);
                }
                return (i, false);
            }
            i = i + 1;
        }
        proof {
            lemma_absent(pairs, key@, i as int);
        }
        (i, false)
    }

    /// The value stored under a key.
    pub fn get(&self, key: &str) -> (r: Option<&V>)
        ensures
            r is Some <==> self@.contains_key(key@),
            r matches Some(v) ==> *v == self@[key@],
    {
        let (i, found) = self.find(key);
        if found {
            Some(self.value_at(i))
        } else {
            None
        }
    }

    pub fn contains_key(&self, key: &str) -> (r: bool)
        ensures
            r == self@.contains_key(key@),
    {
        self.get(key).is_some()
    }

    /// Stores a value under a key, in place of an earlier one.
    pub fn insert(&mut self, key: String, value: V)
        ensures
            final(self)@ == old(self)@.insert(key@, value),
            final(self).wf(),
    {
        proof {
            use_type_invariant(&*self);
        }
        let (i, found) = self.find(&key);
        let ghost before = self.pairs();
        let mut entries: Vec<(String, V)> = Vec::new();
        std::mem::swap(&mut entries, &mut self.entries);
        if found {
            let ghost key_view = key@;
            let _ = entries.remove(i);
            entries.insert(i, (key, value));
            proof {
                let after = entries@.map_values(|e: (String, V)| (e.0@, e.1));
                assert(after =~= before.update(i as int, (key_view, value)));
                lemma_updated(before, i as int, value);
            }
        } else {
            let ghost key_view = key@;
            entries.insert(i, (key, value));
            proof {
                let after = entries@.map_values(|e: (String, V)| (e.0@, e.1));
                assert(after =~= before.insert(i as int, (key_view, value)));
                lemma_inserted(before, i as int, key_view, value);
            }
        }
        self.entries = entries;
    }

    /// Takes the entry with the key out of the map.
    pub fn remove(&mut self, key: &str) -> (r: Option<V>)
        ensures
            final(self)@ == old(self)@.remove(key@),
            r is Some <==> old(self)@.contains_key(key@),
            r matches Some(v) ==> v == old(self)@[key@],
            r is None ==> *final(self) == *old(self),
            final(self).wf(),
    {
        proof {
            use_type_invariant(&*self);
        }
        let (i, found) = self.find(key);
        let ghost before = self.pairs();
        if !found {
            assert(self@.remove(key@) =~= self@);
            return None;
        }
        let mut entries: Vec<(String, V)> = Vec::new();
        std::mem::swap(&mut entries, &mut self.entries);
        proof {
            lemma_pair_in_map(before, i as int);
        }
        let (_, value) = entries.remove(i);
        proof {
            let after = entries@.map_values(|e: (String, V)| (e.0@, e.1));
            assert(after =~= before.remove(i as int));
            lemma_removed(before, i as int);
        }
        self.entries = entries;
        Some(value)
    }
}

impl<V> StringMap<V> {
    /// Takes all entries out, in order.
    pub fn drain(&mut self) -> (r: Vec<(String, V)>)
        ensures
            final(self)@ == Map::<Seq<char>, V>::empty(),
            final(self).pairs().len() == 0,
            r@.map_values(|e: (String, V)| (e.0@, e.1)) == old(self).pairs(),
            ascending(old(self).pairs()),
    {
        proof {
            use_type_invariant(&*self);
        }
        let mut entries: Vec<(String, V)> = Vec::new();
        std::mem::swap(&mut entries, &mut self.entries);
        proof {
            assert(self.pairs() =~= Seq::<(Seq<char>, V)>::empty());
            assert(map_of(self.pairs()) =~= Map::<Seq<char>, V>::empty());
        }
        entries
    }
}

impl<V: Clone> Clone for StringMap<V> {
    fn clone(&self) -> (r: Self)
        ensures
            r.pairs().len() == self.pairs().len(),
            forall|i: int|
                0 <= i < r.pairs().len() ==> (#[trigger] r.pairs()[i]).0 == self.pairs()[i].0
                    && cloned(self.pairs()[i].1, r.pairs()[i].1),
    {
        proof {
            use_type_invariant(self);
        }
        let mut entries: Vec<(String, V)> = Vec::new();
        let mut i: usize = 0;
        while i < self.entries.len()
            invariant
                i <= self.entries@.len(),
                entries@.len() == i,
                forall|j: int|
                    0 <= j < i ==> (#[trigger] entries@[j]).0 == self.entries@[j].0 && cloned(
                        self.entries@[j].1,
                        entries@[j].1,
                    ),
            decreases self.entries@.len() - i,
        {
            entries.push((self.entries[i].0.clone(), self.entries[i].1.clone()));
            i = i + 1;
        }
        proof {
            let after = entries@.map_values(|e: (String, V)| (e.0@, e.1));
            assert forall|a: int, b: int| 0 <= a < b < after.len() implies text_lt(
                #[trigger] after[a].0,
                #[trigger] after[b].0,
            ) by {
                assert(text_lt(self.pairs()[a].0, self.pairs()[b].0));
            }
        }
        StringMap { entries }
    }
}

impl StringMap<String> {
    /// A map with the same entries.
    pub fn duplicate(&self) -> (r: Self)
        ensures
            r@ == self@,
            r.pairs() == self.pairs(),
            r.wf(),
    {
        proof {
            use_type_invariant(self);
        }
        let mut entries: Vec<(String, String)> = Vec::new();
        let mut i: usize = 0;
        while i < self.entries.len()
            invariant
                i <= self.entries@.len(),
                entries@ == self.entries@.take(i as int),
            decreases self.entries@.len() - i,
        {
            entries.push((self.entries[i].0.clone(), self.entries[i].1.clone()));
            assert(entries@ =~= self.entries@.take(i + 1));
            i = i + 1;
        }
        assert(entries@ =~= self.entries@);
        StringMap { entries }
    }
}

proof fn lemma_absent<V>(pairs: Seq<(Seq<char>, V)>, key: Seq<char>, at: int)
    requires
        0 <= at <= pairs.len(),
        forall|j: int| 0 <= j < at ==> text_lt(#[trigger] pairs[j].0, key),
        forall|j: int| at <= j < pairs.len() ==> text_lt(key, #[trigger] pairs[j].0),
    ensures
        !has_key(pairs, key),
{
    lemma_text_lt_irreflexive(key);
}

proof fn lemma_updated<V>(before: Seq<(Seq<char>, V)>, at: int, value: V)
    requires
        ascending(before),
        0 <= at < before.len(),
    ensures
        ascending(before.update(at, (before[at].0, value))),
        map_of(before.update(at, (before[at].0, value))) == map_of(before).insert(
            before[at].0,
            value,
        ),
{
    let key = before[at].0;
    let after = before.update(at, (key, value));
    assert forall|i: int, j: int| 0 <= i < j < after.len() implies text_lt(
        #[trigger] after[i].0,
        #[trigger] after[j].0,
    ) by {
        assert(text_lt(before[i].0, before[j].0));
    }
    assert forall|k: Seq<char>| #[trigger]
        map_of(after).contains_key(k) == map_of(before).insert(key, value).contains_key(k) by {
        if has_key(after, k) {
            let p = position(after, k);
            assert(after[p].0 == k);
            assert(before[p].0 == k);
        }
        if has_key(before, k) {
            let p = position(before, k);
            assert(before[p].0 == k);
            assert(after[p].0 == k);
        }
        assert(after[at].0 == key);
    }
    assert forall|k: Seq<char>| #[trigger] map_of(after).contains_key(k) implies map_of(after)[k]
        == map_of(before).insert(key, value)[k] by {
        let p = position(after, k);
        assert(after[p].0 == k);
        lemma_pair_in_map(after, p);
        lemma_pair_in_map(before, p);
        if p != at {
            lemma_text_lt_irreflexive(key);
            assert(k != key) by {
                if p < at {
                    assert(text_lt(before[p].0, before[at].0));
                } else {
                    assert(text_lt(before[at].0, before[p].0));
                }
            }
        }
    }
    assert(map_of(after) =~= map_of(before).insert(key, value));
}

proof fn lemma_inserted<V>(before: Seq<(Seq<char>, V)>, at: int, key: Seq<char>, value: V)
    requires
        ascending(before),
        0 <= at <= before.len(),
        forall|j: int| 0 <= j < at ==> text_lt(#[trigger] before[j].0, key),
        forall|j: int| at <= j < before.len() ==> text_lt(key, #[trigger] before[j].0),
    ensures
        ascending(before.insert(at, (key, value))),
        map_of(before.insert(at, (key, value))) == map_of(before).insert(key, value),
{
    let after = before.insert(at, (key, value));
    lemma_absent(before, key, at);
    assert forall|i: int, j: int| 0 <= i < j < after.len() implies text_lt(
        #[trigger] after[i].0,
        #[trigger] after[j].0,
    ) by {
        let bi = if i < at { i } else { i - 1 };
        let bj = if j < at { j } else { j - 1 };
        if i != at && j != at {
            assert(text_lt(before[bi].0, before[bj].0));
        } else if i == at {
            assert(text_lt(key, before[bj].0));
        } else {
            assert(text_lt(before[bi].0, key));
        }
    }
    assert forall|k: Seq<char>| #[trigger]
        map_of(after).contains_key(k) == map_of(before).insert(key, value).contains_key(k) by {
        if has_key(after, k) && k != key {
            let p = position(after, k);
            assert(after[p].0 == k);
            let b = if p < at { p } else { p - 1 };
            assert(before[b].0 == k);
        }
        if has_key(before, k) {
            let p = position(before, k);
            assert(before[p].0 == k);
            let b = if p < at { p } else { p + 1 };
            assert(after[b].0 == k);
        }
        assert(after[at].0 == key);
    }
    assert forall|k: Seq<char>| #[trigger] map_of(after).contains_key(k) implies map_of(after)[k]
        == map_of(before).insert(key, value)[k] by {
        let p = position(after, k);
        assert(after[p].0 == k);
        lemma_pair_in_map(after, p);
        if p != at {
            let b = if p < at { p } else { p - 1 };
            assert(before[b].0 == k);
            lemma_pair_in_map(before, b);
        }
    }
    assert(map_of(after) =~= map_of(before).insert(key, value));
}

proof fn lemma_removed<V>(before: Seq<(Seq<char>, V)>, at: int)
    requires
        ascending(before),
        0 <= at < before.len(),
    ensures
        ascending(before.remove(at)),
        map_of(before.remove(at)) == map_of(before).remove(before[at].0),
{
    let key = before[at].0;
    let after = before.remove(at);
    assert forall|i: int, j: int| 0 <= i < j < after.len() implies text_lt(
        #[trigger] after[i].0,
        #[trigger] after[j].0,
    ) by {
        let bi = if i < at { i } else { i + 1 };
        let bj = if j < at { j } else { j + 1 };
        assert(text_lt(before[bi].0, before[bj].0));
    }
    assert forall|k: Seq<char>| #[trigger]
        map_of(after).contains_key(k) == map_of(before).remove(key).contains_key(k) by {
        if has_key(after, k) {
            let p = position(after, k);
            assert(after[p].0 == k);
            let b = if p < at { p } else { p + 1 };
            assert(before[b].0 == k);
            lemma_text_lt_irreflexive(key);
            if b < at {
                assert(text_lt(before[b].0, before[at].0));
            } else {
                assert(text_lt(before[at].0, before[b].0));
            }
        }
        if has_key(before, k) && k != key {
            let p = position(before, k);
            assert(before[p].0 == k);
            let b = if p < at { p } else { p - 1 };
            assert(after[b].0 == k);
        }
    }
    assert forall|k: Seq<char>| #[trigger] map_of(after).contains_key(k) implies map_of(after)[k]
        == map_of(before).remove(key)[k] by {
        let p = position(after, k);
        assert(after[p].0 == k);
        lemma_pair_in_map(after, p);
        let b = if p < at { p } else { p + 1 };
        assert(before[b].0 == k);
        lemma_pair_in_map(before, b);
    }
    assert(map_of(after) =~= map_of(before).remove(key));
}

} // verus!
