//! A string-keyed map of attribute values.
use vstd::prelude::*;

use crate::attribute::{AttrView, AttributeValue};

verus! {

/// The map that a record is stored as: field names to attribute values, each
/// name at most once. The order of entries carries no meaning.
#[derive(Debug)]
pub struct AttributeMap {
    entries: Vec<(String, AttributeValue)>,
}

/// Whether no two entries share a key.
pub open spec fn keys_distinct(s: Seq<(String, AttributeValue)>) -> bool {
    forall|i: int, j: int|
        0 <= i < s.len() && 0 <= j < s.len() && i != j ==> #[trigger] s[i].0@ != #[trigger] s[j].0@
}

/// Whether some entry has key `k`.
pub open spec fn has_key(s: Seq<(String, AttributeValue)>, k: Seq<char>) -> bool {
    exists|i: int| 0 <= i < s.len() && #[trigger] s[i].0@ == k
}

/// The map that a list of entries with distinct keys stands for.
pub open spec fn entries_map(s: Seq<(String, AttributeValue)>) -> Map<Seq<char>, AttrView> {
    Map::new(
        |k: Seq<char>| has_key(s, k),
        |k: Seq<char>| s[choose|i: int| 0 <= i < s.len() && #[trigger] s[i].0@ == k].1@,
    )
}

/// With distinct keys, the entry at `i` is what the map holds under its key.
proof fn lemma_entry_lookup(s: Seq<(String, AttributeValue)>, i: int)
    requires
        keys_distinct(s),
        0 <= i < s.len(),
    ensures
        entries_map(s).contains_key(s[i].0@),
        entries_map(s)[s[i].0@] == s[i].1@,
{
    let k = s[i].0@;
    assert(has_key(s, k));
    let j = choose|j: int| 0 <= j < s.len() && #[trigger] s[j].0@ == k;
    assert(s[j].0@ == s[i].0@);
}

/// Removing the entry at `i` removes its key from the map.
proof fn lemma_entries_remove(s: Seq<(String, AttributeValue)>, i: int)
    requires
        keys_distinct(s),
        0 <= i < s.len(),
    ensures
        keys_distinct(s.remove(i)),
        entries_map(s.remove(i)) == entries_map(s).remove(s[i].0@),
{
    let t = s.remove(i);
    assert forall|a: int, b: int|
        0 <= a < t.len() && 0 <= b < t.len() && a != b implies #[trigger] t[a].0@ != #[trigger] t[b].0@ by {
        let a0 = if a < i { a } else { a + 1 };
        let b0 = if b < i { b } else { b + 1 };
        assert(t[a] == s[a0] && t[b] == s[b0]);
    }
    let m = entries_map(s).remove(s[i].0@);
    assert forall|k: Seq<char>| #[trigger] has_key(t, k) == m.contains_key(k) by {
        if has_key(t, k) {
            let a = choose|a: int| 0 <= a < t.len() && #[trigger] t[a].0@ == k;
            let a0 = if a < i { a } else { a + 1 };
            assert(s[a0].0@ == k);
            assert(has_key(s, k));
        }
        if m.contains_key(k) {
            let a0 = choose|a: int| 0 <= a < s.len() && #[trigger] s[a].0@ == k;
            let a = if a0 < i { a0 } else { a0 - 1 };
            assert(t[a].0@ == k);
        }
    }
    assert forall|k: Seq<char>| #[trigger] m.contains_key(k) implies entries_map(t)[k] == m[k] by {
        let a0 = choose|a: int| 0 <= a < s.len() && #[trigger] s[a].0@ == k;
        let a = if a0 < i { a0 } else { a0 - 1 };
        assert(t[a] == s[a0]);
        lemma_entry_lookup(s, a0);
        lemma_entry_lookup(t, a);
    }
    assert(entries_map(t) =~= m);
}

/// Appending an entry under a key not yet present adds it to the map.
proof fn lemma_entries_push(s: Seq<(String, AttributeValue)>, k: String, v: AttributeValue)
    requires
        keys_distinct(s),
        !has_key(s, k@),
    ensures
        keys_distinct(s.push((k, v))),
        entries_map(s.push((k, v))) == entries_map(s).insert(k@, v@),
{
    let t = s.push((k, v));
    assert forall|a: int| 0 <= a < s.len() implies #[trigger] t[a] == s[a] by {}
    assert forall|a: int, b: int|
        0 <= a < t.len() && 0 <= b < t.len() && a != b implies #[trigger] t[a].0@ != #[trigger] t[b].0@ by {
        if a < s.len() && b < s.len() {
            assert(t[a] == s[a] && t[b] == s[b]);
        } else if a < s.len() {
            assert(t[a] == s[a]);
        } else {
            assert(t[b] == s[b]);
        }
    }
    let m = entries_map(s).insert(k@, v@);
    assert forall|q: Seq<char>| #[trigger] has_key(t, q) == m.contains_key(q) by {
        if has_key(t, q) && q != k@ {
            let a = choose|a: int| 0 <= a < t.len() && #[trigger] t[a].0@ == q;
            assert(a < s.len());
            assert(s[a].0@ == q);
        }
        if m.contains_key(q) {
            if q == k@ {
                assert(t[s.len() as int].0@ == q);
            } else {
                let a = choose|a: int| 0 <= a < s.len() && #[trigger] s[a].0@ == q;
                assert(t[a].0@ == q);
            }
        }
    }
    assert forall|q: Seq<char>| #[trigger] m.contains_key(q) implies entries_map(t)[q] == m[q] by {
        if q == k@ {
            lemma_entry_lookup(t, s.len() as int);
        } else {
            let a = choose|a: int| 0 <= a < s.len() && #[trigger] s[a].0@ == q;
            lemma_entry_lookup(s, a);
            lemma_entry_lookup(t, a);
        }
    }
    assert(entries_map(t) =~= m);
}

/// With distinct keys, the map has one key per entry.
proof fn lemma_entries_len(s: Seq<(String, AttributeValue)>)
    requires
        keys_distinct(s),
    ensures
        entries_map(s).dom().finite(),
        entries_map(s).dom().len() == s.len(),
    decreases s.len(),
{
    if s.len() == 0 {
        assert(entries_map(s).dom() =~= Set::<Seq<char>>::empty());
    } else {
        let last = s.len() - 1;
        lemma_entry_lookup(s, last);
        lemma_entries_remove(s, last);
        assert(s.remove(last) =~= s.drop_last());
        lemma_entries_len(s.drop_last());
        assert(!entries_map(s.drop_last()).dom().contains(s[last].0@));
        assert(entries_map(s).dom() =~= entries_map(s.drop_last()).dom().insert(s[last].0@));
    }
}

impl View for AttributeMap {
    type V = Map<Seq<char>, AttrView>;

    closed spec fn view(&self) -> Map<Seq<char>, AttrView> {
        entries_map(self.entries@)
    }
}

impl AttributeMap {
    /// The map's invariant: no key appears twice.
    pub closed spec fn wf(&self) -> bool {
        keys_distinct(self.entries@)
    }

    /// The empty map.
    pub fn new() -> (r: AttributeMap)
        ensures
            r.wf(),
            r@ == Map::<Seq<char>, AttrView>::empty(),
    {
        let r = AttributeMap { entries: Vec::new() };
        assert(r@ =~= Map::<Seq<char>, AttrView>::empty());
        r
    }

    /// The position of the entry under `k`, if there is one.
    fn find(&self, k: &String) -> (r: Option<usize>)
        requires
            self.wf(),
        ensures
            match r {
                Some(i) => i < self.entries@.len() && self.entries@[i as int].0@ == k@,
                None => !has_key(self.entries@, k@),
            },
    {
        let mut i: usize = 0;
        while i < self.entries.len()
            invariant
                i <= self.entries@.len(),
                forall|j: int| 0 <= j < i ==> #[trigger] self.entries@[j].0@ != k@,
            decreases self.entries@.len() - i,
        {
            if self.entries[i].0 == *k {
                return Some(i);
            }
            i = i + 1;
        }
        None
    }

    /// The number of entries.
    pub fn len(&self) -> (r: usize)
        requires
            self.wf(),
        ensures
            r == self@.dom().len(),
    {
        proof {
            lemma_entries_len(self.entries@);
        }
        self.entries.len()
    }

    /// Whether the map holds a value under `k`.
    pub fn contains_key(&self, k: &String) -> (r: bool)
        requires
            self.wf(),
        ensures
            r == self@.contains_key(k@),
    {
        self.find(k).is_some()
    }

    /// The value under `k`, if any.
    pub fn get(&self, k: &String) -> (r: Option<&AttributeValue>)
        requires
            self.wf(),
        ensures
            match r {
                Some(v) => self@.contains_key(k@) && v@ == self@[k@],
                None => !self@.contains_key(k@),
            },
    {
        match self.find(k) {
            Some(i) => {
                proof {
                    lemma_entry_lookup(self.entries@, i as int);
                }
                Some(&self.entries[i].1)
            },
            None => None,
        }
    }

    /// Takes the value under `k` out of the map.
    pub fn remove(&mut self, k: &String) -> (r: Option<AttributeValue>)
        requires
            old(self).wf(),
        ensures
            final(self).wf(),
            final(self)@ == old(self)@.remove(k@),
            match r {
                Some(v) => old(self)@.contains_key(k@) && v@ == old(self)@[k@],
                None => !old(self)@.contains_key(k@),
            },
    {
        match self.find(k) {
            Some(i) => {
                proof {
                    lemma_entry_lookup(self.entries@, i as int);
                    lemma_entries_remove(self.entries@, i as int);
                }
                let (_, v) = self.entries.remove(i);
                Some(v)
            },
            None => {
                assert(self@.remove(k@) =~= self@);
                None
            },
        }
    }

    /// Sets the value under `k`, replacing any earlier one.
    pub fn insert(&mut self, k: String, v: AttributeValue)
        requires
            old(self).wf(),
        ensures
            final(self).wf(),
            final(self)@ == old(self)@.insert(k@, v@),
    {
        let _ = self.remove(&k);
        proof {
            assert(!self@.contains_key(k@));
            assert(!has_key(self.entries@, k@));
            lemma_entries_push(self.entries@, k, v);
            assert(old(self)@.remove(k@).insert(k@, v@) =~= old(self)@.insert(k@, v@));
        }
        self.entries.push((k, v));
    }

    /// The entries of the map, each key once, in no particular order.
    pub fn into_entries(self) -> (r: Vec<(String, AttributeValue)>)
        requires
            self.wf(),
        ensures
            keys_distinct(r@),
            entries_map(r@) == self@,
    {
        self.entries
    }
}

} // verus!
