//! A table from names to values: what the interpreter keeps its variables
//! and functions in.
use vstd::prelude::*;

verus! {

/// A value that can be copied, the copy having the same value.
pub trait Duplicate: View + Sized {
    fn duplicate(&self) -> (r: Self)
        ensures
            r@ == self@;
}

/// The map that a list of entries stands for: a later entry overrides an
/// earlier one with the same name.
pub open spec fn entries_map<V: View>(e: Seq<(String, V)>) -> Map<Seq<char>, V::V>
    decreases e.len(),
{
    if e.len() == 0 {
        Map::empty()
    } else {
        entries_map(e.drop_last()).insert(e.last().0@, e.last().1@)
    }
}

pub proof fn lemma_entries_map_dom<V: View>(e: Seq<(String, V)>, k: Seq<char>)
    ensures
        entries_map(e).dom().contains(k) <==> exists|i: int| 0 <= i < e.len() && #[trigger] e[i].0@ == k,
    decreases e.len(),
{
    if e.len() > 0 {
        lemma_entries_map_dom(e.drop_last(), k);
        if exists|i: int| 0 <= i < e.drop_last().len() && #[trigger] e.drop_last()[i].0@ == k {
            let i = choose|i: int| 0 <= i < e.drop_last().len() && #[trigger] e.drop_last()[i].0@ == k;
            assert(e[i].0@ == k);
        }
        if exists|i: int| 0 <= i < e.len() && #[trigger] e[i].0@ == k {
            let i = choose|i: int| 0 <= i < e.len() && #[trigger] e[i].0@ == k;
            if i < e.len() - 1 {
                assert(e.drop_last()[i].0@ == k);
            }
        }
    }
}

pub proof fn lemma_entries_map_last<V: View>(e: Seq<(String, V)>, i: int)
    requires
        0 <= i < e.len(),
        forall|j: int| i < j < e.len() ==> #[trigger] e[j].0@ != e[i].0@,
    ensures
        entries_map(e).dom().contains(e[i].0@),
        entries_map(e)[e[i].0@] == e[i].1@,
    decreases e.len(),
{
    if i < e.len() - 1 {
        assert forall|j: int| i < j < e.drop_last().len() implies #[trigger] e.drop_last()[j].0@ != e.drop_last()[i].0@ by {
            assert(e.drop_last()[j] == e[j]);
        }
        lemma_entries_map_last(e.drop_last(), i);
        assert(e.drop_last()[i] == e[i]);
    }
}

pub proof fn lemma_entries_map_append<V: View>(a: Seq<(String, V)>, b: Seq<(String, V)>)
    ensures
        entries_map(a + b) == entries_map(a).union_prefer_right(entries_map(b)),
    decreases b.len(),
{
    if b.len() == 0 {
        assert(a + b =~= a);
        assert(entries_map(a).union_prefer_right(entries_map(b)) =~= entries_map(a));
    } else {
        assert((a + b).drop_last() =~= a + b.drop_last());
        assert((a + b).last() == b.last());
        lemma_entries_map_append(a, b.drop_last());
        assert(entries_map(a + b) =~= entries_map(a).union_prefer_right(entries_map(b)));
    }
}

/// A table from names to values.
pub struct Table<V> {
    entries: Vec<(String, V)>,
}

impl<V: View> View for Table<V> {
    type V = Map<Seq<char>, V::V>;

    closed spec fn view(&self) -> Map<Seq<char>, V::V> {
        entries_map(self.entries@)
    }
}

impl<V: View> DeepView for Table<V> {
    type V = Map<Seq<char>, V::V>;

    open spec fn deep_view(&self) -> Map<Seq<char>, V::V> {
        self@
    }
}

impl<V: Duplicate> Table<V> {
    /// An empty table.
    pub fn new() -> (t: Table<V>)
        ensures
            t@ == Map::<Seq<char>, V::V>::empty(),
    {
        Table { entries: Vec::new() }
    }

    /// Whether `key` has a value.
    pub fn contains_key(&self, key: &String) -> (r: bool)
        ensures
            r == self@.dom().contains(key@),
    {
        proof {
            lemma_entries_map_dom(self.entries@, key@);
        }
        let mut i: usize = 0;
        while i < self.entries.len()
            invariant
                i <= self.entries.len(),
                forall|j: int| 0 <= j < i ==> #[trigger] self.entries@[j].0@ != key@,
            decreases self.entries.len() - i,
        {
            if self.entries[i].0 == *key {
                proof {
                    assert(self.entries@[i as int].0@ == key@);
                    lemma_entries_map_dom(self.entries@, key@);
                }
                return true;
            }
            i = i + 1;
        }
        false
    }

    /// A copy of the value of `key`, if it has one.
    pub fn get(&self, key: &String) -> (r: Option<V>)
        ensures
            match r {
                Some(v) => self@.dom().contains(key@) && self@[key@] == v@,
                None => !self@.dom().contains(key@),
            },
    {
        proof {
            lemma_entries_map_dom(self.entries@, key@);
        }
        let mut i = self.entries.len();
        while i > 0
            invariant
                i <= self.entries.len(),
                forall|j: int| i <= j < self.entries.len() ==> #[trigger] self.entries@[j].0@ != key@,
            decreases i,
        {
            if self.entries[i - 1].0 == *key {
                proof {
                    lemma_entries_map_last(self.entries@, i - 1);
                }
                return Some(self.entries[i - 1].1.duplicate());
            }
            i = i - 1;
        }
        None
    }

    /// Gives `key` the value `value`.
    pub fn insert(&mut self, key: String, value: V)
        ensures
            final(self)@ == old(self)@.insert(key@, value@),
    {
        let ghost old_entries = self.entries@;
        self.entries.push((key, value));
        assert(self.entries@.drop_last() =~= old_entries);
    }

    /// A copy of the table.
    pub fn duplicate_table(&self) -> (r: Table<V>)
        ensures
            r@ == self@,
    {
        let mut entries: Vec<(String, V)> = Vec::new();
        let mut i: usize = 0;
        while i < self.entries.len()
            invariant
                i <= self.entries.len(),
                entries_map(entries@) == entries_map(self.entries@.take(i as int)),
            decreases self.entries.len() - i,
        {
            let k = self.entries[i].0.clone();
            let v = self.entries[i].1.duplicate();
            let ghost before = entries@;
            entries.push((k, v));
            proof {
                assert(entries@.drop_last() =~= before);
                assert(self.entries@.take(i + 1).drop_last() =~= self.entries@.take(i as int));
            }
            i = i + 1;
        }
        assert(self.entries@.take(self.entries.len() as int) =~= self.entries@);
        Table { entries }
    }

    /// Keeps the entries whose names `other` has.
    pub fn retain_keys_of(&mut self, other: &Table<V>)
        ensures
            final(self)@ == old(self)@.restrict(other@.dom()),
    {
        let ghost keys = other@.dom();
        let ghost old_entries = self.entries@;
        let mut kept: Vec<(String, V)> = Vec::new();
        let mut rest: Vec<(String, V)> = Vec::new();
        std::mem::swap(&mut rest, &mut self.entries);
        let mut i: usize = 0;
        let n = rest.len();
        while i < n
            invariant
                i <= n,
                n == rest.len(),
                rest@ == old_entries,
                keys == other@.dom(),
                entries_map(kept@) == entries_map(old_entries.take(i as int)).restrict(keys),
            decreases n - i,
        {
            let present = other.contains_key(&rest[i].0);
            let k = rest[i].0.clone();
            let v = rest[i].1.duplicate();
            let ghost before = kept@;
            proof {
                assert(old_entries.take(i + 1).drop_last() =~= old_entries.take(i as int));
                assert(old_entries.take(i + 1).last() == old_entries[i as int]);
            }
            if present {
                kept.push((k, v));
                proof {
                    assert(kept@.drop_last() =~= before);
                    assert(entries_map(kept@) =~= entries_map(old_entries.take(i + 1)).restrict(keys));
                }
            } else {
                assert(entries_map(kept@) =~= entries_map(old_entries.take(i + 1)).restrict(keys));
            }
            i = i + 1;
        }
        assert(old_entries.take(n as int) =~= old_entries);
        self.entries = kept;
    }

    /// Gives each name of `other` its value there.
    pub fn extend(&mut self, other: Table<V>)
        ensures
            final(self)@ == old(self)@.union_prefer_right(other@),
    {
        let ghost a = self.entries@;
        let ghost b = other.entries@;
        let mut other_entries = other.entries;
        self.entries.append(&mut other_entries);
        proof {
            lemma_entries_map_append(a, b);
        }
    }
}

} // verus!
