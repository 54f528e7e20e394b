use vstd::prelude::*;

verus! {

/// A map keyed by strings, kept as a list of entries.
///
/// It stands for the `HashMap<String, V>` values of Delta metadata: a key is looked
/// up by its characters, and inserting a key replaces any earlier value for it.
#[derive(Debug)]
pub struct StrMap<V> {
    pub entries: Vec<(String, V)>,
}

/// The value that the last entry with key `key` holds, if any.
pub open spec fn entry_lookup<V>(entries: Seq<(String, V)>, key: Seq<char>) -> Option<V>
    decreases entries.len(),
{
    if entries.len() == 0 {
        None
    } else if entries.last().0@ == key {
        Some(entries.last().1)
    } else {
        entry_lookup(entries.drop_last(), key)
    }
}

/// The entries without those whose key is `key`, in their order.
pub open spec fn entries_without<V>(entries: Seq<(String, V)>, key: Seq<char>) -> Seq<(String, V)>
    decreases entries.len(),
{
    if entries.len() == 0 {
        entries
    } else {
        let rest = entries_without(entries.drop_last(), key);
        if entries.last().0@ == key {
            rest
        } else {
            rest.push(entries.last())
        }
    }
}

/// The map that a list of entries denotes: later entries win.
pub open spec fn entries_map<V>(entries: Seq<(String, V)>) -> Map<Seq<char>, V> {
    Map::new(
        |k: Seq<char>| entry_lookup(entries, k) is Some,
        |k: Seq<char>| entry_lookup(entries, k).unwrap(),
    )
}

pub proof fn lemma_lookup_push<V>(entries: Seq<(String, V)>, e: (String, V), key: Seq<char>)
    ensures
        entry_lookup(entries.push(e), key) == if e.0@ == key {
            Some(e.1)
        } else {
            entry_lookup(entries, key)
        },
{
    assert(entries.push(e).drop_last() =~= entries);
}

pub proof fn lemma_lookup_without<V>(entries: Seq<(String, V)>, key: Seq<char>, q: Seq<char>)
    ensures
        entry_lookup(entries_without(entries, key), q) == if q == key {
            None
        } else {
            entry_lookup(entries, q)
        },
    decreases entries.len(),
{
    if entries.len() > 0 {
        lemma_lookup_without(entries.drop_last(), key, q);
        let rest = entries_without(entries.drop_last(), key);
        if entries.last().0@ != key {
            lemma_lookup_push(rest, entries.last(), q);
        }
    }
}

/// `==` on string slices compares their characters.
pub assume_specification[ <str as PartialEq>::eq ](a: &str, b: &str) -> (r: bool)
    ensures
        r == (a@ == b@),
;

pub proof fn lemma_lookup_some<V>(entries: Seq<(String, V)>, key: Seq<char>)
    ensures
        (entry_lookup(entries, key) is Some) <==> exists|i: int|
            0 <= i < entries.len() && #[trigger] entries[i].0@ == key,
    decreases entries.len(),
{
    if entries.len() > 0 {
        lemma_lookup_some(entries.drop_last(), key);
        if entries.last().0@ != key {
            if exists|i: int| 0 <= i < entries.len() && #[trigger] entries[i].0@ == key {
                let i = choose|i: int| 0 <= i < entries.len() && #[trigger] entries[i].0@ == key;
                assert(entries.drop_last()[i].0@ == key);
            }
        }
    }
}

impl<V> View for StrMap<V> {
    type V = Map<Seq<char>, V>;

    open spec fn view(&self) -> Map<Seq<char>, V> {
        entries_map(self.entries@)
    }
}

impl<V> StrMap<V> {
    /// An empty map.
    pub fn new() -> (m: Self)
        ensures
            m@ == Map::<Seq<char>, V>::empty(),
            m.entries@.len() == 0,
    {
        let m = StrMap { entries: Vec::new() };
        assert(m@ =~= Map::<Seq<char>, V>::empty());
        m
    }

    /// The number of entries kept.
    pub fn len(&self) -> (n: usize)
        ensures
            n == self.entries@.len(),
    {
        self.entries.len()
    }

    /// Whether no entry is kept.
    pub fn is_empty(&self) -> (b: bool)
        ensures
            b == (self.entries@.len() == 0),
            b ==> self@ == Map::<Seq<char>, V>::empty(),
    {
        if self.entries.len() == 0 {
            assert(self@ =~= Map::<Seq<char>, V>::empty());
            true
        } else {
            false
        }
    }

    /// The value kept for `key`.
    pub fn get(&self, key: &str) -> (r: Option<&V>)
        ensures
            match r {
                Some(v) => self@.contains_key(key@) && *v == self@[key@],
                None => !self@.contains_key(key@),
            },
    {
        let mut i = self.entries.len();
        assert(self.entries@.subrange(0, i as int) =~= self.entries@);
        while i > 0
            invariant
                i <= self.entries@.len(),
                entry_lookup(self.entries@, key@) == entry_lookup(self.entries@.subrange(0, i as int), key@),
            decreases i,
        {
            let ghost sub = self.entries@.subrange(0, i as int);
            assert(sub.drop_last() =~= self.entries@.subrange(0, i - 1));
            assert(sub.last() == self.entries@[i - 1]);
            if *self.entries[i - 1].0.as_str() == *key {
                return Some(&self.entries[i - 1].1);
            }
            i = i - 1;
        }
        None
    }

    /// Whether `key` has a value.
    pub fn contains_key(&self, key: &str) -> (b: bool)
        ensures
            b == self@.contains_key(key@),
    {
        self.get(key).is_some()
    }

    /// Sets the value of `key`, replacing any earlier one.
    pub fn insert(&mut self, key: String, value: V)
        ensures
            final(self)@ == old(self)@.insert(key@, value),
    {
        let ghost k = key@;
        let ghost old_entries = self.entries@;
        let mut taken: Vec<(String, V)> = Vec::new();
        std::mem::swap(&mut taken, &mut self.entries);
        let mut kept: Vec<(String, V)> = Vec::new();
        let ghost mut consumed: Seq<(String, V)> = Seq::empty();
        while taken.len() > 0
            invariant
                old_entries =~= consumed + taken@,
                k == key@,
                kept@ =~= entries_without(consumed, k),
            decreases taken.len(),
        {
            let e = taken.remove(0);
            proof {
                let c2 = consumed.push(e);
                assert(c2.drop_last() =~= consumed);
                assert(c2.last() == e);
                assert(entries_without(c2, k) == if e.0@ == k {
                    entries_without(consumed, k)
                } else {
                    entries_without(consumed, k).push(e)
                });
                consumed = c2;
            }
            let keep = !(*e.0.as_str() == *key.as_str());
            if keep {
                kept.push(e);
            }
        }
        proof {
            assert(consumed =~= old_entries);
        }
        let ghost without = kept@;
        kept.push((key, value));
        proof {
            assert forall|q: Seq<char>|
                entry_lookup(kept@, q) == (if q == k { Some(value) } else { entry_lookup(old_entries, q) })
            by {
                assert(kept@ =~= without.push((key, value)));
                lemma_lookup_push(without, (key, value), q);
                lemma_lookup_without(old_entries, k, q);
            }
            assert(entries_map(kept@) =~= entries_map(old_entries).insert(k, value));
        }
        self.entries = kept;
    }
}


/// A read gives back what the last write of its key wrote, and a write leaves the
/// other keys as they were.
pub proof fn law_read_after_write<V>(m: Map<Seq<char>, V>, key: Seq<char>, value: V, other: Seq<char>)
    requires
        other != key,
    ensures
        m.insert(key, value).contains_key(key),
        m.insert(key, value)[key] == value,
        m.insert(key, value).contains_key(other) == m.contains_key(other),
        m.contains_key(other) ==> m.insert(key, value)[other] == m[other],
{
}

} // verus!
