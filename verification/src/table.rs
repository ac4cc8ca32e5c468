//! A table of values under texts, each text once.

use vstd::prelude::*;

use crate::text::same_text;

verus! {

struct Entry<T> {
    key: String,
    value: T,
}

spec fn holds<T>(entries: Seq<Entry<T>>, key: Seq<char>, i: int) -> bool {
    0 <= i < entries.len() && entries[i].key@ == key
}

spec fn contents<T>(entries: Seq<Entry<T>>) -> Map<Seq<char>, T> {
    Map::new(
        |key: Seq<char>| exists|i: int| holds(entries, key, i),
        |key: Seq<char>| entries[choose|i: int| holds(entries, key, i)].value,
    )
}

spec fn distinct<T>(entries: Seq<Entry<T>>) -> bool {
    forall|i: int, j: int|
        0 <= i < j < entries.len() ==> (#[trigger] entries[i]).key@ != (#[trigger] entries[j]).key@
}

/// An entry's value stands under its key.
proof fn lemma_at<T>(entries: Seq<Entry<T>>, i: int)
    requires
        distinct(entries),
        0 <= i < entries.len(),
    ensures
        contents(entries).dom().contains(entries[i].key@),
        contents(entries)[entries[i].key@] == entries[i].value,
{
    let key = entries[i].key@;
    assert(holds(entries, key, i));
    let j = choose|j: int| holds(entries, key, j);
    assert(holds(entries, key, j));
    assert(i == j);
}

/// Replacing the entry under a key replaces the value there.
proof fn lemma_set<T>(before: Seq<Entry<T>>, i: int, new: Entry<T>)
    requires
        distinct(before),
        holds(before, new.key@, i),
    ensures
        distinct(before.update(i, new)),
        contents(before.update(i, new)) == contents(before).insert(new.key@, new.value),
{
    let after = before.update(i, new);
    let key = new.key@;
    let expected = contents(before).insert(key, new.value);
    assert forall|k: Seq<char>|
        #[trigger] contents(after).dom().contains(k) <==> expected.dom().contains(k) by {
        if k == key {
            assert(holds(after, k, i));
        }
        if contents(before).dom().contains(k) {
            let j = choose|j: int| holds(before, k, j);
            assert(holds(after, k, j));
        }
        if contents(after).dom().contains(k) {
            let j = choose|j: int| holds(after, k, j);
            assert(holds(before, k, j));
        }
    }
    assert forall|k: Seq<char>| #[trigger] contents(after).dom().contains(k) implies contents(
        after,
    )[k] == expected[k] by {
        let j = choose|j: int| holds(after, k, j);
        lemma_at(after, j);
        if k != key {
            lemma_at(before, j);
        }
    }
    assert(contents(after) =~= expected);
}

/// Adding an entry under a new key adds its value there.
proof fn lemma_push<T>(before: Seq<Entry<T>>, new: Entry<T>)
    requires
        distinct(before),
        !contents(before).dom().contains(new.key@),
    ensures
        distinct(before.push(new)),
        contents(before.push(new)) == contents(before).insert(new.key@, new.value),
{
    let after = before.push(new);
    let key = new.key@;
    let n = before.len() as int;
    let expected = contents(before).insert(key, new.value);
    assert forall|a: int, b: int| 0 <= a < b < after.len() implies (#[trigger] after[a]).key@ != (
    #[trigger] after[b]).key@ by {
        assert(!holds(before, key, a));
    }
    assert forall|k: Seq<char>|
        #[trigger] contents(after).dom().contains(k) <==> expected.dom().contains(k) by {
        if k == key {
            assert(holds(after, k, n));
        }
        if contents(before).dom().contains(k) {
            let j = choose|j: int| holds(before, k, j);
            assert(holds(after, k, j));
        }
        if contents(after).dom().contains(k) && k != key {
            let j = choose|j: int| holds(after, k, j);
            assert(holds(before, k, j));
        }
    }
    assert forall|k: Seq<char>| #[trigger] contents(after).dom().contains(k) implies contents(
        after,
    )[k] == expected[k] by {
        let j = choose|j: int| holds(after, k, j);
        lemma_at(after, j);
        if j < n {
            assert(!holds(before, key, j));
            lemma_at(before, j);
        }
    }
    assert(contents(after) =~= expected);
}

/// Taking the entry under a key out takes the key out.
proof fn lemma_remove<T>(before: Seq<Entry<T>>, i: int)
    requires
        distinct(before),
        0 <= i < before.len(),
    ensures
        distinct(before.remove(i)),
        contents(before.remove(i)) == contents(before).remove(before[i].key@),
{
    let after = before.remove(i);
    let key = before[i].key@;
    let expected = contents(before).remove(key);
    assert forall|k: Seq<char>|
        #[trigger] contents(after).dom().contains(k) <==> expected.dom().contains(k) by {
        if contents(after).dom().contains(k) {
            let j = choose|j: int| holds(after, k, j);
            let b = if j < i {
                j
            } else {
                j + 1
            };
            assert(holds(before, k, b));
            assert(before[b].key@ != key);
        }
        if expected.dom().contains(k) {
            let b = choose|b: int| holds(before, k, b);
            assert(holds(after, k, if b < i { b } else { b - 1 }));
        }
    }
    assert forall|k: Seq<char>| #[trigger] contents(after).dom().contains(k) implies contents(
        after,
    )[k] == expected[k] by {
        let j = choose|j: int| holds(after, k, j);
        lemma_at(after, j);
        lemma_at(
            before,
            if j < i {
                j
            } else {
                j + 1
            },
        );
    }
    assert(contents(after) =~= expected);
}

/// Whether `keys` holds exactly the keys of `map`, each once.
pub open spec fn enumerates<T>(keys: Seq<Seq<char>>, map: Map<Seq<char>, T>) -> bool {
    &&& forall|i: int, j: int| 0 <= i < j < keys.len() ==> #[trigger] keys[i] != #[trigger] keys[j]
    &&& forall|k: Seq<char>| #[trigger] map.dom().contains(k) <==> keys.contains(k)
}

proof fn lemma_enumerates<T>(entries: Seq<Entry<T>>)
    requires
        distinct(entries),
    ensures
        enumerates(Seq::new(entries.len(), |i: int| entries[i].key@), contents(entries)),
{
    let keys = Seq::new(entries.len(), |i: int| entries[i].key@);
    assert forall|k: Seq<char>| #[trigger]
        contents(entries).dom().contains(k) <==> keys.contains(k) by {
        if contents(entries).dom().contains(k) {
            let i = choose|i: int| holds(entries, k, i);
            assert(keys[i] == k);
        }
        if keys.contains(k) {
            let i = choose|i: int| 0 <= i < keys.len() && keys[i] == k;
            assert(holds(entries, k, i));
        }
    }
}

/// Values under texts. What it holds is a map; the keys also have an order,
/// for walking it.
pub struct Table<T> {
    entries: Vec<Entry<T>>,
}

impl<T> View for Table<T> {
    type V = Map<Seq<char>, T>;

    closed spec fn view(&self) -> Map<Seq<char>, T> {
        contents(self.entries@)
    }
}

impl<T> Table<T> {
    #[verifier::type_invariant]
    spec fn well_formed(self) -> bool {
        distinct(self.entries@)
    }

    /// The keys in the order in which they are walked.
    pub closed spec fn keys(&self) -> Seq<Seq<char>> {
        Seq::new(self.entries@.len(), |i: int| self.entries@[i].key@)
    }

    /// An empty table.
    pub fn new() -> (r: Self)
        ensures
            r@ == Map::<Seq<char>, T>::empty(),
    {
        let r = Table { entries: Vec::new() };
        assert(r@ =~= Map::empty());
        r
    }

    /// How many keys there are. The keys are all, and each occurs once.
    pub fn len(&self) -> (r: usize)
        ensures
            r == self.keys().len(),
            enumerates(self.keys(), self@),
    {
        proof {
            use_type_invariant(self);
            lemma_enumerates(self.entries@);
        }
        self.entries.len()
    }

    /// The key at a place.
    pub fn key_at(&self, i: usize) -> (r: &String)
        requires
            i < self.keys().len(),
        ensures
            r@ == self.keys()[i as int],
    {
        &self.entries[i].key
    }

    /// The value at a place.
    pub fn value_at(&self, i: usize) -> (r: &T)
        requires
            i < self.keys().len(),
        ensures
            self@.dom().contains(self.keys()[i as int]),
            *r == self@[self.keys()[i as int]],
    {
        proof {
            use_type_invariant(self);
            lemma_at(self.entries@, i as int);
        }
        &self.entries[i].value
    }

    fn find(entries: &Vec<Entry<T>>, key: &str) -> (r: Option<usize>)
        requires
            distinct(entries@),
        ensures
            match r {
                Some(i) => holds(entries@, key@, i as int) && contents(entries@).dom().contains(
                    key@,
                ) && contents(entries@)[key@] == entries@[i as int].value,
                None => !contents(entries@).dom().contains(key@),
            },
    {
        let mut i: usize = 0;
        while i < entries.len()
            invariant
                distinct(entries@),
                i <= entries@.len(),
                forall|j: int| 0 <= j < i ==> (#[trigger] entries@[j]).key@ != key@,
            decreases entries@.len() - i,
        {
            if same_text(entries[i].key.as_str(), key) {
                proof {
                    lemma_at(entries@, i as int);
                }
                return Some(i);
            }
            i += 1;
        }
        None
    }

    /// The value under `key`.
    pub fn get(&self, key: &str) -> (r: Option<&T>)
        ensures
            match r {
                Some(value) => self@.dom().contains(key@) && *value == self@[key@],
                None => !self@.dom().contains(key@),
            },
    {
        proof {
            use_type_invariant(self);
        }
        match Self::find(&self.entries, key) {
            Some(i) => Some(&self.entries[i].value),
            None => None,
        }
    }

    /// Puts `value` under `key`, and gives back what stood there.
    pub fn insert(&mut self, key: &str, value: T) -> (r: Option<T>)
        ensures
            final(self)@ == old(self)@.insert(key@, value),
            old(self)@.dom().contains(key@) ==> final(self).keys() == old(self).keys(),
            match r {
                Some(previous) => old(self)@.dom().contains(key@) && previous == old(self)@[key@],
                None => !old(self)@.dom().contains(key@),
            },
    {
        proof {
            use_type_invariant(&*self);
        }
        let mut entries: Vec<Entry<T>> = Vec::new();
        std::mem::swap(&mut entries, &mut self.entries);
        let ghost before = entries@;
        let new = Entry { key: key.to_owned(), value };
        let r = match Self::find(&entries, key) {
            Some(i) => {
                proof {
                    lemma_set(before, i as int, new);
                }
                let old_entry = entries.remove(i);
                entries.insert(i, new);
                assert(entries@ =~= before.update(i as int, new));
                assert(Seq::new(entries@.len(), |j: int| entries@[j].key@) =~= old(self).keys());
                Some(old_entry.value)
            },
            None => {
                proof {
                    lemma_push(before, new);
                }
                entries.push(new);
                None
            },
        };
        self.entries = entries;
        r
    }

    /// Takes the value under `key` out.
    pub fn remove(&mut self, key: &str) -> (r: Option<T>)
        ensures
            final(self)@ == old(self)@.remove(key@),
            match r {
                Some(value) => old(self)@.dom().contains(key@) && value == old(self)@[key@],
                None => !old(self)@.dom().contains(key@),
            },
    {
        proof {
            use_type_invariant(&*self);
        }
        let mut entries: Vec<Entry<T>> = Vec::new();
        std::mem::swap(&mut entries, &mut self.entries);
        let ghost before = entries@;
        let r = match Self::find(&entries, key) {
            Some(i) => {
                proof {
                    lemma_remove(before, i as int);
                }
                Some(entries.remove(i).value)
            },
            None => {
                assert(contents(before).remove(key@) =~= contents(before));
                None
            },
        };
        self.entries = entries;
        r
    }

    /// Takes every value out, in the order of the keys.
    pub fn drain(&mut self) -> (r: Vec<T>)
        ensures
            final(self)@ == Map::<Seq<char>, T>::empty(),
            enumerates(old(self).keys(), old(self)@),
            r@ == Seq::new(
                old(self).keys().len(),
                |i: int| old(self)@[old(self).keys()[i]],
            ),
    {
        proof {
            use_type_invariant(&*self);
            lemma_enumerates(self.entries@);
        }
        let mut entries: Vec<Entry<T>> = Vec::new();
        std::mem::swap(&mut entries, &mut self.entries);
        assert(self@ =~= Map::empty());
        let ghost before = entries@;
        let mut out: Vec<T> = Vec::new();
        while entries.len() > 0
            invariant
                distinct(before),
                out@.len() + entries@.len() == before.len(),
                entries@ == before.skip(out@.len() as int),
                forall|i: int| 0 <= i < out@.len() ==> (#[trigger] out@[i]) == before[i].value,
            decreases entries@.len(),
        {
            let entry = entries.remove(0);
            assert(entries@ =~= before.skip(out@.len() as int + 1));
            out.push(entry.value);
        }
        proof {
            let expected = Seq::new(
                old(self).keys().len(),
                |i: int| old(self)@[old(self).keys()[i]],
            );
            assert forall|i: int| 0 <= i < before.len() implies out@[i] == expected[i] by {
                lemma_at(before, i);
            }
            assert(out@ =~= expected);
        }
        out
    }
}

} // verus!
