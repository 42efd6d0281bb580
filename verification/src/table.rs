//! Sets of texts, and tables keyed by text, that can be walked in the order they were filled in.
use vstd::prelude::*;
use vstd::hash_map::StringHashMap;
use vstd::hash_set::StringHashSet;
use crate::text::texts;

verus! {

/// A set of texts. No text is in it twice.
pub struct TextSet {
    items: Vec<String>,
    seen: StringHashSet,
}

impl View for TextSet {
    type V = Set<Seq<char>>;

    closed spec fn view(&self) -> Set<Seq<char>> {
        self.seen@
    }
}

impl TextSet {
    /// The texts of the set, in the order they were put in.
    pub closed spec fn listed(&self) -> Seq<Seq<char>> {
        texts(self.items@)
    }

    /// The list and the set hold the same texts, and the list holds each once.
    #[verifier::type_invariant]
    spec fn valid(self) -> bool {
        &&& texts(self.items@).no_duplicates()
        &&& self.seen@ == texts(self.items@).to_set()
    }

    /// An empty set.
    pub fn new() -> (r: TextSet)
        ensures
            r@ == Set::<Seq<char>>::empty(),
            r.listed() == Seq::<Seq<char>>::empty(),
    {
        let items: Vec<String> = Vec::new();
        let seen = StringHashSet::new();
        assert(texts(items@) == Seq::<Seq<char>>::empty());
        assert(seen@ == texts(items@).to_set());
        TextSet { items, seen }
    }

    /// The set with `text` in it.
    fn with(self, text: String) -> (r: TextSet)
        ensures
            r@ == self@.insert(text@),
            r.listed() == if self@.contains(text@) {
                self.listed()
            } else {
                self.listed().push(text@)
            },
    {
        proof {
            use_type_invariant(&self);
        }
        if self.seen.contains(text.as_str()) {
            assert(self@.insert(text@) == self@);
            return self;
        }
        let ghost before = texts(self.items@);
        let TextSet { mut items, mut seen } = self;
        seen.insert(text.clone());
        items.push(text);
        proof {
            assert(texts(items@) == before.push(text@));
            before.lemma_push_to_set_commute(text@);
            assert(!before.contains(text@));
        }
        TextSet { items, seen }
    }

    /// Puts `text` into the set.
    pub fn insert(&mut self, text: String)
        ensures
            final(self)@ == old(self)@.insert(text@),
            final(self).listed() == if old(self)@.contains(text@) {
                old(self).listed()
            } else {
                old(self).listed().push(text@)
            },
    {
        let mut set = TextSet::new();
        std::mem::swap(self, &mut set);
        *self = set.with(text);
    }

    /// Whether `text` is in the set.
    pub fn contains(&self, text: &str) -> (r: bool)
        ensures
            r == self@.contains(text@),
    {
        self.seen.contains(text)
    }

    /// How many texts are in the set.
    pub fn len(&self) -> (r: usize)
        ensures
            r == self@.len(),
            r == self.listed().len(),
            self@.finite(),
            self@ == self.listed().to_set(),
            self.listed().no_duplicates(),
    {
        proof {
            use_type_invariant(&self);
            texts(self.items@).unique_seq_to_set();
            vstd::seq_lib::seq_to_set_is_finite(texts(self.items@));
        }
        self.items.len()
    }

    /// Whether the set is empty.
    pub fn is_empty(&self) -> (r: bool)
        ensures
            r == (self@ == Set::<Seq<char>>::empty()),
    {
        let n = self.len();
        proof {
            if n > 0 {
                assert(self@.contains(self.listed()[0]));
            } else {
                assert(self@ == Set::<Seq<char>>::empty());
            }
        }
        n == 0
    }

    /// The text that was put in as the one numbered `i`, counted from zero.
    pub fn item(&self, i: usize) -> (r: &String)
        requires
            i < self.listed().len(),
        ensures
            r@ == self.listed()[i as int],
    {
        &self.items[i]
    }

    /// The texts that are in both sets.
    pub fn intersection(&self, other: &TextSet) -> (r: TextSet)
        ensures
            r@ == self@.intersect(other@),
    {
        let mut out = TextSet::new();
        let n = self.len();
        let mut i: usize = 0;
        let ghost list = self.listed();
        assert(list.take(0).to_set().intersect(other@) == Set::<Seq<char>>::empty());
        while i < n
            invariant
                i <= n == list.len(),
                list == self.listed(),
                out@ == list.take(i as int).to_set().intersect(other@),
            decreases n - i,
        {
            let item = self.item(i);
            if other.contains(item.as_str()) {
                out.insert(item.clone());
            }
            proof {
                lemma_take_to_set(list, i as int);
                assert(out@ == list.take(i + 1).to_set().intersect(other@));
            }
            i += 1;
        }
        assert(list.take(i as int) == list);
        out
    }
}

/// Taking one more item of a list adds that item to the set of those taken.
pub proof fn lemma_take_to_set(list: Seq<Seq<char>>, i: int)
    requires
        0 <= i < list.len(),
    ensures
        list.take(i + 1).to_set() == list.take(i).to_set().insert(list[i]),
{
    assert(list.take(i + 1) == list.take(i).push(list[i]));
    list.take(i).lemma_push_to_set_commute(list[i]);
}

/// The entries of `walk`, with `value` in the place of what stands under `key`.
pub open spec fn with_value<V>(
    walk: Seq<(Seq<char>, V)>,
    key: Seq<char>,
    value: V,
) -> Seq<(Seq<char>, V)> {
    walk.map_values(
        |e: (Seq<char>, V)|
            if e.0 == key {
                (key, value)
            } else {
                e
            },
    )
}

/// A table that keeps one value for each of its keys, which are texts.
pub struct TextMap<V> {
    entries: Vec<(String, V)>,
    places: StringHashMap<usize>,
}

impl<V> View for TextMap<V> {
    type V = Map<Seq<char>, V>;

    closed spec fn view(&self) -> Map<Seq<char>, V> {
        Map::new(
            |k: Seq<char>| self.places@.contains_key(k),
            |k: Seq<char>| self.entries@[self.places@[k] as int].1,
        )
    }
}

impl<V> TextMap<V> {
    /// The entries of the table, in the order their keys were first put in.
    pub closed spec fn walk(&self) -> Seq<(Seq<char>, V)> {
        self.entries@.map_values(|e: (String, V)| (e.0@, e.1))
    }

    /// Each entry is found under its key, and each key leads to its entry.
    #[verifier::type_invariant]
    spec fn valid(self) -> bool {
        &&& forall|i: int|
            0 <= i < self.entries@.len() ==> self.places@.contains_key(
                (#[trigger] self.entries@[i]).0@,
            ) && self.places@[self.entries@[i].0@] == i
        &&& forall|k: Seq<char>| #[trigger]
            self.places@.contains_key(k) ==> self.places@[k] < self.entries@.len()
                && self.entries@[self.places@[k] as int].0@ == k
    }

    /// An empty table.
    pub fn new() -> (r: TextMap<V>)
        ensures
            r@ == Map::<Seq<char>, V>::empty(),
            r.walk() == Seq::<(Seq<char>, V)>::empty(),
    {
        let r = TextMap { entries: Vec::new(), places: StringHashMap::new() };
        assert(r@ == Map::<Seq<char>, V>::empty());
        assert(r.walk() == Seq::<(Seq<char>, V)>::empty());
        r
    }

    /// The table with `value` under `key`.
    fn with(self, key: String, value: V) -> (r: TextMap<V>)
        ensures
            r@ == self@.insert(key@, value),
            r.walk() == if self@.contains_key(key@) {
                with_value(self.walk(), key@, value)
            } else {
                self.walk().push((key@, value))
            },
    {
        proof {
            use_type_invariant(&self);
        }
        let ghost before = self@;
        let ghost walk = self.walk();
        let TextMap { mut entries, mut places } = self;
        let found = places.get(key.as_str());
        match found {
            Some(place) => {
                let at: usize = *place;
                let ghost had = entries@;
                entries.set(at, (key, value));
                let r = TextMap { entries, places };
                assert(r@ == before.insert(key@, value));
                assert forall|i: int| 0 <= i < had.len() && i != at implies (
                #[trigger] had[i]).0@ != key@ by {
                    assert(places@[had[i].0@] == i);
                }
                assert(r.walk() == with_value(walk, key@, value));
                r
            },
            None => {
                let at: usize = entries.len();
                places.insert(key.clone(), at);
                entries.push((key, value));
                let r = TextMap { entries, places };
                assert(r@ == before.insert(key@, value));
                assert(r.walk() == walk.push((key@, value)));
                r
            },
        }
    }

    /// Puts `value` under `key`, in the place of what was there.
    pub fn insert(&mut self, key: String, value: V)
        ensures
            final(self)@ == old(self)@.insert(key@, value),
            final(self).walk() == if old(self)@.contains_key(key@) {
                with_value(old(self).walk(), key@, value)
            } else {
                old(self).walk().push((key@, value))
            },
    {
        let mut table = TextMap::new();
        std::mem::swap(self, &mut table);
        *self = table.with(key, value);
    }

    /// What is kept under `key`.
    pub fn get(&self, key: &str) -> (r: Option<&V>)
        ensures
            r == if self@.contains_key(key@) {
                Some(&self@[key@])
            } else {
                None
            },
    {
        proof {
            use_type_invariant(&self);
        }
        match self.places.get(key) {
            Some(place) => Some(&self.entries[*place].1),
            None => None,
        }
    }

    /// How many entries the table has.
    pub fn len(&self) -> (r: usize)
        ensures
            r == self.walk().len(),
            self.is_walk(self.walk()),
    {
        proof {
            use_type_invariant(&self);
            self.lemma_walk();
        }
        self.entries.len()
    }

    /// Whether `walk` lists the entries of the table, each once.
    pub open spec fn is_walk(&self, walk: Seq<(Seq<char>, V)>) -> bool {
        &&& forall|i: int|
            0 <= i < walk.len() ==> self@.contains_key((#[trigger] walk[i]).0) && self@[walk[i].0]
                == walk[i].1
        &&& forall|i: int, j: int|
            0 <= i < j < walk.len() ==> (#[trigger] walk[i]).0 != (#[trigger] walk[j]).0
        &&& forall|k: Seq<char>| #[trigger]
            self@.contains_key(k) ==> exists|i: int|
                0 <= i < walk.len() && #[trigger] walk[i] == (k, self@[k])
    }

    proof fn lemma_walk(&self)
        requires
            self.valid(),
        ensures
            self.is_walk(self.walk()),
    {
        let walk = self.walk();
        assert forall|i: int| 0 <= i < walk.len() implies self@.contains_key((#[trigger] walk[i]).0)
            && self@[walk[i].0] == walk[i].1 by {
            let e = self.entries@[i];
        }
        assert forall|i: int, j: int| 0 <= i < j < walk.len() implies (#[trigger] walk[i]).0 != (
        #[trigger] walk[j]).0 by {
            let e = self.entries@[i];
            let f = self.entries@[j];
        }
        assert forall|k: Seq<char>| #[trigger] self@.contains_key(k) implies exists|i: int|
            0 <= i < walk.len() && #[trigger] walk[i] == (k, self@[k]) by {
            let i = self.places@[k] as int;
            assert(walk[i] == (k, self@[k]));
        }
    }

    /// The key of the entry numbered `i`, counted from zero.
    pub fn key(&self, i: usize) -> (r: &String)
        requires
            i < self.walk().len(),
        ensures
            r@ == self.walk()[i as int].0,
    {
        &self.entries[i].0
    }

    /// The value of the entry numbered `i`, counted from zero.
    pub fn value(&self, i: usize) -> (r: &V)
        requires
            i < self.walk().len(),
        ensures
            *r == self.walk()[i as int].1,
    {
        &self.entries[i].1
    }
}

} // verus!
