//! A bounded cache: values are generated on a miss, and when the cache is
//! full the least recently touched entry is disposed of to make room.
use vstd::prelude::*;

verus! {

/// The keys of the entries, in order.
pub open spec fn keys_of<T>(entries: Seq<(Seq<char>, T)>) -> Seq<Seq<char>> {
    entries.map_values(|e: (Seq<char>, T)| e.0)
}

/// No key occurs twice.
pub open spec fn unique_keys<T>(entries: Seq<(Seq<char>, T)>) -> bool {
    forall|i: int, j: int|
        0 <= i < entries.len() && 0 <= j < entries.len() && i != j
            ==> #[trigger] entries[i].0 != #[trigger] entries[j].0
}

/// The key occurs in the entries.
pub open spec fn has_key<T>(entries: Seq<(Seq<char>, T)>, key: Seq<char>) -> bool {
    exists|i: int| 0 <= i < entries.len() && #[trigger] entries[i].0 == key
}

/// The entries after a hit on the entry at `i`: it becomes the most recent.
pub open spec fn touched<T>(entries: Seq<(Seq<char>, T)>, i: int) -> Seq<(Seq<char>, T)> {
    entries.remove(i).push(entries[i])
}

/// The entries after a fresh value is stored under `key`: when the cache is
/// full, the least recent entry, the first, leaves; the new one is the most
/// recent.
pub open spec fn admitted<T>(entries: Seq<(Seq<char>, T)>, capacity: nat, key: Seq<char>, value: T) -> Seq<(Seq<char>, T)> {
    let kept = if entries.len() >= capacity { entries.drop_first() } else { entries };
    kept.push((key, value))
}

/// A hit keeps the number of entries, keeps the keys distinct, and keeps the
/// key held, so every later `get` of that key is a hit again and asks
/// `generate` for nothing.
pub proof fn lemma_hit_stays_hit<T>(entries: Seq<(Seq<char>, T)>, i: int)
    requires
        unique_keys(entries),
        0 <= i < entries.len(),
    ensures
        touched(entries, i).len() == entries.len(),
        unique_keys(touched(entries, i)),
        has_key(touched(entries, i), entries[i].0),
        touched(entries, i).last() == entries[i],
{
    let t = touched(entries, i);
    let n = entries.len();
    assert(t[n - 1] == entries[i]);
    assert forall|a: int, b: int| 0 <= a < t.len() && 0 <= b < t.len() && a != b implies #[trigger] t[a].0 != #[trigger] t[b].0 by {
        let oa = if a == n - 1 { i } else if a < i { a } else { a + 1 };
        let ob = if b == n - 1 { i } else if b < i { b } else { b + 1 };
        assert(t[a] == entries[oa]);
        assert(t[b] == entries[ob]);
    }
}

/// A value stored under a key that was not held leaves that key held, as the
/// most recent entry, so the next `get` of it is a hit.
pub proof fn lemma_stored_key_is_held<T>(entries: Seq<(Seq<char>, T)>, capacity: nat, key: Seq<char>, value: T)
    ensures
        has_key(admitted(entries, capacity, key, value), key),
        admitted(entries, capacity, key, value).last() == (key, value),
{
    let a = admitted(entries, capacity, key, value);
    assert(a[a.len() - 1].0 == key);
}

/// The value behind an optional reference.
pub open spec fn value_behind<T>(r: Option<&T>) -> Option<T> {
    match r {
        Some(v) => Some(*v),
        None => None,
    }
}

/// Cache of values identified by string keys, at most `capacity` of them.
/// On a miss `generate` is asked for the value; an entry that leaves to make
/// room is handed, key and value, to `dispose`. `extra` is handed to both.
pub struct Cache<T, Extra, G, D> {
    extra: Extra,
    max_size: usize,
    cache: Vec<(String, T)>,
    generate: G,
    dispose: D,
}

impl<T, Extra, G, D> Cache<T, Extra, G, D> where
    G: Fn(&Extra, &str) -> Option<T>,
    D: Fn(&Extra, &str, T),
 {
    /// The entries, key and value, from the least to the most recently
    /// touched.
    pub closed spec fn entries(&self) -> Seq<(Seq<char>, T)> {
        self.cache@.map_values(|e: (String, T)| (e.0@, e.1))
    }

    pub closed spec fn spec_capacity(&self) -> nat {
        self.max_size as nat
    }

    pub closed spec fn spec_extra(&self) -> Extra {
        self.extra
    }

    pub closed spec fn spec_generate(&self) -> G {
        self.generate
    }

    pub closed spec fn spec_dispose(&self) -> D {
        self.dispose
    }

    /// The cache's invariant.
    pub closed spec fn wf(&self) -> bool {
        &&& self.max_size > 0
        &&& self.cache@.len() <= self.max_size
        &&& unique_keys(self.entries())
        &&& forall|e: &Extra, k: &str| #[trigger] self.generate.requires((e, k))
        &&& forall|e: &Extra, k: &str, v: T| #[trigger] self.dispose.requires((e, k, v))
    }

    /// A well-formed cache holds no key twice and no more entries than its
    /// capacity.
    pub proof fn lemma_wf_bounds(&self)
        requires
            self.wf(),
        ensures
            unique_keys(self.entries()),
            self.entries().len() <= self.spec_capacity(),
            self.spec_capacity() > 0,
    {
    }

    /// `dispose` was called on the least recently touched entry, with
    /// `extra`, its key and its value.
    pub open spec fn disposed_first(&self) -> bool {
        exists|k: &str| {
            &&& k@ == self.entries()[0].0
            &&& #[trigger] call_ensures(self.spec_dispose(), (&self.spec_extra(), k, self.entries()[0].1), ())
        }
    }

    /// An empty cache that holds at most `max_size` entries.
    pub fn new(max_size: usize, gen: G, dis: D, extra: Extra) -> (r: Self)
        requires
            max_size > 0,
            forall|e: &Extra, k: &str| #[trigger] gen.requires((e, k)),
            forall|e: &Extra, k: &str, v: T| #[trigger] dis.requires((e, k, v)),
        ensures
            r.wf(),
            r.entries().len() == 0,
            unique_keys(r.entries()),
            r.spec_capacity() == max_size,
            r.spec_extra() == extra,
            r.spec_generate() == gen,
            r.spec_dispose() == dis,
    {
        let r = Cache { extra, max_size, cache: Vec::new(), generate: gen, dispose: dis };
        proof {
            assert(r.entries() =~= Seq::empty());
        }
        r
    }

    /// The most entries the cache holds at a time.
    pub fn capacity(&self) -> (r: usize)
        ensures
            r == self.spec_capacity(),
    {
        self.max_size
    }

    /// The number of entries held.
    pub fn len(&self) -> (r: usize)
        ensures
            r == self.entries().len(),
    {
        self.cache.len()
    }

    /// The position of the entry with the given key.
    fn position(&self, id: &str) -> (r: Option<usize>)
        ensures
            match r {
                Some(i) => i < self.entries().len() && self.entries()[i as int].0 == id@,
                None => !has_key(self.entries(), id@),
            },
    {
        let key = id.to_owned();
        let mut i: usize = 0;
        while i < self.cache.len()
            invariant
                key@ == id@,
                0 <= i <= self.cache@.len(),
                forall|j: int| 0 <= j < i ==> #[trigger] self.entries()[j].0 != id@,
            decreases self.cache@.len() - i,
        {
            if self.cache[i].0 == key {
                return Some(i);
            }
            i = i + 1;
        }
        None
    }

    /// Makes the entry at `pos` the most recently touched and returns its
    /// value.
    fn touch(&mut self, pos: usize) -> (r: &T)
        requires
            old(self).wf(),
            pos < old(self).entries().len(),
        ensures
            final(self).wf(),
            final(self).entries() == touched(old(self).entries(), pos as int),
            *r == old(self).entries()[pos as int].1,
            final(self).spec_capacity() == old(self).spec_capacity(),
            final(self).spec_extra() == old(self).spec_extra(),
            final(self).spec_generate() == old(self).spec_generate(),
            final(self).spec_dispose() == old(self).spec_dispose(),
    {
        let ghost old_entries = self.entries();
        let entry = self.cache.remove(pos);
        self.cache.push(entry);
        proof {
            assert(self.entries() =~= touched(old_entries, pos as int));
            let e = self.entries();
            let n = e.len() as int;
            assert forall|i: int, j: int|
                0 <= i < e.len() && 0 <= j < e.len() && i != j implies #[trigger] e[i].0 != #[trigger] e[j].0 by {
                let oi = if i == n - 1 { pos as int } else if i < pos { i } else { i + 1 };
                let oj = if j == n - 1 { pos as int } else if j < pos { j } else { j + 1 };
                assert(e[i] == old_entries[oi]);
                assert(e[j] == old_entries[oj]);
            }
        }
        let last = self.cache.len() - 1;
        &self.cache[last].1
    }

    /// Stores what `generate` gave for a key that the cache does not hold.
    /// Nothing comes of `None`. A value is stored as the most recent entry;
    /// when the cache is full, the least recent entry is first handed to
    /// `dispose` and removed.
    pub fn insert_generated(&mut self, id: &str, generated: Option<T>) -> (r: Option<&T>)
        requires
            old(self).wf(),
            !has_key(old(self).entries(), id@),
        ensures
            final(self).wf(),
            unique_keys(final(self).entries()),
            final(self).spec_capacity() == old(self).spec_capacity(),
            final(self).spec_extra() == old(self).spec_extra(),
            final(self).spec_generate() == old(self).spec_generate(),
            final(self).spec_dispose() == old(self).spec_dispose(),
            match generated {
                None => {
                    &&& r is None
                    &&& final(self).entries() == old(self).entries()
                },
                Some(v) => {
                    &&& r is Some
                    &&& *r->0 == v
                    &&& final(self).entries() == admitted(old(self).entries(), old(self).spec_capacity(), id@, v)
                    &&& old(self).entries().len() >= old(self).spec_capacity() ==> old(self).disposed_first()
                },
            },
    {
        let value = match generated {
            None => return None,
            Some(v) => v,
        };
        let ghost old_entries = self.entries();
        if self.cache.len() >= self.max_size {
            let ghost before = *self;
            let (key, evicted) = self.cache.remove(0);
            let k = key.as_str();
            (self.dispose)(&self.extra, k, evicted);
            proof {
                assert(before.entries()[0] == (key@, evicted));
                assert(call_ensures(self.dispose, (&self.extra, k, evicted), ()));
                assert(k@ == before.entries()[0].0);
                assert(call_ensures(before.spec_dispose(), (&before.spec_extra(), k, before.entries()[0].1), ()));
                assert(before.disposed_first());
                assert(self.entries() =~= old_entries.drop_first());
            }
        }
        self.cache.push((id.to_owned(), value));
        proof {
            let e = self.entries();
            assert(e =~= admitted(old_entries, self.max_size as nat, id@, value));
            let kept = e.drop_last();
            assert forall|i: int, j: int|
                0 <= i < e.len() && 0 <= j < e.len() && i != j implies #[trigger] e[i].0 != #[trigger] e[j].0 by {
                let d: int = if old_entries.len() >= self.max_size { 1 } else { 0 };
                if i < e.len() - 1 {
                    assert(e[i] == old_entries[i + d]);
                }
                if j < e.len() - 1 {
                    assert(e[j] == old_entries[j + d]);
                }
            }
        }
        let last = self.cache.len() - 1;
        Some(&self.cache[last].1)
    }

    /// The value under `id`. On a hit the entry becomes the most recently
    /// touched and `generate` is not asked. On a miss `generate` is asked;
    /// when it gives nothing, neither does this and the cache is unchanged,
    /// otherwise the value is stored as `insert_generated` does.
    pub fn get(&mut self, id: &str) -> (r: Option<&T>)
        requires
            old(self).wf(),
        ensures
            final(self).wf(),
            unique_keys(final(self).entries()),
            final(self).spec_capacity() == old(self).spec_capacity(),
            final(self).spec_extra() == old(self).spec_extra(),
            final(self).spec_generate() == old(self).spec_generate(),
            final(self).spec_dispose() == old(self).spec_dispose(),
            final(self).entries().len() <= final(self).spec_capacity(),
            has_key(old(self).entries(), id@) ==> exists|i: int| {
                &&& 0 <= i < old(self).entries().len()
                &&& #[trigger] old(self).entries()[i].0 == id@
                &&& r == Some(&old(self).entries()[i].1)
                &&& final(self).entries() == touched(old(self).entries(), i)
            },
            !has_key(old(self).entries(), id@) ==> {
                &&& old(self).spec_generate().ensures((&old(self).spec_extra(), id), value_behind(r))
                &&& r is None ==> final(self).entries() == old(self).entries()
                &&& r is Some ==> final(self).entries() == admitted(old(self).entries(), old(self).spec_capacity(), id@, *r->0)
                &&& r is Some && old(self).entries().len() >= old(self).spec_capacity() ==> old(self).disposed_first()
            },
    {
        match self.position(id) {
            Some(pos) => {
                let ghost old_entries = self.entries();
                let r = self.touch(pos);
                proof {
                    assert(old_entries[pos as int].0 == id@);
                }
                Some(r)
            },
            None => {
                let generated = (self.generate)(&self.extra, id);
                self.insert_generated(id, generated)
            },
        }
    }
}

} // verus!
