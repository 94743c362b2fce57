use vstd::prelude::*;

verus! {

/// A store that gives each value it takes a new key, larger than every key
/// it gave before, and keeps its values in the order in which they came:
/// whatever goes through the store meets the values in that order, so
/// that a tick of the world comes out the same on every run. A hash map
/// would hand them out in an order of its own.
#[derive(Debug)]
pub struct Holder<T> {
    counter: usize,
    keys: Vec<usize>,
    values: Vec<T>,
}

impl<T> Holder<T> {
    /// The last key that was given out, or 1 if none was.
    pub closed spec fn counter(self) -> usize {
        self.counter
    }

    /// The keys of the values that the store holds, in the order of insertion.
    pub closed spec fn ids(self) -> Seq<usize> {
        self.keys@
    }

    /// The values that the store holds, each at the place of its key in `ids`.
    pub closed spec fn items(self) -> Seq<T> {
        self.values@
    }

    /// Every key has its value, the keys grow along the order, and none is
    /// above the counter. No key is 0 or 1.
    pub open spec fn wf(self) -> bool {
        &&& self.ids().len() == self.items().len()
        &&& 1 <= self.counter()
        &&& forall|i: int| 0 <= i < self.ids().len() ==> 1 < #[trigger] self.ids()[i] <= self.counter()
        &&& forall|i: int, j: int| 0 <= i < j < self.ids().len() ==> self.ids()[i] < self.ids()[j]
    }

    /// Whether the store holds a value under `key`.
    pub open spec fn contains(self, key: usize) -> bool {
        self.ids().contains(key)
    }

    /// The place of `key` in the order of insertion.
    pub open spec fn place(self, key: usize) -> int
        recommends
            self.contains(key),
    {
        self.ids().index_of(key)
    }

    /// The value under `key`.
    pub open spec fn value(self, key: usize) -> T
        recommends
            self.contains(key),
    {
        self.items()[self.place(key)]
    }

    /// In a well-formed store a key stands at one place only.
    pub proof fn lemma_place(self, i: int)
        requires
            self.wf(),
            0 <= i < self.ids().len(),
        ensures
            self.contains(self.ids()[i]),
            self.place(self.ids()[i]) == i,
            self.value(self.ids()[i]) == self.items()[i],
    {
        let key = self.ids()[i];
        assert(self.ids().contains(key));
        let j = self.ids().index_of(key);
        assert(0 <= j < self.ids().len() && self.ids()[j] == key);
        if j < i {
            assert(self.ids()[j] < self.ids()[i]);
        } else if i < j {
            assert(self.ids()[i] < self.ids()[j]);
        }
    }

    pub fn new() -> (h: Holder<T>)
        ensures
            h.wf(),
            h.counter() == 1,
            h.ids() == Seq::<usize>::empty(),
            h.items() == Seq::<T>::empty(),
    {
        Self { counter: 1, keys: Vec::new(), values: Vec::new() }
    }

    /// Takes `val` into the store and returns its key: one more than the
    /// last key given.
    pub fn insert(&mut self, val: T) -> (key: usize)
        requires
            old(self).wf(),
            old(self).counter() < usize::MAX,
        ensures
            final(self).wf(),
            key == old(self).counter() + 1,
            final(self).counter() == key,
            final(self).ids() == old(self).ids().push(key),
            final(self).items() == old(self).items().push(val),
            !old(self).contains(key),
    {
        self.counter += 1;
        self.keys.push(self.counter);
        self.values.push(val);
        proof {
            if old(self).contains(self.counter) {
                let j = old(self).ids().index_of(self.counter);
                assert(old(self).ids()[j] <= old(self).counter());
            }
        }
        self.counter
    }

    /// The place of `key` in the order of insertion, if the store holds it.
    pub fn position(&self, key: usize) -> (r: Option<usize>)
        requires
            self.wf(),
        ensures
            match r {
                Some(i) => self.contains(key) && i == self.place(key) && i < self.ids().len() && self.ids()[i as int]
                    == key,
                None => !self.contains(key),
            },
    {
        let mut i: usize = 0;
        while i < self.keys.len()
            invariant
                self.wf(),
                i <= self.keys@.len(),
                forall|j: int| 0 <= j < i ==> self.keys@[j] != key,
            decreases self.keys@.len() - i,
        {
            if self.keys[i] == key {
                proof {
                    self.lemma_place(i as int);
                }
                return Some(i);
            }
            i += 1;
        }
        None
    }

    /// Takes the value under `key` out of the store; the others keep their order.
    pub fn remove(&mut self, key: &usize) -> (r: Option<T>)
        requires
            old(self).wf(),
        ensures
            final(self).wf(),
            final(self).counter() == old(self).counter(),
            match r {
                Some(value) => {
                    &&& old(self).contains(*key)
                    &&& value == old(self).value(*key)
                    &&& final(self).ids() == old(self).ids().remove(old(self).place(*key))
                    &&& final(self).items() == old(self).items().remove(old(self).place(*key))
                },
                None => !old(self).contains(*key) && final(self).ids() == old(self).ids() && final(self).items()
                    == old(self).items(),
            },
            !final(self).contains(*key),
    {
        match self.position(*key) {
            Some(i) => {
                self.keys.remove(i);
                let value = self.values.remove(i);
                proof {
                    if self.contains(*key) {
                        let j = self.ids().index_of(*key);
                        assert(self.ids()[j] == *key);
                        if j < i {
                            assert(old(self).ids()[j] == *key);
                        } else {
                            assert(old(self).ids()[j + 1] == *key);
                        }
                    }
                }
                Some(value)
            },
            None => None,
        }
    }

    pub fn get(&self, key: &usize) -> (r: Option<&T>)
        requires
            self.wf(),
        ensures
            match r {
                Some(value) => self.contains(*key) && *value == self.value(*key),
                None => !self.contains(*key),
            },
    {
        match self.position(*key) {
            Some(i) => Some(&self.values[i]),
            None => None,
        }
    }

    /// The last key that was given out, or 1 if none was.
    pub fn last_key(&self) -> (key: usize)
        ensures
            key == self.counter(),
    {
        self.counter
    }

    /// The number of values in the store.
    pub fn len(&self) -> (n: usize)
        requires
            self.wf(),
        ensures
            n == self.ids().len(),
            n == self.items().len(),
    {
        self.keys.len()
    }

    pub fn contains_key(&self, key: &usize) -> (b: bool)
        requires
            self.wf(),
        ensures
            b == self.contains(*key),
    {
        self.position(*key).is_some()
    }

    /// The key at place `i` of the order of insertion.
    pub fn key_at(&self, i: usize) -> (key: usize)
        requires
            self.wf(),
            i < self.ids().len(),
        ensures
            key == self.ids()[i as int],
    {
        self.keys[i]
    }

    /// The value at place `i` of the order of insertion.
    pub fn value_at(&self, i: usize) -> (value: &T)
        requires
            self.wf(),
            i < self.ids().len(),
        ensures
            *value == self.items()[i as int],
    {
        &self.values[i]
    }

    /// The value at place `i`, to be changed where it stands.
    pub fn value_at_mut(&mut self, i: usize) -> (value: &mut T)
        requires
            old(self).wf(),
            i < old(self).ids().len(),
        ensures
            *value == old(self).items()[i as int],
            final(self).items() == old(self).items().update(i as int, *final(value)),
            final(self).ids() == old(self).ids(),
            final(self).counter() == old(self).counter(),
    {
        &mut self.values[i]
    }

    /// The value under `key`, to be changed where it stands.
    pub fn get_mut(&mut self, key: &usize) -> (r: Option<&mut T>)
        requires
            old(self).wf(),
        ensures
            final(self).ids() == old(self).ids(),
            final(self).counter() == old(self).counter(),
            match r {
                Some(value) => {
                    &&& old(self).contains(*key)
                    &&& *value == old(self).value(*key)
                    &&& final(self).items() == old(self).items().update(old(self).place(*key), *final(value))
                },
                None => !old(self).contains(*key) && final(self).items() == old(self).items(),
            },
    {
        match self.position(*key) {
            Some(i) => Some(&mut self.values[i]),
            None => None,
        }
    }

    /// The keys in the order of insertion.
    pub fn keys(&self) -> (r: Vec<usize>)
        requires
            self.wf(),
        ensures
            r@ == self.ids(),
    {
        let mut out: Vec<usize> = Vec::new();
        let mut i: usize = 0;
        while i < self.keys.len()
            invariant
                i <= self.keys@.len(),
                out@ == self.keys@.subrange(0, i as int),
            decreases self.keys@.len() - i,
        {
            out.push(self.keys[i]);
            assert(out@ =~= self.keys@.subrange(0, i + 1));
            i += 1;
        }
        assert(out@ =~= self.keys@);
        out
    }

    /// The values in the order of insertion.
    pub fn values(&self) -> (r: Vec<&T>)
        requires
            self.wf(),
        ensures
            r@.len() == self.items().len(),
            forall|i: int| 0 <= i < r@.len() ==> *r@[i] == self.items()[i],
    {
        let mut out: Vec<&T> = Vec::new();
        let mut i: usize = 0;
        while i < self.values.len()
            invariant
                i <= self.values@.len(),
                out@.len() == i,
                forall|j: int| 0 <= j < i ==> *out@[j] == self.values@[j],
            decreases self.values@.len() - i,
        {
            out.push(&self.values[i]);
            i += 1;
        }
        out
    }

    /// The keys with their values in the order of insertion.
    pub fn iter(&self) -> (r: Vec<(usize, &T)>)
        requires
            self.wf(),
        ensures
            r@.len() == self.items().len(),
            forall|i: int| 0 <= i < r@.len() ==> r@[i].0 == self.ids()[i] && *r@[i].1 == self.items()[i],
    {
        let mut out: Vec<(usize, &T)> = Vec::new();
        let mut i: usize = 0;
        while i < self.values.len()
            invariant
                self.wf(),
                i <= self.values@.len(),
                out@.len() == i,
                forall|j: int| 0 <= j < i ==> out@[j].0 == self.keys@[j] && *out@[j].1 == self.values@[j],
            decreases self.values@.len() - i,
        {
            out.push((self.keys[i], &self.values[i]));
            i += 1;
        }
        out
    }

    /// Empties the store. Keys given once are not given again.
    pub fn clear(&mut self)
        requires
            old(self).wf(),
        ensures
            final(self).wf(),
            final(self).counter() == old(self).counter(),
            final(self).ids() == Seq::<usize>::empty(),
            final(self).items() == Seq::<T>::empty(),
    {
        self.keys.clear();
        self.values.clear();
    }
}

} // verus!
