use vstd::prelude::*;
use crate::pos::Pos;

verus! {

/// A map from positions to values that remembers the order in which its
/// positions were first entered, and hands them out in that order, where
/// a hash map would have an order of its own.
#[derive(Debug)]
pub struct PosMap<T> {
    cells: Vec<Pos>,
    values: Vec<T>,
}

impl<T> PosMap<T> {
    /// The positions that have a value, in the order in which they came.
    pub closed spec fn keys(self) -> Seq<Pos> {
        self.cells@
    }

    /// The values, each at the place of its position in `keys`.
    pub closed spec fn vals(self) -> Seq<T> {
        self.values@
    }

    /// Every position has its value and stands once.
    pub open spec fn wf(self) -> bool {
        &&& self.keys().len() == self.vals().len()
        &&& forall|i: int, j: int| 0 <= i < j < self.keys().len() ==> self.keys()[i] != self.keys()[j]
    }

    pub open spec fn contains(self, pos: Pos) -> bool {
        self.keys().contains(pos)
    }

    /// The value at `pos`, if it has one.
    pub open spec fn lookup(self, pos: Pos) -> Option<T> {
        if self.contains(pos) {
            Some(self.vals()[self.keys().index_of(pos)])
        } else {
            None
        }
    }

    /// The map as a mathematical map.
    pub open spec fn to_map(self) -> Map<Pos, T> {
        Map::new(|p: Pos| self.contains(p), |p: Pos| self.lookup(p).unwrap())
    }

    /// In a well-formed map a position stands at one place only.
    pub proof fn lemma_place(self, i: int)
        requires
            self.wf(),
            0 <= i < self.keys().len(),
        ensures
            self.contains(self.keys()[i]),
            self.keys().index_of(self.keys()[i]) == i,
            self.lookup(self.keys()[i]) == Some(self.vals()[i]),
    {
        let pos = self.keys()[i];
        assert(self.keys().contains(pos));
        let j = self.keys().index_of(pos);
        assert(0 <= j < self.keys().len() && self.keys()[j] == pos);
    }

    pub fn new() -> (m: PosMap<T>)
        ensures
            m.wf(),
            m.keys() == Seq::<Pos>::empty(),
            m.vals() == Seq::<T>::empty(),
            forall|p: Pos| m.lookup(p) is None,
    {
        PosMap { cells: Vec::new(), values: Vec::new() }
    }

    pub fn len(&self) -> (n: usize)
        requires
            self.wf(),
        ensures
            n == self.keys().len(),
    {
        self.cells.len()
    }

    /// The place of `pos` among the positions, if it has a value.
    pub fn position(&self, pos: Pos) -> (r: Option<usize>)
        requires
            self.wf(),
        ensures
            match r {
                Some(i) => self.contains(pos) && i == self.keys().index_of(pos) && i < self.keys().len()
                    && self.keys()[i as int] == pos,
                None => !self.contains(pos),
            },
    {
        let mut i: usize = 0;
        while i < self.cells.len()
            invariant
                self.wf(),
                i <= self.cells@.len(),
                forall|j: int| 0 <= j < i ==> self.cells@[j] != pos,
            decreases self.cells@.len() - i,
        {
            if self.cells[i] == pos {
                proof {
                    self.lemma_place(i as int);
                }
                return Some(i);
            }
            i += 1;
        }
        None
    }

    pub fn contains_key(&self, pos: Pos) -> (b: bool)
        requires
            self.wf(),
        ensures
            b == self.contains(pos),
    {
        self.position(pos).is_some()
    }

    pub fn get(&self, pos: Pos) -> (r: Option<&T>)
        requires
            self.wf(),
        ensures
            match r {
                Some(value) => self.lookup(pos) == Some(*value),
                None => self.lookup(pos) is None,
            },
    {
        match self.position(pos) {
            Some(i) => Some(&self.values[i]),
            None => None,
        }
    }

    /// The value at `pos`, to be changed where it stands.
    pub fn get_mut(&mut self, pos: Pos) -> (r: Option<&mut T>)
        requires
            old(self).wf(),
        ensures
            final(self).keys() == old(self).keys(),
            match r {
                Some(value) => {
                    &&& old(self).lookup(pos) == Some(*value)
                    &&& final(self).vals() == old(self).vals().update(old(self).keys().index_of(pos), *final(value))
                },
                None => old(self).lookup(pos) is None && final(self).vals() == old(self).vals(),
            },
    {
        match self.position(pos) {
            Some(i) => Some(&mut self.values[i]),
            None => None,
        }
    }

    /// Gives `pos` the value `value`, in place of the one it had, if any.
    pub fn insert(&mut self, pos: Pos, value: T)
        requires
            old(self).wf(),
        ensures
            final(self).wf(),
            final(self).lookup(pos) == Some(value),
            forall|p: Pos| p != pos ==> final(self).lookup(p) == old(self).lookup(p),
            old(self).contains(pos) ==> final(self).keys() == old(self).keys() && final(self).vals() == old(self).vals().update(old(self).keys().index_of(pos), value),
            !old(self).contains(pos) ==> final(self).keys() == old(self).keys().push(pos) && final(self).vals()
                == old(self).vals().push(value),
            final(self).to_map() == old(self).to_map().insert(pos, value),
    {
        match self.position(pos) {
            Some(i) => {
                self.values.set(i, value);
                proof {
                    self.lemma_place(i as int);
                    assert forall|p: Pos| p != pos implies self.lookup(p) == old(self).lookup(p) by {
                        if old(self).contains(p) {
                            let j = old(self).keys().index_of(p);
                            assert(old(self).keys()[j] == p);
                            assert(j != i);
                        }
                    }
                }
            },
            None => {
                self.cells.push(pos);
                self.values.push(value);
                proof {
                    let n = old(self).keys().len() as int;
                    assert(self.keys()[n] == pos);
                    self.lemma_place(n);
                    assert forall|p: Pos| p != pos implies self.lookup(p) == old(self).lookup(p) by {
                        if old(self).contains(p) {
                            let j = old(self).keys().index_of(p);
                            assert(old(self).keys()[j] == p);
                            assert(self.keys()[j] == p);
                            self.lemma_place(j);
                        } else if self.contains(p) {
                            let j = self.keys().index_of(p);
                            assert(self.keys()[j] == p);
                            assert(j < n);
                            assert(old(self).keys()[j] == p);
                        }
                    }
                }
            },
        }
        proof {
            assert(self.to_map() =~= old(self).to_map().insert(pos, value)) by {
                assert forall|p: Pos| self.to_map().dom().contains(p) == old(self).to_map().insert(pos, value).dom().contains(p) by {
                    if p != pos {
                        assert(self.lookup(p) == old(self).lookup(p));
                    }
                }
                assert forall|p: Pos| self.to_map().dom().contains(p) implies self.to_map()[p] == old(self).to_map().insert(pos, value)[p] by {
                    if p != pos {
                        assert(self.lookup(p) == old(self).lookup(p));
                    }
                }
            }
        }
    }

    /// Takes the value at `pos` away, if it has one.
    pub fn remove(&mut self, pos: Pos) -> (r: Option<T>)
        requires
            old(self).wf(),
        ensures
            final(self).wf(),
            r == old(self).lookup(pos),
            final(self).lookup(pos) is None,
            forall|p: Pos| p != pos ==> final(self).lookup(p) == old(self).lookup(p),
            final(self).keys().len() == old(self).keys().len() - (if old(self).contains(pos) {
                1int
            } else {
                0int
            }),
    {
        match self.position(pos) {
            Some(i) => {
                self.cells.remove(i);
                let value = self.values.remove(i);
                proof {
                    if self.contains(pos) {
                        let j = self.keys().index_of(pos);
                        assert(self.keys()[j] == pos);
                        if j < i {
                            assert(old(self).keys()[j] == pos);
                        } else {
                            assert(old(self).keys()[j + 1] == pos);
                        }
                    }
                    assert forall|p: Pos| p != pos implies self.lookup(p) == old(self).lookup(p) by {
                        if old(self).contains(p) {
                            let j = old(self).keys().index_of(p);
                            assert(old(self).keys()[j] == p);
                            if j < i {
                                assert(self.keys()[j] == p);
                                self.lemma_place(j);
                            } else {
                                assert(self.keys()[j - 1] == p);
                                self.lemma_place(j - 1);
                            }
                        } else if self.contains(p) {
                            let j = self.keys().index_of(p);
                            assert(self.keys()[j] == p);
                            if j < i {
                                assert(old(self).keys()[j] == p);
                            } else {
                                assert(old(self).keys()[j + 1] == p);
                            }
                        }
                    }
                }
                Some(value)
            },
            None => None,
        }
    }

    /// The position at place `i`.
    pub fn key_at(&self, i: usize) -> (pos: Pos)
        requires
            self.wf(),
            i < self.keys().len(),
        ensures
            pos == self.keys()[i as int],
    {
        self.cells[i]
    }

    /// The value at place `i`.
    pub fn value_at(&self, i: usize) -> (value: &T)
        requires
            self.wf(),
            i < self.keys().len(),
        ensures
            *value == self.vals()[i as int],
    {
        &self.values[i]
    }

    /// Empties the map.
    pub fn clear(&mut self)
        ensures
            final(self).wf(),
            final(self).keys() == Seq::<Pos>::empty(),
            final(self).vals() == Seq::<T>::empty(),
            forall|p: Pos| final(self).lookup(p) is None,
    {
        self.cells.clear();
        self.values.clear();
    }
}

} // verus!
