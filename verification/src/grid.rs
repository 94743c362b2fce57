use vstd::prelude::*;
use crate::pos::Pos;

verus! {

/// A rectangle of cells of a fixed size, each holding a value. Positions
/// run from `(0, 0)` to one below the size on each axis.
#[derive(Debug, Clone)]
pub struct Grid<T> {
    size: Pos,
    storage: Vec<T>,
}

/// A cell inside a rectangle has its own place in the row-major order.
pub proof fn lemma_cell_index(width: int, height: int, x: int, y: int)
    requires
        0 <= x < width,
        0 <= y < height,
    ensures
        0 <= y * width + x < width * height,
        (y * width + x) / width == y,
        (y * width + x) % width == x,
{
    assert(y * width + x < width * height) by (nonlinear_arith)
        requires
            0 <= x < width,
            0 <= y < height,
    ;
    assert(0 <= y * width) by (nonlinear_arith)
        requires
            0 <= y,
            0 < width,
    ;
    vstd::arithmetic::div_mod::lemma_fundamental_div_mod_converse(y * width + x, width, y, x);
}

impl<T: Copy> Grid<T> {
    /// The number of columns and of rows.
    pub closed spec fn spec_size(&self) -> Pos {
        self.size
    }

    /// The values of the cells, row after row.
    pub closed spec fn cells(self) -> Seq<T> {
        self.storage@
    }

    /// The grid holds one value for each cell of its size.
    pub open spec fn wf(self) -> bool {
        &&& 0 <= self.spec_size().x
        &&& 0 <= self.spec_size().y
        &&& self.cells().len() == self.spec_size().x * self.spec_size().y
    }

    /// Whether `pos` is a cell of the grid.
    pub open spec fn contains(self, pos: Pos) -> bool {
        0 <= pos.x < self.spec_size().x && 0 <= pos.y < self.spec_size().y
    }

    /// The place of `pos` in the row-major order.
    pub open spec fn index_of(self, pos: Pos) -> int {
        pos.y * self.spec_size().x + pos.x
    }

    /// The value at a cell of the grid.
    pub open spec fn at(self, pos: Pos) -> T
        recommends
            self.contains(pos),
    {
        self.cells()[self.index_of(pos)]
    }

    /// The value at `pos`, if `pos` is a cell of the grid.
    pub open spec fn lookup(self, pos: Pos) -> Option<T> {
        if self.contains(pos) {
            Some(self.at(pos))
        } else {
            None
        }
    }

    /// Two cells of the grid with the same place are the same cell.
    pub proof fn lemma_index_injective(self, a: Pos, b: Pos)
        requires
            self.wf(),
            self.contains(a),
            self.contains(b),
        ensures
            0 <= self.index_of(a) < self.cells().len(),
            self.index_of(a) == self.index_of(b) ==> a == b,
    {
        lemma_cell_index(self.spec_size().x as int, self.spec_size().y as int, a.x as int, a.y as int);
        lemma_cell_index(self.spec_size().x as int, self.spec_size().y as int, b.x as int, b.y as int);
    }

    /// A grid of the given size with `default` in every cell.
    pub fn new(size: Pos, default: T) -> (g: Grid<T>)
        requires
            0 <= size.x,
            0 <= size.y,
            size.x * size.y <= usize::MAX,
        ensures
            g.wf(),
            g.spec_size() == size,
            forall|i: int| 0 <= i < g.cells().len() ==> g.cells()[i] == default,
    {
        let mut storage: Vec<T> = Vec::new();
        let mut y: i64 = 0;
        while y < size.y
            invariant
                0 <= size.x,
                0 <= y <= size.y,
                size.x * size.y <= usize::MAX,
                storage@.len() == y * size.x,
                forall|i: int| 0 <= i < storage@.len() ==> storage@[i] == default,
            decreases size.y - y,
        {
            let mut x: i64 = 0;
            while x < size.x
                invariant
                    0 <= x <= size.x,
                    0 <= y < size.y,
                    size.x * size.y <= usize::MAX,
                    storage@.len() == y * size.x + x,
                    forall|i: int| 0 <= i < storage@.len() ==> storage@[i] == default,
                decreases size.x - x,
            {
                storage.push(default);
                x += 1;
            }
            assert((y + 1) * size.x == y * size.x + size.x) by (nonlinear_arith);
            y += 1;
        }
        assert(size.y * size.x == size.x * size.y) by (nonlinear_arith);
        Grid { size, storage }
    }

    /// A grid with the same size and the same values.
    pub fn copy(&self) -> (g: Grid<T>)
        requires
            self.wf(),
        ensures
            g.wf(),
            g.spec_size() == self.spec_size(),
            g.cells() == self.cells(),
    {
        let mut storage: Vec<T> = Vec::new();
        let mut i: usize = 0;
        while i < self.storage.len()
            invariant
                i <= self.storage@.len(),
                storage@ == self.storage@.subrange(0, i as int),
            decreases self.storage@.len() - i,
        {
            storage.push(self.storage[i]);
            assert(storage@ =~= self.storage@.subrange(0, i + 1));
            i += 1;
        }
        assert(storage@ =~= self.storage@);
        Grid { size: self.size, storage }
    }

    /// The cells of a grid can be counted in `usize`.
    pub proof fn lemma_cells_fit(self)
        requires
            self.wf(),
        ensures
            self.spec_size().x * self.spec_size().y <= usize::MAX,
    {
        vstd::std_specs::vec::axiom_spec_len(&self.storage);
        assert(self.storage.len() <= usize::MAX);
    }

    /// The grid without cells.
    pub fn empty() -> (g: Grid<T>)
        ensures
            g.wf(),
            g.spec_size() == (Pos { x: 0, y: 0 }),
    {
        Grid { size: Pos::new(0, 0), storage: Vec::new() }
    }

    #[verifier::when_used_as_spec(spec_size)]
    pub fn size(&self) -> (s: Pos)
        ensures
            s == self.spec_size(),
    {
        self.size
    }

    /// Whether `pos` is a cell of the grid.
    pub fn holds(&self, pos: Pos) -> (b: bool)
        ensures
            b == self.contains(pos),
    {
        0 <= pos.x && pos.x < self.size.x && 0 <= pos.y && pos.y < self.size.y
    }

    fn offset(&self, pos: Pos) -> (i: usize)
        requires
            self.wf(),
            self.contains(pos),
        ensures
            i == self.index_of(pos),
            i < self.cells().len(),
    {
        let n = self.storage.len();
        proof {
            assert(self.size.x * self.size.y == n);
            lemma_cell_index(self.size.x as int, self.size.y as int, pos.x as int, pos.y as int);
            assert(pos.y * self.size.x <= pos.y * self.size.x + pos.x);
            assert(0 <= pos.y * self.size.x) by (nonlinear_arith)
                requires
                    0 <= pos.y,
                    0 <= self.size.x,
            ;
            assert(self.size.x <= self.size.x * self.size.y) by (nonlinear_arith)
                requires
                    0 <= self.size.x,
                    1 <= self.size.y,
            ;
            assert(self.size.y <= self.size.x * self.size.y) by (nonlinear_arith)
                requires
                    0 <= self.size.y,
                    1 <= self.size.x,
            ;
        }
        let width = self.size.x as usize;
        let x = pos.x as usize;
        let y = pos.y as usize;
        y * width + x
    }

    /// The value at `pos`, or nothing where `pos` lies outside the grid.
    pub fn get(&self, pos: Pos) -> (r: Option<&T>)
        requires
            self.wf(),
        ensures
            match r {
                Some(value) => self.lookup(pos) == Some(*value),
                None => self.lookup(pos) is None,
            },
    {
        if self.holds(pos) {
            let i = self.offset(pos);
            Some(&self.storage[i])
        } else {
            None
        }
    }

    /// The value at a cell of the grid.
    pub fn get_unchecked(&self, pos: Pos) -> (r: &T)
        requires
            self.wf(),
            self.contains(pos),
        ensures
            *r == self.at(pos),
    {
        let i = self.offset(pos);
        &self.storage[i]
    }

    /// Puts `value` into a cell of the grid.
    pub fn set_unchecked(&mut self, pos: Pos, value: T)
        requires
            old(self).wf(),
            old(self).contains(pos),
        ensures
            final(self).wf(),
            final(self).spec_size() == old(self).spec_size(),
            final(self).cells() == old(self).cells().update(old(self).index_of(pos), value),
            final(self).at(pos) == value,
            forall|p: Pos| old(self).contains(p) && p != pos ==> final(self).at(p) == old(self).at(p),
    {
        let i = self.offset(pos);
        self.storage.set(i, value);
        proof {
            assert forall|p: Pos| old(self).contains(p) && p != pos implies self.at(p) == old(self).at(p) by {
                old(self).lemma_index_injective(p, pos);
            }
        }
    }

    /// Puts `value` into the cell at `pos` and says whether there is such a
    /// cell; outside the grid nothing changes.
    pub fn set(&mut self, pos: Pos, value: T) -> (inside: bool)
        requires
            old(self).wf(),
        ensures
            final(self).wf(),
            final(self).spec_size() == old(self).spec_size(),
            inside == old(self).contains(pos),
            inside ==> final(self).cells() == old(self).cells().update(old(self).index_of(pos), value),
            inside ==> final(self).at(pos) == value,
            inside ==> forall|p: Pos| old(self).contains(p) && p != pos ==> final(self).at(p) == old(self).at(p),
            !inside ==> final(self).cells() == old(self).cells(),
    {
        if self.holds(pos) {
            self.set_unchecked(pos, value);
            true
        } else {
            false
        }
    }
}

} // verus!
