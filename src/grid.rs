use vstd::prelude::*;

verus! {

/// A dense `rows` by `cols` grid of values, stored row by row. Matrices of any element
/// type are built on it: it holds their shape and moves their entries around.
#[derive(Debug)]
pub struct Grid<T> {
    pub rows: usize,
    pub cols: usize,
    pub data: Vec<Vec<T>>,
}

impl<T: Copy> Grid<T> {
    /// Whether `data` holds `rows` rows of `cols` entries each.
    pub open spec fn wf(&self) -> bool {
        &&& self.data@.len() == self.rows
        &&& forall|r: int| 0 <= r < self.rows ==> (#[trigger] self.data@[r])@.len() == self.cols
    }

    /// The entry in row `r`, column `c`.
    pub open spec fn at(&self, r: int, c: int) -> T {
        self.data@[r]@[c]
    }

    /// The entry in row `r`, column `c`.
    pub fn get(&self, r: usize, c: usize) -> (v: T)
        requires
            self.wf(),
            r < self.rows,
            c < self.cols,
        ensures
            v == self.at(r as int, c as int),
    {
        self.data[r][c]
    }

    /// Sets the entry in row `r`, column `c` to `v`.
    pub fn set(&mut self, r: usize, c: usize, v: T)
        requires
            old(self).wf(),
            r < old(self).rows,
            c < old(self).cols,
        ensures
            final(self).wf(),
            final(self).rows == old(self).rows,
            final(self).cols == old(self).cols,
            forall|i: int, j: int|
                0 <= i < old(self).rows && 0 <= j < old(self).cols ==> #[trigger] final(self).at(i, j)
                    == if i == r && j == c {
                    v
                } else {
                    old(self).at(i, j)
                },
    {
        let mut row = self.data.remove(r);
        row.set(c, v);
        self.data.insert(r, row);
        assert forall|i: int| 0 <= i < self.rows implies (#[trigger] self.data@[i])@.len()
            == self.cols by {
            if i != r {
                assert(self.data@[i] == old(self).data@[i]);
            }
        }
    }
}

impl<T: Copy> Grid<T> {
    /// A `rows` by `cols` grid with every entry `value`.
    pub fn filled(rows: usize, cols: usize, value: T) -> (g: Grid<T>)
        ensures
            g.wf(),
            g.rows == rows,
            g.cols == cols,
            forall|i: int, j: int| 0 <= i < rows && 0 <= j < cols ==> #[trigger] g.at(i, j) == value,
    {
        let mut data: Vec<Vec<T>> = Vec::new();
        let mut i: usize = 0;
        while i < rows
            invariant
                i <= rows,
                data@.len() == i,
                forall|k: int| 0 <= k < i ==> (#[trigger] data@[k])@.len() == cols,
                forall|k: int, j: int| 0 <= k < i && 0 <= j < cols ==> #[trigger] data@[k]@[j] == value,
            decreases rows - i,
        {
            let mut row: Vec<T> = Vec::new();
            let mut j: usize = 0;
            while j < cols
                invariant
                    j <= cols,
                    row@.len() == j,
                    forall|m: int| 0 <= m < j ==> #[trigger] row@[m] == value,
                decreases cols - j,
            {
                row.push(value);
                j += 1;
            }
            data.push(row);
            i += 1;
        }
        Grid { rows, cols, data }
    }

    /// The `dim` by `dim` identity: `one` on the diagonal, `zero` elsewhere.
    pub fn identity(dim: usize, zero: T, one: T) -> (g: Grid<T>)
        ensures
            g.wf(),
            g.rows == dim,
            g.cols == dim,
            forall|i: int, j: int|
                0 <= i < dim && 0 <= j < dim ==> #[trigger] g.at(i, j) == if i == j {
                    one
                } else {
                    zero
                },
    {
        let mut data: Vec<Vec<T>> = Vec::new();
        let mut i: usize = 0;
        while i < dim
            invariant
                i <= dim,
                data@.len() == i,
                forall|k: int| 0 <= k < i ==> (#[trigger] data@[k])@.len() == dim,
                forall|k: int, j: int|
                    0 <= k < i && 0 <= j < dim ==> #[trigger] data@[k]@[j] == if k == j {
                        one
                    } else {
                        zero
                    },
            decreases dim - i,
        {
            let mut row: Vec<T> = Vec::new();
            let mut j: usize = 0;
            while j < dim
                invariant
                    j <= dim,
                    row@.len() == j,
                    forall|m: int| 0 <= m < j ==> #[trigger] row@[m] == if i == m {
                        one
                    } else {
                        zero
                    },
                decreases dim - j,
            {
                if i == j {
                    row.push(one);
                } else {
                    row.push(zero);
                }
                j += 1;
            }
            data.push(row);
            i += 1;
        }
        Grid { rows: dim, cols: dim, data }
    }

    /// The grid whose rows are `source`, where there is at least one row and every row
    /// has as many entries as the first; `None` otherwise.
    pub fn from_rows(source: &Vec<Vec<T>>) -> (g: Option<Grid<T>>)
        ensures
            g is Some <==> source@.len() > 0 && forall|r: int|
                0 <= r < source@.len() ==> (#[trigger] source@[r])@.len() == source@[0]@.len(),
            g matches Some(g) ==> {
                &&& g.wf()
                &&& g.rows == source@.len()
                &&& g.cols == source@[0]@.len()
                &&& forall|i: int, j: int|
                    0 <= i < g.rows && 0 <= j < g.cols ==> #[trigger] g.at(i, j) == source@[i]@[j]
            },
    {
        if source.len() == 0 {
            return None;
        }
        let rows = source.len();
        let cols = source[0].len();
        let mut data: Vec<Vec<T>> = Vec::new();
        let mut i: usize = 0;
        while i < rows
            invariant
                i <= rows,
                rows == source@.len(),
                cols == source@[0]@.len(),
                data@.len() == i,
                forall|k: int| 0 <= k < i ==> (#[trigger] source@[k])@.len() == cols,
                forall|k: int| 0 <= k < i ==> (#[trigger] data@[k])@ == source@[k]@,
            decreases rows - i,
        {
            if source[i].len() != cols {
                return None;
            }
            let row = copy_row(&source[i]);
            data.push(row);
            i += 1;
        }
        let g = Grid { rows, cols, data };
        Some(g)
    }

    /// The transpose: entry `(i, j)` of the result is entry `(j, i)` of `self`.
    pub fn transpose(&self) -> (t: Grid<T>)
        requires
            self.wf(),
        ensures
            t.wf(),
            t.rows == self.cols,
            t.cols == self.rows,
            forall|i: int, j: int| 0 <= i < t.rows && 0 <= j < t.cols ==> #[trigger] t.at(i, j) == self.at(j, i),
    {
        let mut data: Vec<Vec<T>> = Vec::new();
        let mut c: usize = 0;
        while c < self.cols
            invariant
                self.wf(),
                c <= self.cols,
                data@.len() == c,
                forall|k: int| 0 <= k < c ==> (#[trigger] data@[k])@.len() == self.rows,
                forall|k: int, j: int|
                    0 <= k < c && 0 <= j < self.rows ==> #[trigger] data@[k]@[j] == self.at(j, k),
            decreases self.cols - c,
        {
            let mut row: Vec<T> = Vec::new();
            let mut r: usize = 0;
            while r < self.rows
                invariant
                    self.wf(),
                    c < self.cols,
                    r <= self.rows,
                    row@.len() == r,
                    forall|m: int| 0 <= m < r ==> #[trigger] row@[m] == self.at(m, c as int),
                decreases self.rows - r,
            {
                row.push(self.data[r][c]);
                r += 1;
            }
            data.push(row);
            c += 1;
        }
        Grid { rows: self.cols, cols: self.rows, data }
    }

    /// The grid without row `row` and column `col`: the rows and columns after them move
    /// up and left by one.
    pub fn sub_matrix(&self, row: usize, col: usize) -> (s: Grid<T>)
        requires
            self.wf(),
            row < self.rows,
            col < self.cols,
        ensures
            s.wf(),
            s.rows == self.rows - 1,
            s.cols == self.cols - 1,
            forall|i: int, j: int|
                0 <= i < s.rows && 0 <= j < s.cols ==> #[trigger] s.at(i, j) == self.at(
                    if i < row { i } else { i + 1 },
                    if j < col { j } else { j + 1 },
                ),
    {
        let mut data: Vec<Vec<T>> = Vec::new();
        let mut r: usize = 0;
        while r < self.rows
            invariant
                self.wf(),
                row < self.rows,
                col < self.cols,
                r <= self.rows,
                data@.len() == if r <= row { r as int } else { r - 1 },
                forall|k: int| 0 <= k < data@.len() ==> (#[trigger] data@[k])@.len() == self.cols - 1,
                forall|k: int, j: int|
                    0 <= k < data@.len() && 0 <= j < self.cols - 1 ==> #[trigger] data@[k]@[j]
                        == self.at(
                        if k < row { k } else { k + 1 },
                        if j < col { j } else { j + 1 },
                    ),
            decreases self.rows - r,
        {
            if r != row {
                let source = &self.data[r];
                let mut new_row: Vec<T> = Vec::new();
                let mut c: usize = 0;
                while c < self.cols
                    invariant
                        self.wf(),
                        r < self.rows,
                        *source == self.data@[r as int],
                        col < self.cols,
                        c <= self.cols,
                        new_row@.len() == if c <= col { c as int } else { c - 1 },
                        forall|m: int|
                            0 <= m < new_row@.len() ==> #[trigger] new_row@[m] == self.at(
                                r as int,
                                if m < col { m } else { m + 1 },
                            ),
                    decreases self.cols - c,
                {
                    if c != col {
                        new_row.push(source[c]);
                    }
                    c += 1;
                }
                data.push(new_row);
            }
            r += 1;
        }
        Grid { rows: self.rows - 1, cols: self.cols - 1, data }
    }
}

/// A copy of `v`, entry by entry.
fn copy_row<T: Copy>(v: &Vec<T>) -> (r: Vec<T>)
    ensures
        r@ == v@,
{
    let mut r: Vec<T> = Vec::new();
    let mut i: usize = 0;
    while i < v.len()
        invariant
            i <= v@.len(),
            r@ == v@.subrange(0, i as int),
        decreases v@.len() - i,
    {
        r.push(v[i]);
        i += 1;
        assert(r@ =~= v@.subrange(0, i as int));
    }
    assert(v@.subrange(0, v@.len() as int) =~= v@);
    r
}

} // verus!
