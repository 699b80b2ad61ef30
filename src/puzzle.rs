use nonogram::{arr1, Array2, Nonogram};
use vstd::prelude::*;

verus! {

/// Whether the puzzle engine's solver completes a grid of `height` rows and
/// `width` columns from these row and column clues.
pub uninterp spec fn solvable_of(
    height: nat,
    width: nat,
    row_segments: Seq<Seq<usize>>,
    column_segments: Seq<Seq<usize>>,
) -> bool;

/// The engine's content checksum of a grid, given its cells row by row.
pub uninterp spec fn checksum_of(cells: Seq<u8>) -> u64;

/// Lengths of the maximal runs of filled (non-zero) cells of `line`, left to
/// right.
pub open spec fn clue_of(line: Seq<u8>) -> Seq<usize>
    decreases line.len(),
{
    if line.len() == 0 {
        seq![]
    } else {
        let prev = clue_of(line.drop_last());
        if line.last() == 0 {
            prev
        } else if line.len() > 1 && line[line.len() - 2] != 0 {
            prev.update(prev.len() - 1, (prev.last() + 1) as usize)
        } else {
            prev.push(1)
        }
    }
}

/// Column `j` of a grid given by rows.
pub open spec fn column_of(grid: Seq<Seq<u8>>, j: int) -> Seq<u8> {
    Seq::new(grid.len(), |i: int| grid[i][j])
}

/// A solved nonogram: its size, its grid of cells (0 empty, 1 filled) and
/// the run-length clues of its rows and columns.
pub struct Puzzle {
    pub height: usize,
    pub width: usize,
    pub row_segments: Vec<Vec<usize>>,
    pub column_segments: Vec<Vec<usize>>,
    pub completed_grid: Vec<Vec<u8>>,
}

impl Puzzle {
    pub open spec fn grid(&self) -> Seq<Seq<u8>> {
        self.completed_grid.deep_view()
    }

    pub open spec fn rows(&self) -> Seq<Seq<usize>> {
        self.row_segments.deep_view()
    }

    pub open spec fn columns(&self) -> Seq<Seq<usize>> {
        self.column_segments.deep_view()
    }

    /// The cells row by row.
    pub open spec fn cells(&self) -> Seq<u8> {
        self.grid().flatten()
    }

    /// The grid is `height` by `width` with binary cells, and the clues are
    /// those of its rows and columns.
    pub open spec fn well_formed(&self) -> bool {
        &&& self.grid().len() == self.height
        &&& forall|i: int| 0 <= i < self.height ==> #[trigger] self.grid()[i].len() == self.width
        &&& forall|i: int, j: int|
            0 <= i < self.height && 0 <= j < self.width ==> #[trigger] self.grid()[i][j] <= 1
        &&& self.rows().len() == self.height
        &&& forall|i: int| 0 <= i < self.height ==> #[trigger] self.rows()[i] == clue_of(self.grid()[i])
        &&& self.columns().len() == self.width
        &&& forall|j: int|
            0 <= j < self.width ==> #[trigger] self.columns()[j] == clue_of(column_of(self.grid(), j))
    }

    pub open spec fn is_solvable_spec(&self) -> bool {
        solvable_of(self.height as nat, self.width as nat, self.rows(), self.columns())
    }

    /// Structural equality: equal size and equal cells.
    pub open spec fn same_as(&self, other: &Puzzle) -> bool {
        self.height == other.height && self.width == other.width && self.grid() == other.grid()
    }
}

fn copy_table<T: Copy>(t: &Vec<Vec<T>>) -> (r: Vec<Vec<T>>)
    ensures
        r@.len() == t@.len(),
        forall|i: int| 0 <= i < t@.len() ==> (#[trigger] r@[i])@ == t@[i]@,
{
    let mut r: Vec<Vec<T>> = Vec::new();
    let mut i: usize = 0;
    while i < t.len()
        invariant
            i <= t@.len(),
            r@.len() == i,
            forall|k: int| 0 <= k < i ==> (#[trigger] r@[k])@ == t@[k]@,
        decreases t@.len() - i,
    {
        let line = &t[i];
        let mut copy: Vec<T> = Vec::new();
        let mut j: usize = 0;
        while j < line.len()
            invariant
                j <= line@.len(),
                copy@ == line@.take(j as int),
            decreases line@.len() - j,
        {
            copy.push(line[j]);
            proof {
                assert(line@.take(j + 1) == line@.take(j as int).push(line@[j as int]));
            }
            j = j + 1;
        }
        proof {
            assert(line@.take(j as int) == line@);
        }
        r.push(copy);
        i = i + 1;
    }
    r
}

impl Puzzle {
    /// A copy of the grid.
    pub fn grid_copy(&self) -> (r: Vec<Vec<u8>>)
        ensures
            r.deep_view() == self.grid(),
    {
        let r = copy_table(&self.completed_grid);
        proof {
            assert forall|i: int| 0 <= i < r@.len() implies #[trigger] r.deep_view()[i]
                == self.grid()[i] by {
                assert(r@[i].deep_view() =~= self.completed_grid@[i].deep_view());
            }
            assert(r.deep_view() =~= self.grid());
        }
        r
    }

    /// A copy with equal size, grid and clues.
    pub fn duplicate(&self) -> (r: Puzzle)
        ensures
            r.height == self.height,
            r.width == self.width,
            r.grid() == self.grid(),
            r.rows() == self.rows(),
            r.columns() == self.columns(),
    {
        let r = Puzzle {
            height: self.height,
            width: self.width,
            row_segments: copy_table(&self.row_segments),
            column_segments: copy_table(&self.column_segments),
            completed_grid: self.grid_copy(),
        };
        proof {
            assert forall|i: int| 0 <= i < r.row_segments@.len() implies #[trigger] r.rows()[i]
                == self.rows()[i] by {
                assert(r.row_segments@[i].deep_view() =~= self.row_segments@[i].deep_view());
            }
            assert(r.rows() =~= self.rows());
            assert forall|i: int| 0 <= i < r.column_segments@.len() implies #[trigger] r.columns()[i]
                == self.columns()[i] by {
                assert(r.column_segments@[i].deep_view() =~= self.column_segments@[i].deep_view());
            }
            assert(r.columns() =~= self.columns());
        }
        r
    }
}

/// Relies on `Nonogram::generate`: a random grid of the given size with
/// cells drawn from {0, 1}, and the clues built from its rows and columns.
/// ndarray refuses a shape whose cell count overflows `isize`.
#[verifier::external_body]
pub(crate) fn generate_candidate(width: usize, height: usize) -> (r: Puzzle)
    requires
        height * width <= isize::MAX,
    ensures
        r.well_formed(),
        r.height == height,
        r.width == width,
{
    let n = Nonogram::generate(width, height);
    Puzzle {
        height: n.height(),
        width: n.width(),
        row_segments: n.row_segments.to_vec(),
        column_segments: n.column_segments.to_vec(),
        completed_grid: n.completed_grid.genrows().into_iter().map(|row| row.to_vec()).collect(),
    }
}

/// Relies on `Nonogram::solvable`: the solver reads the size and the clues
/// alone; its clue enumeration needs clues that fit the grid.
#[verifier::external_body]
pub(crate) fn is_solvable(p: &Puzzle) -> (r: bool)
    requires
        p.well_formed(),
    ensures
        r == solvable_of(p.height as nat, p.width as nat, p.rows(), p.columns()),
{
    let grid = Array2::from_shape_vec((p.height, p.width), p.completed_grid.concat()).unwrap();
    let n = Nonogram {
        row_segments: arr1(&p.row_segments),
        column_segments: arr1(&p.column_segments),
        completed_grid: grid,
    };
    n.solvable()
}

/// Relies on `Nonogram::generate_checksum`: a CRC-64 of the cells in row
/// order, and of nothing else.
#[verifier::external_body]
pub(crate) fn checksum(p: &Puzzle) -> (r: u64)
    requires
        p.well_formed(),
    ensures
        r == checksum_of(p.cells()),
{
    let grid = Array2::from_shape_vec((p.height, p.width), p.completed_grid.concat()).unwrap();
    let n = Nonogram {
        row_segments: arr1(&p.row_segments),
        column_segments: arr1(&p.column_segments),
        completed_grid: grid,
    };
    n.generate_checksum()
}

/// Compares two grids cell by cell.
pub fn same_puzzle(a: &Puzzle, b: &Puzzle) -> (r: bool)
    ensures
        r == a.same_as(b),
{
    if a.height != b.height || a.width != b.width || a.completed_grid.len()
        != b.completed_grid.len() {
        proof {
            if a.grid() == b.grid() {
                assert(a.grid().len() == b.grid().len());
            }
        }
        return false;
    }
    let n = a.completed_grid.len();
    let mut i: usize = 0;
    while i < n
        invariant
            n == a.completed_grid@.len(),
            n == b.completed_grid@.len(),
            i <= n,
            forall|k: int| 0 <= k < i ==> a.grid()[k] == b.grid()[k],
        decreases n - i,
    {
        let ra = &a.completed_grid[i];
        let rb = &b.completed_grid[i];
        if ra.len() != rb.len() {
            proof {
                assert(a.grid()[i as int] == ra@);
                assert(b.grid()[i as int] == rb@);
            }
            return false;
        }
        let mut j: usize = 0;
        while j < ra.len()
            invariant
                n == a.completed_grid@.len(),
                n == b.completed_grid@.len(),
                i < n,
                *ra == a.completed_grid@[i as int],
                *rb == b.completed_grid@[i as int],
                ra@.len() == rb@.len(),
                j <= ra@.len(),
                forall|k: int| 0 <= k < j ==> ra@[k] == rb@[k],
            decreases ra@.len() - j,
        {
            if ra[j] != rb[j] {
                proof {
                    assert(a.grid()[i as int] == ra@);
                    assert(b.grid()[i as int] == rb@);
                    assert(a.grid()[i as int][j as int] != b.grid()[i as int][j as int]);
                }
                return false;
            }
            j = j + 1;
        }
        proof {
            assert(ra@ == rb@);
            assert(a.grid()[i as int] == ra@);
            assert(b.grid()[i as int] == rb@);
        }
        i = i + 1;
    }
    proof {
        assert(a.grid() == b.grid());
    }
    true
}

} // verus!
