//! Storage of bin counts: a vector of counts and a square matrix of counts, both
//! held in `ndarray` arrays and reached through the small trusted items below.
use vstd::prelude::*;

verus! {

/// A one-dimensional array of counts.
#[verifier::external_body]
pub struct Counts {
    cells: ndarray::Array1<u64>,
}

/// What a `Counts` holds, in index order.
pub uninterp spec fn counts_of(c: Counts) -> Seq<u64>;

/// A square two-dimensional array of counts.
#[verifier::external_body]
pub struct CountMatrix {
    cells: ndarray::Array2<u64>,
}

/// What a `CountMatrix` holds, row by row.
pub uninterp spec fn matrix_of(m: CountMatrix) -> Seq<Seq<u64>>;

impl View for Counts {
    type V = Seq<u64>;

    open spec fn view(&self) -> Seq<u64> {
        counts_of(*self)
    }
}

impl View for CountMatrix {
    type V = Seq<Seq<u64>>;

    open spec fn view(&self) -> Seq<Seq<u64>> {
        matrix_of(*self)
    }
}

pub open spec fn zero_counts(n: nat) -> Seq<u64> {
    Seq::new(n, |j: int| 0u64)
}

impl Counts {
    /// Relies on `ndarray::Array1::from_vec`: the array holds the vector's elements
    /// in order.
    #[verifier::external_body]
    pub(crate) fn from_vec(v: Vec<u64>) -> (r: Counts)
        ensures
            counts_of(r) == v@,
    {
        Counts { cells: ndarray::Array1::from_vec(v) }
    }

    /// Relies on `ndarray::LayoutRef::len`: the number of elements.
    #[verifier::external_body]
    pub(crate) fn size(&self) -> (r: usize)
        ensures
            r == counts_of(*self).len(),
    {
        self.cells.len()
    }

    /// Relies on indexing an `ndarray::Array1`: the element at `i`.
    #[verifier::external_body]
    pub(crate) fn read(&self, i: usize) -> (r: u64)
        requires
            i < counts_of(*self).len(),
        ensures
            r == counts_of(*self)[i as int],
    {
        self.cells[i]
    }

    /// Relies on indexing an `ndarray::Array1` mutably: only the element at `i` changes.
    #[verifier::external_body]
    pub(crate) fn set(&mut self, i: usize, v: u64)
        requires
            i < counts_of(*old(self)).len(),
        ensures
            counts_of(*final(self)) == counts_of(*old(self)).update(i as int, v),
    {
        self.cells[i] = v;
    }

    /// Relies on `ndarray::ArrayRef::fill`: every element becomes `v`.
    #[verifier::external_body]
    pub(crate) fn fill(&mut self, v: u64)
        ensures
            counts_of(*final(self)) == Seq::new(counts_of(*old(self)).len(), |j: int| v),
    {
        self.cells.fill(v);
    }

    /// Relies on `Clone` of `ndarray::ArrayBase` (an owned copy of the data): an equal array.
    #[verifier::external_body]
    pub(crate) fn duplicate(&self) -> (r: Counts)
        ensures
            counts_of(r) == counts_of(*self),
    {
        Counts { cells: self.cells.clone() }
    }

    /// The number of bins.
    pub fn len(&self) -> (r: usize)
        ensures
            r == self@.len(),
    {
        self.size()
    }

    /// The count at `i`.
    pub fn get(&self, i: usize) -> (r: u64)
        requires
            i < self@.len(),
        ensures
            r == self@[i as int],
    {
        self.read(i)
    }

    /// The counts, in order.
    pub fn to_vec(&self) -> (r: Vec<u64>)
        ensures
            r@ == self@,
    {
        let n = self.size();
        let mut r: Vec<u64> = Vec::new();
        while r.len() < n
            invariant
                n == self@.len(),
                r@.len() <= n,
                forall|k: int| 0 <= k < r@.len() ==> #[trigger] r@[k] == self@[k],
            decreases n - r@.len(),
        {
            r.push(self.read(r.len()));
        }
        assert(r@ =~= self@);
        r
    }
}

pub open spec fn zero_matrix(n: nat) -> Seq<Seq<u64>> {
    Seq::new(n, |i: int| zero_counts(n))
}

impl CountMatrix {
    /// Relies on `ndarray::Array2::zeros`: an `n` by `n` array of zeros; it panics
    /// only where the number of elements overflows `isize`.
    #[verifier::external_body]
    pub(crate) fn zeros(n: usize) -> (r: CountMatrix)
        requires
            n * n <= isize::MAX,
        ensures
            matrix_of(r) == zero_matrix(n as nat),
    {
        CountMatrix { cells: ndarray::Array2::zeros((n, n)) }
    }

    /// Relies on indexing an `ndarray::Array2`: the element in row `i`, column `j`.
    #[verifier::external_body]
    pub(crate) fn read(&self, i: usize, j: usize) -> (r: u64)
        requires
            i < matrix_of(*self).len(),
            j < matrix_of(*self)[i as int].len(),
        ensures
            r == matrix_of(*self)[i as int][j as int],
    {
        self.cells[[i, j]]
    }

    /// Relies on indexing an `ndarray::Array2` mutably: only the element in row `i`,
    /// column `j` changes.
    #[verifier::external_body]
    pub(crate) fn set(&mut self, i: usize, j: usize, v: u64)
        requires
            i < matrix_of(*old(self)).len(),
            j < matrix_of(*old(self))[i as int].len(),
        ensures
            matrix_of(*final(self)) == matrix_of(*old(self)).update(
                i as int,
                matrix_of(*old(self))[i as int].update(j as int, v),
            ),
    {
        self.cells[[i, j]] = v;
    }

    /// The count in row `i`, column `j`.
    pub fn get(&self, i: usize, j: usize) -> (r: u64)
        requires
            i < self@.len(),
            j < self@[i as int].len(),
        ensures
            r == self@[i as int][j as int],
    {
        self.read(i, j)
    }
}

} // verus!
