use vstd::prelude::*;

verus! {

/// A dense matrix of `rows` by `cols` elements, stored row by row.
///
/// `zero` is the element that fills a fresh matrix and the value that a read
/// outside the matrix yields.
pub struct Matrix<T> {
    rows: usize,
    cols: usize,
    matrix: Vec<T>,
    zero: T,
}

/// Position in row-major storage of the element at `(row, col)`.
pub open spec fn flat_index(cols: int, row: int, col: int) -> int {
    row * cols + col
}


/// `steps` records how `f` folds `row` and `col` pair by pair, starting from
/// `start`: each step is `f(previous, row[k], col[k])`.
pub open spec fn accumulates<T, F: Fn(T, T, T) -> T>(
    f: F,
    start: T,
    row: Seq<T>,
    col: Seq<T>,
    steps: Seq<T>,
) -> bool {
    &&& row.len() == col.len()
    &&& steps.len() == row.len() + 1
    &&& steps[0] == start
    &&& forall|k: int|
        0 <= k < row.len() ==> f.ensures((steps[k], row[k], col[k]), #[trigger] steps[k + 1])
}

/// `out` is what folding `row` and `col` with `f` from `start` yields: with a
/// multiply-and-add step, their dot product.
pub open spec fn is_dot<T, F: Fn(T, T, T) -> T>(
    f: F,
    start: T,
    row: Seq<T>,
    col: Seq<T>,
    out: T,
) -> bool {
    exists|steps: Seq<T>| accumulates(f, start, row, col, steps) && steps.last() == out
}

/// `f` gives one result for each argument triple.
pub open spec fn deterministic<T, F: Fn(T, T, T) -> T>(f: F) -> bool {
    forall|x: T, y: T, z: T, r1: T, r2: T|
        f.ensures((x, y, z), r1) && f.ensures((x, y, z), r2) ==> r1 == r2
}

/// The `i`-th row of `a` as read by `entry`.
pub open spec fn row_of<T: Copy>(a: Matrix<T>, i: int) -> Seq<T> {
    Seq::new(a.cols_spec(), |k: int| a.entry(i, k))
}

/// The `j`-th column of `a` as read by `entry`.
pub open spec fn col_of<T: Copy>(a: Matrix<T>, j: int) -> Seq<T> {
    Seq::new(a.rows_spec(), |k: int| a.entry(k, j))
}

/// `c` is the product of `a` and `b` under the step `f`: each element is the
/// fold of a row of `a` with a column of `b`, started from `a`'s zero.
pub open spec fn is_product<T: Copy, F: Fn(T, T, T) -> T>(
    a: Matrix<T>,
    b: Matrix<T>,
    f: F,
    c: Matrix<T>,
) -> bool {
    &&& c.wf()
    &&& c.rows_spec() == a.rows_spec()
    &&& c.cols_spec() == b.cols_spec()
    &&& c.zero_spec() == a.zero_spec()
    &&& forall|i: int, j: int|
        0 <= i < c.rows_spec() && 0 <= j < c.cols_spec() ==> is_dot(
            f,
            a.zero_spec(),
            row_of(a, i),
            col_of(b, j),
            #[trigger] c.entry(i, j),
        )
}

impl<T: Copy> Matrix<T> {
    pub closed spec fn rows_spec(&self) -> nat {
        self.rows as nat
    }

    pub closed spec fn cols_spec(&self) -> nat {
        self.cols as nat
    }

    /// The elements, row after row.
    pub closed spec fn cells(&self) -> Seq<T> {
        self.matrix@
    }

    pub closed spec fn zero_spec(&self) -> T {
        self.zero
    }

    /// The storage holds exactly one element per position.
    pub closed spec fn wf(&self) -> bool {
        &&& self.matrix@.len() == self.rows * self.cols
        &&& self.rows * self.cols <= usize::MAX
    }

    pub open spec fn in_bounds_spec(&self, row: int, col: int) -> bool {
        0 <= row < self.rows_spec() && 0 <= col < self.cols_spec()
    }

    /// The value read at `(row, col)`: the stored element inside the matrix,
    /// `zero` outside it.
    pub open spec fn entry(&self, row: int, col: int) -> T {
        if self.in_bounds_spec(row, col) {
            self.cells()[flat_index(self.cols_spec() as int, row, col)]
        } else {
            self.zero_spec()
        }
    }

    /// A `rows` by `cols` matrix with every element `zero`.
    pub fn new(rows: usize, cols: usize, zero: T) -> (r: Self)
        requires
            rows * cols <= usize::MAX,
        ensures
            r.wf(),
            r.rows_spec() == rows,
            r.cols_spec() == cols,
            r.zero_spec() == zero,
            r.cells() == Seq::new((rows * cols) as nat, |i: int| zero),
    {
        let n: usize = rows * cols;
        let mut matrix: Vec<T> = Vec::with_capacity(n);
        let mut i: usize = 0;
        while i < n
            invariant
                i <= n,
                matrix@ == Seq::new(i as nat, |k: int| zero),
            decreases n - i,
        {
            matrix.push(zero);
            i = i + 1;
            assert(matrix@ =~= Seq::new(i as nat, |k: int| zero));
        }
        Matrix { rows, cols, matrix, zero }
    }

    /// The matrix whose rows are `v`; every row must be as long as the first.
    pub fn from_vec(v: Vec<Vec<T>>, zero: T) -> (r: Self)
        requires
            v@.len() > 0,
            forall|i: int| 0 <= i < v@.len() ==> (#[trigger] v@[i])@.len() == v@[0]@.len(),
            v@.len() * v@[0]@.len() <= usize::MAX,
        ensures
            r.wf(),
            r.rows_spec() == v@.len(),
            r.cols_spec() == v@[0]@.len(),
            r.zero_spec() == zero,
            forall|i: int, j: int|
                0 <= i < v@.len() && 0 <= j < v@[0]@.len() ==> r.entry(i, j) == v@[i]@[j],
    {
        let rows: usize = v.len();
        let cols: usize = v[0].len();
        let mut matrix: Vec<T> = Vec::new();
        let mut i: usize = 0;
        while i < rows
            invariant
                i <= rows,
                rows == v@.len(),
                cols == v@[0]@.len(),
                rows * cols <= usize::MAX,
                forall|k: int| 0 <= k < v@.len() ==> (#[trigger] v@[k])@.len() == cols,
                matrix@.len() == i * cols,
                forall|a: int, b: int|
                    0 <= a < i && 0 <= b < cols ==> #[trigger] matrix@[flat_index(
                        cols as int,
                        a,
                        b,
                    )] == v@[a]@[b],
            decreases rows - i,
        {
            let row = &v[i];
            let mut j: usize = 0;
            while j < cols
                invariant
                    i < rows,
                    j <= cols,
                    rows == v@.len(),
                    cols == v@[0]@.len(),
                    rows * cols <= usize::MAX,
                    row@ == v@[i as int]@,
                    row@.len() == cols,
                    matrix@.len() == i * cols + j,
                    forall|a: int, b: int|
                        0 <= a < i && 0 <= b < cols ==> #[trigger] matrix@[flat_index(
                            cols as int,
                            a,
                            b,
                        )] == v@[a]@[b],
                    forall|b: int|
                        0 <= b < j ==> #[trigger] matrix@[flat_index(cols as int, i as int, b)]
                            == v@[i as int]@[b],
                decreases cols - j,
            {
                proof {
                    assert(i * cols + j < rows * cols) by (nonlinear_arith)
                        requires
                            i < rows,
                            j < cols,
                    ;
                }
                let ghost before = matrix@;
                matrix.push(row[j]);
                proof {
                    assert forall|a: int, b: int|
                        0 <= a < i && 0 <= b < cols implies #[trigger] matrix@[flat_index(
                            cols as int,
                            a,
                            b,
                        )] == v@[a]@[b] by {
                        assert(flat_index(cols as int, a, b) < i * cols) by (nonlinear_arith)
                            requires
                                a < i,
                                b < cols,
                                0 <= a,
                                0 <= b,
                        ;
                        assert(before[flat_index(cols as int, a, b)] == v@[a]@[b]);
                    }
                    assert forall|b: int|
                        0 <= b < j + 1 implies #[trigger] matrix@[flat_index(
                            cols as int,
                            i as int,
                            b,
                        )] == v@[i as int]@[b] by {
                        if b < j {
                            assert(before[flat_index(cols as int, i as int, b)] == v@[
                                i as int]@[b]);
                        }
                    }
                }
                j = j + 1;
            }
            proof {
                assert((i + 1) * cols == i * cols + cols) by (nonlinear_arith);
            }
            i = i + 1;
        }
        Matrix { rows, cols, matrix, zero }
    }

    pub fn num_rows(&self) -> (r: usize)
        ensures
            r == self.rows_spec(),
    {
        self.rows
    }

    pub fn num_cols(&self) -> (r: usize)
        ensures
            r == self.cols_spec(),
    {
        self.cols
    }

    /// Position in storage of `(row, col)`.
    pub fn index(&self, row: usize, col: usize) -> (r: usize)
        requires
            row * self.cols_spec() + col <= usize::MAX,
        ensures
            r == flat_index(self.cols_spec() as int, row as int, col as int),
    {
        row * self.cols + col
    }

    /// Whether `(row, col)` lies inside the matrix.
    pub fn in_bounds(&self, row: usize, col: usize) -> (r: bool)
        ensures
            r == self.in_bounds_spec(row as int, col as int),
    {
        row < self.rows && col < self.cols
    }

    /// The element at `(row, col)`, or `zero` when the position lies outside
    /// the matrix.
    pub fn at(&self, row: usize, col: usize) -> (r: T)
        requires
            self.wf(),
        ensures
            r == self.entry(row as int, col as int),
            !self.in_bounds_spec(row as int, col as int) ==> r == self.zero_spec(),
    {
        if row < self.rows && col < self.cols {
            proof {
                lemma_flat_index_bound(self.rows as int, self.cols as int, row as int, col as int);
            }
            self.matrix[row * self.cols + col]
        } else {
            self.zero
        }
    }

    /// Replaces every element `x` by `f(x)`.
    pub fn update_each<F: Fn(T) -> T>(&mut self, f: F)
        requires
            old(self).wf(),
            forall|x: T| #[trigger] f.requires((x,)),
        ensures
            final(self).wf(),
            final(self).rows_spec() == old(self).rows_spec(),
            final(self).cols_spec() == old(self).cols_spec(),
            final(self).zero_spec() == old(self).zero_spec(),
            final(self).cells().len() == old(self).cells().len(),
            forall|k: int|
                0 <= k < old(self).cells().len() ==> f.ensures(
                    (old(self).cells()[k],),
                    #[trigger] final(self).cells()[k],
                ),
            forall|i: int, j: int|
                old(self).in_bounds_spec(i, j) ==> f.ensures(
                    (old(self).entry(i, j),),
                    #[trigger] final(self).entry(i, j),
                ),
    {
        let n: usize = self.matrix.len();
        let mut k: usize = 0;
        while k < n
            invariant
                k <= n,
                n == old(self).cells().len(),
                self.wf(),
                self.rows_spec() == old(self).rows_spec(),
                self.cols_spec() == old(self).cols_spec(),
                self.zero_spec() == old(self).zero_spec(),
                self.cells().len() == n,
                forall|x: T| #[trigger] f.requires((x,)),
                forall|i: int|
                    k <= i < n ==> #[trigger] self.cells()[i] == old(self).cells()[i],
                forall|i: int|
                    0 <= i < k ==> f.ensures((old(self).cells()[i],), #[trigger] self.cells()[i]),
            decreases n - k,
        {
            let x = f(self.matrix[k]);
            self.matrix.set(k, x);
            k = k + 1;
        }
        proof {
            assert forall|i: int, j: int| old(self).in_bounds_spec(i, j) implies f.ensures(
                (old(self).entry(i, j),),
                #[trigger] self.entry(i, j),
            ) by {
                lemma_flat_index_bound(self.rows as int, self.cols as int, i, j);
            }
        }
    }

    /// Whether `other` has as many rows and as many columns as `self`.
    pub fn same_shape(&self, other: &Matrix<T>) -> (r: bool)
        ensures
            r == (self.rows_spec() == other.rows_spec() && self.cols_spec() == other.cols_spec()),
    {
        self.rows == other.rows && self.cols == other.cols
    }

    /// Combines the two matrices element by element with `f`; `None` when
    /// their shapes differ.
    pub fn zip_with<F: Fn(T, T) -> T>(&self, other: &Matrix<T>, f: F) -> (r: Option<Matrix<T>>)
        requires
            self.wf(),
            other.wf(),
            forall|x: T, y: T| #[trigger] f.requires((x, y)),
        ensures
            r is None <==> !(self.rows_spec() == other.rows_spec() && self.cols_spec()
                == other.cols_spec()),
            r matches Some(m) ==> {
                &&& m.wf()
                &&& m.rows_spec() == self.rows_spec()
                &&& m.cols_spec() == self.cols_spec()
                &&& m.zero_spec() == self.zero_spec()
                &&& m.cells().len() == self.cells().len()
                &&& forall|k: int|
                    0 <= k < self.cells().len() ==> f.ensures(
                        (self.cells()[k], other.cells()[k]),
                        #[trigger] m.cells()[k],
                    )
                &&& forall|i: int, j: int|
                    self.in_bounds_spec(i, j) ==> f.ensures(
                        (self.entry(i, j), other.entry(i, j)),
                        #[trigger] m.entry(i, j),
                    )
            },
    {
        if self.rows != other.rows || self.cols != other.cols {
            return None;
        }
        let n: usize = self.matrix.len();
        let mut matrix: Vec<T> = Vec::with_capacity(n);
        let mut k: usize = 0;
        while k < n
            invariant
                k <= n,
                n == self.cells().len(),
                n == other.cells().len(),
                matrix@.len() == k,
                forall|x: T, y: T| #[trigger] f.requires((x, y)),
                forall|i: int|
                    0 <= i < k ==> f.ensures(
                        (self.cells()[i], other.cells()[i]),
                        #[trigger] matrix@[i],
                    ),
            decreases n - k,
        {
            let x = f(self.matrix[k], other.matrix[k]);
            matrix.push(x);
            k = k + 1;
        }
        let m = Matrix { rows: self.rows, cols: self.cols, matrix, zero: self.zero };
        proof {
            assert forall|i: int, j: int| self.in_bounds_spec(i, j) implies f.ensures(
                (self.entry(i, j), other.entry(i, j)),
                #[trigger] m.entry(i, j),
            ) by {
                lemma_flat_index_bound(self.rows as int, self.cols as int, i, j);
            }
        }
        Some(m)
    }

    /// Whether the shapes agree and `f` holds of every pair of elements at
    /// the same position.
    pub fn all_pairs<F: Fn(T, T) -> bool>(&self, other: &Matrix<T>, f: F) -> (r: bool)
        requires
            self.wf(),
            other.wf(),
            forall|x: T, y: T| #[trigger] f.requires((x, y)),
        ensures
            r ==> self.rows_spec() == other.rows_spec() && self.cols_spec() == other.cols_spec(),
            r ==> forall|k: int|
                0 <= k < self.cells().len() ==> #[trigger] f.ensures(
                    (self.cells()[k], other.cells()[k]),
                    true,
                ),
            !r ==> !(self.rows_spec() == other.rows_spec() && self.cols_spec()
                == other.cols_spec()) || exists|k: int|
                0 <= k < self.cells().len() && #[trigger] f.ensures(
                    (self.cells()[k], other.cells()[k]),
                    false,
                ),
            r ==> forall|i: int, j: int|
                self.in_bounds_spec(i, j) ==> #[trigger] f.ensures(
                    (self.entry(i, j), other.entry(i, j)),
                    true,
                ),
            !r ==> !(self.rows_spec() == other.rows_spec() && self.cols_spec()
                == other.cols_spec()) || exists|i: int, j: int|
                self.in_bounds_spec(i, j) && #[trigger] f.ensures(
                    (self.entry(i, j), other.entry(i, j)),
                    false,
                ),
    {
        if self.rows != other.rows || self.cols != other.cols {
            return false;
        }
        let n: usize = self.matrix.len();
        let mut k: usize = 0;
        while k < n
            invariant
                k <= n,
                n == self.cells().len(),
                n == other.cells().len(),
                self.wf(),
                other.wf(),
                self.rows_spec() == other.rows_spec(),
                self.cols_spec() == other.cols_spec(),
                forall|x: T, y: T| #[trigger] f.requires((x, y)),
                forall|i: int|
                    0 <= i < k ==> #[trigger] f.ensures((self.cells()[i], other.cells()[i]), true),
            decreases n - k,
        {
            if !f(self.matrix[k], other.matrix[k]) {
                proof {
                    lemma_position_of(self.rows as int, self.cols as int, k as int);
                    let i = k as int / self.cols as int;
                    let j = k as int % self.cols as int;
                    assert(f.ensures((self.entry(i, j), other.entry(i, j)), false));
                }
                return false;
            }
            k = k + 1;
        }
        proof {
            assert forall|i: int, j: int| self.in_bounds_spec(i, j) implies #[trigger] f.ensures(
                (self.entry(i, j), other.entry(i, j)),
                true,
            ) by {
                lemma_flat_index_bound(self.rows as int, self.cols as int, i, j);
            }
        }
        true
    }

    /// A well-formed matrix stores `rows * cols` elements, a count that fits
    /// in `usize`.
    pub proof fn lemma_sizes(&self)
        requires
            self.wf(),
        ensures
            self.cells().len() == self.rows_spec() * self.cols_spec(),
            self.rows_spec() * self.cols_spec() <= usize::MAX,
    {
    }

    /// The row and column of the element stored at `index` in a matrix of
    /// `rows` by `cols`; `None` for a matrix without rows.
    pub fn get_coords(index: usize, rows: usize, cols: usize) -> (r: Option<(usize, usize)>)
        requires
            rows == 0 || cols > 0,
        ensures
            rows == 0 <==> r is None,
            r matches Some(p) ==> p.0 == index / cols && p.1 == index % cols,
            r matches Some(p) ==> index == flat_index(cols as int, p.0 as int, p.1 as int),
    {
        if rows == 0 {
            return None;
        }
        proof {
            assert(index == (index / cols) * cols + index % cols) by (nonlinear_arith)
                requires
                    cols > 0,
            ;
        }
        Some((index / cols, index % cols))
    }

    /// The product `self * m` by accumulation in place: element `(i, j)`
    /// starts at zero and takes `mul_add(acc, self(i, k), m(k, j))` for each
    /// `k` in turn. `None` when `self` has not as many columns as `m` has rows.
    /// The step gives one result for each argument triple.
    pub fn matrix_multiply<F: Fn(T, T, T) -> T>(&self, m: &Matrix<T>, mul_add: F) -> (r: Option<
        Matrix<T>,
    >)
        requires
            self.wf(),
            m.wf(),
            self.rows_spec() * m.cols_spec() <= usize::MAX,
            forall|x: T, y: T, z: T| #[trigger] mul_add.requires((x, y, z)),
            deterministic(mul_add),
        ensures
            r is None <==> self.cols_spec() != m.rows_spec(),
            r matches Some(c) ==> is_product(*self, *m, mul_add, c),
    {
        if self.cols != m.num_rows() {
            return None;
        }
        let mut result = Matrix::new(self.rows, m.num_cols(), self.zero);
        proof {
            assert forall|a: int, b: int|
                0 <= a < result.rows_spec() && 0 <= b < result.cols_spec() implies #[trigger] result.entry(
                a,
                b,
            ) == self.zero_spec() by {
                lemma_flat_index_bound(result.rows_spec() as int, result.cols_spec() as int, a, b);
            }
        }
        let mut i: usize = 0;
        while i < result.num_rows()
            invariant
                self.wf(),
                m.wf(),
                self.cols_spec() == m.rows_spec(),
                forall|x: T, y: T, z: T| #[trigger] mul_add.requires((x, y, z)),
                result.wf(),
                result.rows_spec() == self.rows_spec(),
                result.cols_spec() == m.cols_spec(),
                result.zero_spec() == self.zero_spec(),
                i <= result.rows_spec(),
                forall|a: int, b: int|
                    0 <= a < i && 0 <= b < result.cols_spec() ==> is_dot(
                        mul_add,
                        self.zero_spec(),
                        row_of(*self, a),
                        col_of(*m, b),
                        #[trigger] result.entry(a, b),
                    ),
                forall|a: int, b: int|
                    i <= a < result.rows_spec() && 0 <= b < result.cols_spec()
                        ==> #[trigger] result.entry(a, b) == self.zero_spec(),
            decreases result.rows_spec() - i,
        {
            let mut j: usize = 0;
            while j < result.num_cols()
                invariant
                    self.wf(),
                    m.wf(),
                    self.cols_spec() == m.rows_spec(),
                    forall|x: T, y: T, z: T| #[trigger] mul_add.requires((x, y, z)),
                    result.wf(),
                    result.rows_spec() == self.rows_spec(),
                    result.cols_spec() == m.cols_spec(),
                    result.zero_spec() == self.zero_spec(),
                    i < result.rows_spec(),
                    j <= result.cols_spec(),
                    forall|a: int, b: int|
                        (0 <= a < i || (a == i && 0 <= b < j)) && 0 <= b < result.cols_spec()
                            ==> is_dot(
                            mul_add,
                            self.zero_spec(),
                            row_of(*self, a),
                            col_of(*m, b),
                            #[trigger] result.entry(a, b),
                        ),
                    forall|a: int, b: int|
                        (i < a < result.rows_spec() || (a == i && j <= b)) && 0 <= b
                            < result.cols_spec() ==> #[trigger] result.entry(a, b)
                            == self.zero_spec(),
                decreases result.cols_spec() - j,
            {
                let ghost before = result;
                let ghost mut steps: Seq<T> = seq![self.zero];
                let mut k: usize = 0;
                while k < m.num_rows()
                    invariant
                        self.wf(),
                        m.wf(),
                        self.cols_spec() == m.rows_spec(),
                        forall|x: T, y: T, z: T| #[trigger] mul_add.requires((x, y, z)),
                        result.wf(),
                        result.rows_spec() == before.rows_spec(),
                        result.cols_spec() == before.cols_spec(),
                        result.zero_spec() == before.zero_spec(),
                        i < result.rows_spec(),
                        j < result.cols_spec(),
                        k <= m.rows_spec(),
                        forall|a: int, b: int|
                            (a, b) != (i as int, j as int) ==> #[trigger] result.entry(a, b)
                                == before.entry(a, b),
                        accumulates(
                            mul_add,
                            self.zero_spec(),
                            row_of(*self, i as int).take(k as int),
                            col_of(*m, j as int).take(k as int),
                            steps,
                        ),
                        steps.last() == result.entry(i as int, j as int),
                    decreases m.rows_spec() - k,
                {
                    let val = mul_add(result.at(i, j), self.at(i, k), m.at(k, j));
                    proof {
                        let old_steps = steps;
                        let row = row_of(*self, i as int);
                        let col = col_of(*m, j as int);
                        steps = steps.push(val);
                        assert forall|q: int| 0 <= q < k + 1 implies mul_add.ensures(
                            (steps[q], row.take(k + 1)[q], col.take(k + 1)[q]),
                            #[trigger] steps[q + 1],
                        ) by {
                            if q < k {
                                assert(mul_add.ensures(
                                    (old_steps[q], row.take(k as int)[q], col.take(k as int)[q]),
                                    old_steps[q + 1],
                                ));
                            }
                        }
                    }
                    result.set(i, j, val);
                    k = k + 1;
                }
                proof {
                    assert(row_of(*self, i as int).take(k as int) =~= row_of(*self, i as int));
                    assert(col_of(*m, j as int).take(k as int) =~= col_of(*m, j as int));
                }
                j = j + 1;
            }
            i = i + 1;
        }
        Some(result)
    }

    /// Row `i` of the matrix as a vector.
    pub fn row_vec(&self, i: usize) -> (r: Vec<T>)
        requires
            self.wf(),
        ensures
            r@ == row_of(*self, i as int),
    {
        let mut v: Vec<T> = Vec::with_capacity(self.cols);
        let mut k: usize = 0;
        while k < self.cols
            invariant
                self.wf(),
                k <= self.cols,
                v@ == row_of(*self, i as int).take(k as int),
            decreases self.cols - k,
        {
            v.push(self.at(i, k));
            k = k + 1;
            assert(v@ =~= row_of(*self, i as int).take(k as int));
        }
        assert(v@ =~= row_of(*self, i as int));
        v
    }

    /// Column `j` of the matrix as a vector.
    pub fn col_vec(&self, j: usize) -> (r: Vec<T>)
        requires
            self.wf(),
        ensures
            r@ == col_of(*self, j as int),
    {
        let mut v: Vec<T> = Vec::with_capacity(self.rows);
        let mut k: usize = 0;
        while k < self.rows
            invariant
                self.wf(),
                k <= self.rows,
                v@ == col_of(*self, j as int).take(k as int),
            decreases self.rows - k,
        {
            v.push(self.at(k, j));
            k = k + 1;
            assert(v@ =~= col_of(*self, j as int).take(k as int));
        }
        assert(v@ =~= col_of(*self, j as int));
        v
    }

    /// Folds `row` and `col` pair by pair with `f`, starting from `start`.
    pub fn dot_product<F: Fn(T, T, T) -> T>(row: &Vec<T>, col: &Vec<T>, start: T, f: &F) -> (r: T)
        requires
            row@.len() == col@.len(),
            forall|x: T, y: T, z: T| #[trigger] f.requires((x, y, z)),
        ensures
            is_dot(*f, start, row@, col@, r),
    {
        let n: usize = row.len();
        let mut acc: T = start;
        let ghost mut steps: Seq<T> = seq![start];
        let mut k: usize = 0;
        while k < n
            invariant
                k <= n,
                n == row@.len(),
                n == col@.len(),
                forall|x: T, y: T, z: T| #[trigger] f.requires((x, y, z)),
                accumulates(*f, start, row@.take(k as int), col@.take(k as int), steps),
                steps.last() == acc,
            decreases n - k,
        {
            let next = f(acc, row[k], col[k]);
            proof {
                let old_steps = steps;
                steps = steps.push(next);
                assert forall|i: int| 0 <= i < k + 1 implies f.ensures(
                    (steps[i], row@.take(k + 1)[i], col@.take(k + 1)[i]),
                    #[trigger] steps[i + 1],
                ) by {
                    if i < k {
                        assert(f.ensures(
                            (old_steps[i], row@.take(k as int)[i], col@.take(k as int)[i]),
                            old_steps[i + 1],
                        ));
                    }
                }
            }
            acc = next;
            k = k + 1;
        }
        assert(row@.take(n as int) =~= row@);
        assert(col@.take(n as int) =~= col@);
        acc
    }

    /// The product `self * m` elementwise by the flat position of each result
    /// element: its row of `self` folded with its column of `m` under
    /// `mul_add(acc, x, y)`. `None` when `self` has not as many columns as
    /// `m` has rows. The step gives one result for each argument triple.
    pub fn matrix_multiply2<F: Fn(T, T, T) -> T>(&self, m: &Matrix<T>, mul_add: F) -> (r: Option<
        Matrix<T>,
    >)
        requires
            self.wf(),
            m.wf(),
            self.rows_spec() * m.cols_spec() <= usize::MAX,
            forall|x: T, y: T, z: T| #[trigger] mul_add.requires((x, y, z)),
            deterministic(mul_add),
        ensures
            r is None <==> self.cols_spec() != m.rows_spec(),
            r matches Some(c) ==> is_product(*self, *m, mul_add, c),
    {
        if self.cols != m.rows {
            return None;
        }
        let rows: usize = self.rows;
        let cols: usize = m.cols;
        let n: usize = rows * cols;
        let mut matrix: Vec<T> = Vec::with_capacity(n);
        let mut p: usize = 0;
        while p < n
            invariant
                p <= n,
                n == rows * cols,
                rows == self.rows_spec(),
                cols == m.cols_spec(),
                self.cols_spec() == m.rows_spec(),
                self.wf(),
                m.wf(),
                forall|x: T, y: T, z: T| #[trigger] mul_add.requires((x, y, z)),
                matrix@.len() == p,
                forall|q: int|
                    0 <= q < p ==> is_dot(
                        mul_add,
                        self.zero_spec(),
                        row_of(*self, q / cols as int),
                        col_of(*m, q % cols as int),
                        #[trigger] matrix@[q],
                    ),
            decreases n - p,
        {
            proof {
                if cols == 0 {
                    assert(rows * cols == 0) by (nonlinear_arith)
                        requires
                            cols == 0,
                    ;
                }
            }
            let coords = Matrix::<T>::get_coords(p, rows, cols);
            match coords {
                None => {
                    proof {
                        assert(rows * cols == 0) by (nonlinear_arith)
                            requires
                                rows == 0,
                        ;
                    }
                },
                Some((x, y)) => {
                    let row = self.row_vec(x);
                    let col = m.col_vec(y);
                    let d = Matrix::<T>::dot_product(&row, &col, self.zero, &mul_add);
                    matrix.push(d);
                },
            }
            p = p + 1;
        }
        let c = Matrix { rows, cols, matrix, zero: self.zero };
        proof {
            assert forall|i: int, j: int|
                0 <= i < c.rows_spec() && 0 <= j < c.cols_spec() implies is_dot(
                mul_add,
                self.zero_spec(),
                row_of(*self, i),
                col_of(*m, j),
                #[trigger] c.entry(i, j),
            ) by {
                lemma_flat_index_bound(rows as int, cols as int, i, j);
                vstd::arithmetic::div_mod::lemma_fundamental_div_mod_converse(
                    flat_index(cols as int, i, j),
                    cols as int,
                    i,
                    j,
                );
            }
        }
        Some(c)
    }

    /// Writes `value` at `(row, col)`, which must lie inside the matrix.
    pub fn set(&mut self, row: usize, col: usize, value: T)
        requires
            old(self).wf(),
            old(self).in_bounds_spec(row as int, col as int),
        ensures
            final(self).wf(),
            final(self).rows_spec() == old(self).rows_spec(),
            final(self).cols_spec() == old(self).cols_spec(),
            final(self).zero_spec() == old(self).zero_spec(),
            final(self).cells() == old(self).cells().update(
                flat_index(old(self).cols_spec() as int, row as int, col as int),
                value,
            ),
            final(self).entry(row as int, col as int) == value,
            forall|i: int, j: int|
                (i, j) != (row as int, col as int) ==> #[trigger] final(self).entry(i, j) == old(
                    self,
                ).entry(i, j),
    {
        proof {
            lemma_flat_index_bound(self.rows as int, self.cols as int, row as int, col as int);
        }
        let k: usize = row * self.cols + col;
        self.matrix.set(k, value);
        proof {
            assert forall|i: int, j: int|
                (i, j) != (row as int, col as int) implies #[trigger] self.entry(i, j) == old(
                    self,
                ).entry(i, j) by {
                if self.in_bounds_spec(i, j) {
                    lemma_flat_index_bound(self.rows as int, self.cols as int, i, j);
                }
                if self.in_bounds_spec(i, j) && flat_index(self.cols as int, i, j) == flat_index(
                    self.cols as int,
                    row as int,
                    col as int,
                ) {
                    lemma_flat_index_injective(self.cols as int, i, j, row as int, col as int);
                }
            }
        }
    }
}

/// Under a step that gives one result for each argument triple, folding the
/// same row and column from the same start gives one result.
pub proof fn lemma_dot_unique<T, F: Fn(T, T, T) -> T>(
    f: F,
    start: T,
    row: Seq<T>,
    col: Seq<T>,
    out1: T,
    out2: T,
)
    requires
        deterministic(f),
        is_dot(f, start, row, col, out1),
        is_dot(f, start, row, col, out2),
    ensures
        out1 == out2,
{
    let s1 = choose|s: Seq<T>| accumulates(f, start, row, col, s) && s.last() == out1;
    let s2 = choose|s: Seq<T>| accumulates(f, start, row, col, s) && s.last() == out2;
    lemma_steps_agree(f, start, row, col, s1, s2, row.len() as int);
}

/// Two records of one fold under a step with one result per triple agree up
/// to step `k`.
proof fn lemma_steps_agree<T, F: Fn(T, T, T) -> T>(
    f: F,
    start: T,
    row: Seq<T>,
    col: Seq<T>,
    s1: Seq<T>,
    s2: Seq<T>,
    k: int,
)
    requires
        deterministic(f),
        accumulates(f, start, row, col, s1),
        accumulates(f, start, row, col, s2),
        0 <= k <= row.len(),
    ensures
        s1[k] == s2[k],
    decreases k,
{
    if k > 0 {
        lemma_steps_agree(f, start, row, col, s1, s2, k - 1);
        let j = k - 1;
        assert(f.ensures((s1[j], row[j], col[j]), s1[j + 1]));
        assert(f.ensures((s2[j], row[j], col[j]), s2[j + 1]));
    }
}

/// The two ways of multiplying agree: any two products of `a` and `b` under
/// one step that gives one result for each argument triple are equal,
/// element by element.
pub proof fn lemma_products_agree<T: Copy, F: Fn(T, T, T) -> T>(
    a: Matrix<T>,
    b: Matrix<T>,
    f: F,
    c1: Matrix<T>,
    c2: Matrix<T>,
)
    requires
        deterministic(f),
        is_product(a, b, f, c1),
        is_product(a, b, f, c2),
    ensures
        c1.rows_spec() == c2.rows_spec(),
        c1.cols_spec() == c2.cols_spec(),
        c1.zero_spec() == c2.zero_spec(),
        c1.cells() == c2.cells(),
        forall|i: int, j: int| #[trigger] c1.entry(i, j) == c2.entry(i, j),
{
    assert forall|i: int, j: int| #[trigger] c1.entry(i, j) == c2.entry(i, j) by {
        if c1.in_bounds_spec(i, j) {
            lemma_dot_unique(
                f,
                a.zero_spec(),
                row_of(a, i),
                col_of(b, j),
                c1.entry(i, j),
                c2.entry(i, j),
            );
        }
    }
    let cols = c1.cols_spec() as int;
    assert forall|p: int| 0 <= p < c1.cells().len() implies #[trigger] c1.cells()[p]
        == c2.cells()[p] by {
        if cols == 0 {
            assert(c1.rows_spec() * c1.cols_spec() == 0) by (nonlinear_arith)
                requires
                    cols == 0,
                    cols == c1.cols_spec(),
            ;
        }
        let i = p / cols;
        let j = p % cols;
        assert(p == i * cols + j && 0 <= j < cols && 0 <= i) by {
            vstd::arithmetic::div_mod::lemma_fundamental_div_mod(p, cols);
            vstd::arithmetic::div_mod::lemma_div_pos_is_pos(p, cols);
        }
        if i >= c1.rows_spec() {
            assert(p >= c1.rows_spec() * cols) by (nonlinear_arith)
                requires
                    p == i * cols + j,
                    i >= c1.rows_spec(),
                    j >= 0,
                    cols > 0,
            ;
        }
        assert(c1.entry(i, j) == c2.entry(i, j));
    }
    assert(c1.cells() =~= c2.cells());
}

/// A position inside a `rows` by `cols` matrix has its storage inside the
/// matrix's storage.
pub proof fn lemma_flat_index_bound(rows: int, cols: int, row: int, col: int)
    requires
        0 <= row < rows,
        0 <= col < cols,
    ensures
        0 <= flat_index(cols, row, col) < rows * cols,
{
    assert(0 <= flat_index(cols, row, col) < rows * cols) by (nonlinear_arith)
        requires
            0 <= row < rows,
            0 <= col < cols,
    ;
}

/// Storage position `p` of a `rows` by `cols` matrix holds the element at
/// row `p / cols` and column `p % cols`, which lies inside the matrix.
pub proof fn lemma_position_of(rows: int, cols: int, p: int)
    requires
        0 <= rows,
        0 <= p < rows * cols,
    ensures
        cols > 0,
        0 <= p / cols < rows,
        0 <= p % cols < cols,
        flat_index(cols, p / cols, p % cols) == p,
{
    if cols <= 0 {
        assert(rows * cols <= 0) by (nonlinear_arith)
            requires
                cols <= 0,
                rows >= 0,
        ;
    }
    vstd::arithmetic::div_mod::lemma_fundamental_div_mod(p, cols);
    vstd::arithmetic::div_mod::lemma_div_pos_is_pos(p, cols);
    assert(p == (p / cols) * cols + p % cols) by (nonlinear_arith)
        requires
            p == cols * (p / cols) + p % cols,
    ;
    if p / cols >= rows {
        assert(p >= rows * cols) by (nonlinear_arith)
            requires
                p == (p / cols) * cols + p % cols,
                p / cols >= rows,
                p % cols >= 0,
                cols > 0,
        ;
    }
}

/// Splitting the storage position of `(row, col)` by `cols` gives back
/// `row` and `col`.
pub proof fn lemma_coords_of_index(cols: int, row: int, col: int)
    requires
        0 <= row,
        0 <= col < cols,
    ensures
        flat_index(cols, row, col) / cols == row,
        flat_index(cols, row, col) % cols == col,
{
    vstd::arithmetic::div_mod::lemma_fundamental_div_mod_converse(
        flat_index(cols, row, col),
        cols,
        row,
        col,
    );
}

/// Two positions of one matrix share no storage.
pub proof fn lemma_flat_index_injective(cols: int, i: int, j: int, k: int, l: int)
    requires
        0 <= j < cols,
        0 <= l < cols,
        0 <= i,
        0 <= k,
        flat_index(cols, i, j) == flat_index(cols, k, l),
    ensures
        i == k && j == l,
{
    if i < k {
        assert(i * cols + j < k * cols + l) by (nonlinear_arith)
            requires
                i < k,
                0 <= j < cols,
                0 <= l,
        ;
    } else if k < i {
        assert(k * cols + l < i * cols + j) by (nonlinear_arith)
            requires
                k < i,
                0 <= l < cols,
                0 <= j,
        ;
    }
}

} // verus!
