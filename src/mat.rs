use vstd::prelude::*;

use crate::error::ShapeError;

verus! {

/// A dense matrix stored row-major: element `(r, c)` sits at index `r * cols + c`.
#[derive(Debug)]
pub struct Mat<T> {
    rows: usize,
    cols: usize,
    data: Vec<T>,
}

impl<T> View for Mat<T> {
    type V = Seq<T>;

    closed spec fn view(&self) -> Seq<T> {
        self.data@
    }
}

proof fn lemma_div_of_product(a: int, b: int)
    requires
        a > 0,
        b > 0,
    ensures
        (a * b) / b == a,
        (a * b) % b == 0,
{
    vstd::arithmetic::div_mod::lemma_div_multiples_vanish(a, b);
    vstd::arithmetic::div_mod::lemma_mod_multiples_basic(a, b);
    vstd::arithmetic::mul::lemma_mul_is_commutative(a, b);
}

impl<T: Copy> Clone for Mat<T> {
    fn clone(&self) -> Self {
        self.copied()
    }
}

/// `r * cols + c` lies inside a `rows * cols` buffer.
proof fn lemma_index_in_bounds(r: int, c: int, rows: int, cols: int)
    requires
        0 <= r < rows,
        0 <= c < cols,
    ensures
        0 <= r * cols + c < rows * cols,
{
    assert(0 <= r * cols) by (nonlinear_arith)
        requires
            0 <= r,
            0 <= cols,
    ;
    assert(r * cols + c < rows * cols) by (nonlinear_arith)
        requires
            0 <= r < rows,
            0 <= c < cols,
    ;
}

impl<T> Mat<T> {
    #[verifier::type_invariant]
    spec fn inv(self) -> bool {
        &&& self.rows > 0
        &&& self.cols > 0
        &&& self.data@.len() == self.rows * self.cols
    }

    /// Number of rows.
    pub closed spec fn nrows(&self) -> nat {
        self.rows as nat
    }

    /// Number of columns.
    pub closed spec fn ncols(&self) -> nat {
        self.cols as nat
    }

    /// Element at row `r`, column `c`.
    pub open spec fn at(&self, r: int, c: int) -> T {
        self@[r * self.ncols() + c]
    }

    /// Both extents are positive and the buffer holds exactly one value per cell.
    pub open spec fn shaped(&self) -> bool {
        &&& self.nrows() > 0
        &&& self.ncols() > 0
        &&& self@.len() == self.nrows() * self.ncols()
    }

}

impl<T: Copy> Mat<T> {
    /// `(rows, cols)`.
    pub fn shape(&self) -> (r: (usize, usize))
        ensures
            r.0 == self.nrows(),
            r.1 == self.ncols(),
            self.shaped(),
    {
        proof {
            use_type_invariant(self);
        }
        (self.rows, self.cols)
    }

    /// A `rows x cols` matrix with every element equal to `value`.
    pub fn new(rows: usize, cols: usize, value: T) -> (r: Mat<T>)
        requires
            rows > 0,
            cols > 0,
            rows * cols <= usize::MAX,
        ensures
            r.nrows() == rows,
            r.ncols() == cols,
            r.shaped(),
            forall|i: int| 0 <= i < r@.len() ==> #[trigger] r@[i] == value,
    {
        let n: usize = rows * cols;
        let mut data: Vec<T> = Vec::with_capacity(n);
        let mut i: usize = 0;
        while i < n
            invariant
                i <= n,
                data@.len() == i,
                forall|j: int| 0 <= j < i ==> #[trigger] data@[j] == value,
            decreases n - i,
        {
            data.push(value);
            i = i + 1;
        }
        Mat { rows, cols, data }
    }

    /// Takes `v` as the row-major contents of a `rows x cols` matrix.
    pub fn from_vec(rows: usize, cols: usize, v: Vec<T>) -> (r: Result<Mat<T>, ShapeError>)
        ensures
            (rows == 0 || cols == 0) ==> r == Err::<Mat<T>, ShapeError>(
                ShapeError::ZeroExtent { rows, cols },
            ),
            (rows > 0 && cols > 0 && v@.len() != rows * cols) ==> r == Err::<Mat<T>, ShapeError>(
                ShapeError::BufferLength { rows, cols, len: v@.len() as usize },
            ),
            (rows > 0 && cols > 0 && v@.len() == rows * cols) <==> r is Ok,
            r matches Ok(m) ==> m.nrows() == rows && m.ncols() == cols && m.shaped() && m@ == v@,
    {
        if rows == 0 || cols == 0 {
            return Err(ShapeError::ZeroExtent { rows, cols });
        }
        let len = v.len();
        if len / cols != rows || len % cols != 0 {
            proof {
                if len as int == rows * cols {
                    lemma_div_of_product(rows as int, cols as int);
                }
            }
            return Err(ShapeError::BufferLength { rows, cols, len });
        }
        proof {
            vstd::arithmetic::div_mod::lemma_fundamental_div_mod(len as int, cols as int);
            vstd::arithmetic::mul::lemma_mul_is_commutative(rows as int, cols as int);
        }
        Ok(Mat { rows, cols, data: v })
    }

    /// The element at row `r`, column `c`.
    pub fn get(&self, r: usize, c: usize) -> (v: T)
        requires
            r < self.nrows(),
            c < self.ncols(),
        ensures
            v == self.at(r as int, c as int),
    {
        proof {
            use_type_invariant(self);
            lemma_index_in_bounds(r as int, c as int, self.rows as int, self.cols as int);
        }
        let _n = self.data.len();
        self.data[r * self.cols + c]
    }

    /// Overwrites the element at row `r`, column `c`.
    pub fn set(&mut self, r: usize, c: usize, v: T)
        requires
            r < old(self).nrows(),
            c < old(self).ncols(),
        ensures
            final(self).nrows() == old(self).nrows(),
            final(self).ncols() == old(self).ncols(),
            final(self)@ == old(self)@.update(r * old(self).ncols() + c, v),
        no_unwind
    {
        proof {
            use_type_invariant(&*self);
            lemma_index_in_bounds(r as int, c as int, self.rows as int, self.cols as int);
        }
        let _n = self.data.len();
        let i = r * self.cols + c;
        self.data[i] = v;
    }

    /// The whole row-major buffer.
    pub fn as_slice(&self) -> (s: &[T])
        ensures
            s@ == self@,
    {
        self.data.as_slice()
    }

    /// The `cols` elements of row `r`.
    pub fn row(&self, r: usize) -> (s: &[T])
        requires
            r < self.nrows(),
        ensures
            s@ == self@.subrange(r * self.ncols(), r * self.ncols() + self.ncols()),
    {
        proof {
            use_type_invariant(self);
            lemma_index_in_bounds(r as int, self.cols - 1, self.rows as int, self.cols as int);
        }
        let _n = self.data.len();
        let offset = r * self.cols;
        vstd::slice::slice_subrange(self.data.as_slice(), offset, offset + self.cols)
    }

    /// Overwrites every element with `value`.
    pub fn fill(&mut self, value: T)
        ensures
            final(self).nrows() == old(self).nrows(),
            final(self).ncols() == old(self).ncols(),
            final(self)@.len() == old(self)@.len(),
            forall|i: int| 0 <= i < final(self)@.len() ==> #[trigger] final(self)@[i] == value,
        no_unwind
    {
        proof {
            use_type_invariant(&*self);
        }
        let n = self.data.len();
        let mut i: usize = 0;
        while i < n
            invariant
                i <= n,
                n == self.data@.len(),
                self.rows == old(self).rows,
                self.cols == old(self).cols,
                n == old(self).data@.len(),
                self.inv(),
                forall|j: int| 0 <= j < i ==> #[trigger] self.data@[j] == value,
            decreases n - i,
        {
            self.data[i] = value;
            i = i + 1;
        }
    }

    /// A new matrix with every element replaced by `f` of it.
    pub fn map<F: Fn(T) -> T>(&self, f: &F) -> (r: Mat<T>)
        requires
            forall|x: T| f.requires((x,)),
        ensures
            r.nrows() == self.nrows(),
            r.ncols() == self.ncols(),
            r.shaped(),
            forall|i: int| 0 <= i < self@.len() ==> f.ensures((self@[i],), #[trigger] r@[i]),
    {
        proof {
            use_type_invariant(self);
        }
        let mut data: Vec<T> = Vec::new();
        let mut i: usize = 0;
        while i < self.data.len()
            invariant
                i <= self.data@.len(),
                data@.len() == i,
                forall|x: T| f.requires((x,)),
                forall|j: int| 0 <= j < i ==> f.ensures((self.data@[j],), #[trigger] data@[j]),
            decreases self.data@.len() - i,
        {
            let v = f(self.data[i]);
            data.push(v);
            i = i + 1;
        }
        Mat { rows: self.rows, cols: self.cols, data }
    }
}

impl<T: Copy> Mat<T> {
    /// Replaces every element by `f` of it.
    pub fn map_inplace<F: Fn(T) -> T>(&mut self, f: &F)
        requires
            forall|x: T| f.requires((x,)),
        ensures
            final(self).nrows() == old(self).nrows(),
            final(self).ncols() == old(self).ncols(),
            final(self)@.len() == old(self)@.len(),
            forall|i: int|
                0 <= i < old(self)@.len() ==> f.ensures((old(self)@[i],), #[trigger] final(self)@[i]),
    {
        proof {
            use_type_invariant(&*self);
        }
        let m = self.map(f);
        *self = m;
    }

    /// Combines two same-shaped matrices element by element with `f`.
    pub fn zip_map<F: Fn(T, T) -> T>(&self, other: &Mat<T>, f: &F) -> (r: Result<Mat<T>, ShapeError>)
        requires
            forall|x: T, y: T| f.requires((x, y)),
        ensures
            r is Ok <==> (self.nrows() == other.nrows() && self.ncols() == other.ncols()),
            r is Err ==> r == Err::<Mat<T>, ShapeError>(self.mismatch(other)),
            r matches Ok(m) ==> m.is_zip_of(self, other, *f),
    {
        proof {
            use_type_invariant(self);
            use_type_invariant(other);
        }
        if self.rows != other.rows || self.cols != other.cols {
            return Err(self.mismatch_error(other));
        }
        let mut data: Vec<T> = Vec::new();
        let mut i: usize = 0;
        while i < self.data.len()
            invariant
                i <= self.data@.len(),
                self.data@.len() == other.data@.len(),
                data@.len() == i,
                forall|x: T, y: T| f.requires((x, y)),
                forall|j: int|
                    0 <= j < i ==> f.ensures((self.data@[j], other.data@[j]), #[trigger] data@[j]),
            decreases self.data@.len() - i,
        {
            let v = f(self.data[i], other.data[i]);
            data.push(v);
            i = i + 1;
        }
        Ok(Mat { rows: self.rows, cols: self.cols, data })
    }

    /// The error that reports `self` and `other` as operands that do not fit.
    fn mismatch_error(&self, other: &Mat<T>) -> (e: ShapeError)
        ensures
            e == self.mismatch(other),
    {
        ShapeError::Mismatch {
            left_rows: self.rows,
            left_cols: self.cols,
            right_rows: other.rows,
            right_cols: other.cols,
        }
    }

    /// The transpose: element `(c, r)` of the result is element `(r, c)` of `self`.
    pub fn transpose(&self) -> (t: Mat<T>)
        ensures
            t.is_transpose_of(self),
    {
        proof {
            use_type_invariant(self);
        }
        let rows = self.rows;
        let cols = self.cols;
        let mut data: Vec<T> = Vec::new();
        let mut c: usize = 0;
        while c < cols
            invariant
                rows == self.rows,
                cols == self.cols,
                self.inv(),
                c <= cols,
                data@.len() == c * rows,
                forall|p: int| 0 <= p < data@.len() ==> #[trigger] data@[p] == self.at(p % rows as int, p / rows as int),
            decreases cols - c,
        {
            let mut r: usize = 0;
            while r < rows
                invariant
                    rows == self.rows,
                    cols == self.cols,
                    self.inv(),
                    c < cols,
                    r <= rows,
                    data@.len() == c * rows + r,
                    forall|p: int| 0 <= p < data@.len() ==> #[trigger] data@[p] == self.at(p % rows as int, p / rows as int),
                decreases rows - r,
            {
                proof {
                    lemma_index_in_bounds(c as int, r as int, cols as int, rows as int);
                    vstd::arithmetic::mul::lemma_mul_is_commutative(cols as int, rows as int);
                    vstd::arithmetic::div_mod::lemma_fundamental_div_mod_converse(
                        c * rows + r, rows as int, c as int, r as int);
                }
                let v = self.get(r, c);
                data.push(v);
                r = r + 1;
            }
            proof {
                assert((c + 1) * rows == c * rows + rows) by (nonlinear_arith);
            }
            c = c + 1;
        }
        proof {
            vstd::arithmetic::mul::lemma_mul_is_commutative(cols as int, rows as int);
            assert forall|r: int, c: int|
                0 <= r < rows && 0 <= c < cols implies #[trigger] data@[c * rows + r] == self.at(r, c) by {
                lemma_index_in_bounds(c, r, cols as int, rows as int);
                vstd::arithmetic::div_mod::lemma_fundamental_div_mod_converse(
                    c * rows + r, rows as int, c, r);
            }
        }
        Mat { rows: cols, cols: rows, data }
    }
}

impl<T: Copy> Mat<T> {
    /// The matrix product `self * rhs`. Each element starts at `zero` and takes
    /// one step `acc = mul_add(acc, self[r, k], rhs[k, c])` for `k` in increasing order.
    pub fn dot<F: Fn(T, T, T) -> T>(&self, rhs: &Mat<T>, zero: T, mul_add: &F) -> (r: Result<
        Mat<T>,
        ShapeError,
    >)
        requires
            self.nrows() * rhs.ncols() <= usize::MAX,
            forall|acc: T, x: T, y: T| mul_add.requires((acc, x, y)),
        ensures
            r is Ok <==> self.ncols() == rhs.nrows(),
            r is Err ==> r == Err::<Mat<T>, ShapeError>(self.mismatch(rhs)),
            r matches Ok(m) ==> m.is_product_of(self, rhs, zero, *mul_add),
    {
        proof {
            use_type_invariant(self);
            use_type_invariant(rhs);
        }
        if self.cols != rhs.rows {
            return Err(self.mismatch_error(rhs));
        }
        let m = self.rows;
        let n = self.cols;
        let p = rhs.cols;
        let mut data: Vec<T> = Vec::new();
        let mut r: usize = 0;
        while r < m
            invariant
                m == self.rows,
                n == self.cols,
                n == rhs.rows,
                p == rhs.cols,
                self.inv(),
                rhs.inv(),
                m * p <= usize::MAX,
                forall|acc: T, x: T, y: T| mul_add.requires((acc, x, y)),
                r <= m,
                data@.len() == r * p,
                forall|q: int| 0 <= q < data@.len() ==> #[trigger] self.dot_entry(rhs, zero, *mul_add, q / p as int, q % p as int, data@[q]),
            decreases m - r,
        {
            let mut c: usize = 0;
            while c < p
                invariant
                    m == self.rows,
                    n == self.cols,
                    n == rhs.rows,
                    p == rhs.cols,
                    self.inv(),
                    rhs.inv(),
                    m * p <= usize::MAX,
                    forall|acc: T, x: T, y: T| mul_add.requires((acc, x, y)),
                    r < m,
                    c <= p,
                    data@.len() == r * p + c,
                    forall|q: int| 0 <= q < data@.len() ==> #[trigger] self.dot_entry(rhs, zero, *mul_add, q / p as int, q % p as int, data@[q]),
                decreases p - c,
            {
                let mut acc = zero;
                let ghost mut chain: Seq<T> = seq![zero];
                let mut k: usize = 0;
                while k < n
                    invariant
                        n == self.cols,
                        n == rhs.rows,
                        p == rhs.cols,
                        m == self.rows,
                        r < m,
                        c < p,
                        forall|acc: T, x: T, y: T| mul_add.requires((acc, x, y)),
                        k <= n,
                        chain.len() == k + 1,
                        chain[0] == zero,
                        chain.last() == acc,
                        forall|j: int| 0 <= j < k ==> #[trigger] mul_add.ensures((chain[j], self.at(r as int, j), rhs.at(j, c as int)), chain[j + 1]),
                    decreases n - k,
                {
                    let x = self.get(r, k);
                    let y = rhs.get(k, c);
                    acc = mul_add(acc, x, y);
                    proof {
                        chain = chain.push(acc);
                    }
                    k = k + 1;
                }
                proof {
                    assert(is_dot_chain(self, rhs, r as int, c as int, zero, *mul_add, chain));
                    lemma_index_in_bounds(r as int, c as int, m as int, p as int);
                    vstd::arithmetic::div_mod::lemma_fundamental_div_mod_converse(
                        r * p + c, p as int, r as int, c as int);
                }
                data.push(acc);
                c = c + 1;
            }
            proof {
                assert((r + 1) * p == r * p + p) by (nonlinear_arith);
            }
            r = r + 1;
        }
        let result = Mat { rows: m, cols: p, data };
        proof {
            assert forall|i: int, j: int| 0 <= i < m && 0 <= j < p implies
                #[trigger] self.dot_entry(rhs, zero, *mul_add, i, j, result.at(i, j)) by {
                lemma_index_in_bounds(i, j, m as int, p as int);
                vstd::arithmetic::div_mod::lemma_fundamental_div_mod_converse(i * p + j, p as int, i, j);
                assert(self.dot_entry(rhs, zero, *mul_add, (i * p + j) / p as int, (i * p + j) % p as int, data@[i * p + j]));
            }
        }
        Ok(result)
    }
}

impl<T: Copy> Mat<T> {
    /// Combines every row of `self` with the one-row matrix `row`, element by element
    /// through `f`: result `(r, c)` is `f(self[r, c], row[0, c])`.
    pub fn zip_map_row<F: Fn(T, T) -> T>(&self, row: &Mat<T>, f: &F) -> (r: Result<Mat<T>, ShapeError>)
        requires
            forall|x: T, y: T| f.requires((x, y)),
        ensures
            r is Ok <==> (row.nrows() == 1 && row.ncols() == self.ncols()),
            r is Err ==> r == Err::<Mat<T>, ShapeError>(self.mismatch(row)),
            r matches Ok(m) ==> m.is_row_zip_of(self, row, *f),
    {
        proof {
            use_type_invariant(self);
            use_type_invariant(row);
        }
        if row.rows != 1 || row.cols != self.cols {
            return Err(self.mismatch_error(row));
        }
        let cols = self.cols;
        let mut data: Vec<T> = Vec::new();
        let mut i: usize = 0;
        while i < self.data.len()
            invariant
                self.inv(),
                row.inv(),
                cols == self.cols,
                row.data@.len() == cols,
                i <= self.data@.len(),
                data@.len() == i,
                forall|x: T, y: T| f.requires((x, y)),
                forall|j: int|
                    0 <= j < i ==> f.ensures((self.data@[j], row.data@[j % cols as int]), #[trigger] data@[j]),
            decreases self.data@.len() - i,
        {
            let v = f(self.data[i], row.data[i % cols]);
            data.push(v);
            i = i + 1;
        }
        Ok(Mat { rows: self.rows, cols: self.cols, data })
    }

    /// A fresh matrix with the same shape and elements as `self`.
    pub fn copied(&self) -> (r: Mat<T>)
        ensures
            r.nrows() == self.nrows(),
            r.ncols() == self.ncols(),
            r@ == self@,
    {
        proof {
            use_type_invariant(self);
        }
        let data = vstd::slice::slice_to_vec(self.data.as_slice());
        Mat { rows: self.rows, cols: self.cols, data }
    }
}

impl<T: Copy> Mat<T> {
    /// All elements folded in row-major order: starts at `zero` and takes one step
    /// `acc = plus(acc, v)` per element `v`.
    pub fn sum<F: Fn(T, T) -> T>(&self, zero: T, plus: &F) -> (r: T)
        requires
            forall|acc: T, v: T| plus.requires((acc, v)),
        ensures
            is_sum_of(r, self@, zero, *plus),
    {
        let mut acc = zero;
        let ghost mut chain: Seq<T> = seq![zero];
        let mut i: usize = 0;
        while i < self.data.len()
            invariant
                forall|acc: T, v: T| plus.requires((acc, v)),
                i <= self.data@.len(),
                chain.len() == i + 1,
                chain[0] == zero,
                chain.last() == acc,
                forall|j: int| 0 <= j < i ==> #[trigger] plus.ensures((chain[j], self.data@[j]), chain[j + 1]),
            decreases self.data@.len() - i,
        {
            acc = plus(acc, self.data[i]);
            proof {
                chain = chain.push(acc);
            }
            i = i + 1;
        }
        proof {
            assert(is_fold_chain(self@, zero, *plus, chain));
        }
        acc
    }
}

/// `acc` runs through `s` from `init`: step `k` is `acc[k + 1] = f(acc[k], s[k])`.
pub open spec fn is_fold_chain<T, F: Fn(T, T) -> T>(s: Seq<T>, init: T, f: F, acc: Seq<T>) -> bool {
    &&& acc.len() == s.len() + 1
    &&& acc[0] == init
    &&& forall|k: int| 0 <= k < s.len() ==> #[trigger] f.ensures((acc[k], s[k]), acc[k + 1])
}

/// `v` is what folding `s` from `zero` through `plus` ends with.
pub open spec fn is_sum_of<T, F: Fn(T, T) -> T>(v: T, s: Seq<T>, zero: T, plus: F) -> bool {
    exists|acc: Seq<T>| #[trigger] is_fold_chain(s, zero, plus, acc) && acc.last() == v
}

/// `acc` is the running total of row `r` of `a` against column `c` of `b`: it starts
/// at `zero`, and step `k` folds in `a[r, k]` and `b[k, c]` through `mul_add`.
pub open spec fn is_dot_chain<T, F: Fn(T, T, T) -> T>(a: &Mat<T>, b: &Mat<T>, r: int, c: int, zero: T, mul_add: F, acc: Seq<T>) -> bool {
    &&& acc.len() == a.ncols() + 1
    &&& acc[0] == zero
    &&& forall|k: int| 0 <= k < a.ncols() ==> #[trigger] mul_add.ensures((acc[k], a.at(r, k), b.at(k, c)), acc[k + 1])
}

impl<T> Mat<T> {
    /// The error value that reports `self` and `other` as operands that do not fit.
    pub open spec fn mismatch(&self, other: &Mat<T>) -> ShapeError {
        ShapeError::Mismatch {
            left_rows: self.nrows() as usize,
            left_cols: self.ncols() as usize,
            right_rows: other.nrows() as usize,
            right_cols: other.ncols() as usize,
        }
    }

    /// `self` is `a` and `b` combined element by element through `f`.
    pub open spec fn is_zip_of<F: Fn(T, T) -> T>(&self, a: &Mat<T>, b: &Mat<T>, f: F) -> bool {
        &&& self.nrows() == a.nrows()
        &&& self.ncols() == a.ncols()
        &&& self.shaped()
        &&& forall|i: int| 0 <= i < self@.len() ==> f.ensures((a@[i], b@[i]), #[trigger] self@[i])
    }

    /// `v` is the last value of some running total of row `r` of `self` against column `c` of `b`.
    pub open spec fn dot_entry<F: Fn(T, T, T) -> T>(&self, b: &Mat<T>, zero: T, mul_add: F, r: int, c: int, v: T) -> bool {
        exists|acc: Seq<T>| #[trigger] is_dot_chain(self, b, r, c, zero, mul_add, acc) && acc.last() == v
    }

    /// `self` is the product of `a` and `b`, each element a running total from `zero`
    /// through `mul_add`.
    pub open spec fn is_product_of<F: Fn(T, T, T) -> T>(&self, a: &Mat<T>, b: &Mat<T>, zero: T, mul_add: F) -> bool {
        &&& self.nrows() == a.nrows()
        &&& self.ncols() == b.ncols()
        &&& self.shaped()
        &&& forall|r: int, c: int| 0 <= r < self.nrows() && 0 <= c < self.ncols() ==> #[trigger] a.dot_entry(b, zero, mul_add, r, c, self.at(r, c))
    }

    /// `self` is every row of `a` combined with the single row of `b` through `f`.
    pub open spec fn is_row_zip_of<F: Fn(T, T) -> T>(&self, a: &Mat<T>, b: &Mat<T>, f: F) -> bool {
        &&& self.nrows() == a.nrows()
        &&& self.ncols() == a.ncols()
        &&& self.shaped()
        &&& forall|i: int| 0 <= i < self@.len() ==> f.ensures((a@[i], b@[i % a.ncols() as int]), #[trigger] self@[i])
    }

    /// `self` holds the transpose of `m`.
    pub open spec fn is_transpose_of(&self, m: &Mat<T>) -> bool {
        &&& self.nrows() == m.ncols()
        &&& self.ncols() == m.nrows()
        &&& self.shaped()
        &&& m.shaped()
        &&& forall|r: int, c: int|
            0 <= r < m.nrows() && 0 <= c < m.ncols() ==> #[trigger] self.at(c, r) == m.at(r, c)
    }
}

/// Transposing twice gives back the matrix it started from: same extents, same elements.
pub proof fn lemma_transpose_twice<T>(m: Mat<T>, t: Mat<T>, tt: Mat<T>)
    requires
        t.is_transpose_of(&m),
        tt.is_transpose_of(&t),
    ensures
        tt.nrows() == m.nrows(),
        tt.ncols() == m.ncols(),
        tt@ == m@,
{
    let rows = m.nrows() as int;
    let cols = m.ncols() as int;
    assert forall|p: int| 0 <= p < m@.len() implies tt@[p] == m@[p] by {
        let r = p / cols;
        let c = p % cols;
        vstd::arithmetic::div_mod::lemma_fundamental_div_mod(p, cols);
        vstd::arithmetic::mul::lemma_mul_is_commutative(cols, r);
        assert(0 <= c < cols);
        assert(0 <= r < rows) by {
            if r >= rows {
                assert(cols * r >= cols * rows) by (nonlinear_arith)
                    requires
                        r >= rows,
                        cols > 0,
                ;
                vstd::arithmetic::mul::lemma_mul_is_commutative(cols, rows);
            }
            vstd::arithmetic::div_mod::lemma_div_pos_is_pos(p, cols);
        }
        assert(tt.at(r, c) == t.at(c, r));
        assert(t.at(c, r) == m.at(r, c));
    }
    assert(tt@ =~= m@);
}

} // verus!
