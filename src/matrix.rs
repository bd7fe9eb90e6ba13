use vstd::prelude::*;

use crate::render::{layout, render_grid, texts};

verus! {

/// Why a matrix could not be built, or why two matrices could not be combined.
#[derive(Debug, Clone, Copy, PartialEq, Eq, Structural)]
pub enum ShapeError {
    /// No rows were given, or the first row has no entries.
    Empty,
    /// Row `row` has a different number of entries than the first row.
    Jagged { row: usize },
    /// The operands' shapes do not fit the operation.
    Mismatch { left_rows: usize, left_cols: usize, right_rows: usize, right_cols: usize },
}

/// True when `m` has at least one row, at least one column, and every row
/// has as many entries as the first.
pub open spec fn rectangular<T>(m: Seq<Seq<T>>) -> bool {
    &&& m.len() >= 1
    &&& m[0].len() >= 1
    &&& forall|i: int| 0 <= i < m.len() ==> (#[trigger] m[i]).len() == m[0].len()
}

/// The rows of `rows` as sequences.
pub open spec fn rows_view<T>(rows: Seq<Vec<T>>) -> Seq<Seq<T>> {
    rows.map_values(|r: Vec<T>| r@)
}

/// `c` has the shape of `a`, and each entry of `c` is a result of `f` on the
/// entries of `a` and `b` at the same place.
pub open spec fn zipped<T, F: Fn(T, T) -> T>(
    a: Seq<Seq<T>>,
    b: Seq<Seq<T>>,
    f: F,
    c: Seq<Seq<T>>,
) -> bool {
    &&& c.len() == a.len()
    &&& forall|i: int| 0 <= i < a.len() ==> (#[trigger] c[i]).len() == a[i].len()
    &&& forall|i: int, j: int|
        0 <= i < a.len() && 0 <= j < a[i].len() ==> f.ensures((a[i][j], b[i][j]), #[trigger] c[i][j])
}

/// `c` has the shape of `a`, and each entry of `c` is a result of `f` on the
/// entry of `a` at the same place.
pub open spec fn mapped<T, U, F: Fn(T) -> U>(a: Seq<Seq<T>>, f: F, c: Seq<Seq<U>>) -> bool {
    &&& c.len() == a.len()
    &&& forall|i: int| 0 <= i < a.len() ==> (#[trigger] c[i]).len() == a[i].len()
    &&& forall|i: int, j: int|
        0 <= i < a.len() && 0 <= j < a[i].len() ==> f.ensures((a[i][j],), #[trigger] c[i][j])
}

/// Column `j` of `m`.
pub open spec fn column<T>(m: Seq<Seq<T>>, j: int) -> Seq<T> {
    Seq::new(m.len(), |k: int| m[k][j])
}

/// `acc` records a left-to-right accumulation over the pairs `(xs[k], ys[k])`
/// starting from `zero`: each value is a result of `step` on the one before
/// it and the next pair.
pub open spec fn accumulates<T, F: Fn(T, T, T) -> T>(
    step: F,
    zero: T,
    xs: Seq<T>,
    ys: Seq<T>,
    acc: Seq<T>,
) -> bool {
    &&& acc.len() == xs.len() + 1
    &&& acc[0] == zero
    &&& forall|k: int|
        1 <= k <= xs.len() ==> step.ensures((acc[k - 1], xs[k - 1], ys[k - 1]), #[trigger] acc[k])
}

/// `v` is where some accumulation over `xs` and `ys` from `zero` ends.
pub open spec fn folds_to<T, F: Fn(T, T, T) -> T>(
    step: F,
    zero: T,
    xs: Seq<T>,
    ys: Seq<T>,
    v: T,
) -> bool {
    exists|acc: Seq<T>| #[trigger] accumulates(step, zero, xs, ys, acc) && acc.last() == v
}

/// `c` is the product of `a` and `b`: it has `a`'s rows and `b`'s columns,
/// and entry `(i, j)` accumulates row `i` of `a` against column `j` of `b`
/// by `step` (an accumulator, a left entry, a right entry), from `zero`, in
/// increasing order of the inner index.
pub open spec fn multiplied<T, F: Fn(T, T, T) -> T>(
    a: Seq<Seq<T>>,
    b: Seq<Seq<T>>,
    zero: T,
    step: F,
    c: Seq<Seq<T>>,
) -> bool {
    &&& c.len() == a.len()
    &&& forall|i: int| 0 <= i < a.len() ==> (#[trigger] c[i]).len() == b[0].len()
    &&& forall|i: int, j: int|
        0 <= i < a.len() && 0 <= j < b[0].len() ==> folds_to(step, zero, a[i], column(b, j), #[trigger] c[i][j])
}

/// The error reported when `a` and `b` do not fit an operation.
pub open spec fn mismatch_of<T>(a: &Matrix<T>, b: &Matrix<T>) -> ShapeError {
    ShapeError::Mismatch {
        left_rows: a.rows() as usize,
        left_cols: a.cols() as usize,
        right_rows: b.rows() as usize,
        right_cols: b.cols() as usize,
    }
}

/// The texts of a matrix of strings.
pub open spec fn string_texts(m: Seq<Seq<String>>) -> Seq<Seq<Seq<char>>> {
    m.map_values(|row: Seq<String>| row.map_values(|s: String| s@))
}

/// A dense, rectangular, row-major matrix with at least one row and one column.
#[derive(Clone, Debug)]
pub struct Matrix<T> {
    elements: Vec<Vec<T>>,
    row: usize,
    col: usize,
}

impl<T> View for Matrix<T> {
    type V = Seq<Seq<T>>;

    closed spec fn view(&self) -> Seq<Seq<T>> {
        rows_view(self.elements@)
    }
}

impl<T> Matrix<T> {
    /// The stored dimensions agree with the storage, which is rectangular.
    pub closed spec fn wf(&self) -> bool {
        &&& self.row == self.elements@.len()
        &&& self.col == self.elements@[0].len()
        &&& rectangular(self@)
    }

    /// Number of rows.
    pub open spec fn rows(&self) -> nat {
        self@.len()
    }

    /// Number of columns.
    pub open spec fn cols(&self) -> nat {
        self@[0].len()
    }

    /// Whether `self` and `other` have the same number of rows and of columns.
    pub open spec fn same_shape(&self, other: &Self) -> bool {
        self.rows() == other.rows() && self.cols() == other.cols()
    }

    /// Number of rows.
    pub fn row_count(&self) -> (r: usize)
        requires
            self.wf(),
        ensures
            r == self.rows(),
    {
        self.row
    }

    /// Number of columns.
    pub fn col_count(&self) -> (r: usize)
        requires
            self.wf(),
        ensures
            r == self.cols(),
    {
        self.col
    }
}

impl<T: Copy> Matrix<T> {
    /// Builds a matrix from its rows, copying them. Empty or jagged input is
    /// rejected; a jagged input reports the first row whose length differs
    /// from the first row's.
    pub fn new(elements: &[Vec<T>]) -> (r: Result<Self, ShapeError>)
        ensures
            r is Ok <==> rectangular(rows_view(elements@)),
            r matches Ok(m) ==> m.wf() && m@ == rows_view(elements@),
            r matches Err(ShapeError::Empty) ==> elements@.len() == 0 || elements@[0]@.len() == 0,
            r matches Err(ShapeError::Jagged { row }) ==> {
                &&& elements@.len() >= 1
                &&& elements@[0]@.len() >= 1
                &&& row < elements@.len()
                &&& elements@[row as int]@.len() != elements@[0]@.len()
                &&& forall|k: int| 0 <= k < row ==> (#[trigger] elements@[k])@.len() == elements@[0]@.len()
            },
            !(r matches Err(ShapeError::Mismatch { .. })),
    {
        if elements.len() == 0 || elements[0].len() == 0 {
            return Err(ShapeError::Empty);
        }
        let col = elements[0].len();
        let mut rows: Vec<Vec<T>> = Vec::new();
        let mut i: usize = 0;
        while i < elements.len()
            invariant
                0 <= i <= elements@.len(),
                col == elements@[0]@.len(),
                col >= 1,
                rows@.len() == i,
                forall|k: int| 0 <= k < i ==> (#[trigger] rows@[k])@ == elements@[k]@,
                forall|k: int| 0 <= k < i ==> (#[trigger] elements@[k])@.len() == col,
            decreases elements@.len() - i,
        {
            let src = &elements[i];
            if src.len() != col {
                assert(rows_view(elements@)[i as int].len() != rows_view(elements@)[0].len());
                return Err(ShapeError::Jagged { row: i });
            }
            let mut copy: Vec<T> = Vec::new();
            let mut j: usize = 0;
            while j < src.len()
                invariant
                    0 <= j <= src@.len(),
                    copy@ == src@.subrange(0, j as int),
                decreases src@.len() - j,
            {
                copy.push(src[j]);
                j += 1;
            }
            assert(copy@ =~= src@);
            rows.push(copy);
            i += 1;
        }
        let m = Matrix { elements: rows, row: elements.len(), col };
        assert(m@ =~= rows_view(elements@));
        Ok(m)
    }

    /// Combines `self` and `other` entry by entry through `f` (for `+`,
    /// `f` adds two scalars). Fails when the shapes differ.
    pub fn zip_with<F: Fn(T, T) -> T>(&self, other: &Self, f: F) -> (r: Result<Self, ShapeError>)
        requires
            self.wf(),
            other.wf(),
            forall|x: T, y: T| f.requires((x, y)),
        ensures
            r is Ok <==> self.same_shape(other),
            r matches Ok(m) ==> m.wf() && m.same_shape(self) && zipped(self@, other@, f, m@),
            r matches Err(e) ==> e == mismatch_of(self, other),
    {
        if self.row != other.row || self.col != other.col {
            return Err(
                ShapeError::Mismatch {
                    left_rows: self.row,
                    left_cols: self.col,
                    right_rows: other.row,
                    right_cols: other.col,
                },
            );
        }
        let mut rows: Vec<Vec<T>> = Vec::new();
        let mut i: usize = 0;
        while i < self.row
            invariant
                self.wf(),
                other.wf(),
                self.same_shape(other),
                forall|x: T, y: T| f.requires((x, y)),
                i <= self.row,
                rows@.len() == i,
                forall|k: int| 0 <= k < i ==> (#[trigger] rows@[k])@.len() == self.col,
                forall|k: int, j: int|
                    0 <= k < i && 0 <= j < self.col ==> f.ensures(
                        (self@[k][j], other@[k][j]),
                        #[trigger] rows@[k]@[j],
                    ),
            decreases self.row - i,
        {
            let a = &self.elements[i];
            let b = &other.elements[i];
            assert(a@ == self@[i as int] && b@ == other@[i as int]);
            let mut out: Vec<T> = Vec::new();
            let mut j: usize = 0;
            while j < self.col
                invariant
                    forall|x: T, y: T| f.requires((x, y)),
                    a@.len() == self.col,
                    b@.len() == self.col,
                    j <= self.col,
                    out@.len() == j,
                    forall|k: int| 0 <= k < j ==> f.ensures((a@[k], b@[k]), #[trigger] out@[k]),
                decreases self.col - j,
            {
                out.push(f(a[j], b[j]));
                j += 1;
            }
            rows.push(out);
            i += 1;
        }
        let m = Matrix { elements: rows, row: self.row, col: self.col };
        assert(m@.len() == self.row);
        assert(forall|k: int| 0 <= k < m@.len() ==> (#[trigger] m@[k]).len() == self.col);
        Ok(m)
    }

    /// Replaces `self` by `self` combined with `other` through `f`, as
    /// `zip_with` does. On a shape mismatch `self` is left unchanged.
    pub fn zip_with_assign<F: Fn(T, T) -> T>(&mut self, other: &Self, f: F) -> (r: Result<(), ShapeError>)
        requires
            old(self).wf(),
            other.wf(),
            forall|x: T, y: T| f.requires((x, y)),
        ensures
            r is Ok <==> old(self).same_shape(other),
            r is Ok ==> final(self).wf() && final(self).same_shape(old(self)) && zipped(
                old(self)@,
                other@,
                f,
                final(self)@,
            ),
            r matches Err(e) ==> e == mismatch_of(old(self), other) && *final(self) == *old(self),
    {
        match self.zip_with(other, f) {
            Ok(m) => {
                *self = m;
                Ok(())
            },
            Err(e) => Err(e),
        }
    }

    /// `self` minus `other`: `other` is mapped through `negate`, and the
    /// result combined with `self` through `plus`, as `zip_with` does. Fails
    /// when the shapes differ.
    pub fn subtract<F: Fn(T, T) -> T, G: Fn(T) -> T>(
        &self,
        other: &Self,
        plus: F,
        negate: G,
    ) -> (r: Result<Self, ShapeError>)
        requires
            self.wf(),
            other.wf(),
            forall|x: T, y: T| plus.requires((x, y)),
            forall|x: T| negate.requires((x,)),
        ensures
            r is Ok <==> self.same_shape(other),
            r matches Ok(m) ==> {
                &&& m.wf()
                &&& m.same_shape(self)
                &&& exists|n: Seq<Seq<T>>| #[trigger] mapped(other@, negate, n) && zipped(self@, n, plus, m@)
            },
            r matches Err(e) ==> e == mismatch_of(self, other),
    {
        let negated = other.map(negate);
        self.zip_with(&negated, plus)
    }

    /// Replaces `self` by `self` minus `other`, as `subtract` computes it. On
    /// a shape mismatch `self` is left unchanged.
    pub fn subtract_assign<F: Fn(T, T) -> T, G: Fn(T) -> T>(
        &mut self,
        other: &Self,
        plus: F,
        negate: G,
    ) -> (r: Result<(), ShapeError>)
        requires
            old(self).wf(),
            other.wf(),
            forall|x: T, y: T| plus.requires((x, y)),
            forall|x: T| negate.requires((x,)),
        ensures
            r is Ok <==> old(self).same_shape(other),
            r is Ok ==> {
                &&& final(self).wf()
                &&& final(self).same_shape(old(self))
                &&& exists|n: Seq<Seq<T>>| #[trigger] mapped(other@, negate, n) && zipped(old(self)@, n, plus, final(self)@)
            },
            r matches Err(e) ==> e == mismatch_of(old(self), other) && *final(self) == *old(self),
    {
        match self.subtract(other, plus, negate) {
            Ok(m) => {
                *self = m;
                Ok(())
            },
            Err(e) => Err(e),
        }
    }

    /// Applies `f` to every entry (for negation, `f` negates a scalar).
    pub fn map<U, F: Fn(T) -> U>(&self, f: F) -> (r: Matrix<U>)
        requires
            self.wf(),
            forall|x: T| f.requires((x,)),
        ensures
            r.wf(),
            r.rows() == self.rows(),
            r.cols() == self.cols(),
            mapped(self@, f, r@),
    {
        let mut rows: Vec<Vec<U>> = Vec::new();
        let mut i: usize = 0;
        while i < self.row
            invariant
                self.wf(),
                forall|x: T| f.requires((x,)),
                i <= self.row,
                rows@.len() == i,
                forall|k: int| 0 <= k < i ==> (#[trigger] rows@[k])@.len() == self.col,
                forall|k: int, j: int|
                    0 <= k < i && 0 <= j < self.col ==> f.ensures(
                        (self@[k][j],),
                        #[trigger] rows@[k]@[j],
                    ),
            decreases self.row - i,
        {
            let a = &self.elements[i];
            assert(a@ == self@[i as int]);
            let mut out: Vec<U> = Vec::new();
            let mut j: usize = 0;
            while j < self.col
                invariant
                    forall|x: T| f.requires((x,)),
                    a@.len() == self.col,
                    j <= self.col,
                    out@.len() == j,
                    forall|k: int| 0 <= k < j ==> f.ensures((a@[k],), #[trigger] out@[k]),
                decreases self.col - j,
            {
                out.push(f(a[j]));
                j += 1;
            }
            rows.push(out);
            i += 1;
        }
        let m = Matrix { elements: rows, row: self.row, col: self.col };
        assert(m@.len() == self.row);
        assert(forall|k: int| 0 <= k < m@.len() ==> (#[trigger] m@[k]).len() == self.col);
        m
    }

    /// The matrix product of `self` and `other`. Each entry starts from
    /// `zero` and takes in the inner index in increasing order through
    /// `step(accumulator, left entry, right entry)` (for `*`, `step` adds the
    /// product of the two entries to the accumulator). Fails when the column
    /// count of `self` differs from the row count of `other`.
    pub fn product<F: Fn(T, T, T) -> T>(&self, other: &Self, zero: T, step: F) -> (r: Result<
        Self,
        ShapeError,
    >)
        requires
            self.wf(),
            other.wf(),
            forall|acc: T, x: T, y: T| step.requires((acc, x, y)),
        ensures
            r is Ok <==> self.cols() == other.rows(),
            r matches Ok(m) ==> {
                &&& m.wf()
                &&& m.rows() == self.rows()
                &&& m.cols() == other.cols()
                &&& multiplied(self@, other@, zero, step, m@)
            },
            r matches Err(e) ==> e == mismatch_of(self, other),
    {
        if self.col != other.row {
            return Err(
                ShapeError::Mismatch {
                    left_rows: self.row,
                    left_cols: self.col,
                    right_rows: other.row,
                    right_cols: other.col,
                },
            );
        }
        let mut rows: Vec<Vec<T>> = Vec::new();
        let mut i: usize = 0;
        while i < self.row
            invariant
                self.wf(),
                other.wf(),
                self.cols() == other.rows(),
                forall|acc: T, x: T, y: T| step.requires((acc, x, y)),
                i <= self.row,
                rows@.len() == i,
                forall|k: int| 0 <= k < i ==> (#[trigger] rows@[k])@.len() == other.col,
                forall|k: int, j: int|
                    0 <= k < i && 0 <= j < other.col ==> folds_to(
                        step,
                        zero,
                        self@[k],
                        column(other@, j),
                        #[trigger] rows@[k]@[j],
                    ),
            decreases self.row - i,
        {
            let a = &self.elements[i];
            assert(a@ == self@[i as int]);
            let mut out: Vec<T> = Vec::new();
            let mut j: usize = 0;
            while j < other.col
                invariant
                    self.wf(),
                    other.wf(),
                    self.cols() == other.rows(),
                    forall|acc: T, x: T, y: T| step.requires((acc, x, y)),
                    i < self.row,
                    a@ == self@[i as int],
                    j <= other.col,
                    out@.len() == j,
                    forall|l: int|
                        0 <= l < j ==> folds_to(
                            step,
                            zero,
                            self@[i as int],
                            column(other@, l),
                            #[trigger] out@[l],
                        ),
                decreases other.col - j,
            {
                let ghost col = column(other@, j as int);
                let mut acc = zero;
                let ghost mut accs: Seq<T> = seq![zero];
                let mut k: usize = 0;
                while k < self.col
                    invariant
                        self.wf(),
                        other.wf(),
                        self.cols() == other.rows(),
                        forall|acc: T, x: T, y: T| step.requires((acc, x, y)),
                        j < other.col,
                        a@ == self@[i as int],
                        a@.len() == self.col,
                        col == column(other@, j as int),
                        k <= self.col,
                        accs.len() == k + 1,
                        accs[0] == zero,
                        accs.last() == acc,
                        forall|n: int|
                            1 <= n <= k ==> step.ensures(
                                (accs[n - 1], a@[n - 1], col[n - 1]),
                                #[trigger] accs[n],
                            ),
                    decreases self.col - k,
                {
                    let b = &other.elements[k];
                    assert(b@ == other@[k as int]);
                    assert(b@.len() == other.col);
                    let next = step(acc, a[k], b[j]);
                    proof {
                        accs = accs.push(next);
                    }
                    acc = next;
                    k += 1;
                }
                assert(accumulates(step, zero, self@[i as int], col, accs));
                out.push(acc);
                j += 1;
            }
            rows.push(out);
            i += 1;
        }
        let m = Matrix { elements: rows, row: self.row, col: other.col };
        assert(m@.len() == self.row);
        assert(forall|k: int| 0 <= k < m@.len() ==> (#[trigger] m@[k]).len() == other.col);
        Ok(m)
    }

    /// Replaces `self` by its product with `other`, as `product` computes it;
    /// the column count becomes that of `other`. On a shape mismatch `self`
    /// is left unchanged.
    pub fn product_assign<F: Fn(T, T, T) -> T>(&mut self, other: &Self, zero: T, step: F) -> (r:
        Result<(), ShapeError>)
        requires
            old(self).wf(),
            other.wf(),
            forall|acc: T, x: T, y: T| step.requires((acc, x, y)),
        ensures
            r is Ok <==> old(self).cols() == other.rows(),
            r is Ok ==> {
                &&& final(self).wf()
                &&& final(self).rows() == old(self).rows()
                &&& final(self).cols() == other.cols()
                &&& multiplied(old(self)@, other@, zero, step, final(self)@)
            },
            r matches Err(e) ==> e == mismatch_of(old(self), other) && *final(self) == *old(self),
    {
        match self.product(other, zero, step) {
            Ok(m) => {
                *self = m;
                Ok(())
            },
            Err(e) => Err(e),
        }
    }

    /// Whether `self` and `other` have the same shape and `close` accepts
    /// every pair of entries at the same place (for the usual equality,
    /// `close` tests that two scalars differ by at most a tolerance).
    pub fn matches_with<F: Fn(T, T) -> bool>(&self, other: &Self, close: F) -> (r: bool)
        requires
            self.wf(),
            other.wf(),
            forall|x: T, y: T| close.requires((x, y)),
        ensures
            r ==> self.same_shape(other),
            r ==> forall|i: int, j: int|
                0 <= i < self.rows() && 0 <= j < self.cols() ==> #[trigger] close.ensures(
                    (self@[i][j], other@[i][j]),
                    true,
                ),
            !r ==> !self.same_shape(other) || exists|i: int, j: int|
                0 <= i < self.rows() && 0 <= j < self.cols() && #[trigger] close.ensures(
                    (self@[i][j], other@[i][j]),
                    false,
                ),
    {
        if self.row != other.row || self.col != other.col {
            return false;
        }
        let mut i: usize = 0;
        while i < self.row
            invariant
                self.wf(),
                other.wf(),
                self.same_shape(other),
                forall|x: T, y: T| close.requires((x, y)),
                i <= self.row,
                forall|k: int, j: int|
                    0 <= k < i && 0 <= j < self.col ==> #[trigger] close.ensures(
                        (self@[k][j], other@[k][j]),
                        true,
                    ),
            decreases self.row - i,
        {
            let a = &self.elements[i];
            let b = &other.elements[i];
            assert(a@ == self@[i as int] && b@ == other@[i as int]);
            let mut j: usize = 0;
            while j < self.col
                invariant
                    self.wf(),
                    other.wf(),
                    self.same_shape(other),
                    forall|x: T, y: T| close.requires((x, y)),
                    i < self.row,
                    a@ == self@[i as int],
                    b@ == other@[i as int],
                    j <= self.col,
                    forall|k: int, l: int|
                        (0 <= k < i && 0 <= l < self.col) || (k == i && 0 <= l < j)
                            ==> #[trigger] close.ensures((self@[k][l], other@[k][l]), true),
                decreases self.col - j,
            {
                let ok = close(a[j], b[j]);
                if !ok {
                    assert(close.ensures((self@[i as int][j as int], other@[i as int][j as int]), false));
                    return false;
                }
                j += 1;
            }
            i += 1;
        }
        true
    }
}

impl Matrix<String> {
    /// Renders a matrix of cell texts as a table: a header line of column
    /// indices, then each row prefixed by its index and a `│`, every cell
    /// right-aligned to the widest text in the matrix and followed by `|`.
    pub fn render(&self) -> (r: String)
        requires
            self.wf(),
        ensures
            r@ == layout(string_texts(self@)),
    {
        assert(texts(self.elements@) =~~= string_texts(self@));
        render_grid(&self.elements)
    }
}

} // verus!
