//! Dense arrays of rank two and three, stored row by row in one vector.
use vstd::prelude::*;

verus! {

/// The position of cell `(i, j)` in the storage of a matrix with `cols` columns.
pub open spec fn offset2(cols: int, i: int, j: int) -> int {
    i * cols + j
}

/// The position of cell `(i, j, k)` in the storage of a tensor of the given shape.
pub open spec fn offset3(shape: (usize, usize, usize), i: int, j: int, k: int) -> int {
    (i * shape.1 + j) * shape.2 + k
}

/// The number of cells of a tensor of the given shape.
pub open spec fn volume(shape: (usize, usize, usize)) -> int {
    shape.0 * shape.1 * shape.2
}

/// An index inside a matrix has its position inside the storage.
pub proof fn lemma_offset2_bound(rows: int, cols: int, i: int, j: int)
    requires
        0 <= i < rows,
        0 <= j < cols,
    ensures
        0 <= i * cols <= offset2(cols, i, j) < rows * cols,
        offset2(cols, i, j) + (cols - j) <= rows * cols,
{
    assert(i * cols + cols <= rows * cols) by (nonlinear_arith)
        requires
            0 <= i < rows,
            0 <= cols,
    ;
    assert(0 <= i * cols) by (nonlinear_arith)
        requires
            0 <= i,
            0 <= cols,
    ;
}

/// Positions grow with the index, read as a two-digit number.
pub proof fn lemma_offset2_order(cols: int, i1: int, j1: int, i2: int, j2: int)
    requires
        0 <= i1,
        0 <= i2,
        0 <= j1 < cols,
        0 <= j2 < cols,
        i1 < i2 || (i1 == i2 && j1 < j2),
    ensures
        offset2(cols, i1, j1) < offset2(cols, i2, j2),
{
    if i1 < i2 {
        assert(i1 * cols + cols <= i2 * cols) by (nonlinear_arith)
            requires
                i1 < i2,
                0 <= cols,
        ;
    }
}

/// An index inside a tensor has its position inside the storage, and so has
/// every value computed on the way there.
pub proof fn lemma_offset3_bound(shape: (usize, usize, usize), i: int, j: int, k: int)
    requires
        0 <= i < shape.0,
        0 <= j < shape.1,
        0 <= k < shape.2,
    ensures
        0 <= i * shape.1 <= i * shape.1 + j < shape.0 * shape.1 <= volume(shape),
        0 <= (i * shape.1 + j) * shape.2 <= offset3(shape, i, j, k) < volume(shape),
{
    let d0 = shape.0 as int;
    let d1 = shape.1 as int;
    let d2 = shape.2 as int;
    lemma_offset2_bound(d0, d1, i, j);
    lemma_offset2_bound(d0 * d1, d2, i * d1 + j, k);
    assert(d0 * d1 <= d0 * d1 * d2) by (nonlinear_arith)
        requires
            0 <= d0 * d1,
            1 <= d2,
    ;
}

/// Positions grow with the index, read as a three-digit number.
pub proof fn lemma_offset3_order(
    shape: (usize, usize, usize),
    i1: int,
    j1: int,
    k1: int,
    i2: int,
    j2: int,
    k2: int,
)
    requires
        0 <= i1,
        0 <= i2,
        0 <= j1 < shape.1,
        0 <= j2 < shape.1,
        0 <= k1 < shape.2,
        0 <= k2 < shape.2,
        i1 < i2 || (i1 == i2 && j1 < j2) || (i1 == i2 && j1 == j2 && k1 < k2),
    ensures
        offset3(shape, i1, j1, k1) < offset3(shape, i2, j2, k2),
{
    let d1 = shape.1 as int;
    let d2 = shape.2 as int;
    let r1 = i1 * d1 + j1;
    let r2 = i2 * d1 + j2;
    if i1 < i2 {
        assert(i1 * d1 + d1 <= i2 * d1) by (nonlinear_arith)
            requires
                i1 < i2,
                0 <= d1,
        ;
    }
    if r1 < r2 {
        assert(r1 * d2 + d2 <= r2 * d2) by (nonlinear_arith)
            requires
                r1 < r2,
                0 <= d2,
        ;
    }
}

/// Every position inside the storage of a tensor is that of an index
/// inside the tensor.
pub proof fn lemma_offset3_onto(shape: (usize, usize, usize), n: int)
    requires
        0 <= n < volume(shape),
    ensures
        exists|i: int, j: int, k: int|
            0 <= i < shape.0 && 0 <= j < shape.1 && 0 <= k < shape.2 && #[trigger] offset3(
                shape,
                i,
                j,
                k,
            ) == n,
{
    let d0 = shape.0 as int;
    let d1 = shape.1 as int;
    let d2 = shape.2 as int;
    assert(d1 > 0 && d2 > 0) by (nonlinear_arith)
        requires
            0 <= n < d0 * d1 * d2,
            0 <= d0,
            0 <= d1,
            0 <= d2,
    ;
    let k = n % d2;
    let r = n / d2;
    assert(n == r * d2 + k && 0 <= k < d2 && 0 <= r) by (nonlinear_arith)
        requires
            k == n % d2,
            r == n / d2,
            d2 > 0,
            0 <= n,
    ;
    assert(r < d0 * d1) by (nonlinear_arith)
        requires
            n == r * d2 + k,
            0 <= k,
            n < d0 * d1 * d2,
            d2 > 0,
    ;
    let j = r % d1;
    let i = r / d1;
    assert(r == i * d1 + j && 0 <= j < d1 && 0 <= i) by (nonlinear_arith)
        requires
            j == r % d1,
            i == r / d1,
            d1 > 0,
            0 <= r,
    ;
    assert(i < d0) by (nonlinear_arith)
        requires
            r == i * d1 + j,
            0 <= j,
            r < d0 * d1,
            d1 > 0,
    ;
    assert(offset3(shape, i, j, k) == n);
}

/// The number of cells of a tensor of the given shape, where it fits the
/// machine.
pub fn checked_volume(shape: (usize, usize, usize)) -> (r: Option<usize>)
    ensures
        match r {
            Some(n) => n == volume(shape),
            None => volume(shape) > usize::MAX,
        },
{
    if shape.0 == 0 || shape.1 == 0 || shape.2 == 0 {
        assert(volume(shape) == 0) by (nonlinear_arith)
            requires
                shape.0 == 0 || shape.1 == 0 || shape.2 == 0,
        ;
        return Some(0);
    }
    match shape.0.checked_mul(shape.1) {
        Some(n) => n.checked_mul(shape.2),
        None => {
            assert(shape.0 * shape.1 <= shape.0 * shape.1 * shape.2) by (nonlinear_arith)
                requires
                    0 <= shape.0 * shape.1,
                    1 <= shape.2,
            ;
            None
        },
    }
}

/// A matrix: `shape.0` rows of `shape.1` cells each.
#[derive(Debug, PartialEq)]
pub struct Matrix<T> {
    pub shape: (usize, usize),
    pub data: Vec<T>,
}

/// A tensor of rank three.
#[derive(Debug, PartialEq)]
pub struct Tensor3<T> {
    pub shape: (usize, usize, usize),
    pub data: Vec<T>,
}

impl<T: Copy> Matrix<T> {
    /// The storage holds exactly the cells of the shape.
    pub open spec fn wf(&self) -> bool {
        self.data@.len() == self.shape.0 * self.shape.1 <= usize::MAX
    }

    /// The cell in row `i`, column `j`.
    pub open spec fn at(&self, i: int, j: int) -> T {
        self.data@[offset2(self.shape.1 as int, i, j)]
    }

    /// Row `i`.
    pub open spec fn row(&self, i: int) -> Seq<T> {
        Seq::new(self.shape.1 as nat, |j: int| self.at(i, j))
    }

    /// The matrix of the given shape over the given cells, row by row; `None`
    /// where the number of cells is not that of the shape.
    pub fn from_shape_vec(shape: (usize, usize), data: Vec<T>) -> (r: Option<Matrix<T>>)
        ensures
            match r {
                Some(m) => m.wf() && m.shape == shape && m.data == data,
                None => data@.len() != shape.0 * shape.1,
            },
    {
        let len = data.len();
        match shape.0.checked_mul(shape.1) {
            Some(n) => {
                if n == len {
                    Some(Matrix { shape, data })
                } else {
                    None
                }
            },
            None => None,
        }
    }

    /// Whether the storage holds exactly the cells of the shape.
    pub fn is_well_formed(&self) -> (r: bool)
        ensures
            r == self.wf(),
    {
        let len = self.data.len();
        match self.shape.0.checked_mul(self.shape.1) {
            Some(n) => n == len,
            None => false,
        }
    }

    /// The number of rows and of columns.
    pub fn dim(&self) -> (r: (usize, usize))
        ensures
            r == self.shape,
    {
        self.shape
    }

    /// The cell in row `i`, column `j`.
    pub fn get(&self, i: usize, j: usize) -> (r: T)
        requires
            self.wf(),
            i < self.shape.0,
            j < self.shape.1,
        ensures
            r == self.at(i as int, j as int),
    {
        proof {
            lemma_offset2_bound(self.shape.0 as int, self.shape.1 as int, i as int, j as int);
        }
        self.data[i * self.shape.1 + j]
    }
}

impl<T: Copy> Tensor3<T> {
    /// The storage holds exactly the cells of the shape.
    pub open spec fn wf(&self) -> bool {
        self.data@.len() == volume(self.shape) <= usize::MAX
    }

    /// The cell at `(i, j, k)`.
    pub open spec fn at(&self, i: int, j: int, k: int) -> T {
        self.data@[offset3(self.shape, i, j, k)]
    }

    /// The extent of the given axis.
    pub open spec fn extent(&self, axis: int) -> usize {
        if axis == 0 {
            self.shape.0
        } else if axis == 1 {
            self.shape.1
        } else {
            self.shape.2
        }
    }

    /// The extents of the two axes other than the given one, in their order.
    pub open spec fn cross_shape(&self, axis: int) -> (usize, usize) {
        if axis == 0 {
            (self.shape.1, self.shape.2)
        } else if axis == 1 {
            (self.shape.0, self.shape.2)
        } else {
            (self.shape.0, self.shape.1)
        }
    }

    /// The cell with index `x` on the given axis and `(a, b)` on the other two.
    pub open spec fn along(&self, axis: int, x: int, a: int, b: int) -> T {
        if axis == 0 {
            self.at(x, a, b)
        } else if axis == 1 {
            self.at(a, x, b)
        } else {
            self.at(a, b, x)
        }
    }

    /// The cells along the given axis at `(a, b)` on the other two.
    pub open spec fn lane(&self, axis: int, a: int, b: int) -> Seq<T> {
        Seq::new(self.extent(axis) as nat, |x: int| self.along(axis, x, a, b))
    }

    /// The tensor of the given shape over the given cells, in row-major
    /// order; `None` where the number of cells is not that of the shape.
    pub fn from_shape_vec(shape: (usize, usize, usize), data: Vec<T>) -> (r: Option<Tensor3<T>>)
        ensures
            match r {
                Some(t) => t.wf() && t.shape == shape && t.data == data,
                None => data@.len() != volume(shape),
            },
    {
        let len = data.len();
        match checked_volume(shape) {
            Some(n) => {
                if n == len {
                    Some(Tensor3 { shape, data })
                } else {
                    None
                }
            },
            None => None,
        }
    }

    /// Whether the storage holds exactly the cells of the shape.
    pub fn is_well_formed(&self) -> (r: bool)
        ensures
            r == self.wf(),
    {
        let len = self.data.len();
        match checked_volume(self.shape) {
            Some(n) => n == len,
            None => false,
        }
    }

    /// The extent of each axis.
    pub fn dim(&self) -> (r: (usize, usize, usize))
        ensures
            r == self.shape,
    {
        self.shape
    }

    /// The cell at `(i, j, k)`.
    pub fn get(&self, i: usize, j: usize, k: usize) -> (r: T)
        requires
            self.wf(),
            i < self.shape.0,
            j < self.shape.1,
            k < self.shape.2,
        ensures
            r == self.at(i as int, j as int, k as int),
    {
        proof {
            lemma_offset3_bound(self.shape, i as int, j as int, k as int);
        }
        self.data[(i * self.shape.1 + j) * self.shape.2 + k]
    }

    /// The cell with index `x` on the given axis and `(a, b)` on the other two.
    pub fn get_along(&self, axis: usize, x: usize, a: usize, b: usize) -> (r: T)
        requires
            self.wf(),
            axis < 3,
            x < self.extent(axis as int),
            a < self.cross_shape(axis as int).0,
            b < self.cross_shape(axis as int).1,
        ensures
            r == self.along(axis as int, x as int, a as int, b as int),
    {
        if axis == 0 {
            self.get(x, a, b)
        } else if axis == 1 {
            self.get(a, x, b)
        } else {
            self.get(a, b, x)
        }
    }
}

/// Whether `(p, q)` comes before `(i, j)` in row-major order.
pub open spec fn precedes2(p: int, q: int, i: int, j: int) -> bool {
    p < i || (p == i && q < j)
}

/// Whether `(p, q, r)` comes before `(i, j, k)` in row-major order.
pub open spec fn precedes3(p: int, q: int, r: int, i: int, j: int, k: int) -> bool {
    p < i || (p == i && q < j) || (p == i && q == j && r < k)
}

/// The first `offset2(shape.1, i, j)` cells of a matrix built by `f` are in place.
pub open spec fn filled2<T, F: Fn(usize, usize) -> T>(
    f: F,
    shape: (usize, usize),
    cells: Seq<T>,
    i: int,
    j: int,
) -> bool {
    &&& cells.len() == offset2(shape.1 as int, i, j)
    &&& forall|p: usize, q: usize|
        p < shape.0 && q < shape.1 && precedes2(p as int, q as int, i, j) ==> call_ensures(
            f,
            (p, q),
            #[trigger] cells[offset2(shape.1 as int, p as int, q as int)],
        )
}

/// The first `offset3(shape, i, j, k)` cells of a tensor built by `f` are in place.
pub open spec fn filled3<T, F: Fn(usize, usize, usize) -> T>(
    f: F,
    shape: (usize, usize, usize),
    cells: Seq<T>,
    i: int,
    j: int,
    k: int,
) -> bool {
    &&& cells.len() == offset3(shape, i, j, k)
    &&& forall|p: usize, q: usize, r: usize|
        p < shape.0 && q < shape.1 && r < shape.2 && precedes3(
            p as int,
            q as int,
            r as int,
            i,
            j,
            k,
        ) ==> call_ensures(f, (p, q, r), #[trigger] cells[offset3(shape, p as int, q as int, r as int)])
}

impl<T: Copy> Matrix<T> {
    /// The matrix of the given shape whose cell `(i, j)` is `f(i, j)`.
    pub fn from_shape_fn<F: Fn(usize, usize) -> T>(shape: (usize, usize), f: F) -> (m: Matrix<T>)
        requires
            shape.0 * shape.1 <= usize::MAX,
            forall|i: usize, j: usize| i < shape.0 && j < shape.1 ==> call_requires(f, (i, j)),
        ensures
            m.wf(),
            m.shape == shape,
            forall|i: usize, j: usize|
                i < shape.0 && j < shape.1 ==> call_ensures(
                    f,
                    (i, j),
                    #[trigger] m.at(i as int, j as int),
                ),
    {
        let mut cells: Vec<T> = Vec::new();
        let mut i: usize = 0;
        assert(offset2(shape.1 as int, 0, 0) == 0);
        while i < shape.0
            invariant
                forall|i: usize, j: usize| i < shape.0 && j < shape.1 ==> call_requires(f, (i, j)),
                i <= shape.0,
                filled2(f, shape, cells@, i as int, 0),
            decreases shape.0 - i,
        {
            let mut j: usize = 0;
            while j < shape.1
                invariant
                    forall|i: usize, j: usize|
                        i < shape.0 && j < shape.1 ==> call_requires(f, (i, j)),
                    i < shape.0,
                    j <= shape.1,
                    filled2(f, shape, cells@, i as int, j as int),
                decreases shape.1 - j,
            {
                let v = f(i, j);
                let ghost before = cells@;
                cells.push(v);
                proof {
                    assert forall|p: usize, q: usize|
                        p < shape.0 && q < shape.1 && precedes2(
                            p as int,
                            q as int,
                            i as int,
                            j + 1,
                        ) implies call_ensures(
                        f,
                        (p, q),
                        #[trigger] cells@[offset2(shape.1 as int, p as int, q as int)],
                    ) by {
                        if precedes2(p as int, q as int, i as int, j as int) {
                            lemma_offset2_order(shape.1 as int, p as int, q as int, i as int, j as int);
                            lemma_offset2_bound(shape.0 as int, shape.1 as int, p as int, q as int);
                            assert(cells@[offset2(shape.1 as int, p as int, q as int)]
                                == before[offset2(shape.1 as int, p as int, q as int)]);
                        }
                    }
                }
                j += 1;
            }
            assert(i * shape.1 + shape.1 == (i + 1) * shape.1) by (nonlinear_arith);
            i += 1;
        }
        Matrix { shape, data: cells }
    }
}

impl<T: Copy> Tensor3<T> {
    /// The tensor of the given shape whose cell `(i, j, k)` is `f(i, j, k)`.
    pub fn from_shape_fn<F: Fn(usize, usize, usize) -> T>(
        shape: (usize, usize, usize),
        f: F,
    ) -> (t: Tensor3<T>)
        requires
            volume(shape) <= usize::MAX,
            forall|i: usize, j: usize, k: usize|
                i < shape.0 && j < shape.1 && k < shape.2 ==> call_requires(f, (i, j, k)),
        ensures
            t.wf(),
            t.shape == shape,
            forall|i: usize, j: usize, k: usize|
                i < shape.0 && j < shape.1 && k < shape.2 ==> call_ensures(
                    f,
                    (i, j, k),
                    #[trigger] t.at(i as int, j as int, k as int),
                ),
    {
        let mut cells: Vec<T> = Vec::new();
        let mut i: usize = 0;
        assert(offset3(shape, 0, 0, 0) == 0) by (nonlinear_arith);
        while i < shape.0
            invariant
                forall|i: usize, j: usize, k: usize|
                    i < shape.0 && j < shape.1 && k < shape.2 ==> call_requires(f, (i, j, k)),
                i <= shape.0,
                filled3(f, shape, cells@, i as int, 0, 0),
            decreases shape.0 - i,
        {
            let mut j: usize = 0;
            while j < shape.1
                invariant
                    forall|i: usize, j: usize, k: usize|
                        i < shape.0 && j < shape.1 && k < shape.2 ==> call_requires(f, (i, j, k)),
                    i < shape.0,
                    j <= shape.1,
                    filled3(f, shape, cells@, i as int, j as int, 0),
                decreases shape.1 - j,
            {
                let mut k: usize = 0;
                while k < shape.2
                    invariant
                        forall|i: usize, j: usize, k: usize|
                            i < shape.0 && j < shape.1 && k < shape.2 ==> call_requires(
                                f,
                                (i, j, k),
                            ),
                        i < shape.0,
                        j < shape.1,
                        k <= shape.2,
                        filled3(f, shape, cells@, i as int, j as int, k as int),
                    decreases shape.2 - k,
                {
                    let v = f(i, j, k);
                    let ghost before = cells@;
                    cells.push(v);
                    proof {
                        assert forall|p: usize, q: usize, r: usize|
                            p < shape.0 && q < shape.1 && r < shape.2 && precedes3(
                                p as int,
                                q as int,
                                r as int,
                                i as int,
                                j as int,
                                k + 1,
                            ) implies call_ensures(
                            f,
                            (p, q, r),
                            #[trigger] cells@[offset3(shape, p as int, q as int, r as int)],
                        ) by {
                            if precedes3(p as int, q as int, r as int, i as int, j as int, k as int) {
                                lemma_offset3_order(
                                    shape,
                                    p as int,
                                    q as int,
                                    r as int,
                                    i as int,
                                    j as int,
                                    k as int,
                                );
                                lemma_offset3_bound(shape, p as int, q as int, r as int);
                                assert(cells@[offset3(shape, p as int, q as int, r as int)]
                                    == before[offset3(shape, p as int, q as int, r as int)]);
                            }
                        }
                    }
                    k += 1;
                }
                assert((i * shape.1 + j) * shape.2 + shape.2 == (i * shape.1 + (j + 1)) * shape.2)
                    by (nonlinear_arith);
                j += 1;
            }
            assert((i * shape.1 + shape.1) * shape.2 == ((i + 1) * shape.1 + 0) * shape.2)
                by (nonlinear_arith);
            i += 1;
        }
        assert(offset3(shape, shape.0 as int, 0, 0) == volume(shape));
        Tensor3 { shape, data: cells }
    }
}

} // verus!
