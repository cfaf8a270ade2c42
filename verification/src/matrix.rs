//! Four-by-four matrices: the transforms that place a shape or a pattern in
//! the scene. What needs no arithmetic is here: building a transform whose
//! entries are given, turning a matrix over its diagonal, comparing two.

use vstd::prelude::*;
use crate::scalar::Scalar;

verus! {

/// A four-by-four matrix, row after row.
#[derive(Clone, Copy, Debug)]
pub struct Matrix4 {
    pub m: [Scalar; 16],
}

impl Matrix4 {
    /// The entry in row `row`, column `col`.
    pub open spec fn entry(self, row: int, col: int) -> Scalar {
        self.m@[row * 4 + col]
    }

    /// Entry by entry, the two are equal as numbers.
    pub open spec fn same(self, other: Matrix4) -> bool {
        forall|i: int| 0 <= i < 16 ==> (#[trigger] self.m@[i]).equals(other.m@[i])
    }

    /// Ones on the diagonal, positive zeros elsewhere.
    pub open spec fn identity_value() -> Matrix4 {
        Matrix4::scaling_value(Scalar::one_value(), Scalar::one_value(), Scalar::one_value())
    }

    /// The matrix that stretches the three axes by `x`, `y` and `z`.
    pub open spec fn scaling_value(x: Scalar, y: Scalar, z: Scalar) -> Matrix4 {
        let o = Scalar::zero_value();
        Matrix4 { m: [x, o, o, o, o, y, o, o, o, o, z, o, o, o, o, Scalar::one_value()] }
    }

    /// The matrix that moves a point by (x, y, z) and leaves a direction alone.
    pub open spec fn translation_value(x: Scalar, y: Scalar, z: Scalar) -> Matrix4 {
        let o = Scalar::zero_value();
        let i = Scalar::one_value();
        Matrix4 { m: [i, o, o, x, o, i, o, y, o, o, i, z, o, o, o, i] }
    }

    /// The matrix with the sixteen entries given, row after row.
    pub fn new(
        m11: Scalar,
        m12: Scalar,
        m13: Scalar,
        m14: Scalar,
        m21: Scalar,
        m22: Scalar,
        m23: Scalar,
        m24: Scalar,
        m31: Scalar,
        m32: Scalar,
        m33: Scalar,
        m34: Scalar,
        m41: Scalar,
        m42: Scalar,
        m43: Scalar,
        m44: Scalar,
    ) -> (r: Self)
        ensures
            r.m@ =~= seq![
                m11, m12, m13, m14, m21, m22, m23, m24, m31, m32, m33, m34, m41, m42, m43, m44
            ],
    {
        Matrix4 {
            m: [m11, m12, m13, m14, m21, m22, m23, m24, m31, m32, m33, m34, m41, m42, m43, m44],
        }
    }

    pub fn identity() -> (r: Self)
        ensures
            r == Matrix4::identity_value(),
    {
        Matrix4::nuscale(Scalar::one(), Scalar::one(), Scalar::one())
    }

    /// The transform that moves by (x, y, z).
    pub fn translate(x: Scalar, y: Scalar, z: Scalar) -> (r: Self)
        ensures
            r == Matrix4::translation_value(x, y, z),
    {
        let o = Scalar::zero();
        let i = Scalar::one();
        Matrix4 { m: [i, o, o, x, o, i, o, y, o, o, i, z, o, o, o, i] }
    }

    /// The transform that stretches each axis by a factor of its own.
    pub fn nuscale(x: Scalar, y: Scalar, z: Scalar) -> (r: Self)
        ensures
            r == Matrix4::scaling_value(x, y, z),
    {
        let o = Scalar::zero();
        Matrix4 { m: [x, o, o, o, o, y, o, o, o, o, z, o, o, o, o, Scalar::one()] }
    }

    /// The transform that stretches every axis by `s`.
    pub fn uscale(s: Scalar) -> (r: Self)
        ensures
            r == Matrix4::scaling_value(s, s, s),
    {
        Matrix4::nuscale(s, s, s)
    }

    /// The transform that moves each coordinate in proportion to the two
    /// others: `xy` is how far x moves for each unit of y, and so on.
    pub fn shear(xy: Scalar, xz: Scalar, yx: Scalar, yz: Scalar, zx: Scalar, zy: Scalar) -> (r:
        Self)
        ensures
            r.m@ =~= seq![
                Scalar::one_value(), xy, xz, Scalar::zero_value(),
                yx, Scalar::one_value(), yz, Scalar::zero_value(),
                zx, zy, Scalar::one_value(), Scalar::zero_value(),
                Scalar::zero_value(), Scalar::zero_value(), Scalar::zero_value(), Scalar::one_value()
            ],
    {
        let o = Scalar::zero();
        let i = Scalar::one();
        Matrix4 { m: [i, xy, xz, o, yx, i, yz, o, zx, zy, i, o, o, o, o, i] }
    }

    /// The entry in row `row`, column `col`.
    pub fn at(&self, row: usize, col: usize) -> (r: Scalar)
        requires
            row < 4,
            col < 4,
        ensures
            r == self.entry(row as int, col as int),
    {
        self.m[row * 4 + col]
    }

    /// The matrix turned over its diagonal: rows become columns.
    pub fn transpose(&self) -> (r: Self)
        ensures
            forall|row: int, col: int|
                0 <= row < 4 && 0 <= col < 4 ==> #[trigger] r.entry(row, col) == self.entry(
                    col,
                    row,
                ),
    {
        let a = &self.m;
        let r = Matrix4 {
            m: [
                a[0], a[4], a[8], a[12],
                a[1], a[5], a[9], a[13],
                a[2], a[6], a[10], a[14],
                a[3], a[7], a[11], a[15],
            ],
        };
        assert forall|row: int, col: int| 0 <= row < 4 && 0 <= col < 4 implies #[trigger] r.entry(
            row,
            col,
        ) == self.entry(col, row) by {
            assert(0 <= row * 4 + col < 16);
        }
        r
    }
}

impl PartialEq for Matrix4 {
    fn eq(&self, other: &Matrix4) -> (r: bool) {
        let mut i: usize = 0;
        while i < 16
            invariant
                i <= 16,
                forall|j: int| 0 <= j < i ==> (#[trigger] self.m@[j]).equals(other.m@[j]),
            decreases 16 - i,
        {
            if !(self.m[i] == other.m[i]) {
                return false;
            }
            i = i + 1;
        }
        true
    }
}

impl vstd::std_specs::cmp::PartialEqSpecImpl for Matrix4 {
    open spec fn obeys_eq_spec() -> bool {
        true
    }

    open spec fn eq_spec(&self, other: &Matrix4) -> bool {
        self.same(*other)
    }
}

/// Turning a matrix over twice gives it back.
pub proof fn lemma_transpose_twice(a: Matrix4, b: Matrix4, c: Matrix4)
    requires
        forall|row: int, col: int|
            0 <= row < 4 && 0 <= col < 4 ==> #[trigger] b.entry(row, col) == a.entry(col, row),
        forall|row: int, col: int|
            0 <= row < 4 && 0 <= col < 4 ==> #[trigger] c.entry(row, col) == b.entry(col, row),
    ensures
        c.m@ =~= a.m@,
{
    assert forall|i: int| 0 <= i < 16 implies c.m@[i] == a.m@[i] by {
        let row = i / 4;
        let col = i % 4;
        assert(c.entry(row, col) == b.entry(col, row));
        assert(b.entry(col, row) == a.entry(row, col));
    }
}

/// A square matrix of any size, row after row. Its determinant is found
/// by way of its minors: the matrices that are left when a row and a column
/// are struck out.
#[derive(Debug)]
pub struct Matrix {
    pub data: Vec<Scalar>,
    pub size: usize,
}

/// The entry in row `a`, column `b` of a list of rows of `width` entries.
pub open spec fn cell(data: Seq<Scalar>, width: int, a: int, b: int) -> Scalar {
    data[a * width + b]
}

/// How many of the first `count` rows (or columns) are left when number
/// `gone` is struck out.
pub open spec fn kept(count: int, gone: int) -> int {
    if 0 <= gone < count {
        count - 1
    } else {
        count
    }
}

/// The number that row (or column) `a` of what is left had before number
/// `gone` was struck out.
pub open spec fn skip(a: int, gone: int) -> int {
    if a < gone {
        a
    } else {
        a + 1
    }
}

/// Row `a`, column `b` of a list of rows of `width` entries lies within the
/// first `rows` rows.
proof fn lemma_cell_in_range(rows: int, width: int, a: int, b: int)
    requires
        0 <= a < rows,
        0 <= b < width,
    ensures
        0 <= a * width <= a * width + b < rows * width,
        a * width + b < (a + 1) * width,
        (a + 1) * width <= rows * width,
{
    assert(0 <= a * width && (a + 1) * width == a * width + width && (a + 1) * width <= rows
        * width) by (nonlinear_arith)
        requires
            0 <= a < rows,
            0 <= width,
    ;
}

impl Matrix {
    /// There is an entry for every place of the square.
    pub open spec fn well_formed(self) -> bool {
        self.data@.len() == self.size * self.size
    }

    /// There is an entry for every place of the square, at least.
    pub open spec fn filled(self) -> bool {
        self.size * self.size <= self.data@.len()
    }

    /// The entry in row `row`, column `col`.
    pub open spec fn entry(self, row: int, col: int) -> Scalar {
        cell(self.data@, self.size as int, row, col)
    }

    /// The two-by-two matrix with the entries given, row after row.
    pub fn new2(m11: Scalar, m12: Scalar, m21: Scalar, m22: Scalar) -> (r: Self)
        ensures
            r.size == 2,
            r.data@ =~= seq![m11, m12, m21, m22],
    {
        let mut data: Vec<Scalar> = Vec::new();
        data.push(m11);
        data.push(m12);
        data.push(m21);
        data.push(m22);
        Matrix { data, size: 2 }
    }

    /// The three-by-three matrix with the entries given, row after row.
    pub fn new3(
        m11: Scalar,
        m12: Scalar,
        m13: Scalar,
        m21: Scalar,
        m22: Scalar,
        m23: Scalar,
        m31: Scalar,
        m32: Scalar,
        m33: Scalar,
    ) -> (r: Self)
        ensures
            r.size == 3,
            r.data@ =~= seq![m11, m12, m13, m21, m22, m23, m31, m32, m33],
    {
        let mut data: Vec<Scalar> = Vec::new();
        data.push(m11);
        data.push(m12);
        data.push(m13);
        data.push(m21);
        data.push(m22);
        data.push(m23);
        data.push(m31);
        data.push(m32);
        data.push(m33);
        Matrix { data, size: 3 }
    }

    /// The four-by-four matrix with the entries of a transform.
    pub fn new4(m: &Matrix4) -> (r: Self)
        ensures
            r.size == 4,
            r.data@ =~= m.m@,
    {
        let mut data: Vec<Scalar> = Vec::new();
        let mut i: usize = 0;
        while i < 16
            invariant
                i <= 16,
                data@ =~= m.m@.take(i as int),
            decreases 16 - i,
        {
            data.push(m.m[i]);
            i = i + 1;
        }
        Matrix { data, size: 4 }
    }

    /// Whether a matrix with this determinant has an inverse: whether the
    /// determinant is not zero.
    pub fn is_invertible(det: Scalar) -> (r: bool)
        ensures
            r == !det.equals(Scalar::zero_value()),
    {
        !(det == Scalar::zero())
    }

    /// The matrix of the given size with positive zero at every place.
    pub fn empty(size: usize) -> (r: Self)
        requires
            size * size <= usize::MAX,
        ensures
            r.size == size,
            r.well_formed(),
            forall|i: int| 0 <= i < size * size ==> r.data@[i] == Scalar::zero_value(),
    {
        let mut data: Vec<Scalar> = Vec::new();
        let count: usize = size * size;
        let mut i: usize = 0;
        while i < count
            invariant
                i <= count,
                data@.len() == i,
                forall|j: int| 0 <= j < i ==> data@[j] == Scalar::zero_value(),
            decreases count - i,
        {
            data.push(Scalar::zero());
            i = i + 1;
        }
        Matrix { data, size }
    }

    /// The matrix with `fill` at every place of the diagonal, and as it was
    /// elsewhere.
    pub fn fill_diagonal(self, fill: Scalar) -> (r: Self)
        requires
            self.filled(),
        ensures
            r.size == self.size,
            r.data@.len() == self.data@.len(),
            forall|row: int, col: int|
                0 <= row < self.size && 0 <= col < self.size ==> #[trigger] r.entry(row, col) == if row
                    == col {
                    fill
                } else {
                    self.entry(row, col)
                },
            forall|i: int|
                self.size * self.size <= i < self.data@.len() ==> r.data@[i] == self.data@[i],
    {
        let mut m = self;
        let n = m.size;
        let count = m.data.len();
        let mut i: usize = 0;
        while i < n
            invariant
                i <= n,
                n == self.size,
                m.size == n,
                self.filled(),
                count == self.data@.len(),
                m.data@.len() == self.data@.len(),
                forall|row: int, col: int|
                    0 <= row < n && 0 <= col < n ==> #[trigger] m.entry(row, col) == if row == col
                        && row < i {
                        fill
                    } else {
                        self.entry(row, col)
                    },
                forall|k: int| n * n <= k < self.data@.len() ==> m.data@[k] == self.data@[k],
            decreases n - i,
        {
            proof {
                lemma_cell_in_range(n as int, n as int, i as int, i as int);
            }
            let ghost before = m;
            let at = i * n + i;
            m.data[at] = fill;
            proof {
                assert forall|row: int, col: int| 0 <= row < n && 0 <= col < n implies #[trigger] m.entry(
                    row,
                    col,
                ) == if row == col && row < i + 1 {
                    fill
                } else {
                    self.entry(row, col)
                } by {
                    lemma_cell_in_range(n as int, n as int, row, col);
                    assert(before.entry(row, col) == if row == col && row < i {
                        fill
                    } else {
                        self.entry(row, col)
                    });
                    if row * n + col == at {
                        lemma_same_cell(n as int, row, col, i as int, i as int);
                    }
                }
            }
            i = i + 1;
        }
        m
    }

    /// The matrix of the given size with ones on the diagonal and positive
    /// zeros elsewhere.
    pub fn id(size: usize) -> (r: Self)
        requires
            size * size <= usize::MAX,
        ensures
            r.size == size,
            r.well_formed(),
            forall|row: int, col: int|
                0 <= row < size && 0 <= col < size ==> #[trigger] r.entry(row, col) == if row == col {
                    Scalar::one_value()
                } else {
                    Scalar::zero_value()
                },
    {
        let zeros = Matrix::empty(size);
        let r = zeros.fill_diagonal(Scalar::one());
        proof {
            assert forall|row: int, col: int| 0 <= row < size && 0 <= col < size implies #[trigger] r.entry(
                row,
                col,
            ) == if row == col {
                Scalar::one_value()
            } else {
                Scalar::zero_value()
            } by {
                lemma_cell_in_range(size as int, size as int, row, col);
                assert(zeros.entry(row, col) == Scalar::zero_value());
            }
        }
        r
    }

    /// The entry in row `row`, column `col`.
    pub fn at(&self, row: usize, col: usize) -> (r: Scalar)
        requires
            0 <= row * self.size + col < self.data@.len(),
        ensures
            r == self.entry(row as int, col as int),
    {
        let count = self.data.len();
        assert(0 <= row * self.size <= row * self.size + col < count) by (nonlinear_arith)
            requires
                row * self.size + col < count,
        ;
        self.data[row * self.size + col]
    }

    /// What is left of the matrix when a row and a column are struck out:
    /// a minor. Where the matrix has no such row, or no such column,
    /// none is struck out.
    pub fn subm(&self, row: usize, col: usize) -> (r: Self)
        requires
            self.size >= 1,
            self.filled(),
        ensures
            r.size == self.size - 1,
            r.data@.len() == kept(self.size as int, row as int) * kept(self.size as int, col as int),
            forall|a: int, b: int|
                0 <= a < kept(self.size as int, row as int) && 0 <= b < kept(
                    self.size as int,
                    col as int,
                ) ==> #[trigger] cell(r.data@, kept(self.size as int, col as int), a, b)
                    == self.entry(skip(a, row as int), skip(b, col as int)),
    {
        let n = self.size;
        let count = self.data.len();
        let ghost w = kept(n as int, col as int);
        let mut out: Vec<Scalar> = Vec::new();
        let mut i: usize = 0;
        assert(0 * w == 0);
        while i < n
            invariant
                i <= n,
                n == self.size,
                self.filled(),
                count == self.data@.len(),
                w == kept(n as int, col as int),
                out@.len() == kept(i as int, row as int) * w,
                forall|a: int, b: int|
                    0 <= a < kept(i as int, row as int) && 0 <= b < w ==> #[trigger] cell(
                        out@,
                        w,
                        a,
                        b,
                    ) == self.entry(skip(a, row as int), skip(b, col as int)),
            decreases n - i,
        {
            if i != row {
                let ghost base = out@;
                let ghost a0 = kept(i as int, row as int);
                let mut j: usize = 0;
                assert(a0 * w + 0 == a0 * w);
                while j < n
                    invariant
                        j <= n,
                        i < n,
                        i != row,
                        n == self.size,
                        self.filled(),
                        count == self.data@.len(),
                        w == kept(n as int, col as int),
                        a0 == kept(i as int, row as int),
                        base.len() == a0 * w,
                        out@.len() == a0 * w + kept(j as int, col as int),
                        forall|k: int| 0 <= k < a0 * w ==> out@[k] == base[k],
                        forall|b: int|
                            0 <= b < kept(j as int, col as int) ==> #[trigger] cell(out@, w, a0, b)
                                == self.entry(i as int, skip(b, col as int)),
                    decreases n - j,
                {
                    if j != col {
                        proof {
                            lemma_cell_in_range(n as int, n as int, i as int, j as int);
                        }
                        let ghost before = out@;
                        out.push(self.data[i * n + j]);
                        proof {
                            let fresh = kept(j as int, col as int);
                            assert(skip(fresh, col as int) == j);
                            assert forall|b: int| 0 <= b < kept(j + 1, col as int) implies #[trigger] cell(
                                out@,
                                w,
                                a0,
                                b,
                            ) == self.entry(i as int, skip(b, col as int)) by {
                                if b < fresh {
                                    assert(cell(before, w, a0, b) == self.entry(
                                        i as int,
                                        skip(b, col as int),
                                    ));
                                }
                            }
                        }
                    }
                    j = j + 1;
                }
                proof {
                    assert(skip(a0, row as int) == i);
                    assert(out@.len() == (a0 + 1) * w) by (nonlinear_arith)
                        requires
                            out@.len() == a0 * w + w,
                    ;
                    assert forall|a: int, b: int|
                        0 <= a < kept(i + 1, row as int) && 0 <= b < w implies #[trigger] cell(
                        out@,
                        w,
                        a,
                        b,
                    ) == self.entry(skip(a, row as int), skip(b, col as int)) by {
                        if a < a0 {
                            lemma_cell_in_range(a0, w, a, b);
                            assert(cell(base, w, a, b) == self.entry(
                                skip(a, row as int),
                                skip(b, col as int),
                            ));
                        }
                    }
                }
            }
            i = i + 1;
        }
        Matrix { data: out, size: n - 1 }
    }

    /// The matrix turned over its diagonal: rows become columns.
    pub fn transpose(&self) -> (r: Self)
        requires
            self.filled(),
        ensures
            r.size == self.size,
            r.well_formed(),
            forall|row: int, col: int|
                0 <= row < self.size && 0 <= col < self.size ==> #[trigger] r.entry(row, col)
                    == self.entry(col, row),
    {
        let n = self.size;
        let count = self.data.len();
        let mut out: Vec<Scalar> = Vec::new();
        let mut i: usize = 0;
        assert(0 * n == 0);
        while i < n
            invariant
                i <= n,
                n == self.size,
                self.filled(),
                count == self.data@.len(),
                out@.len() == i * n,
                forall|a: int, b: int|
                    0 <= a < i && 0 <= b < n ==> #[trigger] cell(out@, n as int, a, b) == self.entry(
                        b,
                        a,
                    ),
            decreases n - i,
        {
            let ghost base = out@;
            let mut j: usize = 0;
            while j < n
                invariant
                    j <= n,
                    i < n,
                    n == self.size,
                    self.filled(),
                    count == self.data@.len(),
                    base.len() == i * n,
                    out@.len() == i * n + j,
                    forall|k: int| 0 <= k < i * n ==> out@[k] == base[k],
                    forall|b: int|
                        0 <= b < j ==> #[trigger] cell(out@, n as int, i as int, b) == self.entry(
                            b,
                            i as int,
                        ),
                decreases n - j,
            {
                proof {
                    lemma_cell_in_range(n as int, n as int, j as int, i as int);
                }
                let ghost before = out@;
                out.push(self.data[j * n + i]);
                proof {
                    assert forall|b: int| 0 <= b < j + 1 implies #[trigger] cell(
                        out@,
                        n as int,
                        i as int,
                        b,
                    ) == self.entry(b, i as int) by {
                        if b < j {
                            assert(cell(before, n as int, i as int, b) == self.entry(b, i as int));
                        }
                    }
                }
                j = j + 1;
            }
            proof {
                assert(out@.len() == (i + 1) * n) by (nonlinear_arith)
                    requires
                        out@.len() == i * n + n,
                ;
                assert forall|a: int, b: int| 0 <= a < i + 1 && 0 <= b < n implies #[trigger] cell(
                    out@,
                    n as int,
                    a,
                    b,
                ) == self.entry(b, a) by {
                    if a < i {
                        lemma_cell_in_range(i as int, n as int, a, b);
                        assert(cell(base, n as int, a, b) == self.entry(b, a));
                    }
                }
            }
            i = i + 1;
        }
        Matrix { data: out, size: n }
    }

    /// The cofactor that belongs to a minor: the determinant of the minor,
    /// with its sign turned where the row and the column that were struck
    /// out add up to an odd number.
    pub fn cofactor(row: usize, col: usize, minor: Scalar) -> (r: Scalar)
        ensures
            r == if (row + col) % 2 == 0 {
                minor
            } else {
                minor.negated()
            },
    {
        if row % 2 == col % 2 {
            minor
        } else {
            minor.neg()
        }
    }
}

/// Two places of a square are one place only if they are in the same row
/// and the same column.
proof fn lemma_same_cell(width: int, a: int, b: int, c: int, d: int)
    requires
        0 <= b < width,
        0 <= d < width,
        0 <= a,
        0 <= c,
        a * width + b == c * width + d,
    ensures
        a == c,
        b == d,
{
    if a < c {
        assert(c * width >= a * width + width) by (nonlinear_arith)
            requires
                a < c,
                width > 0,
        ;
    } else if c < a {
        assert(a * width >= c * width + width) by (nonlinear_arith)
            requires
                c < a,
                width > 0,
        ;
    }
}

} // verus!
