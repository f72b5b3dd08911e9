use vstd::prelude::*;
use crate::matrix::{is_dot, is_product, row_of, col_of, accumulates, Matrix};

verus! {

/// An axis of rotation.
#[derive(Clone, Copy, PartialEq, Eq, Structural)]
pub enum RotationAxis {
    X,
    Y,
    Z,
}

/// The 4 by 4 identity over `zero` and `one`.
pub open spec fn is_identity<T: Copy>(m: Matrix<T>, zero: T, one: T) -> bool {
    &&& m.wf()
    &&& m.rows_spec() == 4
    &&& m.cols_spec() == 4
    &&& forall|i: int, j: int|
        0 <= i < 4 && 0 <= j < 4 ==> #[trigger] m.entry(i, j) == if i == j {
            one
        } else {
            zero
        }
}

/// Element `(i, j)` of the translation by `(x, y, z)` for row vectors: the
/// identity with `[x, y, z, 1]` as its last row.
pub open spec fn translate_entry<T>(x: T, y: T, z: T, zero: T, one: T, i: int, j: int) -> T {
    if i == 3 && j == 0 {
        x
    } else if i == 3 && j == 1 {
        y
    } else if i == 3 && j == 2 {
        z
    } else if i == j {
        one
    } else {
        zero
    }
}

/// Element `(i, j)` of the scale by `(x, y, z)`: the diagonal `[x, y, z, 1]`.
pub open spec fn scale_entry<T>(x: T, y: T, z: T, zero: T, one: T, i: int, j: int) -> T {
    if i != j {
        zero
    } else if i == 0 {
        x
    } else if i == 1 {
        y
    } else if i == 2 {
        z
    } else {
        one
    }
}

/// Element `(i, j)` of the rotation about `axis` whose angle has sine `sin`
/// and cosine `cos`, for row vectors; `neg_sin` stands for `-sin`. The
/// homogeneous corner is `one` for every axis.
pub open spec fn rotation_entry<T>(
    axis: RotationAxis,
    sin: T,
    cos: T,
    neg_sin: T,
    zero: T,
    one: T,
    i: int,
    j: int,
) -> T {
    match axis {
        RotationAxis::X => if (i == 1 && j == 1) || (i == 2 && j == 2) {
            cos
        } else if (i == 1 && j == 2) {
            sin
        } else if (i == 2 && j == 1) {
            neg_sin
        } else if i == j {
            one
        } else {
            zero
        },
        RotationAxis::Y => if (i == 0 && j == 0) || (i == 2 && j == 2) {
            cos
        } else if (i == 0 && j == 2) {
            sin
        } else if (i == 2 && j == 0) {
            neg_sin
        } else if i == j {
            one
        } else {
            zero
        },
        RotationAxis::Z => if (i == 0 && j == 0) || (i == 1 && j == 1) {
            cos
        } else if (i == 0 && j == 1) {
            sin
        } else if (i == 1 && j == 0) {
            neg_sin
        } else if i == j {
            one
        } else {
            zero
        },
    }
}

/// A fresh 4 by 4 matrix of `zero` with `one` on the diagonal.
fn identity4<T: Copy>(zero: T, one: T) -> (r: Matrix<T>)
    ensures
        is_identity(r, zero, one),
        r.zero_spec() == zero,
{
    let mut m = Matrix::new(4, 4, zero);
    proof {
        assert forall|i: int, j: int| 0 <= i < 4 && 0 <= j < 4 implies #[trigger] m.entry(i, j)
            == zero by {
            crate::matrix::lemma_flat_index_bound(4, 4, i, j);
        }
    }
    m.set(0, 0, one);
    m.set(1, 1, one);
    m.set(2, 2, one);
    m.set(3, 3, one);
    m
}

/// The translation by `(x, y, z)` for row vectors.
pub fn translate<T: Copy>(x: T, y: T, z: T, zero: T, one: T) -> (r: Matrix<T>)
    ensures
        r.wf(),
        r.rows_spec() == 4,
        r.cols_spec() == 4,
        r.zero_spec() == zero,
        forall|i: int, j: int|
            0 <= i < 4 && 0 <= j < 4 ==> #[trigger] r.entry(i, j) == translate_entry(
                x,
                y,
                z,
                zero,
                one,
                i,
                j,
            ),
{
    let mut m = identity4(zero, one);
    m.set(3, 0, x);
    m.set(3, 1, y);
    m.set(3, 2, z);
    m
}

/// The scale by `x`, `y` and `z` along the axes.
pub fn basic_scale<T: Copy>(x: T, y: T, z: T, zero: T, one: T) -> (r: Matrix<T>)
    ensures
        r.wf(),
        r.rows_spec() == 4,
        r.cols_spec() == 4,
        r.zero_spec() == zero,
        forall|i: int, j: int|
            0 <= i < 4 && 0 <= j < 4 ==> #[trigger] r.entry(i, j) == scale_entry(
                x,
                y,
                z,
                zero,
                one,
                i,
                j,
            ),
{
    let mut m = identity4(zero, one);
    m.set(0, 0, x);
    m.set(1, 1, y);
    m.set(2, 2, z);
    m
}

/// The rotation about `axis` whose angle has sine `sin` and cosine `cos`,
/// with `neg_sin` equal to `-sin`.
pub fn rotation_matrix<T: Copy>(
    axis: RotationAxis,
    sin: T,
    cos: T,
    neg_sin: T,
    zero: T,
    one: T,
) -> (r: Matrix<T>)
    ensures
        r.wf(),
        r.rows_spec() == 4,
        r.cols_spec() == 4,
        r.zero_spec() == zero,
        forall|i: int, j: int|
            0 <= i < 4 && 0 <= j < 4 ==> #[trigger] r.entry(i, j) == rotation_entry(
                axis,
                sin,
                cos,
                neg_sin,
                zero,
                one,
                i,
                j,
            ),
{
    let mut m = identity4(zero, one);
    match axis {
        RotationAxis::X => {
            m.set(1, 1, cos);
            m.set(1, 2, sin);
            m.set(2, 1, neg_sin);
            m.set(2, 2, cos);
        },
        RotationAxis::Y => {
            m.set(0, 0, cos);
            m.set(0, 2, sin);
            m.set(2, 0, neg_sin);
            m.set(2, 2, cos);
        },
        RotationAxis::Z => {
            m.set(0, 0, cos);
            m.set(0, 1, sin);
            m.set(1, 0, neg_sin);
            m.set(1, 1, cos);
        },
    }
    m
}

/// The rotation by angle zero (sine zero, cosine one) about any axis is the
/// identity: every axis keeps the homogeneous coordinate.
pub proof fn lemma_zero_rotation_is_identity<T: Copy>(axis: RotationAxis, zero: T, one: T)
    ensures
        forall|i: int, j: int|
            0 <= i < 4 && 0 <= j < 4 ==> #[trigger] rotation_entry(
                axis,
                zero,
                one,
                zero,
                zero,
                one,
                i,
                j,
            ) == if i == j {
                one
            } else {
                zero
            },
{
}

/// `f` adds the product of its last two arguments to its first, exactly.
pub open spec fn exact_mul_add<F: Fn(i64, i64, i64) -> i64>(f: F) -> bool {
    forall|acc: i64, x: i64, y: i64, r: i64|
        #[trigger] f.ensures((acc, x, y), r) ==> r == acc + x * y
}

/// Under exact multiply-and-add, a fold of four pairs from zero is their dot
/// product.
proof fn lemma_dot4<F: Fn(i64, i64, i64) -> i64>(f: F, row: Seq<i64>, col: Seq<i64>, out: i64)
    requires
        exact_mul_add(f),
        row.len() == 4,
        is_dot(f, 0i64, row, col, out),
    ensures
        out == row[0] * col[0] + row[1] * col[1] + row[2] * col[2] + row[3] * col[3],
{
    let s = choose|s: Seq<i64>| accumulates(f, 0i64, row, col, s) && s.last() == out;
    let k0: int = 0;
    assert(f.ensures((s[k0], row[k0], col[k0]), s[k0 + 1]));
    let k1: int = 1;
    assert(f.ensures((s[k1], row[k1], col[k1]), s[k1 + 1]));
    let k2: int = 2;
    assert(f.ensures((s[k2], row[k2], col[k2]), s[k2 + 1]));
    let k3: int = 3;
    assert(f.ensures((s[k3], row[k3], col[k3]), s[k3 + 1]));
}

/// With exact arithmetic, translating by `(a, b, c)` and then by
/// `(-a, -b, -c)` composes to the identity.
pub proof fn lemma_translate_inverse<F: Fn(i64, i64, i64) -> i64>(
    a: i64,
    b: i64,
    c: i64,
    f: F,
    there: Matrix<i64>,
    back: Matrix<i64>,
    both: Matrix<i64>,
)
    requires
        exact_mul_add(f),
        -a <= i64::MAX,
        -b <= i64::MAX,
        -c <= i64::MAX,
        there.wf() && there.rows_spec() == 4 && there.cols_spec() == 4 && there.zero_spec() == 0,
        back.wf() && back.rows_spec() == 4 && back.cols_spec() == 4,
        forall|i: int, j: int|
            0 <= i < 4 && 0 <= j < 4 ==> #[trigger] there.entry(i, j) == translate_entry(
                a,
                b,
                c,
                0,
                1,
                i,
                j,
            ),
        forall|i: int, j: int|
            0 <= i < 4 && 0 <= j < 4 ==> #[trigger] back.entry(i, j) == translate_entry(
                (-a) as i64,
                (-b) as i64,
                (-c) as i64,
                0,
                1,
                i,
                j,
            ),
        is_product(there, back, f, both),
    ensures
        is_identity(both, 0i64, 1i64),
{
    assert forall|i: int, j: int| 0 <= i < 4 && 0 <= j < 4 implies #[trigger] both.entry(i, j)
        == if i == j {
        1i64
    } else {
        0i64
    } by {
        let row = row_of(there, i);
        let col = col_of(back, j);
        if i == 0 {
            assert(row =~= seq![1i64, 0i64, 0i64, 0i64]);
        }
        if i == 1 {
            assert(row =~= seq![0i64, 1i64, 0i64, 0i64]);
        }
        if i == 2 {
            assert(row =~= seq![0i64, 0i64, 1i64, 0i64]);
        }
        if i == 3 {
            assert(row =~= seq![a, b, c, 1i64]);
        }
        if j == 0 {
            assert(col =~= seq![1i64, 0i64, 0i64, (-a) as i64]);
        }
        if j == 1 {
            assert(col =~= seq![0i64, 1i64, 0i64, (-b) as i64]);
        }
        if j == 2 {
            assert(col =~= seq![0i64, 0i64, 1i64, (-c) as i64]);
        }
        if j == 3 {
            assert(col =~= seq![0i64, 0i64, 0i64, 1i64]);
        }
        lemma_dot4(f, row, col, both.entry(i, j));
    }
}

/// With exact arithmetic, multiplying by the 4 by 4 identity on the right
/// keeps every element.
pub proof fn lemma_times_identity<F: Fn(i64, i64, i64) -> i64>(
    a: Matrix<i64>,
    id: Matrix<i64>,
    f: F,
    c: Matrix<i64>,
)
    requires
        exact_mul_add(f),
        a.wf() && a.cols_spec() == 4 && a.zero_spec() == 0,
        is_identity(id, 0i64, 1i64),
        is_product(a, id, f, c),
    ensures
        c.rows_spec() == a.rows_spec(),
        c.cols_spec() == 4,
        forall|i: int, j: int|
            0 <= i < a.rows_spec() && 0 <= j < 4 ==> #[trigger] c.entry(i, j) == a.entry(i, j),
{
    assert forall|i: int, j: int| 0 <= i < a.rows_spec() && 0 <= j < 4 implies #[trigger] c.entry(
        i,
        j,
    ) == a.entry(i, j) by {
        let row = row_of(a, i);
        let col = col_of(id, j);
        lemma_dot4(f, row, col, c.entry(i, j));
        let out = c.entry(i, j);
        let k0: int = 0;
        let k1: int = 1;
        let k2: int = 2;
        let k3: int = 3;
        assert(col[k0] == id.entry(k0, j) && col[k1] == id.entry(k1, j) && col[k2] == id.entry(k2, j) && col[k3] == id.entry(k3, j));
        if j == 0 {
            assert(out == row[k0] * 1 + row[k1] * 0 + row[k2] * 0 + row[k3] * 0);
        }
        if j == 1 {
            assert(out == row[k0] * 0 + row[k1] * 1 + row[k2] * 0 + row[k3] * 0);
        }
        if j == 2 {
            assert(out == row[k0] * 0 + row[k1] * 0 + row[k2] * 1 + row[k3] * 0);
        }
        if j == 3 {
            assert(out == row[k0] * 0 + row[k1] * 0 + row[k2] * 0 + row[k3] * 1);
        }
        assert(row[j] == a.entry(i, j));
    }
}

/// With exact arithmetic, the rotation by angle zero about any axis, pivoted
/// at `(x, y, z)`, leaves every point `(qx, qy, qz)` where it is: `m` is
/// `translate(-x, -y, -z) * rotation * translate(x, y, z)` and `w` is the
/// point as a row `[qx, qy, qz, 1]` times `m`.
pub proof fn lemma_zero_rotation_keeps_points<F: Fn(i64, i64, i64) -> i64>(
    axis: RotationAxis,
    x: i64,
    y: i64,
    z: i64,
    f: F,
    to_pivot: Matrix<i64>,
    rotation: Matrix<i64>,
    from_pivot: Matrix<i64>,
    turned: Matrix<i64>,
    m: Matrix<i64>,
    q: Matrix<i64>,
    w: Matrix<i64>,
)
    requires
        exact_mul_add(f),
        -x <= i64::MAX,
        -y <= i64::MAX,
        -z <= i64::MAX,
        to_pivot.wf() && to_pivot.rows_spec() == 4 && to_pivot.cols_spec() == 4
            && to_pivot.zero_spec() == 0,
        forall|i: int, j: int|
            0 <= i < 4 && 0 <= j < 4 ==> #[trigger] to_pivot.entry(i, j) == translate_entry(
                (-x) as i64,
                (-y) as i64,
                (-z) as i64,
                0,
                1,
                i,
                j,
            ),
        rotation.wf() && rotation.rows_spec() == 4 && rotation.cols_spec() == 4,
        forall|i: int, j: int|
            0 <= i < 4 && 0 <= j < 4 ==> #[trigger] rotation.entry(i, j) == rotation_entry(
                axis,
                0i64,
                1i64,
                0i64,
                0i64,
                1i64,
                i,
                j,
            ),
        from_pivot.wf() && from_pivot.rows_spec() == 4 && from_pivot.cols_spec() == 4,
        forall|i: int, j: int|
            0 <= i < 4 && 0 <= j < 4 ==> #[trigger] from_pivot.entry(i, j) == translate_entry(
                x,
                y,
                z,
                0,
                1,
                i,
                j,
            ),
        is_product(to_pivot, rotation, f, turned),
        is_product(turned, from_pivot, f, m),
        q.wf() && q.rows_spec() == 1 && q.cols_spec() == 4 && q.zero_spec() == 0,
        q.entry(0, 3) == 1,
        is_product(q, m, f, w),
    ensures
        w.rows_spec() == 1 && w.cols_spec() == 4,
        forall|j: int| 0 <= j < 4 ==> #[trigger] w.entry(0, j) == q.entry(0, j),
{
    lemma_zero_rotation_is_identity(axis, 0i64, 1i64);
    lemma_times_identity(to_pivot, rotation, f, turned);
    assert forall|i: int, j: int| 0 <= i < 4 && 0 <= j < 4 implies #[trigger] turned.entry(i, j)
        == translate_entry((-x) as i64, (-y) as i64, (-z) as i64, 0, 1, i, j) by {
        assert(turned.entry(i, j) == to_pivot.entry(i, j));
    }
    assert(x == (-((-x) as i64)) as i64);
    assert(y == (-((-y) as i64)) as i64);
    assert(z == (-((-z) as i64)) as i64);
    lemma_translate_inverse((-x) as i64, (-y) as i64, (-z) as i64, f, turned, from_pivot, m);
    lemma_times_identity(q, m, f, w);
}

} // verus!
