//! Algebraic laws of the matrix operations, stated over their contracts and
//! proved from hypotheses on the scalar operations handed to them.

use vstd::prelude::*;

use crate::matrix::{accumulates, column, folds_to, mapped, multiplied, rectangular, zipped};

verus! {

/// Every call of `f` on the same arguments gives the same result.
pub open spec fn deterministic2<T, F: Fn(T, T) -> T>(f: F) -> bool {
    forall|x: T, y: T, r: T, s: T|
        #![trigger f.ensures((x, y), r), f.ensures((x, y), s)]
        f.ensures((x, y), r) && f.ensures((x, y), s) ==> r == s
}

/// Every call of `step` on the same arguments gives the same result.
pub open spec fn deterministic3<T, F: Fn(T, T, T) -> T>(step: F) -> bool {
    forall|a: T, x: T, y: T, r: T, s: T|
        #![trigger step.ensures((a, x, y), r), step.ensures((a, x, y), s)]
        step.ensures((a, x, y), r) && step.ensures((a, x, y), s) ==> r == s
}

/// `f` gives the same result whichever way round its arguments come.
pub open spec fn commutative<T, F: Fn(T, T) -> T>(f: F) -> bool {
    forall|x: T, y: T, r: T, s: T|
        #![trigger f.ensures((x, y), r), f.ensures((y, x), s)]
        f.ensures((x, y), r) && f.ensures((y, x), s) ==> r == s
}

/// The `n` by `n` identity matrix with entries `zero` and `one`.
pub open spec fn identity<T>(n: nat, zero: T, one: T) -> Seq<Seq<T>> {
    Seq::new(n, |i: int| Seq::new(n, |j: int| if i == j { one } else { zero }))
}

/// True when `a` and `b` have the same shape.
pub open spec fn same_dims<T>(a: Seq<Seq<T>>, b: Seq<Seq<T>>) -> bool {
    &&& a.len() == b.len()
    &&& forall|i: int| 0 <= i < a.len() ==> (#[trigger] a[i]).len() == b[i].len()
}

/// With a deterministic scalar operation, combining entry by entry has one
/// outcome: so the in-place form (`zip_with_assign`, `subtract_assign`)
/// leaves exactly the matrix that the pure form returns.
pub proof fn lemma_zipped_unique<T, F: Fn(T, T) -> T>(
    a: Seq<Seq<T>>,
    b: Seq<Seq<T>>,
    f: F,
    c: Seq<Seq<T>>,
    d: Seq<Seq<T>>,
)
    requires
        deterministic2(f),
        zipped(a, b, f, c),
        zipped(a, b, f, d),
    ensures
        c == d,
{
    assert forall|i: int| 0 <= i < c.len() implies c[i] == d[i] by {
        assert forall|j: int| 0 <= j < c[i].len() implies c[i][j] == d[i][j] by {
            assert(f.ensures((a[i][j], b[i][j]), c[i][j]));
            assert(f.ensures((a[i][j], b[i][j]), d[i][j]));
        }
        assert(c[i] =~= d[i]);
    }
    assert(c =~= d);
}

/// Two accumulations of the same pairs from the same start, with a
/// deterministic step, agree everywhere.
proof fn lemma_accumulation_unique<T, F: Fn(T, T, T) -> T>(
    step: F,
    zero: T,
    xs: Seq<T>,
    ys: Seq<T>,
    p: Seq<T>,
    q: Seq<T>,
    k: int,
)
    requires
        deterministic3(step),
        accumulates(step, zero, xs, ys, p),
        accumulates(step, zero, xs, ys, q),
        0 <= k <= xs.len(),
    ensures
        p[k] == q[k],
    decreases k,
{
    if k > 0 {
        lemma_accumulation_unique(step, zero, xs, ys, p, q, k - 1);
        assert(step.ensures((p[k - 1], xs[k - 1], ys[k - 1]), p[k]));
        assert(step.ensures((q[k - 1], xs[k - 1], ys[k - 1]), q[k]));
    }
}

/// With a deterministic step, the matrix product has one outcome: so
/// `product_assign` leaves exactly the matrix that `product` returns.
pub proof fn lemma_multiplied_unique<T, F: Fn(T, T, T) -> T>(
    a: Seq<Seq<T>>,
    b: Seq<Seq<T>>,
    zero: T,
    step: F,
    c: Seq<Seq<T>>,
    d: Seq<Seq<T>>,
)
    requires
        deterministic3(step),
        multiplied(a, b, zero, step, c),
        multiplied(a, b, zero, step, d),
    ensures
        c == d,
{
    assert forall|i: int| 0 <= i < c.len() implies c[i] == d[i] by {
        assert forall|j: int| 0 <= j < c[i].len() implies c[i][j] == d[i][j] by {
            assert(folds_to(step, zero, a[i], column(b, j), c[i][j]));
            assert(folds_to(step, zero, a[i], column(b, j), d[i][j]));
            let p = choose|p: Seq<T>|
                #[trigger] accumulates(step, zero, a[i], column(b, j), p) && p.last() == c[i][j];
            let q = choose|q: Seq<T>|
                #[trigger] accumulates(step, zero, a[i], column(b, j), q) && q.last() == d[i][j];
            lemma_accumulation_unique(step, zero, a[i], column(b, j), p, q, a[i].len() as int);
        }
        assert(c[i] =~= d[i]);
    }
    assert(c =~= d);
}

/// Addition is commutative: with a commutative scalar operation, combining
/// `a` with `b` and `b` with `a` give the same matrix.
pub proof fn lemma_zip_commutative<T, F: Fn(T, T) -> T>(
    a: Seq<Seq<T>>,
    b: Seq<Seq<T>>,
    f: F,
    c: Seq<Seq<T>>,
    d: Seq<Seq<T>>,
)
    requires
        commutative(f),
        same_dims(a, b),
        zipped(a, b, f, c),
        zipped(b, a, f, d),
    ensures
        c == d,
{
    assert forall|i: int| 0 <= i < c.len() implies c[i] == d[i] by {
        assert forall|j: int| 0 <= j < c[i].len() implies c[i][j] == d[i][j] by {
            assert(f.ensures((a[i][j], b[i][j]), c[i][j]));
            assert(f.ensures((b[i][j], a[i][j]), d[i][j]));
        }
        assert(c[i] =~= d[i]);
    }
    assert(c =~= d);
}

/// A matrix plus its negation is all zeros, when each scalar plus its
/// negation is `zero`.
pub proof fn lemma_zip_with_negation<T, F: Fn(T, T) -> T, G: Fn(T) -> T>(
    a: Seq<Seq<T>>,
    negate: G,
    n: Seq<Seq<T>>,
    plus: F,
    c: Seq<Seq<T>>,
    zero: T,
)
    requires
        forall|x: T, y: T, r: T|
            #![trigger negate.ensures((x,), y), plus.ensures((x, y), r)]
            negate.ensures((x,), y) && plus.ensures((x, y), r) ==> r == zero,
        mapped(a, negate, n),
        zipped(a, n, plus, c),
    ensures
        c.len() == a.len(),
        forall|i: int| 0 <= i < a.len() ==> (#[trigger] c[i]).len() == a[i].len(),
        forall|i: int, j: int| 0 <= i < a.len() && 0 <= j < a[i].len() ==> #[trigger] c[i][j] == zero,
{
    assert forall|i: int, j: int| 0 <= i < a.len() && 0 <= j < a[i].len() implies #[trigger] c[i][j]
        == zero by {
        assert(negate.ensures((a[i][j],), n[i][j]));
        assert(plus.ensures((a[i][j], n[i][j]), c[i][j]));
    }
}

/// Negating twice gives the matrix back, when negating a scalar twice does.
pub proof fn lemma_map_involution<T, G: Fn(T) -> T>(
    a: Seq<Seq<T>>,
    negate: G,
    b: Seq<Seq<T>>,
    c: Seq<Seq<T>>,
)
    requires
        forall|x: T, y: T, z: T|
            #![trigger negate.ensures((x,), y), negate.ensures((y,), z)]
            negate.ensures((x,), y) && negate.ensures((y,), z) ==> z == x,
        mapped(a, negate, b),
        mapped(b, negate, c),
    ensures
        c == a,
{
    assert forall|i: int| 0 <= i < c.len() implies c[i] == a[i] by {
        assert forall|j: int| 0 <= j < c[i].len() implies c[i][j] == a[i][j] by {
            assert(negate.ensures((a[i][j],), b[i][j]));
            assert(negate.ensures((b[i][j],), c[i][j]));
        }
        assert(c[i] =~= a[i]);
    }
    assert(c =~= a);
}

/// Along an accumulation of a row against column `j` of the identity, the
/// value stays `zero` up to the diagonal, takes the row's entry there, and
/// keeps it afterwards.
proof fn lemma_identity_accumulation<T, F: Fn(T, T, T) -> T>(
    step: F,
    zero: T,
    one: T,
    xs: Seq<T>,
    j: int,
    p: Seq<T>,
    k: int,
)
    requires
        forall|acc: T, x: T, r: T| #[trigger] step.ensures((acc, x, zero), r) ==> r == acc,
        forall|x: T, r: T| #[trigger] step.ensures((zero, x, one), r) ==> r == x,
        0 <= j < xs.len(),
        accumulates(step, zero, xs, column(identity(xs.len(), zero, one), j), p),
        0 <= k <= xs.len(),
    ensures
        p[k] == (if k <= j { zero } else { xs[j] }),
    decreases k,
{
    let col = column(identity(xs.len(), zero, one), j);
    if k > 0 {
        lemma_identity_accumulation(step, zero, one, xs, j, p, k - 1);
        assert(step.ensures((p[k - 1], xs[k - 1], col[k - 1]), p[k]));
    }
}

/// Multiplying by the identity on the right gives the matrix back, when
/// adding a product with `zero` keeps the accumulator and the product of a
/// scalar with `one`, added to `zero`, is that scalar.
pub proof fn lemma_product_identity<T, F: Fn(T, T, T) -> T>(
    a: Seq<Seq<T>>,
    zero: T,
    one: T,
    step: F,
    c: Seq<Seq<T>>,
)
    requires
        forall|acc: T, x: T, r: T| #[trigger] step.ensures((acc, x, zero), r) ==> r == acc,
        forall|x: T, r: T| #[trigger] step.ensures((zero, x, one), r) ==> r == x,
        rectangular(a),
        multiplied(a, identity(a[0].len(), zero, one), zero, step, c),
    ensures
        c == a,
{
    let n = a[0].len();
    let id = identity(n, zero, one);
    assert forall|i: int| 0 <= i < c.len() implies c[i] == a[i] by {
        assert(a[i].len() == n);
        assert forall|j: int| 0 <= j < n implies c[i][j] == a[i][j] by {
            assert(folds_to(step, zero, a[i], column(id, j), c[i][j]));
            let p = choose|p: Seq<T>|
                #[trigger] accumulates(step, zero, a[i], column(id, j), p) && p.last() == c[i][j];
            lemma_identity_accumulation(step, zero, one, a[i], j, p, n as int);
        }
        assert(c[i] =~= a[i]);
    }
    assert(c =~= a);
}

} // verus!
