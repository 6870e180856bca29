//! Component-wise and accumulating operations on amplitude vectors.
//!
//! The spec functions here are the mathematical models the public contracts
//! speak of: conjugation, component-wise sum, uniform scaling, and the
//! accumulating dot product. The executable helpers mirror them exactly over
//! `Vec<Scalar>`.

use vstd::prelude::*;

verus! {

use crate::scalar::{
    Scalar,
    SpecScalar,
    sc_add,
    sc_conj,
    sc_in_range,
    sc_mag,
    sc_mul,
    sc_zero,
    lemma_add_mag,
    lemma_in_range_mag,
    lemma_in_range_plus_ok,
    lemma_mag_widen,
    lemma_mul_range,
};
use vstd::arithmetic::mul::{lemma_mul_inequality, lemma_mul_is_distributive_add_other_way};

/// The amplitude sequence a vector of scalars stands for.
pub open spec fn view_amps(v: Seq<Scalar>) -> Seq<SpecScalar> {
    v.map_values(|s: Scalar| s@)
}

/// Every amplitude is within the comfortable range of the exact arithmetic.
pub open spec fn all_in_range(s: Seq<SpecScalar>) -> bool {
    forall|i: int| 0 <= i < s.len() ==> sc_in_range(#[trigger] s[i])
}

/// Component-wise complex conjugate.
pub open spec fn seq_conj(s: Seq<SpecScalar>) -> Seq<SpecScalar> {
    s.map_values(|x: SpecScalar| sc_conj(x))
}

/// Component-wise sum (superposition) of equal-length sequences.
pub open spec fn seq_add(x: Seq<SpecScalar>, y: Seq<SpecScalar>) -> Seq<SpecScalar> {
    Seq::new(x.len(), |i: int| sc_add(x[i], y[i]))
}

/// Uniform scaling of every amplitude by `c`.
pub open spec fn seq_scale(s: Seq<SpecScalar>, c: SpecScalar) -> Seq<SpecScalar> {
    s.map_values(|x: SpecScalar| sc_mul(x, c))
}

/// Sum over `i` of `x[i] * y[i]`, in exact arithmetic, accumulated left to
/// right. No conjugation is applied here; the quantum inner product conjugates
/// the dual's amplitudes first (see [`seq_conj`]).
pub open spec fn seq_dot(x: Seq<SpecScalar>, y: Seq<SpecScalar>) -> SpecScalar
    decreases x.len(),
{
    if x.len() == 0 || y.len() == 0 {
        sc_zero()
    } else {
        sc_add(seq_dot(x.drop_last(), y.drop_last()), sc_mul(x.last(), y.last()))
    }
}

/// Row `i` of a row-major `d x d` matrix.
pub open spec fn mat_row(m: Seq<SpecScalar>, d: int, i: int) -> Seq<SpecScalar> {
    Seq::new(d as nat, |j: int| m[i * d + j])
}

/// Column `j` of a row-major `d x d` matrix.
pub open spec fn mat_col(m: Seq<SpecScalar>, d: int, j: int) -> Seq<SpecScalar> {
    Seq::new(d as nat, |i: int| m[i * d + j])
}

/// Component-wise conjugate of a vector of amplitudes.
pub(crate) fn vec_conj(v: &Vec<Scalar>) -> (r: Vec<Scalar>)
    requires
        all_in_range(view_amps(v@)),
    ensures
        view_amps(r@) == seq_conj(view_amps(v@)),
        all_in_range(view_amps(r@)),
{
    let n = v.len();
    let mut r: Vec<Scalar> = Vec::new();
    let mut i: usize = 0;
    while i < n
        invariant
            n == v@.len(),
            i <= n,
            all_in_range(view_amps(v@)),
            r@.len() == i,
            forall|j: int| 0 <= j < i ==> #[trigger] r@[j]@ == sc_conj(v@[j]@),
            forall|j: int| 0 <= j < i ==> sc_in_range(#[trigger] r@[j]@),
        decreases n - i,
    {
        assert(sc_in_range(view_amps(v@)[i as int]));
        r.push(v[i].conj());
        i = i + 1;
    }
    assert(view_amps(r@) =~= seq_conj(view_amps(v@)));
    assert forall|j: int| 0 <= j < r@.len() implies sc_in_range(
        #[trigger] view_amps(r@)[j],
    ) by {
        assert(view_amps(r@)[j] == r@[j]@);
    }
    r
}

/// Component-wise sum of two equal-length vectors of amplitudes.
pub(crate) fn vec_add(x: &Vec<Scalar>, y: &Vec<Scalar>) -> (r: Vec<Scalar>)
    requires
        x@.len() == y@.len(),
        all_in_range(view_amps(x@)),
        all_in_range(view_amps(y@)),
    ensures
        view_amps(r@) == seq_add(view_amps(x@), view_amps(y@)),
{
    let n = x.len();
    let mut r: Vec<Scalar> = Vec::new();
    let mut i: usize = 0;
    while i < n
        invariant
            n == x@.len() == y@.len(),
            i <= n,
            all_in_range(view_amps(x@)),
            all_in_range(view_amps(y@)),
            r@.len() == i,
            forall|j: int| 0 <= j < i ==> #[trigger] r@[j]@ == sc_add(x@[j]@, y@[j]@),
        decreases n - i,
    {
        proof {
            assert(sc_in_range(view_amps(x@)[i as int]));
            assert(sc_in_range(view_amps(y@)[i as int]));
            lemma_in_range_plus_ok(x@[i as int]@);
            lemma_in_range_plus_ok(y@[i as int]@);
        }
        r.push(x[i].plus(y[i]));
        i = i + 1;
    }
    assert(view_amps(r@) =~= seq_add(view_amps(x@), view_amps(y@)));
    r
}

/// Every amplitude multiplied by the same scalar.
pub(crate) fn vec_scale(v: &Vec<Scalar>, c: Scalar) -> (r: Vec<Scalar>)
    requires
        all_in_range(view_amps(v@)),
        sc_in_range(c@),
    ensures
        view_amps(r@) == seq_scale(view_amps(v@), c@),
{
    let n = v.len();
    let mut r: Vec<Scalar> = Vec::new();
    let mut i: usize = 0;
    while i < n
        invariant
            n == v@.len(),
            i <= n,
            all_in_range(view_amps(v@)),
            sc_in_range(c@),
            r@.len() == i,
            forall|j: int| 0 <= j < i ==> #[trigger] r@[j]@ == sc_mul(v@[j]@, c@),
        decreases n - i,
    {
        proof {
            assert(sc_in_range(view_amps(v@)[i as int]));
            lemma_in_range_mag(v@[i as int]@);
            lemma_in_range_mag(c@);
        }
        r.push(v[i].times(c));
        i = i + 1;
    }
    assert(view_amps(r@) =~= seq_scale(view_amps(v@), c@));
    r
}

/// Exact dot product (no conjugation) of two equal-length vectors.
pub(crate) fn vec_dot(x: &Vec<Scalar>, y: &Vec<Scalar>) -> (r: Scalar)
    requires
        x@.len() == y@.len() <= 4096,
        all_in_range(view_amps(x@)),
        all_in_range(view_amps(y@)),
    ensures
        r@ == seq_dot(view_amps(x@), view_amps(y@)),
{
    let n = x.len();
    let mut acc = Scalar::zero();
    let mut i: usize = 0;
    while i < n
        invariant
            n == x@.len() == y@.len() <= 4096,
            i <= n,
            all_in_range(view_amps(x@)),
            all_in_range(view_amps(y@)),
            acc@ == seq_dot(
                view_amps(x@).subrange(0, i as int),
                view_amps(y@).subrange(0, i as int),
            ),
            sc_mag(acc@, i as int * 0x60000000000),
            acc@.k <= 40,
        decreases n - i,
    {
        proof {
            assert(sc_in_range(view_amps(x@)[i as int]));
            assert(sc_in_range(view_amps(y@)[i as int]));
            lemma_in_range_mag(x@[i as int]@);
            lemma_in_range_mag(y@[i as int]@);
        }
        let t = x[i].times(y[i]);
        proof {
            lemma_mul_range(x@[i as int]@, y@[i as int]@);
            lemma_mul_inequality(i as int, 4096, 0x60000000000);
            lemma_mag_widen(acc@, i as int * 0x60000000000, 0x1000000000000000);
            lemma_mag_widen(t@, 0x60000000000, 0x1000000000000000);
            lemma_add_mag(acc@, t@, i as int * 0x60000000000, 0x60000000000);
            lemma_mul_is_distributive_add_other_way(0x60000000000, i as int, 1);
        }
        let prev = acc;
        acc = acc.plus(t);
        proof {
            let vx = view_amps(x@);
            let vy = view_amps(y@);
            let j = i as int;
            assert(vx.subrange(0, j + 1).drop_last() =~= vx.subrange(0, j));
            assert(vy.subrange(0, j + 1).drop_last() =~= vy.subrange(0, j));
            assert(vx.subrange(0, j + 1).last() == vx[j]);
            assert(vy.subrange(0, j + 1).last() == vy[j]);
            assert(seq_dot(vx.subrange(0, j + 1), vy.subrange(0, j + 1)) == sc_add(
                seq_dot(vx.subrange(0, j), vy.subrange(0, j)),
                sc_mul(vx[j], vy[j]),
            ));
            assert(acc@ == sc_add(prev@, sc_mul(vx[j], vy[j])));
        }
        i = i + 1;
    }
    proof {
        assert(view_amps(x@).subrange(0, n as int) =~= view_amps(x@));
        assert(view_amps(y@).subrange(0, n as int) =~= view_amps(y@));
    }
    acc
}

/// Exact comparison of two amplitude vectors. Because every stored scalar is
/// in normal form, structural equality coincides with equality of the
/// represented amplitude sequences.
pub(crate) fn vec_eq(x: &Vec<Scalar>, y: &Vec<Scalar>) -> (r: bool)
    ensures
        r == (view_amps(x@) == view_amps(y@)),
{
    if x.len() != y.len() {
        assert(view_amps(x@).len() != view_amps(y@).len());
        return false;
    }
    let n = x.len();
    let mut i: usize = 0;
    while i < n
        invariant
            n == x@.len() == y@.len(),
            i <= n,
            forall|j: int| 0 <= j < i ==> #[trigger] x@[j]@ == y@[j]@,
        decreases n - i,
    {
        let xe = x[i];
        let ye = y[i];
        if xe != ye {
            proof {
                assert(xe@ != ye@);
                assert(view_amps(x@)[i as int] != view_amps(y@)[i as int]);
            }
            return false;
        }
        i = i + 1;
    }
    assert(view_amps(x@) =~= view_amps(y@));
    true
}

/// Copy out row `i` of a row-major `d x d` matrix.
pub(crate) fn row_of(m: &Vec<Scalar>, d: usize, i: usize) -> (r: Vec<Scalar>)
    requires
        m@.len() == d * d,
        i < d,
        all_in_range(view_amps(m@)),
    ensures
        view_amps(r@) == mat_row(view_amps(m@), d as int, i as int),
        all_in_range(view_amps(r@)),
{
    let n = m.len();
    let mut r: Vec<Scalar> = Vec::new();
    let mut j: usize = 0;
    while j < d
        invariant
            n == m@.len(),
            m@.len() == d * d,
            i < d,
            all_in_range(view_amps(m@)),
            j <= d,
            r@.len() == j,
            forall|t: int| 0 <= t < j ==> #[trigger] r@[t]@ == view_amps(m@)[i as int * d + t],
        decreases d - j,
    {
        proof {
            assert(0 <= i as int * d + j < d * d) by (nonlinear_arith)
                requires
                    0 <= (i as int) < (d as int),
                    0 <= (j as int) < (d as int),
            ;
            assert(sc_in_range(view_amps(m@)[i as int * d + j]));
        }
        r.push(m[i * d + j]);
        j = j + 1;
    }
    assert(view_amps(r@) =~= mat_row(view_amps(m@), d as int, i as int));
    assert forall|t: int| 0 <= t < r@.len() implies sc_in_range(
        #[trigger] view_amps(r@)[t],
    ) by {
        assert(0 <= i as int * d + t < d * d) by (nonlinear_arith)
            requires
                0 <= (i as int) < (d as int),
                0 <= t < (d as int),
        ;
        assert(view_amps(r@)[t] == r@[t]@);
        assert(sc_in_range(view_amps(m@)[i as int * d + t]));
    }
    r
}

/// Copy out column `j` of a row-major `d x d` matrix.
pub(crate) fn col_of(m: &Vec<Scalar>, d: usize, j: usize) -> (r: Vec<Scalar>)
    requires
        m@.len() == d * d,
        j < d,
        all_in_range(view_amps(m@)),
    ensures
        view_amps(r@) == mat_col(view_amps(m@), d as int, j as int),
        all_in_range(view_amps(r@)),
{
    let n = m.len();
    let mut r: Vec<Scalar> = Vec::new();
    let mut i: usize = 0;
    while i < d
        invariant
            n == m@.len(),
            m@.len() == d * d,
            j < d,
            all_in_range(view_amps(m@)),
            i <= d,
            r@.len() == i,
            forall|t: int| 0 <= t < i ==> #[trigger] r@[t]@ == view_amps(m@)[t * d + j],
        decreases d - i,
    {
        proof {
            assert(0 <= i as int * d + j < d * d) by (nonlinear_arith)
                requires
                    0 <= (i as int) < (d as int),
                    0 <= (j as int) < (d as int),
            ;
            assert(sc_in_range(view_amps(m@)[i as int * d + j]));
        }
        r.push(m[i * d + j]);
        i = i + 1;
    }
    assert(view_amps(r@) =~= mat_col(view_amps(m@), d as int, j as int));
    assert forall|t: int| 0 <= t < r@.len() implies sc_in_range(
        #[trigger] view_amps(r@)[t],
    ) by {
        assert(0 <= t * d + j < d * d) by (nonlinear_arith)
            requires
                0 <= t < (d as int),
                0 <= (j as int) < (d as int),
        ;
        assert(view_amps(r@)[t] == r@[t]@);
        assert(sc_in_range(view_amps(m@)[t * d + j]));
    }
    r
}

} // verus!
