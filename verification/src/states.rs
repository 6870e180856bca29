//! The canonical single-level basis states, as amplitude sequences.
//!
//! Six states span the catalogue: the computational pair `up`/`down`, the
//! equal-weight real superpositions `right`/`left`, and the equal-weight
//! imaginary superpositions `inw`/`out`. All six are exactly unit-norm,
//! which [`lemma_basis_unit_norm`] proves.

use vstd::prelude::*;

verus! {

use crate::scalar::{SpecScalar, sc_add, sc_add_raw, sc_conj, sc_half, sc_inv_rt2, sc_mul,
    sc_mul_raw, sc_one, sc_reduce, sc_zero};
use crate::linear::{seq_conj, seq_dot};

broadcast use vstd::arithmetic::mul::group_mul_basics;

/// `i / sqrt(2)`, i.e. `i * sqrt(2) / 2`.
pub open spec fn sc_i_rt2() -> SpecScalar {
    SpecScalar { a: 0, b: 0, c: 0, d: 1, k: 1 }
}

/// Amplitudes of the `up` state: `[1, 0]`.
pub open spec fn sv_up() -> Seq<SpecScalar> {
    seq![sc_one(), sc_zero()]
}

/// Amplitudes of the `down` state: `[0, 1]`.
pub open spec fn sv_down() -> Seq<SpecScalar> {
    seq![sc_zero(), sc_one()]
}

/// Amplitudes of the `right` state: `1/sqrt(2) * [1, 1]`.
pub open spec fn sv_right() -> Seq<SpecScalar> {
    seq![sc_inv_rt2(), sc_inv_rt2()]
}

/// Amplitudes of the `left` state: `1/sqrt(2) * [1, -1]`.
pub open spec fn sv_left() -> Seq<SpecScalar> {
    seq![sc_inv_rt2(), SpecScalar { a: 0, b: -1, c: 0, d: 0, k: 1 }]
}

/// Amplitudes of the `inward` state: `1/sqrt(2) * [1, i]`.
pub open spec fn sv_inw() -> Seq<SpecScalar> {
    seq![sc_inv_rt2(), sc_i_rt2()]
}

/// Amplitudes of the `outward` state: `1/sqrt(2) * [1, -i]`.
pub open spec fn sv_out() -> Seq<SpecScalar> {
    seq![sc_inv_rt2(), SpecScalar { a: 0, b: 0, c: 0, d: -1, k: 1 }]
}

/// The dot product of two two-component sequences, unfolded.
proof fn lemma_dot2(x0: SpecScalar, x1: SpecScalar, y0: SpecScalar, y1: SpecScalar)
    ensures
        seq_dot(seq![x0, x1], seq![y0, y1]) == sc_add(
            sc_add(sc_zero(), sc_mul(x0, y0)),
            sc_mul(x1, y1),
        ),
{
    let x = seq![x0, x1];
    let y = seq![y0, y1];
    assert(x.drop_last() =~= seq![x0]);
    assert(y.drop_last() =~= seq![y0]);
    assert(seq![x0].drop_last() =~= Seq::<SpecScalar>::empty());
    assert(seq![y0].drop_last() =~= Seq::<SpecScalar>::empty());
    assert(seq_dot(Seq::<SpecScalar>::empty(), Seq::<SpecScalar>::empty()) == sc_zero());
    assert(seq_dot(seq![x0], seq![y0]) == sc_add(sc_zero(), sc_mul(x0, y0)));
}

/// Conjugating a two-component sequence, unfolded.
proof fn lemma_conj2(x0: SpecScalar, x1: SpecScalar)
    ensures
        seq_conj(seq![x0, x1]) == seq![sc_conj(x0), sc_conj(x1)],
{
    assert(seq_conj(seq![x0, x1]) =~= seq![sc_conj(x0), sc_conj(x1)]);
}

/// The self-inner-product of a two-component state, unfolded down to scalar
/// arithmetic.
proof fn lemma_self_dot2(x0: SpecScalar, x1: SpecScalar)
    ensures
        seq_dot(seq_conj(seq![x0, x1]), seq![x0, x1]) == sc_add(
            sc_add(sc_zero(), sc_mul(sc_conj(x0), x0)),
            sc_mul(sc_conj(x1), x1),
        ),
{
    lemma_conj2(x0, x1);
    lemma_dot2(sc_conj(x0), sc_conj(x1), x0, x1);
}

/// Common tail for the four equal-weight superposition states: each
/// component contributes exactly `1/2` to the self-inner-product.
proof fn lemma_unit_sup(x1: SpecScalar)
    requires
        sc_mul(sc_conj(x1), x1) == sc_half(),
    ensures
        seq_dot(seq_conj(seq![sc_inv_rt2(), x1]), seq![sc_inv_rt2(), x1]) == sc_one(),
{
    lemma_self_dot2(sc_inv_rt2(), x1);
    vstd::arithmetic::power2::lemma2_to64();
    reveal_with_fuel(sc_reduce, 4);
    assert(sc_mul_raw(sc_conj(sc_inv_rt2()), sc_inv_rt2()) == SpecScalar {
        a: 2,
        b: 0,
        c: 0,
        d: 0,
        k: 2,
    });
    assert(sc_reduce(SpecScalar { a: 2, b: 0, c: 0, d: 0, k: 2 }) == sc_half());
    assert(sc_add_raw(sc_zero(), sc_half()) == SpecScalar { a: 1, b: 0, c: 0, d: 0, k: 1 });
    assert(sc_reduce(SpecScalar { a: 1, b: 0, c: 0, d: 0, k: 1 }) == sc_half());
    assert(sc_add_raw(sc_half(), sc_half()) == SpecScalar { a: 2, b: 0, c: 0, d: 0, k: 1 });
    assert(sc_reduce(SpecScalar { a: 2, b: 0, c: 0, d: 0, k: 1 }) == sc_one());
}

proof fn lemma_unit_up()
    ensures
        seq_dot(seq_conj(sv_up()), sv_up()) == sc_one(),
{
    lemma_self_dot2(sc_one(), sc_zero());
    vstd::arithmetic::power2::lemma2_to64();
    reveal_with_fuel(sc_reduce, 4);
    assert(sc_mul_raw(sc_conj(sc_one()), sc_one()) == SpecScalar { a: 1, b: 0, c: 0, d: 0, k: 0 });
    assert(sc_mul_raw(sc_conj(sc_zero()), sc_zero()) == SpecScalar { a: 0, b: 0, c: 0, d: 0, k: 0 });
    assert(sc_reduce(SpecScalar { a: 1, b: 0, c: 0, d: 0, k: 0 }) == sc_one());
    assert(sc_reduce(SpecScalar { a: 0, b: 0, c: 0, d: 0, k: 0 }) == sc_zero());
    assert(sc_add_raw(sc_zero(), sc_one()) == SpecScalar { a: 1, b: 0, c: 0, d: 0, k: 0 });
    assert(sc_add_raw(sc_one(), sc_zero()) == SpecScalar { a: 1, b: 0, c: 0, d: 0, k: 0 });
}

proof fn lemma_unit_down()
    ensures
        seq_dot(seq_conj(sv_down()), sv_down()) == sc_one(),
{
    lemma_self_dot2(sc_zero(), sc_one());
    vstd::arithmetic::power2::lemma2_to64();
    reveal_with_fuel(sc_reduce, 4);
    assert(sc_mul_raw(sc_conj(sc_one()), sc_one()) == SpecScalar { a: 1, b: 0, c: 0, d: 0, k: 0 });
    assert(sc_mul_raw(sc_conj(sc_zero()), sc_zero()) == SpecScalar { a: 0, b: 0, c: 0, d: 0, k: 0 });
    assert(sc_reduce(SpecScalar { a: 1, b: 0, c: 0, d: 0, k: 0 }) == sc_one());
    assert(sc_reduce(SpecScalar { a: 0, b: 0, c: 0, d: 0, k: 0 }) == sc_zero());
    assert(sc_add_raw(sc_zero(), sc_zero()) == SpecScalar { a: 0, b: 0, c: 0, d: 0, k: 0 });
    assert(sc_add_raw(sc_zero(), sc_one()) == SpecScalar { a: 1, b: 0, c: 0, d: 0, k: 0 });
}

proof fn lemma_unit_right()
    ensures
        seq_dot(seq_conj(sv_right()), sv_right()) == sc_one(),
{
    reveal_with_fuel(sc_reduce, 4);
    assert(sc_mul_raw(sc_conj(sc_inv_rt2()), sc_inv_rt2()) == SpecScalar {
        a: 2,
        b: 0,
        c: 0,
        d: 0,
        k: 2,
    });
    assert(sc_reduce(SpecScalar { a: 2, b: 0, c: 0, d: 0, k: 2 }) == sc_half());
    lemma_unit_sup(sc_inv_rt2());
}

proof fn lemma_unit_left()
    ensures
        seq_dot(seq_conj(sv_left()), sv_left()) == sc_one(),
{
    let x1 = SpecScalar { a: 0, b: -1, c: 0, d: 0, k: 1 };
    reveal_with_fuel(sc_reduce, 4);
    assert(sc_conj(x1).b * x1.b == 1) by (nonlinear_arith)
        requires
            sc_conj(x1).b == -1,
            x1.b == -1,
    ;
    assert(sc_mul_raw(sc_conj(x1), x1) == SpecScalar { a: 2, b: 0, c: 0, d: 0, k: 2 });
    assert(sc_reduce(SpecScalar { a: 2, b: 0, c: 0, d: 0, k: 2 }) == sc_half());
    lemma_unit_sup(x1);
}

proof fn lemma_unit_inw()
    ensures
        seq_dot(seq_conj(sv_inw()), sv_inw()) == sc_one(),
{
    reveal_with_fuel(sc_reduce, 4);
    assert(sc_mul_raw(sc_conj(sc_i_rt2()), sc_i_rt2()) == SpecScalar { a: 2, b: 0, c: 0, d: 0, k: 2 });
    assert(sc_reduce(SpecScalar { a: 2, b: 0, c: 0, d: 0, k: 2 }) == sc_half());
    lemma_unit_sup(sc_i_rt2());
}

proof fn lemma_unit_out()
    ensures
        seq_dot(seq_conj(sv_out()), sv_out()) == sc_one(),
{
    let x1 = SpecScalar { a: 0, b: 0, c: 0, d: -1, k: 1 };
    reveal_with_fuel(sc_reduce, 4);
    assert(sc_mul_raw(sc_conj(x1), x1) == SpecScalar { a: 2, b: 0, c: 0, d: 0, k: 2 });
    assert(sc_reduce(SpecScalar { a: 2, b: 0, c: 0, d: 0, k: 2 }) == sc_half());
    lemma_unit_sup(x1);
}

/// Every named basis state is exactly unit-norm: the inner product of each
/// state with itself (conjugated dual against vector) is exactly `1`.
pub proof fn lemma_basis_unit_norm()
    ensures
        seq_dot(seq_conj(sv_up()), sv_up()) == sc_one(),
        seq_dot(seq_conj(sv_down()), sv_down()) == sc_one(),
        seq_dot(seq_conj(sv_right()), sv_right()) == sc_one(),
        seq_dot(seq_conj(sv_left()), sv_left()) == sc_one(),
        seq_dot(seq_conj(sv_inw()), sv_inw()) == sc_one(),
        seq_dot(seq_conj(sv_out()), sv_out()) == sc_one(),
{
    lemma_unit_up();
    lemma_unit_down();
    lemma_unit_right();
    lemma_unit_left();
    lemma_unit_inw();
    lemma_unit_out();
}

} // verus!
