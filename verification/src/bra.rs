//! Dual vectors.
//!
//! A [`Bra`] is a row vector of exact complex amplitudes: a linear functional
//! over kets of the same dimension. Its amplitudes are stored unconjugated;
//! the quantum inner product conjugates them at the point of the product, and
//! the conversions to and from [`Ket`] conjugate explicitly, so the
//! bra-to-ket relation is a true conjugate transpose rather than a storage
//! artifact.

use vstd::prelude::*;

verus! {

use crate::QuantError;
use crate::ket::Ket;
use crate::outer::Outer;
use crate::linear::{
    all_in_range,
    col_of,
    mat_col,
    seq_add,
    seq_conj,
    seq_dot,
    seq_scale,
    vec_add,
    vec_conj,
    vec_dot,
    vec_eq,
    vec_scale,
    view_amps,
};
use crate::scalar::{Scalar, SpecScalar, sc_conj, sc_in_range};
use crate::states::{sv_down, sv_inw, sv_left, sv_out, sv_right, sv_up};

/// A dual (row) vector over exact complex amplitudes.
#[derive(Clone, Debug)]
pub struct Bra {
    /// The amplitudes, unconjugated; products conjugate them on the fly.
    pub amps: Vec<Scalar>,
}

impl View for Bra {
    type V = Seq<SpecScalar>;

    open spec fn view(&self) -> Seq<SpecScalar> {
        view_amps(self.amps@)
    }
}

impl PartialEq for Bra {
    fn eq(&self, other: &Self) -> (r: bool) {
        vec_eq(&self.amps, &other.amps)
    }
}

impl vstd::std_specs::cmp::PartialEqSpecImpl for Bra {
    open spec fn obeys_eq_spec() -> bool {
        true
    }

    open spec fn eq_spec(&self, other: &Bra) -> bool {
        self@ == other@
    }
}

impl Bra {
    /// Dimensions the algebra is comfortable with: amplitudes in range and a
    /// length the exact arithmetic's overflow analysis covers.
    pub open spec fn wf(&self) -> bool {
        self@.len() <= 4096 && all_in_range(self@)
    }

    /// Wrap externally supplied amplitudes, without any normalization check.
    pub fn from_amplitudes(amps: Vec<Scalar>) -> (r: Bra)
        ensures
            r@ == view_amps(amps@),
    {
        Bra { amps }
    }

    /// The dimension of the dual vector.
    pub fn dim(&self) -> (r: usize)
        ensures
            r == self@.len(),
    {
        self.amps.len()
    }

    /// The amplitude at index `i` (bounds-checked by contract).
    pub fn get(&self, i: usize) -> (r: Scalar)
        requires
            i < self@.len(),
        ensures
            r@ == self@[i as int],
    {
        self.amps[i]
    }

    /// Up bra, `[1, 0]`.
    pub fn up() -> (r: Bra)
        ensures
            r@ == sv_up(),
            r.wf(),
    {
        let mut amps: Vec<Scalar> = Vec::new();
        amps.push(Scalar::one());
        amps.push(Scalar::zero());
        let r = Bra { amps };
        proof {
            assert(r@ =~= sv_up());
        }
        r
    }

    /// Down bra, `[0, 1]`.
    pub fn down() -> (r: Bra)
        ensures
            r@ == sv_down(),
            r.wf(),
    {
        let mut amps: Vec<Scalar> = Vec::new();
        amps.push(Scalar::zero());
        amps.push(Scalar::one());
        let r = Bra { amps };
        proof {
            assert(r@ =~= sv_down());
        }
        r
    }

    /// Right bra, `1/sqrt(2) * [1, 1]`.
    pub fn right() -> (r: Bra)
        ensures
            r@ == sv_right(),
            r.wf(),
    {
        let mut amps: Vec<Scalar> = Vec::new();
        amps.push(Scalar::inv_rt2());
        amps.push(Scalar::inv_rt2());
        let r = Bra { amps };
        proof {
            assert(r@ =~= sv_right());
        }
        r
    }

    /// Left bra, `1/sqrt(2) * [1, -1]`.
    pub fn left() -> (r: Bra)
        ensures
            r@ == sv_left(),
            r.wf(),
    {
        let mut amps: Vec<Scalar> = Vec::new();
        amps.push(Scalar::inv_rt2());
        amps.push(Scalar { a: 0, b: -1, c: 0, d: 0, k: 1 });
        let r = Bra { amps };
        proof {
            assert(r@ =~= sv_left());
        }
        r
    }

    /// Inward bra, `1/sqrt(2) * [1, i]`.
    pub fn inw() -> (r: Bra)
        ensures
            r@ == sv_inw(),
            r.wf(),
    {
        let mut amps: Vec<Scalar> = Vec::new();
        amps.push(Scalar::inv_rt2());
        amps.push(Scalar { a: 0, b: 0, c: 0, d: 1, k: 1 });
        let r = Bra { amps };
        proof {
            assert(r@ =~= sv_inw());
        }
        r
    }

    /// Outward bra, `1/sqrt(2) * [1, -i]`.
    pub fn out() -> (r: Bra)
        ensures
            r@ == sv_out(),
            r.wf(),
    {
        let mut amps: Vec<Scalar> = Vec::new();
        amps.push(Scalar::inv_rt2());
        amps.push(Scalar { a: 0, b: 0, c: 0, d: -1, k: 1 });
        let r = Bra { amps };
        proof {
            assert(r@ =~= sv_out());
        }
        r
    }

    /// The quantum inner product `<self|other>`: conjugate every component of
    /// the bra, then take the dot product with the ket. Defined exactly when
    /// the dimensions agree; a mismatch is rejected with a typed error rather
    /// than a silently wrong number.
    pub fn inner(&self, other: &Ket) -> (r: Result<Scalar, QuantError>)
        requires
            self.wf(),
            other.wf(),
        ensures
            match r {
                Ok(s) => self@.len() == other@.len() && s@ == seq_dot(seq_conj(self@), other@),
                Err(e) => self@.len() != other@.len() && e == QuantError::DimensionMismatch,
            },
    {
        if self.amps.len() != other.amps.len() {
            return Err(QuantError::DimensionMismatch);
        }
        let conjugated = vec_conj(&self.amps);
        proof {
            assert(view_amps(conjugated@).len() == conjugated@.len());
            assert(seq_conj(self@).len() == self@.len());
        }
        Ok(vec_dot(&conjugated, &other.amps))
    }

    /// The dual acted on by an operator from the right: `<self| * op` is the
    /// bra whose component `j` is the dot product of `self` with column `j`
    /// of the operator. No conjugation is applied here.
    pub fn apply(&self, op: &Outer) -> (r: Result<Bra, QuantError>)
        requires
            self.wf(),
            op.wf(),
        ensures
            match r {
                Ok(b) => {
                    &&& self@.len() == op.dim
                    &&& b@.len() == op.dim
                    &&& forall|j: int|
                        0 <= j < op.dim ==> #[trigger] b@[j] == seq_dot(
                            self@,
                            mat_col(op@, op.dim as int, j),
                        )
                },
                Err(e) => self@.len() != op.dim && e == QuantError::DimensionMismatch,
            },
    {
        if self.amps.len() != op.dim {
            return Err(QuantError::DimensionMismatch);
        }
        let d = op.dim;
        let mut amps: Vec<Scalar> = Vec::new();
        let mut j: usize = 0;
        while j < d
            invariant
                self.wf(),
                op.wf(),
                d == op.dim == self@.len(),
                j <= d,
                amps@.len() == j,
                forall|t: int|
                    0 <= t < j ==> #[trigger] amps@[t]@ == seq_dot(
                        self@,
                        mat_col(op@, d as int, t),
                    ),
            decreases d - j,
        {
            let col = col_of(&op.m, d, j);
            proof {
                assert(view_amps(col@).len() == d);
            }
            let s = vec_dot(&self.amps, &col);
            amps.push(s);
            j = j + 1;
        }
        Ok(Bra { amps })
    }

    /// Component-wise sum (superposition). The dimensions must agree.
    pub fn plus(&self, other: &Bra) -> (r: Result<Bra, QuantError>)
        requires
            self.wf(),
            other.wf(),
        ensures
            match r {
                Ok(b) => self@.len() == other@.len() && b@.len() == self@.len() && b@ == seq_add(
                    self@,
                    other@,
                ),
                Err(e) => self@.len() != other@.len() && e == QuantError::DimensionMismatch,
            },
    {
        if self.amps.len() != other.amps.len() {
            return Err(QuantError::DimensionMismatch);
        }
        Ok(Bra { amps: vec_add(&self.amps, &other.amps) })
    }

    /// Uniform scaling of every amplitude by `s`.
    pub fn scale(&self, s: Scalar) -> (r: Bra)
        requires
            self.wf(),
            sc_in_range(s@),
        ensures
            r@.len() == self@.len(),
            r@ == seq_scale(self@, s@),
    {
        Bra { amps: vec_scale(&self.amps, s) }
    }

    /// Conjugate transpose: the ket dual to this bra, with every amplitude
    /// conjugated. A pure value transform; the bra is unchanged.
    pub fn to_ket(&self) -> (r: Ket)
        requires
            self.wf(),
        ensures
            r@ == seq_conj(self@),
            r.wf(),
    {
        Ket { amps: vec_conj(&self.amps) }
    }
}

/// The conjugate-transpose conversion between duals and vectors is an
/// involution: conjugating every amplitude twice returns the original
/// amplitude sequence, so `Bra -> Ket -> Bra` (and `Ket -> Bra -> Ket`)
/// is the identity.
pub proof fn lemma_dual_involution(s: Seq<SpecScalar>)
    ensures
        seq_conj(seq_conj(s)) == s,
{
    assert forall|i: int| 0 <= i < s.len() implies #[trigger] seq_conj(seq_conj(s))[i] == s[i] by {
        assert(seq_conj(s)[i] == sc_conj(s[i]));
    }
    assert(seq_conj(seq_conj(s)) =~= s);
}

} // verus!
