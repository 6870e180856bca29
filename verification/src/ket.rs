//! State vectors.
//!
//! A [`Ket`] is a column vector of exact complex amplitudes. Its dimension is
//! the length of its amplitude vector, fixed at construction; every product
//! checks that dimensions agree and reports [`QuantError::DimensionMismatch`]
//! when they do not.

use vstd::prelude::*;

verus! {

use crate::QuantError;
use crate::bra::Bra;
use crate::outer::Outer;
use crate::linear::{
    all_in_range,
    seq_add,
    seq_conj,
    seq_scale,
    vec_add,
    vec_conj,
    vec_eq,
    vec_scale,
    view_amps,
};
use crate::scalar::{Scalar, sc_conj, sc_in_range, sc_mul, sc_one, sc_zero, lemma_in_range_mag};
use crate::states::{sv_down, sv_inw, sv_left, sv_out, sv_right, sv_up};
use vstd::arithmetic::div_mod::lemma_fundamental_div_mod_converse;
use vstd::arithmetic::power2::{pow2, is_pow2, lemma2_to64, lemma_pow2_unfold};

/// Number of binary digits needed to write `n` (0 for `n == 0`).
pub open spec fn bit_len(n: nat) -> nat
    decreases n,
{
    if n == 0 {
        0
    } else {
        1 + bit_len(n / 2)
    }
}

/// `n < 2^bit_len(n)`: the bit length is large enough to hold `n`.
pub proof fn lemma_bit_len_bound(n: nat)
    ensures
        n < pow2(bit_len(n)),
    decreases n,
{
    lemma2_to64();
    if n > 0 {
        lemma_bit_len_bound(n / 2);
        lemma_pow2_unfold(bit_len(n));
        assert(n == 2 * (n / 2) + n % 2);
    }
}

/// `n < 2^m` implies `bit_len(n) <= m`: the bit length is the least such width.
pub proof fn lemma_bit_len_le(n: nat, m: nat)
    requires
        n < pow2(m),
    ensures
        bit_len(n) <= m,
    decreases n,
{
    lemma2_to64();
    if n > 0 {
        if m == 0 {
            assert(pow2(0) == 1);
        } else {
            lemma_pow2_unfold(m);
            assert(n == 2 * (n / 2) + n % 2);
            lemma_bit_len_le(n / 2, (m - 1) as nat);
        }
    }
}

/// A state vector over exact complex amplitudes.
#[derive(Clone, Debug)]
pub struct Ket {
    /// The amplitudes; index `i` is the component along the `i`-th
    /// computational basis vector.
    pub amps: Vec<Scalar>,
}

impl View for Ket {
    type V = Seq<crate::scalar::SpecScalar>;

    open spec fn view(&self) -> Seq<crate::scalar::SpecScalar> {
        view_amps(self.amps@)
    }
}

impl PartialEq for Ket {
    fn eq(&self, other: &Self) -> (r: bool) {
        vec_eq(&self.amps, &other.amps)
    }
}

impl vstd::std_specs::cmp::PartialEqSpecImpl for Ket {
    open spec fn obeys_eq_spec() -> bool {
        true
    }

    open spec fn eq_spec(&self, other: &Ket) -> bool {
        self@ == other@
    }
}

impl Ket {
    /// Dimensions the algebra is comfortable with: amplitudes in range and a
    /// length the exact arithmetic's overflow analysis covers.
    pub open spec fn wf(&self) -> bool {
        self@.len() <= 4096 && all_in_range(self@)
    }

    /// Wrap externally supplied amplitudes, without any normalization check:
    /// callers are responsible for handing in physically meaningful states.
    pub fn from_amplitudes(amps: Vec<Scalar>) -> (r: Ket)
        ensures
            r@ == view_amps(amps@),
    {
        Ket { amps }
    }

    /// The dimension of the state vector.
    pub fn dim(&self) -> (r: usize)
        ensures
            r == self@.len(),
    {
        self.amps.len()
    }

    /// The amplitude at index `i` (bounds-checked by contract).
    pub fn get(&self, i: usize) -> (r: Scalar)
        requires
            i < self@.len(),
        ensures
            r@ == self@[i as int],
    {
        self.amps[i]
    }

    /// Up ket, `[1, 0]`.
    pub fn up() -> (r: Ket)
        ensures
            r@ == sv_up(),
            r.wf(),
    {
        let mut amps: Vec<Scalar> = Vec::new();
        amps.push(Scalar::one());
        amps.push(Scalar::zero());
        let r = Ket { amps };
        proof {
            assert(r@ =~= sv_up());
        }
        r
    }

    /// Down ket, `[0, 1]`.
    pub fn down() -> (r: Ket)
        ensures
            r@ == sv_down(),
            r.wf(),
    {
        let mut amps: Vec<Scalar> = Vec::new();
        amps.push(Scalar::zero());
        amps.push(Scalar::one());
        let r = Ket { amps };
        proof {
            assert(r@ =~= sv_down());
        }
        r
    }

    /// Right ket, `1/sqrt(2) * [1, 1]`.
    pub fn right() -> (r: Ket)
        ensures
            r@ == sv_right(),
            r.wf(),
    {
        let mut amps: Vec<Scalar> = Vec::new();
        amps.push(Scalar::inv_rt2());
        amps.push(Scalar::inv_rt2());
        let r = Ket { amps };
        proof {
            assert(r@ =~= sv_right());
        }
        r
    }

    /// Left ket, `1/sqrt(2) * [1, -1]`.
    pub fn left() -> (r: Ket)
        ensures
            r@ == sv_left(),
            r.wf(),
    {
        let mut amps: Vec<Scalar> = Vec::new();
        amps.push(Scalar::inv_rt2());
        amps.push(Scalar { a: 0, b: -1, c: 0, d: 0, k: 1 });
        let r = Ket { amps };
        proof {
            assert(r@ =~= sv_left());
        }
        r
    }

    /// Inward ket, `1/sqrt(2) * [1, i]`.
    pub fn inw() -> (r: Ket)
        ensures
            r@ == sv_inw(),
            r.wf(),
    {
        let mut amps: Vec<Scalar> = Vec::new();
        amps.push(Scalar::inv_rt2());
        amps.push(Scalar { a: 0, b: 0, c: 0, d: 1, k: 1 });
        let r = Ket { amps };
        proof {
            assert(r@ =~= sv_inw());
        }
        r
    }

    /// Outward ket, `1/sqrt(2) * [1, -i]`.
    pub fn out() -> (r: Ket)
        ensures
            r@ == sv_out(),
            r.wf(),
    {
        let mut amps: Vec<Scalar> = Vec::new();
        amps.push(Scalar::inv_rt2());
        amps.push(Scalar { a: 0, b: 0, c: 0, d: -1, k: 1 });
        let r = Ket { amps };
        proof {
            assert(r@ =~= sv_out());
        }
        r
    }

    /// Component-wise sum (superposition). The dimensions must agree.
    pub fn plus(&self, other: &Ket) -> (r: Result<Ket, QuantError>)
        requires
            self.wf(),
            other.wf(),
        ensures
            match r {
                Ok(k) => self@.len() == other@.len() && k@.len() == self@.len() && k@ == seq_add(
                    self@,
                    other@,
                ),
                Err(e) => self@.len() != other@.len() && e == QuantError::DimensionMismatch,
            },
    {
        if self.amps.len() != other.amps.len() {
            return Err(QuantError::DimensionMismatch);
        }
        Ok(Ket { amps: vec_add(&self.amps, &other.amps) })
    }

    /// Uniform scaling of every amplitude by `s`.
    pub fn scale(&self, s: Scalar) -> (r: Ket)
        requires
            self.wf(),
            sc_in_range(s@),
        ensures
            r@.len() == self@.len(),
            r@ == seq_scale(self@, s@),
    {
        Ket { amps: vec_scale(&self.amps, s) }
    }

    /// Kronecker (tensor) product of two equal-dimension kets: the composite
    /// state whose amplitude at flattened index `i * d + j` is
    /// `self[i] * other[j]`.
    pub fn cross(&self, other: &Ket) -> (r: Result<Ket, QuantError>)
        requires
            self.wf(),
            other.wf(),
        ensures
            match r {
                Ok(k) => {
                    let d = self@.len() as int;
                    &&& self@.len() == other@.len()
                    &&& k@.len() == d * d
                    &&& forall|t: int|
                        0 <= t < d * d ==> #[trigger] k@[t] == sc_mul(self@[t / d], other@[t % d])
                },
                Err(e) => self@.len() != other@.len() && e == QuantError::DimensionMismatch,
            },
    {
        if self.amps.len() != other.amps.len() {
            return Err(QuantError::DimensionMismatch);
        }
        let d = self.amps.len();
        proof {
            assert(d * d <= 4096 * 4096) by (nonlinear_arith)
                requires
                    0 <= (d as int) <= 4096,
            ;
        }
        let mut amps: Vec<Scalar> = Vec::new();
        let mut i: usize = 0;
        while i < d
            invariant
                self.wf(),
                other.wf(),
                d == self@.len() == other@.len() <= 4096,
                i <= d,
                amps@.len() == i * d,
                i * d <= d * d <= 4096 * 4096,
                forall|t: int|
                    0 <= t < i * d ==> #[trigger] amps@[t]@ == sc_mul(
                        self@[t / (d as int)],
                        other@[t % (d as int)],
                    ),
            decreases d - i,
        {
            let mut j: usize = 0;
            while j < d
                invariant
                    self.wf(),
                    other.wf(),
                    d == self@.len() == other@.len() <= 4096,
                    i < d,
                    j <= d,
                    amps@.len() == i * d + j,
                    i * d + j <= d * d <= 4096 * 4096,
                    forall|t: int|
                        0 <= t < i * d + j ==> #[trigger] amps@[t]@ == sc_mul(
                            self@[t / (d as int)],
                            other@[t % (d as int)],
                        ),
                decreases d - j,
            {
                proof {
                    assert(i * d + j < d * d && (i + 1) * d <= d * d) by (nonlinear_arith)
                        requires
                            0 <= (i as int) < (d as int),
                            0 <= (j as int) < (d as int),
                    ;
                    assert(sc_in_range(self@[i as int]));
                    assert(sc_in_range(other@[j as int]));
                    lemma_in_range_mag(self@[i as int]);
                    lemma_in_range_mag(other@[j as int]);
                }
                let t = self.amps[i].times(other.amps[j]);
                amps.push(t);
                proof {
                    lemma_fundamental_div_mod_converse(
                        i * d + j,
                        d as int,
                        i as int,
                        j as int,
                    );
                }
                j = j + 1;
            }
            i = i + 1;
            proof {
                assert((i - 1) * d + d == i * d) by (nonlinear_arith)
                    requires
                        1 <= (i as int) <= (d as int),
                ;
            }
        }
        Ok(Ket { amps })
    }

    /// The computational-basis composite state encoding the binary digits of
    /// `number`: bit `b` of `number` selects `up` (bit set) or `down` (bit
    /// clear) for the `b`-th factor counted from the last tensor position, so
    /// the single set amplitude sits at index `dim - 1 - number`.
    ///
    /// The capacity of `dim` is checked first, then that `dim` is a power of
    /// two.
    pub fn from_bits(number: u16, dim: usize) -> (r: Result<Ket, QuantError>)
        ensures
            match r {
                Ok(k) => {
                    &&& pow2(bit_len(number as nat)) <= dim
                    &&& is_pow2(dim as int)
                    &&& (number as int) < dim
                    &&& k@.len() == dim
                    &&& k@[dim - 1 - number as int] == sc_one()
                    &&& forall|t: int|
                        0 <= t < dim && t != dim - 1 - number as int ==> #[trigger] k@[t]
                            == sc_zero()
                    &&& all_in_range(k@)
                },
                Err(e) => {
                    &&& (dim < pow2(bit_len(number as nat)) || !is_pow2(dim as int))
                    &&& (e == QuantError::InsufficientCapacity <==> dim < pow2(
                        bit_len(number as nat),
                    ))
                    &&& (e == QuantError::InvalidDimension <==> pow2(bit_len(number as nat))
                        <= dim && !is_pow2(dim as int))
                },
            },
    {
        let mut bits: u32 = 0;
        let mut v: u16 = number;
        while v > 0
            invariant
                bit_len(number as nat) == bits + bit_len(v as nat),
                v <= number,
                bits <= 16,
            decreases v,
        {
            proof {
                lemma2_to64();
                lemma_bit_len_le(number as nat, 16);
            }
            v = v / 2;
            bits = bits + 1;
        }
        proof {
            assert(bit_len(0) == 0);
            lemma2_to64();
            lemma_bit_len_le(number as nat, 16);
        }
        let cap = pow2_usize(bits);
        if dim < cap {
            return Err(QuantError::InsufficientCapacity);
        }
        if !is_pow2_usize(dim) {
            return Err(QuantError::InvalidDimension);
        }
        proof {
            lemma_bit_len_bound(number as nat);
        }
        let idx = dim - 1 - (number as usize);
        let mut amps: Vec<Scalar> = Vec::new();
        let mut i: usize = 0;
        while i < dim
            invariant
                idx < dim,
                i <= dim,
                amps@.len() == i,
                forall|t: int|
                    0 <= t < i ==> #[trigger] amps@[t]@ == if t == idx {
                        sc_one()
                    } else {
                        sc_zero()
                    },
            decreases dim - i,
        {
            if i == idx {
                amps.push(Scalar::one());
            } else {
                amps.push(Scalar::zero());
            }
            i = i + 1;
        }
        Ok(Ket { amps })
    }

    /// Outer product `|self><other|`: the rank-one operator whose entry
    /// `(i, j)` is `self[i] * conj(other[j])`. The bra's components are
    /// conjugated as part of the product.
    pub fn outer(&self, other: &Bra) -> (r: Result<Outer, QuantError>)
        requires
            self.wf(),
            other.wf(),
        ensures
            match r {
                Ok(o) => {
                    let d = self@.len() as int;
                    &&& self@.len() == other@.len()
                    &&& o.dim == self@.len()
                    &&& o@.len() == d * d
                    &&& forall|t: int|
                        0 <= t < d * d ==> #[trigger] o@[t] == sc_mul(
                            self@[t / d],
                            sc_conj(other@[t % d]),
                        )
                },
                Err(e) => self@.len() != other@.len() && e == QuantError::DimensionMismatch,
            },
    {
        if self.amps.len() != other.amps.len() {
            return Err(QuantError::DimensionMismatch);
        }
        let d = self.amps.len();
        proof {
            assert(d * d <= 4096 * 4096) by (nonlinear_arith)
                requires
                    0 <= (d as int) <= 4096,
            ;
        }
        let mut m: Vec<Scalar> = Vec::new();
        let mut i: usize = 0;
        while i < d
            invariant
                self.wf(),
                other.wf(),
                d == self@.len() == other@.len() <= 4096,
                i <= d,
                m@.len() == i * d,
                i * d <= d * d <= 4096 * 4096,
                forall|t: int|
                    0 <= t < i * d ==> #[trigger] m@[t]@ == sc_mul(
                        self@[t / (d as int)],
                        sc_conj(other@[t % (d as int)]),
                    ),
            decreases d - i,
        {
            let mut j: usize = 0;
            while j < d
                invariant
                    self.wf(),
                    other.wf(),
                    d == self@.len() == other@.len() <= 4096,
                    i < d,
                    j <= d,
                    m@.len() == i * d + j,
                    i * d + j <= d * d <= 4096 * 4096,
                    forall|t: int|
                        0 <= t < i * d + j ==> #[trigger] m@[t]@ == sc_mul(
                            self@[t / (d as int)],
                            sc_conj(other@[t % (d as int)]),
                        ),
                decreases d - j,
            {
                proof {
                    assert(i * d + j < d * d && (i + 1) * d <= d * d) by (nonlinear_arith)
                        requires
                            0 <= (i as int) < (d as int),
                            0 <= (j as int) < (d as int),
                    ;
                    assert(sc_in_range(self@[i as int]));
                    assert(sc_in_range(other@[j as int]));
                    lemma_in_range_mag(self@[i as int]);
                    lemma_in_range_mag(sc_conj(other@[j as int]));
                }
                let t = self.amps[i].times(other.amps[j].conj());
                m.push(t);
                proof {
                    lemma_fundamental_div_mod_converse(
                        i * d + j,
                        d as int,
                        i as int,
                        j as int,
                    );
                }
                j = j + 1;
            }
            i = i + 1;
            proof {
                assert((i - 1) * d + d == i * d) by (nonlinear_arith)
                    requires
                        1 <= (i as int) <= (d as int),
                ;
            }
        }
        Ok(Outer { dim: d, m })
    }

    /// Conjugate transpose: the dual (bra) of this state, with every
    /// amplitude conjugated. A pure value transform; the ket is unchanged.
    pub fn to_bra(&self) -> (r: Bra)
        requires
            self.wf(),
        ensures
            r@ == seq_conj(self@),
            r.wf(),
    {
        Bra { amps: vec_conj(&self.amps) }
    }
}

/// `2^e` as a `usize`.
fn pow2_usize(e: u32) -> (r: usize)
    requires
        e <= 16,
    ensures
        r == pow2(e as nat),
{
    let mut i: u32 = 0;
    let mut r: usize = 1;
    proof {
        lemma2_to64();
    }
    while i < e
        invariant
            i <= e <= 16,
            r == pow2(i as nat),
        decreases e - i,
    {
        proof {
            lemma2_to64();
            if i + 1 < 16 {
                vstd::arithmetic::power2::lemma_pow2_strictly_increases((i + 1) as nat, 16);
            }
            lemma_pow2_unfold((i + 1) as nat);
        }
        r = r * 2;
        i = i + 1;
    }
    r
}

/// Whether `n` is a power of two, decided by repeated halving.
pub(crate) fn is_pow2_usize(n: usize) -> (r: bool)
    ensures
        r == is_pow2(n as int),
{
    if n == 0 {
        proof {
            reveal(is_pow2);
        }
        return false;
    }
    let mut t = n;
    while t > 1 && t % 2 == 0
        invariant
            t >= 1,
            is_pow2(n as int) == is_pow2(t as int),
        decreases t,
    {
        proof {
            reveal(is_pow2);
        }
        t = t / 2;
    }
    proof {
        reveal(is_pow2);
    }
    t == 1
}

} // verus!
