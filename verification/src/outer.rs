//! Linear operators.
//!
//! An [`Outer`] is a square matrix of exact complex amplitudes, stored
//! row-major. As the product `ket x bra` it is a rank-one projector; the
//! gate catalogue ([`Outer::h2`], [`Outer::z2`], [`Outer::n2`],
//! [`Outer::cnot`], [`Outer::qft`]) holds the standard operators with exact
//! entries.

use vstd::prelude::*;

verus! {

use crate::QuantError;
use crate::ket::{Ket, is_pow2_usize};
use crate::linear::{
    all_in_range,
    mat_row,
    row_of,
    vec_dot,
    seq_add,
    seq_dot,
    seq_scale,
    vec_add,
    vec_eq,
    vec_scale,
    view_amps,
};
use crate::scalar::{
    Scalar,
    SpecScalar,
    in_band,
    sc_half,
    sc_in_range,
    sc_inv_rt2,
    sc_mul,
    sc_one,
    sc_zero,
    lemma_in_range_mag,
    lemma_mul_band,
};
use vstd::arithmetic::div_mod::lemma_fundamental_div_mod_converse;
use vstd::arithmetic::power2::is_pow2;

/// A linear operator on a `dim`-dimensional space: a `dim x dim` matrix of
/// exact complex amplitudes, stored row-major.
#[derive(Clone, Debug)]
pub struct Outer {
    /// The dimension of the space the operator acts on.
    pub dim: usize,
    /// The matrix entries, row-major: entry `(i, j)` is at `i * dim + j`.
    pub m: Vec<Scalar>,
}

impl View for Outer {
    type V = Seq<SpecScalar>;

    open spec fn view(&self) -> Seq<SpecScalar> {
        view_amps(self.m@)
    }
}

impl PartialEq for Outer {
    fn eq(&self, other: &Self) -> (r: bool) {
        self.dim == other.dim && vec_eq(&self.m, &other.m)
    }
}

impl vstd::std_specs::cmp::PartialEqSpecImpl for Outer {
    open spec fn obeys_eq_spec() -> bool {
        true
    }

    open spec fn eq_spec(&self, other: &Outer) -> bool {
        self.dim == other.dim && self@ == other@
    }
}

/// Amplitudes of the Hadamard gate, `1/sqrt(2) * [[1, 1], [1, -1]]`.
pub open spec fn sv_h2() -> Seq<SpecScalar> {
    seq![
        sc_inv_rt2(),
        sc_inv_rt2(),
        sc_inv_rt2(),
        SpecScalar { a: 0, b: -1, c: 0, d: 0, k: 1 },
    ]
}

/// Amplitudes of the phase-flip gate, `diag(1, -1)`.
pub open spec fn sv_z2() -> Seq<SpecScalar> {
    seq![sc_one(), sc_zero(), sc_zero(), SpecScalar { a: -1, b: 0, c: 0, d: 0, k: 0 }]
}

/// Amplitudes of the bit-flip gate, `[[0, 1], [1, 0]]`.
pub open spec fn sv_n2() -> Seq<SpecScalar> {
    seq![sc_zero(), sc_one(), sc_one(), sc_zero()]
}

/// Amplitudes of the controlled-NOT gate: identity on the first two basis
/// states, swap of the last two.
pub open spec fn sv_cnot() -> Seq<SpecScalar> {
    seq![
        sc_one(),
        sc_zero(),
        sc_zero(),
        sc_zero(),
        sc_zero(),
        sc_one(),
        sc_zero(),
        sc_zero(),
        sc_zero(),
        sc_zero(),
        sc_zero(),
        sc_one(),
        sc_zero(),
        sc_zero(),
        sc_one(),
        sc_zero(),
    ]
}

/// `exp(2*pi*i*m/d)`: the `m`-th power of the primitive `d`-th root of
/// unity, for the dimensions whose roots the exact amplitude ring holds.
pub open spec fn qft_root(d: int, m: int) -> SpecScalar {
    if d == 1 {
        sc_one()
    } else if d == 2 {
        if m == 0 {
            sc_one()
        } else {
            SpecScalar { a: -1, b: 0, c: 0, d: 0, k: 0 }
        }
    } else if d == 4 {
        if m == 0 {
            sc_one()
        } else if m == 1 {
            SpecScalar { a: 0, b: 0, c: 1, d: 0, k: 0 }
        } else if m == 2 {
            SpecScalar { a: -1, b: 0, c: 0, d: 0, k: 0 }
        } else {
            SpecScalar { a: 0, b: 0, c: -1, d: 0, k: 0 }
        }
    } else {
        if m == 0 {
            sc_one()
        } else if m == 1 {
            SpecScalar { a: 0, b: 1, c: 0, d: 1, k: 1 }
        } else if m == 2 {
            SpecScalar { a: 0, b: 0, c: 1, d: 0, k: 0 }
        } else if m == 3 {
            SpecScalar { a: 0, b: -1, c: 0, d: 1, k: 1 }
        } else if m == 4 {
            SpecScalar { a: -1, b: 0, c: 0, d: 0, k: 0 }
        } else if m == 5 {
            SpecScalar { a: 0, b: -1, c: 0, d: -1, k: 1 }
        } else if m == 6 {
            SpecScalar { a: 0, b: 0, c: -1, d: 0, k: 0 }
        } else {
            SpecScalar { a: 0, b: 1, c: 0, d: -1, k: 1 }
        }
    }
}

/// `1 / sqrt(d)` for the supported transform dimensions.
pub open spec fn qft_scale(d: int) -> SpecScalar {
    if d == 1 {
        sc_one()
    } else if d == 2 {
        sc_inv_rt2()
    } else if d == 4 {
        sc_half()
    } else {
        SpecScalar { a: 0, b: 1, c: 0, d: 0, k: 2 }
    }
}

/// The `m`-th power of the primitive `d`-th root of unity, as an exact
/// scalar, for `d` in `{1, 2, 4, 8}`.
fn qft_root_exec(d: usize, m: usize) -> (r: Scalar)
    requires
        d == 1 || d == 2 || d == 4 || d == 8,
        m < d,
    ensures
        r@ == qft_root(d as int, m as int),
        sc_in_range(r@),
        in_band(r@.a, 1),
        in_band(r@.b, 1),
        in_band(r@.c, 1),
        in_band(r@.d, 1),
        r@.k <= 1,
{
    if d == 1 {
        Scalar { a: 1, b: 0, c: 0, d: 0, k: 0 }
    } else if d == 2 {
        if m == 0 {
            Scalar { a: 1, b: 0, c: 0, d: 0, k: 0 }
        } else {
            Scalar { a: -1, b: 0, c: 0, d: 0, k: 0 }
        }
    } else if d == 4 {
        if m == 0 {
            Scalar { a: 1, b: 0, c: 0, d: 0, k: 0 }
        } else if m == 1 {
            Scalar { a: 0, b: 0, c: 1, d: 0, k: 0 }
        } else if m == 2 {
            Scalar { a: -1, b: 0, c: 0, d: 0, k: 0 }
        } else {
            Scalar { a: 0, b: 0, c: -1, d: 0, k: 0 }
        }
    } else {
        if m == 0 {
            Scalar { a: 1, b: 0, c: 0, d: 0, k: 0 }
        } else if m == 1 {
            Scalar { a: 0, b: 1, c: 0, d: 1, k: 1 }
        } else if m == 2 {
            Scalar { a: 0, b: 0, c: 1, d: 0, k: 0 }
        } else if m == 3 {
            Scalar { a: 0, b: -1, c: 0, d: 1, k: 1 }
        } else if m == 4 {
            Scalar { a: -1, b: 0, c: 0, d: 0, k: 0 }
        } else if m == 5 {
            Scalar { a: 0, b: -1, c: 0, d: -1, k: 1 }
        } else if m == 6 {
            Scalar { a: 0, b: 0, c: -1, d: 0, k: 0 }
        } else {
            Scalar { a: 0, b: 1, c: 0, d: -1, k: 1 }
        }
    }
}

/// `1 / sqrt(d)` as an exact scalar, for `d` in `{1, 2, 4, 8}`.
fn qft_scale_exec(d: usize) -> (r: Scalar)
    requires
        d == 1 || d == 2 || d == 4 || d == 8,
    ensures
        r@ == qft_scale(d as int),
        sc_in_range(r@),
        in_band(r@.a, 1),
        in_band(r@.b, 1),
        in_band(r@.c, 1),
        in_band(r@.d, 1),
        r@.k <= 2,
{
    if d == 1 {
        Scalar { a: 1, b: 0, c: 0, d: 0, k: 0 }
    } else if d == 2 {
        Scalar { a: 0, b: 1, c: 0, d: 0, k: 1 }
    } else if d == 4 {
        Scalar { a: 1, b: 0, c: 0, d: 0, k: 1 }
    } else {
        Scalar { a: 0, b: 1, c: 0, d: 0, k: 2 }
    }
}

impl Outer {
    /// Dimensions the algebra is comfortable with: a square matrix with
    /// in-range amplitudes and a dimension the exact arithmetic's overflow
    /// analysis covers.
    pub open spec fn wf(&self) -> bool {
        &&& self.m@.len() == self.dim * self.dim
        &&& self.dim <= 4096
        &&& all_in_range(self@)
    }

    /// Wrap an externally supplied row-major `dim x dim` entry vector. The
    /// entry count must match the dimension.
    pub fn from_entries(dim: usize, entries: Vec<Scalar>) -> (r: Result<Outer, QuantError>)
        ensures
            match r {
                Ok(o) => {
                    &&& entries@.len() == dim * dim
                    &&& o.dim == dim
                    &&& o@ == view_amps(entries@)
                },
                Err(e) => entries@.len() != dim * dim && e == QuantError::DimensionMismatch,
            },
    {
        let len = entries.len();
        match dim.checked_mul(dim) {
            Some(n) => {
                if len == n {
                    Ok(Outer { dim, m: entries })
                } else {
                    Err(QuantError::DimensionMismatch)
                }
            },
            None => Err(QuantError::DimensionMismatch),
        }
    }

    /// Deconstruct the operator, returning the raw row-major entry vector.
    pub fn into_matrix(self) -> (r: Vec<Scalar>)
        ensures
            view_amps(r@) == self@,
    {
        self.m
    }

    /// The entry at row `i`, column `j` (bounds-checked by contract).
    pub fn entry(&self, i: usize, j: usize) -> (r: Scalar)
        requires
            self.wf(),
            i < self.dim,
            j < self.dim,
        ensures
            r@ == self@[i as int * self.dim + j],
    {
        let n = self.m.len();
        proof {
            assert(0 <= i as int * self.dim + j < self.dim * self.dim) by (nonlinear_arith)
                requires
                    0 <= (i as int) < (self.dim as int),
                    0 <= (j as int) < (self.dim as int),
            ;
            assert(self.dim * self.dim == n);
        }
        self.m[i * self.dim + j]
    }

    /// Apply the operator to a ket: the standard matrix-vector product.
    pub fn apply(&self, other: &Ket) -> (r: Result<Ket, QuantError>)
        requires
            self.wf(),
            other.wf(),
        ensures
            match r {
                Ok(k) => {
                    &&& self.dim == other@.len()
                    &&& k@.len() == self.dim
                    &&& forall|i: int|
                        0 <= i < self.dim ==> #[trigger] k@[i] == seq_dot(
                            mat_row(self@, self.dim as int, i),
                            other@,
                        )
                },
                Err(e) => self.dim != other@.len() && e == QuantError::DimensionMismatch,
            },
    {
        if self.dim != other.amps.len() {
            return Err(QuantError::DimensionMismatch);
        }
        let d = self.dim;
        let mut amps: Vec<Scalar> = Vec::new();
        let mut i: usize = 0;
        while i < d
            invariant
                self.wf(),
                other.wf(),
                d == self.dim == other@.len(),
                i <= d,
                amps@.len() == i,
                forall|t: int|
                    0 <= t < i ==> #[trigger] amps@[t]@ == seq_dot(
                        mat_row(self@, d as int, t),
                        other@,
                    ),
            decreases d - i,
        {
            let row = row_of(&self.m, d, i);
            proof {
                assert(view_amps(row@).len() == d);
            }
            let s = vec_dot(&row, &other.amps);
            amps.push(s);
            i = i + 1;
        }
        Ok(Ket { amps })
    }

    /// Component-wise sum of two operators of the same dimension.
    pub fn plus(&self, other: &Outer) -> (r: Result<Outer, QuantError>)
        requires
            self.wf(),
            other.wf(),
        ensures
            match r {
                Ok(o) => {
                    &&& self.dim == other.dim
                    &&& o.dim == self.dim
                    &&& o@.len() == self@.len()
                    &&& o@ == seq_add(self@, other@)
                },
                Err(e) => self.dim != other.dim && e == QuantError::DimensionMismatch,
            },
    {
        if self.dim != other.dim {
            return Err(QuantError::DimensionMismatch);
        }
        Ok(Outer { dim: self.dim, m: vec_add(&self.m, &other.m) })
    }

    /// Uniform scaling of every entry by `s`.
    pub fn scale(&self, s: Scalar) -> (r: Outer)
        requires
            self.wf(),
            sc_in_range(s@),
        ensures
            r.dim == self.dim,
            r@.len() == self@.len(),
            r@ == seq_scale(self@, s@),
    {
        Outer { dim: self.dim, m: vec_scale(&self.m, s) }
    }

    /// The Hadamard gate, `1/sqrt(2) * [[1, 1], [1, -1]]`.
    pub fn h2() -> (r: Outer)
        ensures
            r.dim == 2,
            r@ == sv_h2(),
            r.wf(),
    {
        let mut m: Vec<Scalar> = Vec::new();
        m.push(Scalar::inv_rt2());
        m.push(Scalar::inv_rt2());
        m.push(Scalar::inv_rt2());
        m.push(Scalar { a: 0, b: -1, c: 0, d: 0, k: 1 });
        let r = Outer { dim: 2, m };
        proof {
            assert(r@ =~= sv_h2());
        }
        r
    }

    /// The phase-flip gate, `diag(1, -1)`.
    pub fn z2() -> (r: Outer)
        ensures
            r.dim == 2,
            r@ == sv_z2(),
            r.wf(),
    {
        let mut m: Vec<Scalar> = Vec::new();
        m.push(Scalar::one());
        m.push(Scalar::zero());
        m.push(Scalar::zero());
        m.push(Scalar { a: -1, b: 0, c: 0, d: 0, k: 0 });
        let r = Outer { dim: 2, m };
        proof {
            assert(r@ =~= sv_z2());
        }
        r
    }

    /// The bit-flip gate, `[[0, 1], [1, 0]]`.
    pub fn n2() -> (r: Outer)
        ensures
            r.dim == 2,
            r@ == sv_n2(),
            r.wf(),
    {
        let mut m: Vec<Scalar> = Vec::new();
        m.push(Scalar::zero());
        m.push(Scalar::one());
        m.push(Scalar::one());
        m.push(Scalar::zero());
        let r = Outer { dim: 2, m };
        proof {
            assert(r@ =~= sv_n2());
        }
        r
    }

    /// The controlled-NOT gate: the permutation matrix that is the identity
    /// on the first two basis states and swaps the last two.
    pub fn cnot() -> (r: Outer)
        ensures
            r.dim == 4,
            r@ == sv_cnot(),
            r.wf(),
    {
        let mut m: Vec<Scalar> = Vec::new();
        m.push(Scalar::one());
        m.push(Scalar::zero());
        m.push(Scalar::zero());
        m.push(Scalar::zero());
        m.push(Scalar::zero());
        m.push(Scalar::one());
        m.push(Scalar::zero());
        m.push(Scalar::zero());
        m.push(Scalar::zero());
        m.push(Scalar::zero());
        m.push(Scalar::zero());
        m.push(Scalar::one());
        m.push(Scalar::zero());
        m.push(Scalar::zero());
        m.push(Scalar::one());
        m.push(Scalar::zero());
        let r = Outer { dim: 4, m };
        proof {
            assert(r@ =~= sv_cnot());
        }
        r
    }

    /// The discrete Fourier transform operator: entry `(i, j)` is
    /// `exp(2*pi*i*i*j/dim) / sqrt(dim)`, as an exact scalar.
    ///
    /// The exact amplitude ring holds the roots of unity up to eighth roots,
    /// so the transform is available for dimensions 1, 2, 4 and 8. A
    /// dimension that is not a power of two is rejected as invalid; a larger
    /// power of two is rejected as unsupported.
    pub fn qft(dim: usize) -> (r: Result<Outer, QuantError>)
        ensures
            match r {
                Ok(o) => {
                    &&& (dim == 1 || dim == 2 || dim == 4 || dim == 8)
                    &&& o.dim == dim
                    &&& o.wf()
                    &&& o@.len() == dim * dim
                    &&& forall|t: int|
                        0 <= t < dim * dim ==> #[trigger] o@[t] == sc_mul(
                            qft_root(
                                dim as int,
                                ((t / (dim as int)) * (t % (dim as int))) % (dim as int),
                            ),
                            qft_scale(dim as int),
                        )
                },
                Err(e) => {
                    &&& (dim > 8 || !is_pow2(dim as int))
                    &&& (e == QuantError::InvalidDimension <==> !is_pow2(dim as int))
                    &&& (e == QuantError::UnsupportedDimension <==> is_pow2(dim as int) && dim
                        > 8)
                },
            },
    {
        if !(dim == 1 || dim == 2 || dim == 4 || dim == 8) {
            if is_pow2_usize(dim) {
                proof {
                    assert(dim > 8) by {
                        reveal_with_fuel(is_pow2, 5);
                    }
                }
                return Err(QuantError::UnsupportedDimension);
            } else {
                return Err(QuantError::InvalidDimension);
            }
        }
        let scl = qft_scale_exec(dim);
        let mut m: Vec<Scalar> = Vec::new();
        let mut i: usize = 0;
        while i < dim
            invariant
                dim == 1 || dim == 2 || dim == 4 || dim == 8,
                sc_in_range(scl@),
                scl@ == qft_scale(dim as int),
                i <= dim,
                m@.len() == i * dim,
                i * dim <= dim * dim,
                forall|t: int| 0 <= t < i * dim ==> sc_in_range(#[trigger] m@[t]@),
                forall|t: int|
                    0 <= t < i * dim ==> #[trigger] m@[t]@ == sc_mul(
                        qft_root(
                            dim as int,
                            ((t / (dim as int)) * (t % (dim as int))) % (dim as int),
                        ),
                        qft_scale(dim as int),
                    ),
            decreases dim - i,
        {
            let mut j: usize = 0;
            while j < dim
                invariant
                    dim == 1 || dim == 2 || dim == 4 || dim == 8,
                    sc_in_range(scl@),
                    scl@ == qft_scale(dim as int),
                    i < dim,
                    j <= dim,
                    m@.len() == i * dim + j,
                    i * dim + j <= dim * dim,
                    forall|t: int| 0 <= t < i * dim + j ==> sc_in_range(#[trigger] m@[t]@),
                    forall|t: int|
                        0 <= t < i * dim + j ==> #[trigger] m@[t]@ == sc_mul(
                            qft_root(
                                dim as int,
                                ((t / (dim as int)) * (t % (dim as int))) % (dim as int),
                            ),
                            qft_scale(dim as int),
                        ),
                decreases dim - j,
            {
                proof {
                    assert(i * dim + j < dim * dim && (i + 1) * dim <= dim * dim)
                        by (nonlinear_arith)
                        requires
                            0 <= (i as int) < (dim as int),
                            0 <= (j as int) < (dim as int),
                    ;
                    assert(i * j < 64) by (nonlinear_arith)
                        requires
                            0 <= (i as int) < 8,
                            0 <= (j as int) < 8,
                    ;
                }
                let e = (i * j) % dim;
                let root = qft_root_exec(dim, e);
                proof {
                    lemma_in_range_mag(root@);
                    lemma_in_range_mag(scl@);
                }
                let entry = root.times(scl);
                proof {
                    lemma_mul_band(root@, scl@, 1, 1);
                }
                m.push(entry);
                proof {
                    lemma_fundamental_div_mod_converse(
                        i * dim + j,
                        dim as int,
                        i as int,
                        j as int,
                    );
                }
                j = j + 1;
            }
            i = i + 1;
            proof {
                assert((i - 1) * dim + dim == i * dim) by (nonlinear_arith)
                    requires
                        1 <= (i as int) <= (dim as int),
                ;
            }
        }
        let r = Outer { dim, m };
        proof {
            assert forall|t: int| 0 <= t < r@.len() implies sc_in_range(#[trigger] r@[t]) by {
                assert(r@[t] == m@[t]@);
            }
        }
        Ok(r)
    }
}

} // verus!
