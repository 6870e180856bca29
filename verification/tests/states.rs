use braket::{Bra, Ket, Scalar};

#[test]
fn orthogonal() {
    assert_eq!(
        Bra::up().inner(&Ket::down()).unwrap().norm_sqr(),
        Scalar::zero()
    );
    assert_eq!(
        Bra::left().inner(&Ket::right()).unwrap().norm_sqr(),
        Scalar::zero()
    );
    assert_eq!(
        Bra::inw().inner(&Ket::out()).unwrap().norm_sqr(),
        Scalar::zero()
    );
}

#[test]
fn prob() {
    let half = Scalar::new(1, 0, 0, 0, 1);
    assert_eq!(Bra::up().inner(&Ket::left()).unwrap().norm_sqr(), half);
    assert_eq!(Bra::down().inner(&Ket::right()).unwrap().norm_sqr(), half);
    assert_eq!(Bra::up().inner(&Ket::inw()).unwrap().norm_sqr(), half);
}

#[test]
fn outer() {
    let outer = Ket::up().outer(&Bra::down()).unwrap().into_matrix();
    // imaginary part at (0, 0) is zero
    assert_eq!(outer[0].c, 0);
    assert_eq!(outer[0].d, 0);
    // real part at (0, 1) is exactly 1
    assert_eq!(outer[0 * 2 + 1], Scalar::one());
}

#[test]
fn basis_states_unit_norm() {
    let one = Scalar::one();
    assert_eq!(Bra::up().inner(&Ket::up()).unwrap().norm_sqr(), one);
    assert_eq!(Bra::down().inner(&Ket::down()).unwrap().norm_sqr(), one);
    assert_eq!(Bra::right().inner(&Ket::right()).unwrap().norm_sqr(), one);
    assert_eq!(Bra::left().inner(&Ket::left()).unwrap().norm_sqr(), one);
    assert_eq!(Bra::inw().inner(&Ket::inw()).unwrap().norm_sqr(), one);
    assert_eq!(Bra::out().inner(&Ket::out()).unwrap().norm_sqr(), one);
}

#[test]
fn dual_conversion_round_trip() {
    let b = Bra::inw();
    assert_eq!(b.to_ket().to_bra(), b);
    let k = Ket::out();
    assert_eq!(k.to_bra().to_ket(), k);
}

#[test]
fn dual_conversion_conjugates() {
    // <inw| as a ket is |out>: the conversion conjugates, it does not alias.
    assert_eq!(Bra::inw().to_ket(), Ket::out());
    assert_eq!(Ket::inw().to_bra(), Bra::out());
}

#[test]
fn raw_amplitude_import() {
    let amps = vec![Scalar::one(), Scalar::zero(), Scalar::zero(), Scalar::one()];
    let k = Ket::from_amplitudes(amps);
    assert_eq!(k.dim(), 4);
    assert_eq!(k.get(0), Scalar::one());
    assert_eq!(k.get(1), Scalar::zero());
    assert_eq!(k.get(3), Scalar::one());
}

#[test]
fn scalar_normal_form() {
    // construction reduces to normal form: 2/2 == 1, 2*sqrt(2)/4 == 1/sqrt(2)
    assert_eq!(Scalar::new(2, 0, 0, 0, 1), Scalar::one());
    assert_eq!(Scalar::new(0, 2, 0, 0, 2), Scalar::inv_rt2());
    assert_eq!(Scalar::new(0, 0, 0, 0, 5), Scalar::zero());
}

#[test]
fn scalar_arithmetic() {
    let half = Scalar::new(1, 0, 0, 0, 1);
    // (1/sqrt(2))^2 == 1/2, and 1/2 + 1/2 == 1
    assert_eq!(Scalar::inv_rt2().times(Scalar::inv_rt2()), half);
    assert_eq!(half.plus(half), Scalar::one());
    // conjugation negates the imaginary coefficients
    let z = Scalar::new(1, 2, 3, 4, 2);
    let zc = z.conj();
    assert_eq!(zc.a, z.a);
    assert_eq!(zc.b, z.b);
    assert_eq!(zc.c, -z.c);
    assert_eq!(zc.d, -z.d);
    // |i|^2 == 1
    let i_unit = Scalar::new(0, 0, 1, 0, 0);
    assert_eq!(i_unit.norm_sqr(), Scalar::one());
    // negation flips every coefficient
    assert_eq!(Scalar::one().neg(), Scalar::new(-1, 0, 0, 0, 0));
    assert_eq!(z.neg().neg(), z);
}

#[test]
fn superposition_scale() {
    // (|up> + |down>) / sqrt(2) == |right>
    let s = Ket::up()
        .plus(&Ket::down())
        .unwrap()
        .scale(Scalar::inv_rt2());
    assert_eq!(s, Ket::right());
}
