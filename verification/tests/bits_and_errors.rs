use braket::{Bra, Ket, Outer, QuantError, Scalar};

#[test]
fn bits() {
    let q11 = Ket::up().cross(&Ket::up()).unwrap();
    let q11_bits = Ket::from_bits(0b11, 4).expect("11 are a valid ket4 bits");

    assert_eq!(q11, q11_bits);

    let q00 = Ket::down().cross(&Ket::down()).unwrap();
    let q00_bits = Ket::from_bits(0b00, 4).expect("11 are a valid ket4 bits");

    assert_eq!(q00, q00_bits);

    let q111_bits = Ket::from_bits(0b111, 8).expect("111 are valid ket8 bits");

    assert_eq!(q111_bits.get(0), Scalar::one());

    for i in 1usize..8 {
        assert_eq!(q111_bits.get(i), Scalar::zero());
    }
}

#[test]
fn bits_mixed_pattern() {
    // bit 0 set, bit 1 clear: |down> tensor |up>, amplitude at index d-1-n = 2
    let q01 = Ket::from_bits(0b01, 4).unwrap();
    assert_eq!(q01, Ket::down().cross(&Ket::up()).unwrap());
    assert_eq!(q01.get(2), Scalar::one());
}

#[test]
fn bits_small_dims() {
    let k1 = Ket::from_bits(0, 1).unwrap();
    assert_eq!(k1.dim(), 1);
    assert_eq!(k1.get(0), Scalar::one());

    assert_eq!(Ket::from_bits(0, 2).unwrap(), Ket::down());
    assert_eq!(Ket::from_bits(1, 2).unwrap(), Ket::up());
}

#[test]
fn bits_insufficient_capacity() {
    assert_eq!(
        Ket::from_bits(0b100, 4).unwrap_err(),
        QuantError::InsufficientCapacity
    );
    assert_eq!(
        Ket::from_bits(0, 0).unwrap_err(),
        QuantError::InsufficientCapacity
    );
    // the capacity check comes before the power-of-two check
    assert_eq!(
        Ket::from_bits(0b111, 6).unwrap_err(),
        QuantError::InsufficientCapacity
    );
}

#[test]
fn bits_invalid_dimension() {
    assert_eq!(
        Ket::from_bits(1, 6).unwrap_err(),
        QuantError::InvalidDimension
    );
    assert_eq!(
        Ket::from_bits(0, 3).unwrap_err(),
        QuantError::InvalidDimension
    );
}

#[test]
fn qft_rejects_bad_dimensions() {
    assert_eq!(Outer::qft(0).unwrap_err(), QuantError::InvalidDimension);
    assert_eq!(Outer::qft(3).unwrap_err(), QuantError::InvalidDimension);
    assert_eq!(Outer::qft(6).unwrap_err(), QuantError::InvalidDimension);
    assert_eq!(
        Outer::qft(16).unwrap_err(),
        QuantError::UnsupportedDimension
    );
    assert_eq!(
        Outer::qft(32).unwrap_err(),
        QuantError::UnsupportedDimension
    );
}

#[test]
fn dimension_mismatch_rejected() {
    let b2 = Bra::up();
    let k4 = Ket::from_bits(0, 4).unwrap();
    assert_eq!(b2.inner(&k4).unwrap_err(), QuantError::DimensionMismatch);

    let k2 = Ket::up();
    assert_eq!(k2.plus(&k4).unwrap_err(), QuantError::DimensionMismatch);
    assert_eq!(k2.cross(&k4).unwrap_err(), QuantError::DimensionMismatch);

    let b4 = k4.to_bra();
    assert_eq!(k2.outer(&b4).unwrap_err(), QuantError::DimensionMismatch);

    let cnot = Outer::cnot();
    assert_eq!(
        cnot.apply(&k2).unwrap_err(),
        QuantError::DimensionMismatch
    );
    assert_eq!(b2.apply(&cnot).unwrap_err(), QuantError::DimensionMismatch);
    assert_eq!(
        cnot.plus(&Outer::h2()).unwrap_err(),
        QuantError::DimensionMismatch
    );
}

#[test]
fn operator_import_checks_shape() {
    let entries = vec![Scalar::one(), Scalar::zero(), Scalar::zero()];
    assert_eq!(
        Outer::from_entries(2, entries).unwrap_err(),
        QuantError::DimensionMismatch
    );

    let good = vec![
        Scalar::one(),
        Scalar::zero(),
        Scalar::zero(),
        Scalar::one(),
    ];
    let identity = Outer::from_entries(2, good).unwrap();
    assert_eq!(identity.apply(&Ket::inw()).unwrap(), Ket::inw());
}

#[test]
fn zero_dimension_edge() {
    // zero-dimensional values are degenerate but consistent: the empty inner
    // product is the zero amplitude
    let b = Bra::from_amplitudes(vec![]);
    let k = Ket::from_amplitudes(vec![]);
    assert_eq!(b.dim(), 0);
    assert_eq!(b.inner(&k).unwrap(), Scalar::zero());
}

#[test]
fn tensor_of_superpositions() {
    // (|right> tensor |right>) has amplitude 1/2 everywhere
    let rr = Ket::right().cross(&Ket::right()).unwrap();
    assert_eq!(rr.dim(), 4);
    let half = Scalar::new(1, 0, 0, 0, 1);
    for i in 0usize..4 {
        assert_eq!(rr.get(i), half);
    }
}
