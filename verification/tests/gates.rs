use braket::{Bra, Ket, Outer, Scalar};

#[test]
fn hadamard() {
    let h = Outer::h2();
    let half = Scalar::new(1, 0, 0, 0, 1);

    let hadamard_product_up = Bra::up().apply(&h).unwrap();
    let hadamard_product_down = Bra::up().apply(&h).unwrap();

    // hadamard gate produces 50/50 probability
    assert_eq!(
        hadamard_product_up.inner(&Ket::up()).unwrap().norm_sqr(),
        half
    );
    assert_eq!(
        hadamard_product_down.inner(&Ket::up()).unwrap().norm_sqr(),
        half
    );

    // double hadamard should equal to identity transformation
    assert_eq!(
        Bra::up()
            .apply(&h)
            .unwrap()
            .apply(&h)
            .unwrap()
            .inner(&Ket::up())
            .unwrap()
            .norm_sqr(),
        Scalar::one()
    );
    assert_eq!(
        Bra::down()
            .apply(&h)
            .unwrap()
            .apply(&h)
            .unwrap()
            .inner(&Ket::down())
            .unwrap()
            .norm_sqr(),
        Scalar::one()
    );
    assert_eq!(
        Bra::up()
            .apply(&h)
            .unwrap()
            .apply(&h)
            .unwrap()
            .inner(&Ket::down())
            .unwrap()
            .norm_sqr(),
        Scalar::zero()
    );
    assert_eq!(
        Bra::down()
            .apply(&h)
            .unwrap()
            .apply(&h)
            .unwrap()
            .inner(&Ket::up())
            .unwrap()
            .norm_sqr(),
        Scalar::zero()
    );
}

#[test]
fn zgate_phase() {
    let h = Outer::h2();
    let z = Outer::z2();
    let hadamard_product_up = Bra::up().apply(&h).unwrap();
    let hadamard_product_down = Bra::down().apply(&h).unwrap();
    let z_up = hadamard_product_up.clone().apply(&z).unwrap();
    let z_down = hadamard_product_down.clone().apply(&z).unwrap();

    assert_eq!(z_up, hadamard_product_down);
    assert_eq!(z_down, hadamard_product_up);
}

#[test]
fn bell_state() {
    let state = Ket::up()
        .cross(&Ket::up())
        .unwrap()
        .plus(&Ket::down().cross(&Ket::down()).unwrap())
        .unwrap()
        .scale(Scalar::inv_rt2());

    let q11 = Ket::up().cross(&Ket::up()).unwrap();

    // bell state (|00> + |11>)/2^-1/2 is 50% in computational basis
    let prob = q11.to_bra().inner(&state).unwrap().norm_sqr();

    assert_eq!(prob, Scalar::new(1, 0, 0, 0, 1));
}

#[test]
fn bell_cnot() {
    let bell_state = Ket::up()
        .cross(&Ket::up())
        .unwrap()
        .plus(&Ket::down().cross(&Ket::down()).unwrap())
        .unwrap()
        .scale(Scalar::inv_rt2());

    let q1 = Outer::h2().apply(&Ket::up()).unwrap();
    let q2 = Ket::up();

    let bell_state2 = Outer::cnot().apply(&q1.cross(&q2).unwrap()).unwrap();

    assert_eq!(bell_state, bell_state2);
}

#[test]
fn qft() {
    let qft4 = Outer::qft(4).unwrap().into_matrix();

    // QFT(4) matrix:
    //  1   1   1   1
    //  1   i  -1  -i
    //  1  -1   1  -1
    //  1  -i  -1   i
    // (multiplied by 1/sqrt(4) = 1/2)

    assert_eq!(qft4[0 * 4 + 0], Scalar::new(1, 0, 0, 0, 1));
    assert_eq!(qft4[1 * 4 + 1], Scalar::new(0, 0, 1, 0, 1));
    assert_eq!(qft4[2 * 4 + 2], Scalar::new(1, 0, 0, 0, 1));
    assert_eq!(qft4[2 * 4 + 3], Scalar::new(-1, 0, 0, 0, 1));
}

#[test]
fn gate_entries() {
    let h = Outer::h2();
    assert_eq!(h.entry(0, 0), Scalar::inv_rt2());
    assert_eq!(h.entry(0, 1), Scalar::inv_rt2());
    assert_eq!(h.entry(1, 0), Scalar::inv_rt2());
    assert_eq!(h.entry(1, 1), Scalar::new(0, -1, 0, 0, 1));

    let z = Outer::z2();
    assert_eq!(z.entry(0, 0), Scalar::one());
    assert_eq!(z.entry(0, 1), Scalar::zero());
    assert_eq!(z.entry(1, 1), Scalar::new(-1, 0, 0, 0, 0));

    let n = Outer::n2();
    assert_eq!(n.entry(0, 0), Scalar::zero());
    assert_eq!(n.entry(0, 1), Scalar::one());
    assert_eq!(n.entry(1, 0), Scalar::one());
    assert_eq!(n.entry(1, 1), Scalar::zero());

    let c = Outer::cnot();
    for i in 0usize..4 {
        for j in 0usize..4 {
            let expected = if (i < 2 && i == j) || (i == 2 && j == 3) || (i == 3 && j == 2) {
                Scalar::one()
            } else {
                Scalar::zero()
            };
            assert_eq!(c.entry(i, j), expected);
        }
    }
}

#[test]
fn not_gate_flips() {
    // N |up> == |down> and N |down> == |up>
    assert_eq!(Outer::n2().apply(&Ket::up()).unwrap(), Ket::down());
    assert_eq!(Outer::n2().apply(&Ket::down()).unwrap(), Ket::up());
}

#[test]
fn qft_two_is_hadamard() {
    assert_eq!(Outer::qft(2).unwrap(), Outer::h2());
}

#[test]
fn qft_small_dims() {
    let q1 = Outer::qft(1).unwrap();
    assert_eq!(q1.entry(0, 0), Scalar::one());

    let q8 = Outer::qft(8).unwrap();
    // entry (0, 0) is 1/sqrt(8) = sqrt(2)/4
    assert_eq!(q8.entry(0, 0), Scalar::new(0, 1, 0, 0, 2));
    // entry (1, 1) is exp(2*pi*i/8)/sqrt(8) = (1 + i)/4
    assert_eq!(q8.entry(1, 1), Scalar::new(1, 0, 1, 0, 2));
}

#[test]
fn operator_sum_of_projectors() {
    // |up><up| - |down><down| == Z
    let z = Ket::up()
        .outer(&Bra::up())
        .unwrap()
        .plus(
            &Ket::down()
                .outer(&Bra::down())
                .unwrap()
                .scale(Scalar::new(-1, 0, 0, 0, 0)),
        )
        .unwrap();
    assert_eq!(z, Outer::z2());
}
