use term_structure_evacuation_kit::poseidon::{ark, mix, mix_last, mix_s, sigma, Poseidon, PoseidonParams};
use term_structure_evacuation_kit::scalar::Scalar;

fn s(x: u64) -> Scalar {
    Scalar::from_u64(x)
}

fn tables(t: usize, n_p: usize) -> (Vec<Scalar>, Vec<Scalar>, Vec<Vec<Scalar>>, Vec<Vec<Scalar>>) {
    let c: Vec<Scalar> = (0..8 * t + n_p).map(|i| s(3 * i as u64 + 1)).collect();
    let sp: Vec<Scalar> = (0..(2 * t - 1) * n_p).map(|i| s(5 * i as u64 + 2)).collect();
    let m: Vec<Vec<Scalar>> =
        (0..t).map(|i| (0..t).map(|j| s((i * t + j) as u64 + 1)).collect()).collect();
    let p: Vec<Vec<Scalar>> =
        (0..t).map(|i| (0..t).map(|j| s((2 * i + 3 * j) as u64 + 7)).collect()).collect();
    (c, sp, m, p)
}

fn params(t: usize, n_p: usize) -> PoseidonParams {
    let (c, sp, m, p) = tables(t, n_p);
    PoseidonParams::new(t, n_p, c, sp, m, p).unwrap()
}

fn hasher() -> Poseidon {
    Poseidon::new(vec![params(2, 2), params(3, 3), params(4, 2), params(5, 1)]).unwrap()
}

/// The permutation written out step by step for width three.
fn by_hand(input: [Scalar; 2], n_p: usize) -> Scalar {
    let t = 3;
    let (c, sp, m, p) = tables(t, n_p);
    let pow5 = |x: Scalar| x.mul(&x).mul(&x).mul(&x).mul(&x);
    let add_c = |x: &Vec<Scalar>, r: usize| -> Vec<Scalar> {
        (0..t).map(|i| x[i].add(&c[i + r])).collect()
    };
    let times = |x: &Vec<Scalar>, m: &Vec<Vec<Scalar>>| -> Vec<Scalar> {
        (0..t)
            .map(|col| (0..t).fold(s(0), |acc, row| acc.add(&m[row][col].mul(&x[row]))))
            .collect()
    };
    let mut x = vec![s(0), input[0], input[1]];
    x = add_c(&x, 0);
    for i in 0..3 {
        x = x.iter().map(|v| pow5(*v)).collect();
        x = add_c(&x, (i + 1) * t);
        x = times(&x, &m);
    }
    x = x.iter().map(|v| pow5(*v)).collect();
    x = add_c(&x, 4 * t);
    x = times(&x, &p);
    for r in 0..n_p {
        x[0] = pow5(x[0]).add(&c[5 * t + r]);
        let base = (2 * t - 1) * r;
        let head = (0..t).fold(s(0), |acc, i| acc.add(&sp[base + i].mul(&x[i])));
        let mut y = vec![head];
        for i in 1..t {
            y.push(x[i].add(&x[0].mul(&sp[base + t + i - 1])));
        }
        x = y;
    }
    for i in 0..3 {
        x = x.iter().map(|v| pow5(*v)).collect();
        x = add_c(&x, 5 * t + i * t + n_p);
        x = times(&x, &m);
    }
    x = x.iter().map(|v| pow5(*v)).collect();
    (0..t).fold(s(0), |acc, row| acc.add(&m[row][0].mul(&x[row])))
}

#[test]
fn the_steps_are_what_their_names_say() {
    assert_eq!(sigma(s(2)), s(32));
    let c = vec![s(10), s(20), s(30), s(40)];
    assert_eq!(ark(vec![s(1), s(2)], &c, 1), vec![s(21), s(32)]);
    let m = vec![vec![s(1), s(2)], vec![s(3), s(4)]];
    // column 0: 1*5 + 3*7, column 1: 2*5 + 4*7
    assert_eq!(mix_last(&vec![s(5), s(7)], 0, &m), s(26));
    assert_eq!(mix(&vec![s(5), s(7)], &m), vec![s(26), s(38)]);
    let sp = vec![s(1), s(2), s(3), s(4), s(5), s(6)];
    // round 1 of width 2: base 3; head 4*5 + 5*7, second 7 + 5*6
    assert_eq!(mix_s(&vec![s(5), s(7)], &sp, 1), vec![s(55), s(37)]);
}

#[test]
fn the_permutation_is_the_sequence_of_its_rounds() {
    let h = hasher();
    assert_eq!(h.hash2(s(1), s(2)), by_hand([s(1), s(2)], 3));
    assert_eq!(h.hash2(s(0), s(0)), by_hand([s(0), s(0)], 3));
    assert_eq!(h.poseidon(&vec![s(9), s(8)]), by_hand([s(9), s(8)], 3));
    assert_ne!(h.hash2(s(1), s(2)), h.hash2(s(2), s(1)));
}

#[test]
fn every_width_has_its_own_digest() {
    let h = hasher();
    let a = h.poseidon(&vec![s(1)]);
    let b = h.hash2(s(1), s(0));
    let c = h.hash3(s(1), s(0), s(0));
    let d = h.hash4(s(1), s(0), s(0), s(0));
    assert!(a != b && b != c && c != d);
    assert_eq!(h.hash3(s(4), s(5), s(6)), h.poseidon(&vec![s(4), s(5), s(6)]));
    assert_eq!(h.hash4(s(4), s(5), s(6), s(7)), h.poseidon(&vec![s(4), s(5), s(6), s(7)]));
}

#[test]
fn tables_that_are_too_small_are_refused() {
    let (c, sp, m, p) = tables(3, 2);
    assert!(PoseidonParams::new(3, 2, c.clone(), sp.clone(), m.clone(), p.clone()).is_some());
    assert!(PoseidonParams::new(1, 2, c.clone(), sp.clone(), m.clone(), p.clone()).is_none());
    assert!(PoseidonParams::new(3, 2, c[..25].to_vec(), sp.clone(), m.clone(), p.clone()).is_none());
    assert!(PoseidonParams::new(3, 2, c.clone(), sp[..9].to_vec(), m.clone(), p.clone()).is_none());
    assert!(PoseidonParams::new(3, 2, c.clone(), sp.clone(), m[..2].to_vec(), p.clone()).is_none());
    let mut ragged = p.clone();
    ragged[1].pop();
    assert!(PoseidonParams::new(3, 2, c.clone(), sp.clone(), m.clone(), ragged).is_none());
    assert!(PoseidonParams::new(4, 2, c, sp, m, p).is_none());
}

#[test]
fn the_widths_must_come_in_order_and_reach_five() {
    assert!(Poseidon::new(vec![params(2, 1), params(3, 1), params(4, 1)]).is_none());
    assert!(Poseidon::new(vec![params(2, 1), params(3, 1), params(5, 1), params(4, 1)]).is_none());
    assert!(Poseidon::new(vec![params(3, 1), params(4, 1), params(5, 1), params(6, 1)]).is_none());
    assert!(Poseidon::new(vec![params(2, 1), params(3, 1), params(4, 1), params(5, 1), params(6, 1)])
        .is_some());
}
