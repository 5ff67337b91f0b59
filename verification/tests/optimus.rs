use optimus::optimus::MAX_INT;
use optimus::{Optimus, OptimusError};
use rand::Rng;

#[test]
fn test_calc_mod_inverse() {
    let prime: i64 = 309779747;
    let expected_mod_inverse: u64 = 49560203;
    let calculated: u64 = Optimus::calc_mod_inverse(prime).unwrap();
    assert_eq!(
        calculated, expected_mod_inverse,
        "mod inverse incorrect. Expected={}, Actual={}",
        expected_mod_inverse, calculated
    );
}

/// Tests if the encoding process correctly decodes the id back to the original
#[test]
fn test_encode() {
    let mut rng = rand::thread_rng();
    let os = [
        Optimus::new(309779747, 49560203, 57733611).unwrap(),
        Optimus::new(684934207, 1505143743, 846034763).unwrap(),
        Optimus::new(743534599, 1356791223, 1336232185).unwrap(),
        Optimus::new(54661037, 1342843941, 576322863).unwrap(),
        Optimus::new(198194831, 229517423, 459462336).unwrap(),
        Optimus::new_calculated(198194831, 459462336).unwrap(),
    ];
    println!("{:?}", os[1]);
    for o in os {
        let c: u64 = 10;
        let h: u64 = 100; // How many random numbers to select in between 0-c and (MAX_INT-c) - MAX-INT
        let mut vars: Vec<u64> = vec![];

        for t in 0..c {
            vars.push(t);
        }
        for _ in 0..h {
            let upper: u64 = MAX_INT - 2 * c;
            let rand: u64 = rng.gen_range(0..upper);
            vars.push(rand + c);
        }

        for t in (MAX_INT - c..MAX_INT).rev() {
            vars.push(t);
        }
        for value in vars {
            let orig: u64 = value;
            let hashed: u64 = o.encode(value);
            let unhashed: u64 = o.decode(hashed);
            println!("%{orig}: %{hashed} -> %{unhashed}");
            assert_eq!(
                orig, unhashed,
                "%{}: %{} -> %{} - FAILED",
                orig, hashed, unhashed
            )
        }
    }
}

#[test]
fn test_construct_rejects_composites() {
    assert!(matches!(Optimus::new(4, 1, 1), Err(OptimusError::NotPrime)));
    assert!(matches!(Optimus::new(15, 1, 1), Err(OptimusError::NotPrime)));
    assert!(matches!(Optimus::new(100, 1, 1), Err(OptimusError::NotPrime)));
    assert!(Optimus::new(2, 1, 1).is_ok());
    assert!(Optimus::new(3, 1, 1).is_ok());
    assert!(Optimus::new(309779747, 49560203, 57733611).is_ok());
}

#[test]
fn test_error_variants() {
    assert!(matches!(
        Optimus::calc_mod_inverse(4),
        Err(OptimusError::NotPrime)
    ));
    assert!(matches!(
        Optimus::calc_mod_inverse(2),
        Err(OptimusError::NoModInverse)
    ));
    assert!(matches!(
        Optimus::new_calculated(2, 7),
        Err(OptimusError::NoModInverse)
    ));
    assert!(matches!(
        Optimus::new_calculated(15, 7),
        Err(OptimusError::NotPrime)
    ));
}

#[test]
fn test_concrete_encode_decode() {
    let o = Optimus::new(1580030173, 59260789, 1163945558).unwrap();
    assert_eq!(o.encode(15), 1103647397);
    assert_eq!(o.decode(1103647397), 15);
}

#[test]
fn test_edge_values_round_trip() {
    let engines = [
        Optimus::new(309779747, 49560203, 57733611).unwrap(),
        Optimus::new_calculated(1580030173, 1163945558).unwrap(),
    ];
    for o in engines {
        for n in [0, 1, MAX_INT - 1, MAX_INT] {
            let hashed: u64 = o.encode(n);
            assert!(hashed <= MAX_INT);
            assert_eq!(o.decode(hashed), n);
        }
    }
}

#[test]
fn test_calculated_inverse_matches_supplied() {
    let supplied = Optimus::new(309779747, 49560203, 57733611).unwrap();
    let calculated = Optimus::new_calculated(309779747, 57733611).unwrap();
    for n in [0u64, 1, 2, 15, 12345, MAX_INT] {
        assert_eq!(supplied.encode(n), calculated.encode(n));
        assert_eq!(supplied.decode(n), calculated.decode(n));
    }
}

#[test]
fn test_distinct_outputs_in_range() {
    let o = Optimus::new(1580030173, 59260789, 1163945558).unwrap();
    let mut outs: Vec<u64> = (0u64..1000).map(|n| o.encode(n)).collect();
    for &v in &outs {
        assert!(v <= MAX_INT);
    }
    outs.sort();
    outs.dedup();
    assert_eq!(outs.len(), 1000);
}

#[test]
fn test_determinism() {
    let a = Optimus::new(743534599, 1356791223, 1336232185).unwrap();
    let b = Optimus::new(743534599, 1356791223, 1336232185).unwrap();
    for n in [0u64, 5, 99, MAX_INT] {
        assert_eq!(a.encode(n), b.encode(n));
        assert_eq!(a.encode(n), a.encode(n));
        assert_eq!(a.decode(n), b.decode(n));
    }
}

#[test]
fn test_calc_mod_inverse_equation() {
    for p in [3i64, 5, 7, 11, 54661037, 309779747, 1580030173, 2147483647] {
        let x: u64 = Optimus::calc_mod_inverse(p).unwrap();
        assert!(x <= MAX_INT);
        assert_eq!((p as u128 * x as u128) % 0x8000_0000u128, 1);
    }
}
