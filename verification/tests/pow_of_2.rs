use ltstack::pow_of_2::{PowOf2, Two};
use std::mem::size_of;

const SBITS: usize = size_of::<usize>() * 8;

#[test]
fn create() {
    for e in 0..(SBITS - 4) {
        let _: PowOf2<usize> = PowOf2::from_exp(e as u8);
    }
}

#[test]
fn to_uint() {
    for e in 0..(SBITS - 4) {
        let n: PowOf2<usize> = PowOf2::from_exp(e as u8);
        assert_eq!(n.to_uint(), usize::pow(2, e as u32));
    }
}

#[test]
fn mul() {
    for e0 in 0..(SBITS / 4) {
        for e1 in 0..(SBITS / 4) {
            let n0: PowOf2<usize> = PowOf2::from_exp(e0 as u8);
            let n1: PowOf2<usize> = PowOf2::from_exp(e1 as u8);
            assert_eq!(
                (n0 * n1).to_uint(),
                usize::pow(2, e0 as u32) * usize::pow(2, e1 as u32)
            );
        }
    }
}

#[test]
fn div() {
    for e0 in 0..(SBITS / 4) {
        for e1 in 0..(SBITS / 2) {
            let n0: PowOf2<usize> = PowOf2::from_exp(e0 as u8);
            let n1: PowOf2<usize> = PowOf2::from_exp(e1 as u8);
            assert_eq!(
                (n0 / n1).to_uint(),
                usize::max(usize::pow(2, e0 as u32) / usize::pow(2, e1 as u32), 1,)
            );
        }
    }
}

#[test]
fn mul_2() {
    for e in 0..(SBITS - 4) {
        let n: PowOf2<usize> = PowOf2::from_exp(e as u8);
        assert_eq!((n * Two).to_uint(), n.to_uint() * 2,);
    }
}

#[test]
fn div_2() {
    for e in 0..(SBITS - 4) {
        let n: PowOf2<usize> = PowOf2::from_exp(e as u8);
        assert_eq!((n / Two).to_uint(), usize::max(n.to_uint() / 2, 1),);
    }
}

#[test]
#[should_panic]
fn oob() {
    let _: PowOf2<usize> = PowOf2::from_exp(200);
}

#[test]
#[should_panic]
fn oob_mul_2() {
    let _: PowOf2<usize> = PowOf2::from_exp(SBITS as u8 - 1) * Two;
}

#[test]
#[should_panic]
fn oob_64() {
    let _: PowOf2<usize> = PowOf2::from_exp(SBITS as u8);
}

#[test]
fn not_oob_63() {
    let _: PowOf2<usize> = PowOf2::from_exp(SBITS as u8 - 1);
}

#[test]
#[should_panic]
fn mul_oob_63() {
    let _: PowOf2<usize> = PowOf2::from_exp(SBITS as u8 - 1) * PowOf2::from_exp(SBITS as u8 - 1);
}

#[test]
#[should_panic]
fn mul_oob_32() {
    let _: PowOf2<usize> = PowOf2::from_exp(SBITS as u8 / 2) * PowOf2::from_exp(SBITS as u8 / 2);
}

#[test]
fn try_from_exp_at_the_edge_of_each_type() {
    assert!(PowOf2::<u8>::try_from_exp(7).is_some());
    assert!(PowOf2::<u8>::try_from_exp(8).is_none());
    assert!(PowOf2::<u16>::try_from_exp(15).is_some());
    assert!(PowOf2::<u16>::try_from_exp(16).is_none());
    assert!(PowOf2::<u32>::try_from_exp(31).is_some());
    assert!(PowOf2::<u32>::try_from_exp(32).is_none());
    assert!(PowOf2::<u64>::try_from_exp(63).is_some());
    assert!(PowOf2::<u64>::try_from_exp(64).is_none());
    assert!(PowOf2::<u128>::try_from_exp(127).is_some());
    assert!(PowOf2::<u128>::try_from_exp(128).is_none());
    assert!(PowOf2::<usize>::try_from_exp(SBITS as u8 - 1).is_some());
    assert!(PowOf2::<usize>::try_from_exp(SBITS as u8).is_none());
    assert!(PowOf2::<usize>::try_from_exp(255).is_none());
}

#[test]
fn to_uint_of_each_type() {
    assert_eq!(PowOf2::<u8>::from_exp(0).to_uint(), 1u8);
    assert_eq!(PowOf2::<u8>::from_exp(7).to_uint(), 128u8);
    assert_eq!(PowOf2::<u16>::from_exp(15).to_uint(), 32768u16);
    assert_eq!(PowOf2::<u32>::from_exp(31).to_uint(), 2147483648u32);
    assert_eq!(PowOf2::<u64>::from_exp(63).to_uint(), 9223372036854775808u64);
    assert_eq!(
        PowOf2::<u128>::from_exp(127).to_uint(),
        170141183460469231731687303715884105728u128
    );
    assert_eq!(PowOf2::<usize>::from_exp(10).to_uint(), 1024usize);
}

#[test]
fn try_pow_adds_exponents_or_fails() {
    let n: PowOf2<u32> = PowOf2::from_exp(20);
    assert_eq!(n.try_pow(11).map(|p| p.exp()), Some(31));
    assert!(n.try_pow(12).is_none());
    // The sum of the exponents does not fit in a byte.
    assert!(n.try_pow(250).is_none());
    assert_eq!(n.pow(5).exp(), 25);
    assert_eq!(n.pow(0).to_uint(), 1048576);
}

#[test]
fn pow_neg_stops_at_one() {
    let n: PowOf2<u64> = PowOf2::from_exp(5);
    assert_eq!(n.pow_neg(2).to_uint(), 8);
    assert_eq!(n.pow_neg(5).to_uint(), 1);
    assert_eq!(n.pow_neg(6).to_uint(), 1);
    assert_eq!(n.pow_neg(255).exp(), 0);
}

#[test]
fn exp_gives_the_exponent_back() {
    for e in 0..128u8 {
        let n: PowOf2<u128> = PowOf2::from_exp(e);
        assert_eq!(n.exp(), e);
    }
}

#[test]
fn values_with_the_same_exponent_are_equal() {
    let a: PowOf2<u32> = PowOf2::from_exp(9);
    let b: PowOf2<u32> = PowOf2::from_exp(4) * PowOf2::from_exp(5);
    let c: PowOf2<u32> = PowOf2::from_exp(10);
    assert!(a == b);
    assert!(a != c);
    assert!(a.clone() == a);
}

#[test]
fn values_are_ordered_by_exponent() {
    let a: PowOf2<u32> = PowOf2::from_exp(3);
    let b: PowOf2<u32> = PowOf2::from_exp(4);
    assert!(a < b);
    assert!(b > a);
    assert!(a <= a);
    assert_eq!(a.partial_cmp(&b), Some(std::cmp::Ordering::Less));
    assert_eq!(b.partial_cmp(&a), Some(std::cmp::Ordering::Greater));
    assert_eq!(a.partial_cmp(&a), Some(std::cmp::Ordering::Equal));
    assert_eq!(a.cmp(&b), std::cmp::Ordering::Less);
    assert_eq!(a.max(b).exp(), 4);
}

#[test]
fn arithmetic_in_place() {
    let mut n: PowOf2<u16> = PowOf2::from_exp(3);
    n *= PowOf2::from_exp(4);
    assert_eq!(n.to_uint(), 128);
    n *= Two;
    assert_eq!(n.to_uint(), 256);
    n /= PowOf2::from_exp(6);
    assert_eq!(n.to_uint(), 4);
    n /= Two;
    assert_eq!(n.to_uint(), 2);
    n /= Two;
    n /= Two;
    assert_eq!(n.to_uint(), 1);
}

#[test]
fn product_and_quotient_of_values() {
    // 2^a * 2^b and max(2^a / 2^b, 1), for every pair that fits a u16.
    for a in 0..16u8 {
        for b in 0..16u8 {
            let x: PowOf2<u16> = PowOf2::from_exp(a);
            let y: PowOf2<u16> = PowOf2::from_exp(b);
            if a + b < 16 {
                assert_eq!((x * y).to_uint() as u32, (1u32 << a) * (1u32 << b));
            } else {
                assert!(x.try_pow(b).is_none());
            }
            assert_eq!((x / y).to_uint() as u32, u32::max((1u32 << a) / (1u32 << b), 1));
        }
    }
}
