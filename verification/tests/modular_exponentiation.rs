use pedersen_commitment::arith::{modular_exp, mul_mod};

const LARGEST_PRIME: u64 = 18_446_744_073_709_551_557;

/// Repeated multiplication at double width: one step per unit of the
/// exponent, so only for small exponents.
fn power_by_repeated_multiplication(base: u64, exponent: u64, modulus: u64) -> u64 {
    let mut acc: u128 = 1 % (modulus as u128);
    let mut i: u64 = 0;
    while i < exponent {
        acc = acc * (base as u128) % (modulus as u128);
        i += 1;
    }
    acc as u64
}

/// Square-and-multiply where every product wraps at 64 bits before it is
/// reduced.
fn power_with_wrapping_products(base: u64, exponent: u64, modulus: u64) -> u64 {
    let mut result: u64 = 1;
    let mut g: u64 = base % modulus;
    let mut x: u64 = exponent;
    while x > 0 {
        if x % 2 == 1 {
            result = result.wrapping_mul(g);
        }
        x >>= 1;
        g = g.wrapping_mul(g) % modulus;
    }
    result % modulus
}

#[test]
fn mul_mod_small_values() {
    assert_eq!(mul_mod(3, 4, 5), 2);
    assert_eq!(mul_mod(0, 4, 5), 0);
    assert_eq!(mul_mod(7, 0, 5), 0);
    assert_eq!(mul_mod(6, 7, 1), 0);
    assert_eq!(mul_mod(88, 7, 101), 10);
}

#[test]
fn mul_mod_uses_the_full_product() {
    assert_eq!(mul_mod(u64::MAX, u64::MAX, u64::MAX), 0);
    assert_eq!(mul_mod(u64::MAX, u64::MAX, u64::MAX - 1), 1);
    assert_eq!(mul_mod(u64::MAX, u64::MAX - 1, LARGEST_PRIME), 3306);
    assert_eq!(mul_mod(1 << 32, 1 << 32, LARGEST_PRIME), 59);
}

#[test]
fn modular_exp_known_values() {
    assert_eq!(modular_exp(&5, &9, &101), 88);
    assert_eq!(modular_exp(&7, &1, &101), 7);
    assert_eq!(modular_exp(&7, &2, &101), 49);
    assert_eq!(modular_exp(&2, &10, &1000), 24);
    assert_eq!(modular_exp(&3, &200, &13), 9);
    assert_eq!(modular_exp(&10, &18, &1_000_000_007), 49);
    assert_eq!(modular_exp(&2, &u64::MAX, &1_000_000_007), 981_530_768);
}

#[test]
fn exponent_zero_gives_one() {
    for modulus in [2u64, 3, 101, 1 << 32, LARGEST_PRIME, u64::MAX] {
        for base in [0u64, 1, 2, 100, 101, u64::MAX] {
            assert_eq!(modular_exp(&base, &0, &modulus), 1 % modulus);
            assert_eq!(modular_exp(&base, &0, &modulus), 1);
        }
    }
}

#[test]
fn modulus_one_gives_zero() {
    for base in [0u64, 1, 5, u64::MAX] {
        for exponent in [0u64, 1, 9, u64::MAX] {
            assert_eq!(modular_exp(&base, &exponent, &1), 0);
        }
    }
}

#[test]
fn result_is_below_the_modulus() {
    for modulus in [1u64, 2, 7, 101, 1 << 33, LARGEST_PRIME, u64::MAX] {
        for base in [0u64, 1, 6, 1 << 40, u64::MAX - 1, u64::MAX] {
            for exponent in [0u64, 1, 2, 63, 64, 1000, u64::MAX] {
                assert!(modular_exp(&base, &exponent, &modulus) < modulus);
            }
        }
    }
}

#[test]
fn exponent_one_reduces_the_base() {
    for modulus in [1u64, 2, 101, 1 << 32, LARGEST_PRIME, u64::MAX] {
        for base in [0u64, 1, 100, 101, 102, 1 << 50, u64::MAX] {
            assert_eq!(modular_exp(&base, &1, &modulus), base % modulus);
        }
    }
}

#[test]
fn base_is_reduced_first() {
    assert_eq!(modular_exp(&106, &9, &101), 88);
    assert_eq!(modular_exp(&(5 + 101 * 1_000_000), &9, &101), 88);
    assert_eq!(modular_exp(&101, &3, &101), 0);
}

#[test]
fn zero_base() {
    assert_eq!(modular_exp(&0, &0, &101), 1);
    assert_eq!(modular_exp(&0, &1, &101), 0);
    assert_eq!(modular_exp(&0, &u64::MAX, &101), 0);
}

#[test]
fn exponents_add() {
    for modulus in [1u64, 2, 101, 1_000_000_007, LARGEST_PRIME, u64::MAX] {
        for base in [0u64, 2, 5, 1 << 40, u64::MAX] {
            let splits = [
                (0u64, 0u64),
                (0, 7),
                (3, 4),
                (1000, 24),
                (1 << 62, 1 << 62),
                (u64::MAX - 5, 5),
            ];
            for (a, b) in splits {
                let whole = modular_exp(&base, &(a + b), &modulus);
                let left = modular_exp(&base, &a, &modulus) as u128;
                let right = modular_exp(&base, &b, &modulus) as u128;
                assert_eq!(whole as u128, left * right % (modulus as u128));
            }
        }
    }
}

#[test]
fn matches_repeated_multiplication() {
    let moduli = [
        1u64,
        2,
        97,
        101,
        1 << 32,
        (1 << 32) + 15,
        LARGEST_PRIME,
        u64::MAX - 1,
        u64::MAX,
    ];
    for modulus in moduli {
        for base in [0u64, 1, 2, 3, 100, (1 << 32) + 1, LARGEST_PRIME - 1, u64::MAX] {
            for exponent in [0u64, 1, 2, 3, 4, 5, 16, 17, 31, 100, 255, 256, 1000] {
                assert_eq!(
                    modular_exp(&base, &exponent, &modulus),
                    power_by_repeated_multiplication(base, exponent, modulus)
                );
            }
        }
    }
}

#[test]
fn large_modulus_known_values() {
    // 2^64 = (2^64 - 59) + 59
    assert_eq!(modular_exp(&2, &64, &LARGEST_PRIME), 59);
    assert_eq!(modular_exp(&(1 << 32), &2, &LARGEST_PRIME), 59);
    // 2^64 = (2^64 - 1) + 1
    assert_eq!(modular_exp(&2, &64, &u64::MAX), 1);
    // (m - 1)^2 = 1 and (m - 1)^3 = m - 1 modulo m
    assert_eq!(modular_exp(&(u64::MAX - 1), &2, &u64::MAX), 1);
    assert_eq!(modular_exp(&(u64::MAX - 1), &3, &u64::MAX), u64::MAX - 1);
    assert_eq!(modular_exp(&4_294_967_311, &2, &LARGEST_PRIME), 128_849_019_164);
    assert_eq!(
        modular_exp(&0xDEAD_BEEF_CAFE_BABE, &0x1234_5678_9ABC_DEF0, &LARGEST_PRIME),
        2_345_201_384_636_551_062
    );
    assert_eq!(
        modular_exp(&12_345_678_901_234_567_890, &u64::MAX, &LARGEST_PRIME),
        8_258_754_969_753_184_055
    );
    assert_eq!(modular_exp(&7, &1000, &u64::MAX), 4_349_782_150_649_683_021);
    assert_eq!(
        modular_exp(&u64::MAX, &u64::MAX, &(u64::MAX - 2)),
        16_879_342_912_822_058_716
    );
}

#[test]
fn fermat_little_theorem_at_the_largest_prime() {
    for base in [2u64, 3, 5, 1 << 63, LARGEST_PRIME - 1, u64::MAX] {
        assert_eq!(modular_exp(&base, &(LARGEST_PRIME - 1), &LARGEST_PRIME), 1);
    }
}

#[test]
fn wrapping_products_go_wrong_near_the_limit() {
    let cases = [
        (2u64, 64u64, LARGEST_PRIME),
        (3, LARGEST_PRIME - 1, LARGEST_PRIME),
        (4_294_967_311, 2, LARGEST_PRIME),
        (u64::MAX - 1, 2, u64::MAX),
    ];
    for (base, exponent, modulus) in cases {
        let exact = modular_exp(&base, &exponent, &modulus);
        assert!(exact < modulus);
        if exponent <= 1000 {
            assert_eq!(exact, power_by_repeated_multiplication(base, exponent, modulus));
        }
        assert_ne!(exact, power_with_wrapping_products(base, exponent, modulus));
    }
}
