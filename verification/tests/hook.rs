//! Hooks.
use num_bigint::BigUint;
use std::str::FromStr;

use zkm_core_executor::errors::ExecutionError;
use zkm_core_executor::hook::{
    hook_fp_inverse, hook_fp_sqrt, hook_k1_ecrecover, hook_r1_ecrecover, legendre_symbol,
    tonelli_shanks, Hook, HookRegistry,
};
use zkm_core_executor::syscalls::{FD_FP_INV, FD_FP_SQRT, K1_ECRECOVER_HOOK, R1_ECRECOVER_HOOK};

#[test]
fn registry_new_is_inhabited() {
    assert_ne!(HookRegistry::new().len(), 0);
    assert_eq!(HookRegistry::new().len(), 4);
    for fd in [K1_ECRECOVER_HOOK, R1_ECRECOVER_HOOK, FD_FP_SQRT, FD_FP_INV] {
        assert!(HookRegistry::new().get(fd).is_some());
    }
    assert!(HookRegistry::new().get(1000).is_none());
}

#[test]
fn registry_empty_is_empty() {
    assert_eq!(HookRegistry::empty().len(), 0);
}

fn words(n: &BigUint) -> Vec<u32> {
    n.to_u32_digits()
}

#[test]
fn test_legendre_symbol() {
    let modulus = BigUint::from_str(
        "115792089237316195423570985008687907853269984665640564039457584007908834671663",
    )
    .unwrap();
    let neg_1 = &modulus - BigUint::from(1u64);

    let fixtures = [
        (BigUint::from(4u64), BigUint::from(1u64)),
        (BigUint::from(2u64), BigUint::from(1u64)),
        (BigUint::from(3u64), neg_1.clone()),
    ];

    for (element, expected) in fixtures {
        let result = legendre_symbol(&words(&element), &words(&modulus));
        assert_eq!(BigUint::from_slice(&result), expected);
    }
}

#[test]
fn test_tonelli_shanks() {
    let p = BigUint::from_str(
        "115792089237316195423570985008687907853269984665640564039457584007908834671663",
    )
    .unwrap();
    let nqr = BigUint::from_str("3").unwrap();
    let large_element = &p - BigUint::from(u16::MAX);
    let square = &large_element * &large_element % &p;

    let fixtures = [
        (BigUint::from(2u64), true),
        (BigUint::from(3u64), false),
        (BigUint::from(4u64), true),
        (square, true),
    ];

    for (element, expected) in fixtures {
        let result = tonelli_shanks(&words(&element), &words(&p), &words(&nqr));
        if expected {
            assert!(result.is_some());
            let result = BigUint::from_slice(&result.unwrap());
            assert!((&result * &result) % &p == element);
        } else {
            assert!(result.is_none());
        }
    }
}

fn request(parts: &[&[u8]]) -> Vec<u8> {
    let mut buf = vec![0, 0, 0, parts[0].len() as u8];
    for part in parts {
        buf.extend_from_slice(part);
    }
    buf
}

#[test]
fn inverse_of_three_modulo_seven() {
    assert_eq!(hook_fp_inverse(&request(&[&[3], &[7]])), vec![vec![5]]);
    assert_eq!(hook_fp_inverse(&request(&[&[0, 3], &[0, 11]])), vec![vec![0, 4]]);
}

#[test]
fn inverse_rejects_what_it_cannot_invert() {
    let refused = Err(ExecutionError::InvalidSyscallArgs());
    assert_eq!(Hook::FpInverse.invoke_hook(&vec![0, 0, 0]), refused);
    assert_eq!(Hook::FpInverse.invoke_hook(&vec![0, 0, 0, 2, 1]), refused);
    assert_eq!(Hook::FpInverse.invoke_hook(&request(&[&[0], &[7]])), refused);
}

#[test]
fn square_roots_and_roots_of_the_non_square() {
    // 2 is 3^2 modulo 7; 3 is no square modulo 7.
    let answer = hook_fp_sqrt(&request(&[&[2], &[7], &[3]]));
    assert_eq!(answer[0], vec![1]);
    assert!(answer[1] == vec![3] || answer[1] == vec![4]);
    let answer = hook_fp_sqrt(&request(&[&[3], &[7], &[3]]));
    assert_eq!(answer[0], vec![0]);
    assert_eq!((answer[1][0] as u32 * answer[1][0] as u32) % 7, 9 % 7);
    assert_eq!(
        Hook::FpSqrt.invoke_hook(&request(&[&[0], &[7], &[3]])),
        Err(ExecutionError::InvalidSyscallArgs())
    );
    assert_eq!(
        Hook::FpSqrt.invoke_hook(&request(&[&[2], &[7], &[8]])),
        Err(ExecutionError::InvalidSyscallArgs())
    );
    assert_eq!(
        Hook::FpSqrt.invoke_hook(&request(&[&[7], &[7], &[3]])),
        Err(ExecutionError::InvalidSyscallArgs())
    );
}

#[test]
fn recovery_rejects_a_buffer_of_another_length() {
    assert!(hook_k1_ecrecover(&vec![0; 10]).is_err());
    assert!(hook_r1_ecrecover(&vec![0; 10]).is_err());
}
