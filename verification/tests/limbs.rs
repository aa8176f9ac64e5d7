use num_bigint::BigUint;
use zk_wasm::bundle::create_stub_pubkey;
use zk_wasm::limbs::{bigint_to_limbs, calculate_redc_param};

fn rebuild(limbs: &[String], bits: usize) -> BigUint {
    let mut total = BigUint::from(0u32);
    for (i, limb) in limbs.iter().enumerate() {
        let value = BigUint::parse_bytes(limb.as_bytes(), 10).unwrap();
        total += value << (bits * i);
    }
    total
}

#[test]
fn limbs_of_a_small_number() {
    let value = (BigUint::from(1u32) << 120usize) + 5u32;
    assert_eq!(bigint_to_limbs(&value, 3, 120), vec!["5", "1", "0"]);
}

#[test]
fn limbs_are_little_endian_and_decimal() {
    let value = BigUint::from(0x0302_01u32);
    assert_eq!(bigint_to_limbs(&value, 4, 8), vec!["1", "2", "3", "0"]);
    let value = BigUint::from(1000u32);
    assert_eq!(bigint_to_limbs(&value, 2, 5), vec!["8", "31"]);
}

#[test]
fn limbs_of_zero() {
    let zero = BigUint::from(0u32);
    assert_eq!(bigint_to_limbs(&zero, 3, 120), vec!["0", "0", "0"]);
    assert_eq!(bigint_to_limbs(&zero, 0, 120), Vec::<String>::new());
}

#[test]
fn limbs_of_zero_width_are_zero() {
    let value = BigUint::from(12345u32);
    assert_eq!(bigint_to_limbs(&value, 2, 0), vec!["0", "0"]);
}

#[test]
fn limbs_drop_what_does_not_fit() {
    let value = BigUint::from(0x1234u32);
    assert_eq!(bigint_to_limbs(&value, 1, 8), vec!["52"]);
    assert_eq!(bigint_to_limbs(&value, 0, 8), Vec::<String>::new());
}

#[test]
fn widest_limb_value() {
    let value = (BigUint::from(1u32) << 120usize) - 1u32;
    assert_eq!(
        bigint_to_limbs(&value, 2, 120),
        vec!["1329227995784915872903807060280344575", "0"]
    );
}

#[test]
fn limbs_of_a_number_below_the_bound_rebuild_it() {
    let bytes: Vec<u8> = (1..=255).collect();
    let value = BigUint::from_bytes_be(&bytes);
    assert!(value < (BigUint::from(1u32) << 2160usize));
    let limbs = bigint_to_limbs(&value, 18, 120);
    assert_eq!(limbs.len(), 18);
    assert_eq!(rebuild(&limbs, 120), value);
    let limbs = bigint_to_limbs(&value, 255, 8);
    assert_eq!(rebuild(&limbs, 8), value);
    assert_eq!(limbs[0], "255");
    assert_eq!(limbs[254], "1");
}

#[test]
fn limbs_do_not_change_the_number() {
    let value = BigUint::from(77u32);
    let before = value.clone();
    let _ = bigint_to_limbs(&value, 2, 3);
    assert_eq!(value, before);
}

#[test]
fn stub_pubkey_is_the_usual_exponent() {
    assert_eq!(create_stub_pubkey(), BigUint::from(65537u32));
}

#[test]
fn redc_param_of_the_stub_modulus() {
    let modulus = BigUint::from(65537u32);
    assert_eq!(calculate_redc_param(&modulus, 1, 8), Some(vec!["255".to_string()]));
    assert_eq!(calculate_redc_param(&modulus, 2, 8), Some(vec!["255".to_string(), "255".to_string()]));
    let limbs = calculate_redc_param(&modulus, 18, 120).unwrap();
    assert_eq!(limbs.len(), 18);
    assert_eq!(limbs[0], "5192217631581220737344928932233215");
    assert_eq!(limbs[1], "1329207713684792508760301806651703040");
    assert_eq!(limbs[2], "1324035778153334652166462131348111360");
    assert_eq!(limbs[3], "20282100123364143505253628641535");
    assert_eq!(limbs[17], "1329207713684792508760301806651703040");
}

#[test]
fn redc_param_times_modulus_is_minus_one() {
    let moduli = [
        BigUint::from(1u32),
        BigUint::from(3u32),
        BigUint::from(65537u32),
        BigUint::from_bytes_be(&[0xc3, 0x5a, 0x11, 0x07, 0x99, 0xfe, 0x23, 0x45, 0x67, 0x89, 0xab]),
    ];
    for modulus in moduli.iter() {
        for (count, bits) in [(1usize, 1usize), (3, 7), (4, 64), (18, 120)] {
            let limbs = calculate_redc_param(modulus, count, bits).unwrap();
            assert_eq!(limbs.len(), count);
            let redc = rebuild(&limbs, bits);
            let r = BigUint::from(1u32) << (count * bits);
            assert!(redc < r);
            assert_eq!((modulus * &redc + 1u32) % &r, BigUint::from(0u32));
        }
    }
}

#[test]
fn redc_param_for_no_bits_is_zero() {
    let modulus = BigUint::from(65537u32);
    assert_eq!(calculate_redc_param(&modulus, 0, 120), Some(Vec::<String>::new()));
    assert_eq!(calculate_redc_param(&modulus, 2, 0), Some(vec!["0".to_string(), "0".to_string()]));
}

#[test]
fn even_modulus_has_no_redc_param() {
    assert_eq!(calculate_redc_param(&BigUint::from(65536u32), 18, 120), None);
    assert_eq!(calculate_redc_param(&BigUint::from(0u32), 1, 8), None);
    assert_eq!(calculate_redc_param(&BigUint::from(10u32), 0, 8), None);
}
