use messenger::client::hashing::{modular_pow, xor_encrypt, xor_encrypt_checked};

fn naive_pow(b: u64, e: u64, m: u64) -> u64 {
    let mut r: u128 = 1 % m as u128;
    for _ in 0..e {
        r = r * (b as u128 % m as u128) % m as u128;
    }
    r as u64
}

#[test]
fn modular_pow_known_values() {
    assert_eq!(modular_pow(4, 13, 497), 445);
    assert_eq!(modular_pow(2, 10, 1000), 24);
    assert_eq!(modular_pow(7, 0, 13), 1);
    assert_eq!(modular_pow(7, 5, 1), 0);
    assert_eq!(modular_pow(0, 0, 5), 1);
    assert_eq!(modular_pow(u64::MAX, u64::MAX, u64::MAX), 0);
    assert_eq!(modular_pow(u64::MAX - 1, 3, u64::MAX), naive_pow_big(u64::MAX - 1, 3, u64::MAX));
}

fn naive_pow_big(b: u64, e: u64, m: u64) -> u64 {
    let mut r: u128 = 1;
    for _ in 0..e {
        r = r * b as u128 % m as u128;
    }
    r as u64
}

#[test]
fn modular_pow_agrees_with_repeated_multiplication() {
    for b in [0u64, 1, 2, 3, 10, 97, 1000] {
        for e in [0u64, 1, 2, 5, 17, 64] {
            for m in [1u64, 2, 7, 13, 97, 1009] {
                assert_eq!(modular_pow(b, e, m), naive_pow(b, e, m), "{} {} {}", b, e, m);
            }
        }
    }
}

#[test]
fn both_partners_derive_the_same_key() {
    let (g, a, b, m) = (5u64, 6u64, 15u64, 23u64);
    let shared_1 = modular_pow(modular_pow(g, a, m), b, m);
    let shared_2 = modular_pow(modular_pow(g, b, m), a, m);
    assert_eq!(shared_1, shared_2);
    assert_eq!(shared_1, 2);
}

#[test]
fn xor_encrypt_uses_big_endian_key_bytes() {
    let key = 0x0102_0304;
    let out = xor_encrypt("abcde", key);
    let expected: Vec<u8> = "abcde".bytes().enumerate().map(|(i, b)| b ^ [1u8, 2, 3, 4][i % 4]).collect();
    assert_eq!(out.as_bytes(), &expected[..]);
    assert_ne!(out, "abcde");
}

#[test]
fn xor_encrypt_twice_gives_the_text_back() {
    for key in [0, 1, 5, 0x0102_0304, 0x2020_2020] {
        let once = xor_encrypt("hello there", key);
        assert_eq!(xor_encrypt(&once, key), "hello there");
    }
    assert_eq!(xor_encrypt("same", 0), "same");
}

#[test]
fn xor_encrypt_checked_refuses_invalid_utf8() {
    assert_eq!(xor_encrypt_checked("a", 0x8000_0000u32 as i32), None);
    assert_eq!(xor_encrypt_checked("a", 0x0100_0000), Some("`".to_string()));
}
