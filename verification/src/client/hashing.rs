//! The client's message cipher: a repeating-key XOR over the UTF-8 bytes of
//! the text, keyed by a Diffie-Hellman style shared value that
//! `modular_pow` computes.

use vstd::prelude::*;
use vstd::arithmetic::power::*;
use vstd::arithmetic::div_mod::*;
use vstd::arithmetic::mul::*;
use vstd::utf8::*;
use vstd::string::*;

verus! {

/// The four bytes of `key` in big-endian order, as `i32::to_be_bytes` gives
/// them.
pub open spec fn key_bytes(key: i32) -> Seq<u8> {
    seq![
        ((key as u32) >> 24u32) as u8,
        ((key as u32) >> 16u32) as u8,
        ((key as u32) >> 8u32) as u8,
        (key as u32) as u8,
    ]
}

/// Each byte XORed with the key byte at its position modulo four.
pub open spec fn xor_with_key(bytes: Seq<u8>, key: i32) -> Seq<u8> {
    Seq::new(bytes.len(), |i: int| bytes[i] ^ key_bytes(key)[i % 4])
}

/// The bytes that `xor_encrypt` produces from the text `s`.
pub open spec fn cipher_bytes(s: Seq<char>, key: i32) -> Seq<u8> {
    xor_with_key(encode_utf8(s), key)
}

/// The UTF-8 text of `bytes`, converted as `String::from_utf8` does; `None`
/// where the bytes are not valid UTF-8.
#[verifier::external_body]
fn string_from_utf8(bytes: Vec<u8>) -> (res: Option<String>)
    ensures
        res is Some <==> valid_utf8(bytes@),
        res matches Some(s) ==> s@ == decode_utf8(bytes@),
{
    String::from_utf8(bytes).ok()
}

fn xor_bytes(bytes: &[u8], key: i32) -> (res: Vec<u8>)
    ensures
        res@ == xor_with_key(bytes@, key),
{
    let k = key as u32;
    let kb: [u8; 4] = [(k >> 24u32) as u8, (k >> 16u32) as u8, (k >> 8u32) as u8, k as u8];
    assert(kb@ =~= key_bytes(key));
    let mut out: Vec<u8> = Vec::new();
    let n = bytes.len();
    let mut i: usize = 0;
    while i < n
        invariant
            n == bytes@.len(),
            i <= n,
            kb@ == key_bytes(key),
            out@ =~= xor_with_key(bytes@, key).take(i as int),
        decreases n - i,
    {
        out.push(bytes[i] ^ kb[i % 4]);
        i = i + 1;
    }
    assert(xor_with_key(bytes@, key).take(n as int) =~= xor_with_key(bytes@, key));
    out
}

/// XORs the UTF-8 bytes of `string` with the big-endian bytes of `key`
/// and reads the result back as text. Applying it twice with one key gives
/// the text back, so the same call encrypts and decrypts.
///
/// The result must be valid UTF-8; where it is not, `String::from_utf8`
/// fails and the call panics, so such inputs are left out.
pub fn xor_encrypt(string: &str, key: i32) -> (res: String)
    requires
        valid_utf8(cipher_bytes(string@, key)),
    ensures
        res@ == decode_utf8(cipher_bytes(string@, key)),
{
    match xor_encrypt_checked(string, key) {
        Some(s) => s,
        None => {
            proof {
                assert(false);
            }
            String::new()
        },
    }
}

/// `xor_encrypt` for any input: `None` exactly where `xor_encrypt` would
/// panic because the enciphered bytes are not valid UTF-8.
pub fn xor_encrypt_checked(string: &str, key: i32) -> (res: Option<String>)
    ensures
        res is Some <==> valid_utf8(cipher_bytes(string@, key)),
        res matches Some(s) ==> s@ == decode_utf8(cipher_bytes(string@, key)),
{
    let bytes = string.as_bytes();
    let encrypted = xor_bytes(bytes, key);
    string_from_utf8(encrypted)
}

/// XORing twice with the same key gives the bytes back.
pub proof fn lemma_xor_with_key_involution(bytes: Seq<u8>, key: i32)
    ensures
        xor_with_key(xor_with_key(bytes, key), key) == bytes,
{
    let once = xor_with_key(bytes, key);
    let twice = xor_with_key(once, key);
    assert forall|i: int| 0 <= i < bytes.len() implies twice[i] == bytes[i] by {
        let x = bytes[i];
        let k = key_bytes(key)[i % 4];
        assert((x ^ k) ^ k == x) by (bit_vector);
    }
    assert(twice =~= bytes);
}

/// Enciphering the text that `xor_encrypt` produced, with the same key,
/// gives back the first text: what one chat partner sends, the other
/// reads.
pub proof fn lemma_xor_encrypt_round_trip(s: Seq<char>, key: i32)
    requires
        valid_utf8(cipher_bytes(s, key)),
    ensures
        valid_utf8(cipher_bytes(decode_utf8(cipher_bytes(s, key)), key)),
        decode_utf8(cipher_bytes(decode_utf8(cipher_bytes(s, key)), key)) == s,
{
    let c = cipher_bytes(s, key);
    decode_utf8_encode_utf8(c);
    lemma_xor_with_key_involution(encode_utf8(s), key);
    assert(cipher_bytes(decode_utf8(c), key) == encode_utf8(s));
    encode_utf8_valid_utf8(s);
    encode_utf8_decode_utf8(s);
}

/// `b` raised to `e`, modulo `m`.
pub open spec fn modular_pow_spec(b: u64, e: u64, m: u64) -> int {
    pow(b as int, e as nat) % (m as int)
}

proof fn lemma_pow_step(r: int, bb: int, e: nat, m: int)
    requires
        m > 0,
    ensures
        e % 2 == 1 ==> ((r * bb) % m) * pow((bb * bb) % m, e / 2) % m == (r * pow(bb, e)) % m,
        e % 2 == 0 ==> (r * pow((bb * bb) % m, e / 2)) % m == (r * pow(bb, e)) % m,
{
    let h: nat = e / 2;
    lemma_pow_multiplies(bb, 2, h);
    lemma_square_is_pow2(bb);
    assert(pow(bb, 2) == bb * bb);
    assert(pow(bb * bb, h) == pow(bb, 2 * h));
    lemma_pow_mod_noop(bb * bb, h, m);
    let q = pow(bb * bb, h);
    let qm = pow((bb * bb) % m, h);
    assert(qm % m == q % m);
    if e % 2 == 1 {
        assert(e == 2 * h + 1);
        lemma_pow_adds(bb, 2 * h, 1);
        lemma_pow1(bb);
        assert(pow(bb, e) == q * bb);
        lemma_mul_mod_noop_left(r * bb, qm, m);
        lemma_mul_mod_noop_right(r * bb, qm, m);
        lemma_mul_mod_noop_right(r * bb, q, m);
        assert(((r * bb) % m) * qm % m == (r * bb) * q % m);
        assert((r * bb) * q == r * (q * bb)) by (nonlinear_arith);
    } else {
        assert(e == 2 * h);
        assert(pow(bb, e) == q);
        lemma_mul_mod_noop_right(r, qm, m);
        lemma_mul_mod_noop_right(r, q, m);
    }
}

/// `b` to the power `e`, modulo `m`, by square-and-multiply. `m` must be
/// positive: the first step computes `b % m`.
pub fn modular_pow(b: u64, e: u64, m: u64) -> (res: u64)
    requires
        m > 0,
    ensures
        res == modular_pow_spec(b, e, m),
        res < m,
{
    if m == 1 {
        return 0;
    }
    let ghost b0 = b;
    let ghost e0 = e;
    let mut e = e;
    let mm = m as u128;
    let mut r: u128 = 1;
    let mut bb: u128 = (b % m) as u128;
    proof {
        lemma_pow_mod_noop(b as int, e as nat, m as int);
        lemma_pow0(bb as int);
        assert((1 * pow(bb as int, e as nat)) % (m as int) == pow(b0 as int, e0 as nat) % (m as int));
    }
    while e > 0
        invariant
            mm == m,
            m > 1,
            r < mm,
            bb < mm,
            (r * pow(bb as int, e as nat)) % (m as int) == pow(b0 as int, e0 as nat) % (m as int),
        decreases e,
    {
        proof {
            lemma_pow_step(r as int, bb as int, e as nat, m as int);
            assert(r * bb <= 0xffff_ffff_ffff_ffffu128 * 0xffff_ffff_ffff_ffffu128) by (nonlinear_arith)
                requires
                    r < mm,
                    bb < mm,
                    mm <= 0xffff_ffff_ffff_ffffu128,
            ;
            assert(bb * bb <= 0xffff_ffff_ffff_ffffu128 * 0xffff_ffff_ffff_ffffu128) by (nonlinear_arith)
                requires
                    bb < mm,
                    mm <= 0xffff_ffff_ffff_ffffu128,
            ;
        }
        if e % 2 == 1 {
            r = (r * bb) % mm;
        }
        assert(e >> 1u64 == e / 2) by (bit_vector);
        e = e >> 1u64;
        bb = (bb * bb) % mm;
    }
    proof {
        lemma_pow0(bb as int);
        lemma_small_mod(r as nat, m as nat);
        assert(r * pow(bb as int, e as nat) == r);
    }
    r as u64
}

/// Both sides of a chat derive the same key: raising `g^a mod m` to `b`
/// gives what raising `g^b mod m` to `a` gives.
pub proof fn lemma_shared_key(g: u64, a: u64, b: u64, m: u64)
    requires
        m > 0,
    ensures
        pow(modular_pow_spec(g, a, m), b as nat) % (m as int) == pow(
            modular_pow_spec(g, b, m),
            a as nat,
        ) % (m as int),
{
    let mi = m as int;
    lemma_pow_mod_noop(pow(g as int, a as nat), b as nat, mi);
    lemma_pow_mod_noop(pow(g as int, b as nat), a as nat, mi);
    lemma_pow_multiplies(g as int, a as nat, b as nat);
    lemma_pow_multiplies(g as int, b as nat, a as nat);
    lemma_mul_is_commutative(a as int, b as int);
}

} // verus!
