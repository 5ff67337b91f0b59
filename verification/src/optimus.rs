use vstd::prelude::*;

use crate::arith::{is_prime, lemma_odd_invertible_pow2};
use crate::error::OptimusError;
use vstd::arithmetic::div_mod::{
    lemma_mod_bound, lemma_mod_mod, lemma_mod_multiples_vanish, lemma_mul_mod_noop_left,
    lemma_mul_mod_noop_right, lemma_small_mod,
};
use vstd::arithmetic::mul::lemma_mul_is_associative;
use vstd::arithmetic::power2::lemma2_to64;

verus! {

/// Upper bound of the encode/decode domain: the largest value representable
/// in a signed 32-bit integer. The modulus of the transform is `MAX_INT + 1`,
/// a power of two, so reduction can be done with a bitwise AND.
pub const MAX_INT: u64 = 0x7fff_ffff;

/// Optimus is used to encode and decode integers using Knuth's Hashing Algorithm.
#[derive(Debug, Clone, Copy)]
pub struct Optimus {
    prime: u64,
    mod_inverse: u64,
    random: u64,
}

/// Relies on `primal_check::miller_rabin`: the deterministic Miller-Rabin
/// primality test, exact on the whole `u64` range thanks to its fixed
/// witness table.
#[verifier::external_body]
fn miller_rabin_check(n: u64) -> (r: bool)
    ensures
        r == is_prime(n as nat),
{
    primal_check::miller_rabin(n)
}

/// Relies on `modinverse::modinverse` for `i64` (extended Euclidean
/// algorithm, canonicalized and widened to `i128` internally): for a
/// positive modulus it returns the unique inverse in `[0, m)` when one
/// exists, and `None` when none does.
#[verifier::external_body]
fn mod_inverse_of(a: i64, m: i64) -> (r: Option<i64>)
    requires
        2 <= m,
    ensures
        match r {
            Some(x) => 0 <= x < m && ((a as int) * (x as int)) % (m as int) == 1,
            None => forall|x: int| 0 <= x < m ==> #[trigger] (((a as int) * x) % (m as int)) != 1,
        },
{
    modinverse::modinverse(a, m)
}

impl Optimus {
    /// The multiplicative factor of the transform.
    pub closed spec fn prime(&self) -> u64 {
        self.prime
    }

    /// The multiplicative inverse of the factor modulo `MAX_INT + 1`.
    pub closed spec fn mod_inverse(&self) -> u64 {
        self.mod_inverse
    }

    /// The XOR mask layered over the multiplicative step.
    pub closed spec fn random(&self) -> u64 {
        self.random
    }

    /// Every engine the constructors hand out carries a verified prime.
    pub open spec fn wf(&self) -> bool {
        is_prime(self.prime() as nat)
    }

    /// What `encode` returns: multiply by the factor, reduce modulo
    /// `MAX_INT + 1`, then XOR with the mask.
    pub open spec fn encode_spec(&self, n: u64) -> u64 {
        (((n * self.prime()) % 0x8000_0000) as u64) ^ self.random()
    }

    /// What `decode` returns: strip the mask with XOR, multiply by the
    /// inverse factor, reduce modulo `MAX_INT + 1`.
    pub open spec fn decode_spec(&self, n: u64) -> u64 {
        ((((n ^ self.random()) * self.mod_inverse()) % 0x8000_0000) as u64)
    }

    /// Returns an Optimus struct that can be used to encode and decode integers.
    /// A common use case is for obfuscating internal ids of database primary keys.
    /// It is imperative that you keep a record of prime, mod_inverse and random so
    /// that you can decode an encoded integer correctly. random must be an integer
    /// less than `MAX_INT`.
    ///
    /// The supplied mod_inverse is trusted, not checked: a wrong inverse makes
    /// `decode` return garbage rather than fail.
    ///
    /// # Errors
    ///
    /// Will return `OptimusError` if the argument `prime` is not prime
    ///
    /// CAUTION: DO NOT DIVULGE prime, mod_inverse and random!
    pub fn new(prime: u64, mod_inverse: u64, random: u64) -> (r: Result<Self, OptimusError>)
        ensures
            r is Ok <==> is_prime(prime as nat),
            r is Ok ==> r->Ok_0.prime() == prime && r->Ok_0.mod_inverse() == mod_inverse
                && r->Ok_0.random() == random && r->Ok_0.wf(),
            !is_prime(prime as nat) ==> r == Result::<Self, OptimusError>::Err(
                OptimusError::NotPrime,
            ),
    {
        if !miller_rabin_check(prime) {
            return Err(OptimusError::NotPrime);
        }
        Ok(Self { prime, mod_inverse, random })
    }

    /// Returns an Optimus struct that can be used to encode and decode integers.
    /// random must be an integer less than `MAX_INT`.
    /// It automatically calculates prime's mod inverse and then calls new.
    ///
    /// # Errors
    ///
    /// Will return `OptimusError` if the argument `prime` is not prime
    /// or if a Mod Inverse cannot be found
    pub fn new_calculated(prime: u64, random: u64) -> (r: Result<Self, OptimusError>)
        ensures
            r is Ok <==> is_prime(prime as nat) && prime % 2 == 1,
            r is Ok ==> r->Ok_0.prime() == prime && r->Ok_0.random() == random && r->Ok_0.wf()
                && r->Ok_0.mod_inverse() < 0x8000_0000 && (prime * r->Ok_0.mod_inverse())
                % 0x8000_0000 == 1,
            !is_prime(prime as nat) ==> r == Result::<Self, OptimusError>::Err(
                OptimusError::NotPrime,
            ),
            is_prime(prime as nat) && prime % 2 == 0 ==> r == Result::<Self, OptimusError>::Err(
                OptimusError::NoModInverse,
            ),
    {
        proof {
            lemma_cast_through_i64(prime);
        }
        let mod_inverse = match Self::calc_mod_inverse(prime as i64) {
            Ok(v) => v,
            Err(e) => {
                return Err(e);
            },
        };
        proof {
            // The inverse equation proved for `prime as i64` carries over to
            // `prime` itself: the two differ by a multiple of the modulus.
            if prime >= 0x8000_0000_0000_0000 {
                let x = mod_inverse as int;
                assert(((prime as i64) as int) * x == 0x8000_0000 * ((-0x2_0000_0000) * x) + (
                prime as int) * x) by (nonlinear_arith)
                    requires
                        (prime as i64) as int == prime as int - 0x1_0000_0000_0000_0000,
                ;
                lemma_mod_multiples_vanish((-0x2_0000_0000) * x, (prime as int) * x, 0x8000_0000);
            }
        }
        Self::new(prime, mod_inverse, random)
    }

    /// Returns the modular inverse of a given prime number.
    /// The modular inverse is defined such that
    /// (`PRIME` * `MODULAR_INVERSE`) & (`MAX_INT`) = 1.
    ///
    /// See: <http://en.wikipedia.org/wiki/Modular_multiplicative_inverse>
    ///
    /// # Errors
    ///
    /// Will return `OptimusError` if the argument `prime` is not prime
    /// or if a mod inverse cannot be found
    pub fn calc_mod_inverse(prime: i64) -> (r: Result<u64, OptimusError>)
        ensures
            r == Result::<u64, OptimusError>::Err(OptimusError::NotPrime) <==> !is_prime(
                (prime as u64) as nat,
            ),
            is_prime((prime as u64) as nat) && (prime as int) % 2 == 1 ==> r is Ok
                && r->Ok_0 < 0x8000_0000 && ((prime as int) * (r->Ok_0 as int)) % 0x8000_0000
                == 1,
            is_prime((prime as u64) as nat) && (prime as int) % 2 == 0 ==> r == Result::<
                u64,
                OptimusError,
            >::Err(OptimusError::NoModInverse),
    {
        if !miller_rabin_check(prime as u64) {
            return Err(OptimusError::NotPrime);
        }
        match mod_inverse_of(prime, 0x8000_0000) {
            Some(x) => {
                proof {
                    if (prime as int) % 2 == 0 {
                        // An even factor cannot have an inverse modulo a
                        // power of two: the product stays even.
                        lemma_mul_mod_noop_left(prime as int, x as int, 2);
                        lemma_mod_mod((prime as int) * (x as int), 2, 0x4000_0000);
                        lemma_small_mod(1, 2);
                    }
                }
                Ok(x as u64)
            },
            None => {
                proof {
                    if (prime as int) % 2 == 1 {
                        lemma_odd_invertible_pow2(prime as int, 31);
                        lemma2_to64();
                    }
                }
                Err(OptimusError::NoModInverse)
            },
        }
    }

    /// Encodes n using Knuth's hashing algorithm.
    pub fn encode(&self, n: u64) -> (r: u64)
        requires
            n <= MAX_INT,
            n * self.prime() <= u64::MAX,
        ensures
            r == self.encode_spec(n),
    {
        let product: u64 = n * self.prime;
        proof {
            lemma_mask_is_mod(product);
        }
        (product & MAX_INT) ^ self.random
    }

    /// Decodes n back to the original. It will only decode correctly if the
    /// Optimus struct is consistent with what was used to encode n.
    pub fn decode(&self, n: u64) -> (r: u64)
        requires
            n <= MAX_INT,
            (n ^ self.random()) * self.mod_inverse() <= u64::MAX,
        ensures
            r == self.decode_spec(n),
    {
        let unmasked: u64 = n ^ self.random;
        let product: u64 = unmasked * self.mod_inverse;
        proof {
            lemma_mask_is_mod(product);
        }
        product & MAX_INT
    }
}

/// Masking with `MAX_INT` is reduction modulo `MAX_INT + 1`.
proof fn lemma_mask_is_mod(x: u64)
    by (bit_vector)
    ensures
        x & 0x7fff_ffff == x % 0x8000_0000,
{
}

/// Casting a `u64` through `i64` keeps the value modulo `2^64`: the round
/// trip is the identity, and parity is preserved.
proof fn lemma_cast_through_i64(p: u64)
    ensures
        (p as i64) as u64 == p,
        ((p as i64) as int) % 2 == (p as int) % 2,
        p < 0x8000_0000_0000_0000 ==> (p as i64) as int == p as int,
        p >= 0x8000_0000_0000_0000 ==> (p as i64) as int == p as int - 0x1_0000_0000_0000_0000,
{
    assert((p as i64) as u64 == p) by (bit_vector);
    assert(((p as i64) as int) % 2 == (p as int) % 2) by (bit_vector);
    assert(p < 0x8000_0000_0000_0000 ==> (p as i64) as int == p as int) by (bit_vector);
    assert(p >= 0x8000_0000_0000_0000 ==> (p as i64) as int == p as int
        - 0x1_0000_0000_0000_0000) by (bit_vector);
}

/// XOR with a fixed mask undoes itself.
proof fn lemma_xor_cancel(a: u64, b: u64)
    by (bit_vector)
    ensures
        (a ^ b) ^ b == a,
{
}

/// XOR of two values below `MAX_INT + 1` stays below `MAX_INT + 1`.
proof fn lemma_xor_bound(a: u64, b: u64)
    by (bit_vector)
    requires
        a < 0x8000_0000,
        b < 0x8000_0000,
    ensures
        a ^ b < 0x8000_0000,
{
}

/// The round-trip law: decoding an encoded value returns the original, for
/// every `n` in the domain, whenever the engine's `mod_inverse` really is
/// the multiplicative inverse of its factor modulo `MAX_INT + 1`.
pub proof fn lemma_round_trip(e: Optimus, n: u64)
    requires
        n <= MAX_INT,
        (e.prime() * e.mod_inverse()) % 0x8000_0000 == 1,
    ensures
        e.decode_spec(e.encode_spec(n)) == n,
{
    let p = e.prime() as int;
    let mi = e.mod_inverse() as int;
    let prod = (n as int) * p;
    let enc_m = prod % 0x8000_0000;
    lemma_mod_bound(prod, 0x8000_0000);
    let enc = e.encode_spec(n);
    lemma_xor_cancel(enc_m as u64, e.random());
    assert(enc ^ e.random() == enc_m as u64);
    // ((n * p) % M * mi) % M == (n * (p * mi)) % M == (n * 1) % M == n
    lemma_mul_mod_noop_left(prod, mi, 0x8000_0000);
    lemma_mul_is_associative(n as int, p, mi);
    lemma_mul_mod_noop_right(n as int, p * mi, 0x8000_0000);
    lemma_small_mod(n as nat, 0x8000_0000);
    assert(e.decode_spec(enc) == n);
}

/// Encoding is injective on the domain: two different values never encode
/// to the same output, under the same hypothesis as the round-trip law.
/// Together with `lemma_encode_in_range` this makes `encode` a bijection
/// of `[0, MAX_INT]` onto itself: the `MAX_INT + 1` domain values produce
/// `MAX_INT + 1` distinct outputs, all within the domain.
pub proof fn lemma_encode_injective(e: Optimus, n1: u64, n2: u64)
    requires
        n1 <= MAX_INT,
        n2 <= MAX_INT,
        n1 != n2,
        (e.prime() * e.mod_inverse()) % 0x8000_0000 == 1,
    ensures
        e.encode_spec(n1) != e.encode_spec(n2),
{
    lemma_round_trip(e, n1);
    lemma_round_trip(e, n2);
}

/// Encoded values stay in the domain, provided the mask does.
pub proof fn lemma_encode_in_range(e: Optimus, n: u64)
    requires
        n <= MAX_INT,
        e.random() <= MAX_INT,
    ensures
        e.encode_spec(n) <= MAX_INT,
{
    lemma_mod_bound((n as int) * (e.prime() as int), 0x8000_0000);
    lemma_xor_bound((((n * e.prime()) % 0x8000_0000) as u64), e.random());
}

/// Determinism: the outputs of `encode` and `decode` depend on nothing but
/// the three constructed parameters and the input, so two engines built
/// from the same parameters agree everywhere.
pub proof fn lemma_deterministic(e1: Optimus, e2: Optimus, n: u64)
    requires
        e1.prime() == e2.prime(),
        e1.mod_inverse() == e2.mod_inverse(),
        e1.random() == e2.random(),
    ensures
        e1.encode_spec(n) == e2.encode_spec(n),
        e1.decode_spec(n) == e2.decode_spec(n),
{
}

} // verus!
