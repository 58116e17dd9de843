//! Big numbers as big-endian bytes.
use vstd::arithmetic::power::{
    lemma_pow0, lemma_pow1, lemma_pow_adds, lemma_pow_increases, lemma_pow_mod_noop,
    lemma_pow_multiplies, pow,
};
use vstd::prelude::*;

verus! {

/// The number that `b` spells, most significant byte first.
pub open spec fn be_value(b: Seq<u8>) -> nat
    decreases b.len(),
{
    if b.len() == 0 {
        0
    } else {
        be_value(b.drop_last()) * 256 + b.last() as nat
    }
}

/// Whether no byte of `b` could be left out.
pub open spec fn is_minimal(b: Seq<u8>) -> bool {
    b.len() >= 1 && (b.len() > 1 ==> b[0] != 0)
}

/// Calls `num_bigint::BigUint::modpow` between `from_bytes_be` and
/// `to_bytes_be`: `base` to the power `exponent`, modulo `modulus`, each as
/// big-endian bytes, and the result in as few bytes as it takes.
#[verifier::external_body]
pub(crate) fn mod_pow(base: &[u8], exponent: &[u8], modulus: &[u8]) -> (r: Vec<u8>)
    requires
        be_value(modulus@) > 1,
    ensures
        be_value(r@) == pow(be_value(base@) as int, be_value(exponent@)) % be_value(
            modulus@,
        ) as int,
        is_minimal(r@),
{
    let base = num_bigint::BigUint::from_bytes_be(base);
    let exponent = num_bigint::BigUint::from_bytes_be(exponent);
    let modulus = num_bigint::BigUint::from_bytes_be(modulus);
    base.modpow(&exponent, &modulus).to_bytes_be()
}

/// `n` bytes spell a number below 256 to the power `n`.
pub proof fn lemma_be_value_bound(b: Seq<u8>)
    ensures
        be_value(b) < pow(256, b.len()),
    decreases b.len(),
{
    if b.len() == 0 {
        lemma_pow0(256);
    } else {
        let n = (b.len() - 1) as nat;
        lemma_be_value_bound(b.drop_last());
        lemma_pow_adds(256, n, 1);
        lemma_pow1(256);
        assert(be_value(b.drop_last()) * 256 + b.last() < pow(256, n) * 256) by (nonlinear_arith)
            requires
                be_value(b.drop_last()) + 1 <= pow(256, n),
                b.last() < 256,
        ;
    }
}

/// A leading byte other than zero makes the number that large.
pub proof fn lemma_be_value_leading(b: Seq<u8>)
    requires
        b.len() >= 1,
        b[0] != 0,
    ensures
        be_value(b) >= pow(256, (b.len() - 1) as nat),
    decreases b.len(),
{
    if b.len() == 1 {
        lemma_pow0(256);
        assert(b.drop_last().len() == 0);
    } else {
        let n = (b.len() - 2) as nat;
        assert(b.drop_last()[0] == b[0]);
        lemma_be_value_leading(b.drop_last());
        lemma_pow_adds(256, n, 1);
        lemma_pow1(256);
        assert(be_value(b.drop_last()) * 256 >= pow(256, n) * 256) by (nonlinear_arith)
            requires
                be_value(b.drop_last()) >= pow(256, n),
        ;
    }
}

/// A number below 256 to the power `n` takes at most `n` bytes.
pub proof fn lemma_minimal_len(b: Seq<u8>, n: nat)
    requires
        is_minimal(b),
        n >= 1,
        be_value(b) < pow(256, n),
    ensures
        b.len() <= n,
{
    if b.len() > n {
        lemma_be_value_leading(b);
        lemma_pow_increases(256, n, (b.len() - 1) as nat);
    }
}

/// Leading zeros do not change the number.
pub proof fn lemma_be_value_padded(zeros: nat, b: Seq<u8>)
    ensures
        be_value(Seq::new(zeros, |i: int| 0u8) + b) == be_value(b),
    decreases b.len(), zeros,
{
    let padded = Seq::new(zeros, |i: int| 0u8) + b;
    if b.len() > 0 {
        lemma_be_value_padded(zeros, b.drop_last());
        assert(padded.drop_last() =~= Seq::new(zeros, |i: int| 0u8) + b.drop_last());
        assert(padded.last() == b.last());
    } else if zeros > 0 {
        let fewer = (zeros - 1) as nat;
        lemma_be_value_padded(fewer, b);
        assert(padded.drop_last() =~= Seq::new(fewer, |i: int| 0u8) + b);
        assert(padded.last() == 0);
    } else {
        assert(padded =~= b);
    }
}

/// Two parties that raise each other's public number to their own secret come
/// to the same number.
pub proof fn law_shared_secret_agrees(g: int, a: nat, b: nat, m: int)
    requires
        m > 1,
    ensures
        pow(pow(g, a) % m, b) % m == pow(pow(g, b) % m, a) % m,
{
    lemma_pow_mod_noop(pow(g, a), b, m);
    lemma_pow_mod_noop(pow(g, b), a, m);
    lemma_pow_multiplies(g, a, b);
    lemma_pow_multiplies(g, b, a);
    assert(a * b == b * a) by (nonlinear_arith);
}

} // verus!
