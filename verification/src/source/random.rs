//! Identifiers and secrets that are drawn at random.

use vstd::arithmetic::power::lemma_pow0;
use vstd::arithmetic::power::lemma_pow1;
use vstd::arithmetic::power::lemma_pow_adds;
use vstd::arithmetic::power::pow;
use vstd::prelude::*;

use crate::bytes::bytes_of;
use crate::source::token::CONN_ID_LEN;

verus! {

/// Length of the secret that connection identifiers are chosen with.
pub const SEED_LEN: usize = 32;

/// Length of a stateless reset token.
pub const RESET_TOKEN_LEN: usize = 16;

/// The method `fill` of `SystemRandom` of `ring` on a buffer of `len` bytes. It gives
/// as many bytes, of which nothing is known, or fails when the system has none.
#[verifier::external_body]
fn random_bytes(len: usize) -> (r: Option<Vec<u8>>)
    requires
        len <= 64,
    ensures
        r matches Some(v) ==> v@.len() == len,
{
    let mut bytes: Vec<u8> = vec![0; len];
    let filled = ring::rand::SecureRandom::fill(&ring::rand::SystemRandom::new(), &mut bytes);
    filled.ok().map(|_| bytes)
}

/// A secret to choose connection identifiers with.
pub fn new_seed() -> (r: Option<Vec<u8>>)
    ensures
        r matches Some(v) ==> v@.len() == SEED_LEN,
        r matches Some(v) ==> v@.len() == 32,
{
    random_bytes(SEED_LEN)
}

/// A connection identifier.
pub fn new_scid() -> (r: Option<Vec<u8>>)
    ensures
        r matches Some(v) ==> v@.len() == CONN_ID_LEN,
        r matches Some(v) ==> v@.len() == 16,
{
    random_bytes(CONN_ID_LEN)
}

/// The number that bytes stand for in network byte order.
pub open spec fn big_endian(b: Seq<u8>) -> nat
    decreases b.len(),
{
    if b.len() == 0 {
        0
    } else {
        256 * big_endian(b.drop_last()) + b.last() as nat
    }
}

/// How many numbers `n` bytes stand for.
spec fn range_of(n: nat) -> nat
    decreases n,
{
    if n == 0 {
        1
    } else {
        256 * range_of((n - 1) as nat)
    }
}

proof fn lemma_range(n: nat)
    requires
        n <= 16,
    ensures
        range_of(n) <= range_of(16),
    decreases 16 - n,
{
    if n < 16 {
        lemma_range(n + 1);
    }
}

/// A connection identifier with its stateless reset token.
#[derive(Debug)]
pub struct FreshCid {
    /// The connection identifier.
    pub scid: Vec<u8>,
    /// The stateless reset token.
    pub reset_token: u128,
}

/// A connection identifier and its stateless reset token, as they are drawn: the
/// token is a number in network byte order.
pub fn cid_of(drawn: &Vec<u8>) -> (r: FreshCid)
    requires
        drawn@.len() == CONN_ID_LEN + RESET_TOKEN_LEN,
    ensures
        r.scid@ == drawn@.take(CONN_ID_LEN as int),
        r.reset_token == big_endian(drawn@.skip(CONN_ID_LEN as int)),
        r.scid@ == drawn@.take(16),
        r.reset_token == big_endian(drawn@.skip(16)),
{
    let scid: Vec<u8> = bytes_of(drawn, 0, CONN_ID_LEN);
    let ghost token = drawn@.skip(CONN_ID_LEN as int);
    let mut reset_token: u128 = 0;
    let mut i: usize = 0;
    assert(token.take(0) =~= Seq::<u8>::empty());
    while i < RESET_TOKEN_LEN
        invariant
            i <= RESET_TOKEN_LEN,
            drawn@.len() == CONN_ID_LEN + RESET_TOKEN_LEN,
            token == drawn@.skip(CONN_ID_LEN as int),
            reset_token == big_endian(token.take(i as int)),
            reset_token < range_of(i as nat),
        decreases RESET_TOKEN_LEN - i,
    {
        proof {
            assert(token.take(i + 1).drop_last() =~= token.take(i as int));
            lemma_range((i + 1) as nat);
            assert(range_of(16) == 0x1_0000_0000_0000_0000_0000_0000_0000_0000) by {
                reveal_with_fuel(range_of, 17);
            }
        }
        reset_token = reset_token * 256 + drawn[CONN_ID_LEN + i] as u128;
        i += 1;
    }
    assert(token.take(i as int) =~= token);
    assert(scid@ =~= drawn@.take(CONN_ID_LEN as int));
    FreshCid { scid, reset_token }
}

/// A connection identifier with its stateless reset token.
pub fn fresh_cid() -> (r: Option<FreshCid>)
    ensures
        r matches Some(c) ==> c.scid@.len() == CONN_ID_LEN,
{
    match random_bytes(CONN_ID_LEN + RESET_TOKEN_LEN) {
        Some(drawn) => Some(cid_of(&drawn)),
        None => None,
    }
}

/// In network byte order each byte weighs 256 times the one after it: bytes in front of others
/// add their own number, moved up by a byte for each of the others.
pub proof fn bytes_weigh_by_their_place(a: Seq<u8>, b: Seq<u8>, x: u8)
    ensures
        big_endian(Seq::empty()) == 0,
        big_endian(seq![x]) == x,
        big_endian(a + b) == big_endian(a) * pow(256, b.len()) + big_endian(b),
    decreases b.len(),
{
    reveal_with_fuel(big_endian, 2);
    assert(seq![x].drop_last() =~= Seq::<u8>::empty());
    if b.len() == 0 {
        assert(a + b =~= a);
        lemma_pow0(256);
    } else {
        assert((a + b).drop_last() =~= a + b.drop_last());
        bytes_weigh_by_their_place(a, b.drop_last(), x);
        let n = b.drop_last().len();
        lemma_pow1(256);
        lemma_pow_adds(256, 1, n);
        assert(pow(256, b.len()) == 256 * pow(256, n));
        let p = pow(256, n);
        let q = big_endian(a) as int;
        assert(256 * (q * p) == q * (256 * p)) by (nonlinear_arith);
    }
}

} // verus!
