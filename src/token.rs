//! Gateway access tokens.
use crate::text::{hex, hex_spec, push_all};
use vstd::prelude::*;

verus! {

/// The constant mixed into a token.
pub const TOKEN_MIX: u64 = 0x5DEECE66D;

/// Relies on `SystemTime::now` and `duration_since(UNIX_EPOCH)`: the time in
/// nanoseconds since the epoch, kept to its low 64 bits (zero for a clock set
/// before the epoch). Nothing is promised of the value.
#[verifier::external_body]
fn now_nanos() -> (r: u64) {
    std::time::SystemTime::now()
        .duration_since(std::time::UNIX_EPOCH)
        .unwrap_or_default()
        .as_nanos() as u64
}

/// The token for a timestamp: three groups of 16 hexadecimal digits, the
/// timestamp mixed with the constant, that value multiplied by the constant
/// (modulo 2^64), and the timestamp itself.
pub open spec fn token_spec(nanos: u64) -> Seq<char> {
    let mixed = nanos ^ TOKEN_MIX;
    hex_spec(mixed as nat, 16) + hex_spec(mixed.wrapping_mul(TOKEN_MIX) as nat, 16) + hex_spec(
        nanos as nat,
        16,
    )
}

/// The token for a timestamp in nanoseconds.
pub fn token_from_nanos(nanos: u64) -> (r: String)
    ensures
        r@ == token_spec(nanos),
{
    let mixed = nanos ^ TOKEN_MIX;
    let mut r = hex(mixed, 16);
    let second = hex(mixed.wrapping_mul(TOKEN_MIX), 16);
    push_all(&mut r, second.as_str());
    let third = hex(nanos, 16);
    push_all(&mut r, third.as_str());
    r
}

/// A fresh token, made from the current time.
pub fn generate_token() -> (r: String)
    ensures
        exists|t: u64| r@ == token_spec(t),
{
    let t = now_nanos();
    token_from_nanos(t)
}

/// A token has 48 characters.
pub proof fn token_length(t: u64)
    ensures
        token_spec(t).len() == 48,
{
    lemma_hex_len((t ^ TOKEN_MIX) as nat, 16);
    lemma_hex_len((t ^ TOKEN_MIX).wrapping_mul(TOKEN_MIX) as nat, 16);
    lemma_hex_len(t as nat, 16);
}

proof fn lemma_hex_len(n: nat, k: nat)
    ensures
        hex_spec(n, k).len() == k,
    decreases k,
{
    if k > 0 {
        lemma_hex_len(n / 16, (k - 1) as nat);
    }
}

} // verus!
