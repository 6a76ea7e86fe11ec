//! Random tokens and their hexadecimal text.

use crate::auth::fingerprint;
use vstd::prelude::*;

verus! {

/// Hexadecimal digits of a token.
pub const TOKEN_HEX: usize = 32;

/// A lower-case hexadecimal digit.
pub open spec fn is_hex(c: char) -> bool {
    '0' <= c <= '9' || 'a' <= c <= 'f'
}

/// The lowest `n` hexadecimal digits of a number, most significant first.
pub open spec fn hex_text(value: nat, n: nat) -> Seq<char>
    decreases n,
{
    if n == 0 {
        seq![]
    } else {
        hex_text(value / 16, (n - 1) as nat).push(fingerprint::hex_char(value % 16))
    }
}

/// They are hexadecimal digits, `n` of them.
pub proof fn lemma_hex_text(value: nat, n: nat)
    ensures
        hex_text(value, n).len() == n,
        forall|i: int| 0 <= i < n ==> is_hex(#[trigger] hex_text(value, n)[i]),
    decreases n,
{
    if n > 0 {
        lemma_hex_text(value / 16, (n - 1) as nat);
    }
}

/// Write the lowest `n` hexadecimal digits of a number.
pub fn hex_string(value: u128, n: usize) -> (r: String)
    ensures
        r@ == hex_text(value as nat, n as nat),
    decreases n,
{
    if n == 0 {
        String::new()
    } else {
        let mut out = hex_string(value / 16, n - 1);
        out.push(fingerprint::hex_digit((value % 16) as u8));
        out
    }
}

/// The text of a 128-bit token.
pub open spec fn token_of(token: u128) -> Seq<char> {
    hex_text(token as nat, TOKEN_HEX as nat)
}

/// Write a 128-bit token.
pub fn token_text(token: u128) -> (r: String)
    ensures
        r@ == token_of(token),
{
    hex_string(token, TOKEN_HEX)
}

/// `rand::random`: any 128-bit value. Nothing is stated of which.
#[verifier::external_body]
pub(crate) fn random_token() -> u128 {
    rand::random::<u128>()
}

/// How many numbers `n` hexadecimal digits can write.
pub open spec fn hex_bound(n: nat) -> nat
    decreases n,
{
    if n == 0 {
        1
    } else {
        16 * hex_bound((n - 1) as nat)
    }
}

proof fn lemma_hex_injective(a: nat, b: nat, n: nat)
    requires
        a < hex_bound(n),
        b < hex_bound(n),
        hex_text(a, n) == hex_text(b, n),
    ensures
        a == b,
    decreases n,
{
    if n > 0 {
        let m = (n - 1) as nat;
        let x = hex_text(a, n);
        let y = hex_text(b, n);
        assert(x.drop_last() =~= hex_text(a / 16, m));
        assert(y.drop_last() =~= hex_text(b / 16, m));
        assert(x.last() == y.last());
        assert(a % 16 == b % 16);
        lemma_hex_injective(a / 16, b / 16, m);
    }
}

/// Distinct tokens have distinct texts.
pub proof fn tokens_tell_apart(a: u128, b: u128)
    requires
        token_of(a) == token_of(b),
    ensures
        a == b,
{
    assert(hex_bound(32) == 0x1_0000_0000_0000_0000_0000_0000_0000_0000) by {
        reveal_with_fuel(hex_bound, 33);
    }
    lemma_hex_injective(a as nat, b as nat, 32);
}

/// Each hexadecimal digit stands for four bits, the highest first.
pub proof fn hex_digits_are_positional(high: nat, low: nat, n: nat)
    requires
        low < 16,
    ensures
        hex_text(16 * high + low, n + 1) == hex_text(high, n).push(fingerprint::hex_char(low)),
        low < 10 ==> fingerprint::hex_char(low) as nat == '0' as nat + low,
        low >= 10 ==> fingerprint::hex_char(low) as nat == 'a' as nat + low - 10,
{
    assert((16 * high + low) / 16 == high);
    assert((16 * high + low) % 16 == low);
}

} // verus!
