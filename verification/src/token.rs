//! Session and device tokens: random bytes read as a little-endian number
//! and written out in decimal.

use rand_chacha::ChaCha8Rng;
use rand_core::RngCore;
use vstd::prelude::*;

verus! {

#[verifier::external_type_specification]
#[verifier::external_body]
pub struct ExChaCha8Rng(ChaCha8Rng);

/// The number that `bytes` encode, least significant byte first.
pub open spec fn le_value(bytes: Seq<u8>) -> nat
    decreases bytes.len(),
{
    if bytes.len() == 0 {
        0
    } else {
        bytes[0] as nat + 256 * le_value(bytes.drop_first())
    }
}

/// 256 to the power `n`.
pub open spec fn pow256(n: nat) -> nat
    decreases n,
{
    if n == 0 {
        1
    } else {
        256 * pow256((n - 1) as nat)
    }
}

/// The character of the decimal digit `d`.
pub open spec fn digit_char(d: nat) -> char {
    (48 + d) as char
}

/// `n` written in decimal, without leading zeros.
pub open spec fn decimal(n: nat) -> Seq<char>
    decreases n,
{
    if n < 10 {
        seq![digit_char(n)]
    } else {
        decimal(n / 10).push(digit_char(n % 10))
    }
}

/// A token as the random bytes `bytes` give it: their little-endian value in
/// decimal.
pub open spec fn token_of(bytes: Seq<u8>) -> Seq<char> {
    decimal(le_value(bytes))
}

/// Appends `c` to `s`, by `String::push`.
#[verifier::external_body]
fn push_char(s: &mut String, c: char)
    ensures
        final(s)@ == old(s)@.push(c),
{
    s.push(c)
}

/// Fills `dest` with bytes drawn from `rng`, by `RngCore::fill_bytes` of
/// `ChaCha8Rng`. The bytes depend on the generator's state; all that is
/// claimed is that `dest` keeps its length.
#[verifier::external_body]
fn fill_bytes(rng: &mut ChaCha8Rng, dest: &mut [u8])
    ensures
        final(dest)@.len() == old(dest)@.len(),
{
    rng.fill_bytes(dest)
}

proof fn lemma_le_value_bound(bytes: Seq<u8>)
    ensures
        le_value(bytes) < pow256(bytes.len()),
    decreases bytes.len(),
{
    if bytes.len() > 0 {
        lemma_le_value_bound(bytes.drop_first());
    }
}

proof fn lemma_pow256_monotone(m: nat, n: nat)
    requires
        m <= n,
    ensures
        pow256(m) <= pow256(n),
    decreases n,
{
    if m < n {
        lemma_pow256_monotone(m, (n - 1) as nat);
    }
}

/// Appends `n` in decimal to `s`.
fn push_decimal(s: &mut String, n: u128)
    ensures
        final(s)@ == old(s)@ + decimal(n as nat),
    decreases n,
{
    if n >= 10 {
        push_decimal(s, n / 10);
    }
    let d = (n % 10) as u8;
    let c = (48u8 + d) as char;
    push_char(s, c);
    proof {
        if n >= 10 {
            assert(decimal(n as nat) == decimal((n / 10) as nat).push(digit_char((n % 10) as nat)));
        }
    }
    assert(final(s)@ =~= old(s)@ + decimal(n as nat));
}

/// Writes the number that `bytes` encode, least significant byte first, in
/// decimal.
pub fn token_from_le_bytes(bytes: &[u8]) -> (token: String)
    requires
        bytes@.len() <= 16,
    ensures
        token@ == token_of(bytes@),
{
    let n = bytes.len();
    let mut value: u128 = 0;
    let mut i: usize = n;
    proof {
        assert(bytes@.skip(n as int) =~= Seq::<u8>::empty());
        reveal_with_fuel(pow256, 17);
        assert(pow256(16) == 0x1_0000_0000_0000_0000_0000_0000_0000_0000);
    }
    while i > 0
        invariant
            n == bytes@.len(),
            n <= 16,
            i <= n,
            value == le_value(bytes@.skip(i as int)),
            pow256(16) == 0x1_0000_0000_0000_0000_0000_0000_0000_0000,
        decreases i,
    {
        let ghost rest = bytes@.skip(i as int);
        proof {
            lemma_le_value_bound(rest);
            lemma_pow256_monotone((n - i + 1) as nat, 16);
            assert(bytes@.skip(i - 1).drop_first() =~= rest);
        }
        value = bytes[i - 1] as u128 + 256 * value;
        i = i - 1;
    }
    proof {
        assert(bytes@.skip(0) =~= bytes@);
    }
    let mut token = String::new();
    push_decimal(&mut token, value);
    assert(token@ =~= decimal(value as nat));
    token
}

/// A fresh login-session token: sixteen bytes drawn from `rng`, written as
/// a decimal number.
pub fn new_session_token(rng: &mut ChaCha8Rng) -> (token: String)
    ensures
        exists|bytes: Seq<u8>| bytes.len() == 16 && token@ == #[trigger] token_of(bytes),
{
    let mut buf = [0u8; 16];
    fill_bytes(rng, &mut buf);
    token_from_le_bytes(&buf)
}

/// A fresh device token: eight bytes drawn from `rng`, written as a decimal
/// number.
pub fn new_device_token(rng: &mut ChaCha8Rng) -> (token: String)
    ensures
        exists|bytes: Seq<u8>| bytes.len() == 8 && token@ == #[trigger] token_of(bytes),
{
    let mut buf = [0u8; 8];
    fill_bytes(rng, &mut buf);
    token_from_le_bytes(&buf)
}

} // verus!

verus! {

proof fn lemma_decimal_nonempty(n: nat)
    ensures
        decimal(n).len() >= 1,
        n >= 10 ==> decimal(n).len() >= 2,
    decreases n,
{
    if n >= 10 {
        lemma_decimal_nonempty(n / 10);
    }
}

/// Different numbers are written differently in decimal.
pub proof fn lemma_decimal_injective(m: nat, n: nat)
    requires
        decimal(m) == decimal(n),
    ensures
        m == n,
    decreases m,
{
    lemma_decimal_nonempty(m);
    lemma_decimal_nonempty(n);
    if m < 10 && n < 10 {
        assert(decimal(m)[0] == digit_char(m));
        assert(decimal(n)[0] == digit_char(n));
        assert((48 + m) as char as int == 48 + m);
        assert((48 + n) as char as int == 48 + n);
    } else if m >= 10 && n >= 10 {
        let dm = decimal(m);
        let dn = decimal(n);
        assert(dm.last() == digit_char(m % 10));
        assert(dn.last() == digit_char(n % 10));
        assert((48 + m % 10) as char as int == 48 + m % 10);
        assert((48 + n % 10) as char as int == 48 + n % 10);
        assert(dm.drop_last() =~= decimal(m / 10));
        assert(dn.drop_last() =~= decimal(n / 10));
        lemma_decimal_injective(m / 10, n / 10);
    } else {
        assert(decimal(m).len() != decimal(n).len());
    }
}

/// Different byte strings of one length encode different numbers.
pub proof fn lemma_le_value_injective(a: Seq<u8>, b: Seq<u8>)
    requires
        a.len() == b.len(),
        le_value(a) == le_value(b),
    ensures
        a == b,
    decreases a.len(),
{
    if a.len() > 0 {
        let x = a[0] as int;
        let y = b[0] as int;
        let p = le_value(a.drop_first()) as int;
        let q = le_value(b.drop_first()) as int;
        assert(x + 256 * p == y + 256 * q);
        assert(x == y && p == q) by (nonlinear_arith)
            requires
                x + 256 * p == y + 256 * q,
                0 <= x < 256,
                0 <= y < 256,
        ;
        lemma_le_value_injective(a.drop_first(), b.drop_first());
        assert(a =~= b) by {
            assert forall|i: int| 0 <= i < a.len() implies a[i] == b[i] by {
                if i > 0 {
                    assert(a[i] == a.drop_first()[i - 1]);
                    assert(b[i] == b.drop_first()[i - 1]);
                }
            }
        }
    } else {
        assert(a =~= b);
    }
}

/// Tokens drawn as different bytes of one length are different tokens, so
/// a token names the draw it came from.
pub proof fn lemma_token_injective(a: Seq<u8>, b: Seq<u8>)
    requires
        a.len() == b.len(),
        token_of(a) == token_of(b),
    ensures
        a == b,
{
    lemma_decimal_injective(le_value(a), le_value(b));
    lemma_le_value_injective(a, b);
}

/// A token is a non-empty string of decimal digits.
pub proof fn lemma_token_digits(n: nat)
    ensures
        decimal(n).len() >= 1,
        forall|i: int| 0 <= i < decimal(n).len() ==> '0' <= #[trigger] decimal(n)[i] <= '9',
    decreases n,
{
    lemma_decimal_nonempty(n);
    if n >= 10 {
        lemma_token_digits(n / 10);
        assert forall|i: int| 0 <= i < decimal(n).len() implies '0' <= #[trigger] decimal(n)[i] <= '9' by {
            if i < decimal(n).len() - 1 {
                assert(decimal(n)[i] == decimal(n / 10)[i]);
            } else {
                assert((48 + n % 10) as char as int == 48 + n % 10);
            }
        }
    } else {
        assert((48 + n) as char as int == 48 + n);
    }
}

} // verus!
