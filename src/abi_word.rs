//! The 32-byte big-endian words in which the source chain's logs carry integers.
use vstd::prelude::*;

verus! {

/// Length in bytes of one word.
pub const WORD_LEN: usize = 32;

/// The number that a big-endian byte string stands for.
pub open spec fn be_value(s: Seq<u8>) -> nat
    decreases s.len(),
{
    if s.len() == 0 {
        0
    } else {
        be_value(s.drop_last()) * 256 + s.last() as nat
    }
}

/// The `k` low-order bytes of `n`, big-endian.
pub open spec fn be_bytes(n: nat, k: nat) -> Seq<u8>
    decreases k,
{
    if k == 0 {
        Seq::empty()
    } else {
        be_bytes(n / 256, (k - 1) as nat).push((n % 256) as u8)
    }
}

pub open spec fn pow256(k: nat) -> nat
    decreases k,
{
    if k == 0 {
        1
    } else {
        256 * pow256((k - 1) as nat)
    }
}

/// Every byte flipped: the word of `-n - 1` in two's complement when the word holds `n`.
pub open spec fn flip(s: Seq<u8>) -> Seq<u8> {
    Seq::new(s.len(), |i: int| (255 - s[i]) as u8)
}

/// The signed number that a two's-complement word stands for.
pub open spec fn signed_value(w: Seq<u8>) -> int {
    if w[0] < 128 {
        be_value(w) as int
    } else {
        -(be_value(flip(w)) as int) - 1
    }
}

/// The word of a signed number, in two's complement.
pub open spec fn signed_word(x: i128) -> Seq<u8> {
    if x >= 0 {
        be_bytes(x as nat, 32)
    } else {
        flip(be_bytes((-(x as int) - 1) as nat, 32))
    }
}

pub proof fn lemma_be_bytes_len(n: nat, k: nat)
    ensures
        be_bytes(n, k).len() == k,
    decreases k,
{
    if k > 0 {
        lemma_be_bytes_len(n / 256, (k - 1) as nat);
    }
}

pub proof fn lemma_be_round_trip(n: nat, k: nat)
    requires
        n < pow256(k),
    ensures
        be_value(be_bytes(n, k)) == n,
    decreases k,
{
    if k > 0 {
        let p = pow256((k - 1) as nat);
        assert(n / 256 < p) by (nonlinear_arith)
            requires
                n < 256 * p,
        ;
        lemma_be_round_trip(n / 256, (k - 1) as nat);
        let s = be_bytes(n, k);
        assert(s.drop_last() =~= be_bytes(n / 256, (k - 1) as nat));
    }
}

/// The leading byte is zero when the number fits in one byte less.
pub proof fn lemma_be_leading_zero(n: nat, k: nat)
    requires
        k >= 1,
        n < pow256((k - 1) as nat),
    ensures
        be_bytes(n, k)[0] == 0,
    decreases k,
{
    lemma_be_bytes_len(n, k);
    if k == 1 {
        assert(n == 0);
    } else {
        let p = pow256((k - 2) as nat);
        assert(n / 256 < p) by (nonlinear_arith)
            requires
                n < 256 * p,
        ;
        lemma_be_leading_zero(n / 256, (k - 1) as nat);
        lemma_be_bytes_len(n / 256, (k - 1) as nat);
    }
}

pub proof fn lemma_pow256_monotone(j: nat, k: nat)
    requires
        j <= k,
    ensures
        pow256(j) <= pow256(k),
    decreases k,
{
    if j < k {
        lemma_pow256_monotone(j, (k - 1) as nat);
    }
}

/// Every `u128`, and its byte string of 16 bytes or more, fits below `pow256(16)`.
pub proof fn lemma_u128_fits(k: nat)
    requires
        k >= 16,
    ensures
        pow256(16) == 0x1_0000_0000_0000_0000_0000_0000_0000_0000,
        pow256(k) >= pow256(16),
{
    reveal_with_fuel(pow256, 17);
    lemma_pow256_monotone(16, k);
}

/// The word of an unsigned number reads back as that number.
pub proof fn lemma_word_round_trip(x: u128)
    ensures
        be_bytes(x as nat, 32).len() == 32,
        be_value(be_bytes(x as nat, 32)) == x,
        be_bytes(x as nat, 32)[0] == 0,
{
    lemma_u128_fits(31);
    lemma_u128_fits(32);
    lemma_be_bytes_len(x as nat, 32);
    lemma_be_round_trip(x as nat, 32);
    lemma_be_leading_zero(x as nat, 32);
}

/// The word of a signed number reads back as that number.
pub proof fn lemma_signed_word_round_trip(x: i128)
    ensures
        signed_word(x).len() == 32,
        signed_value(signed_word(x)) == x,
{
    if x >= 0 {
        lemma_word_round_trip(x as u128);
    } else {
        let m = (-(x as int) - 1) as nat;
        lemma_word_round_trip(m as u128);
        let w = be_bytes(m, 32);
        assert(flip(flip(w)) =~= w);
    }
}

/// Relies on `ethabi::encode` of one `Token::Uint`: a single 32-byte big-endian word.
#[verifier::external_body]
pub(crate) fn uint_word(x: u128) -> (r: Vec<u8>)
    ensures
        r@ == be_bytes(x as nat, 32),
{
    ethabi::encode(&[ethabi::Token::Uint(ethabi::Uint::from(x))])
}

/// Relies on `ethabi::decode` of one `ParamType::Uint(256)` from a 32-byte word,
/// and on `u128::try_from` of `ethabi::Uint`, which fails exactly above `u128::MAX`.
#[verifier::external_body]
pub(crate) fn word_uint(w: &[u8]) -> (r: Option<u128>)
    requires
        w@.len() == 32,
    ensures
        r == (if be_value(w@) <= u128::MAX {
            Some(be_value(w@) as u128)
        } else {
            None::<u128>
        }),
{
    match ethabi::decode(&[ethabi::ParamType::Uint(256)], w) {
        Ok(tokens) => match tokens.into_iter().next() {
            Some(ethabi::Token::Uint(u)) => u128::try_from(u).ok(),
            _ => None,
        },
        Err(_) => None,
    }
}

fn flip_bytes(w: &[u8]) -> (r: Vec<u8>)
    ensures
        r@ == flip(w@),
{
    let mut r: Vec<u8> = Vec::new();
    let mut i: usize = 0;
    while i < w.len()
        invariant
            i <= w@.len(),
            r@ =~= flip(w@).subrange(0, i as int),
        decreases w@.len() - i,
    {
        r.push(255 - w[i]);
        i += 1;
    }
    assert(r@ =~= flip(w@));
    r
}

/// The two's-complement word of a signed number.
pub fn int_word(x: i128) -> (r: Vec<u8>)
    ensures
        r@ == signed_word(x),
{
    if x >= 0 {
        uint_word(x as u128)
    } else {
        let m = (-(x + 1)) as u128;
        let w = uint_word(m);
        flip_bytes(w.as_slice())
    }
}

/// The signed number in a two's-complement word, if it fits in an `i128`.
pub fn word_int(w: &[u8]) -> (r: Option<i128>)
    requires
        w@.len() == 32,
    ensures
        r == (if i128::MIN <= signed_value(w@) <= i128::MAX {
            Some(signed_value(w@) as i128)
        } else {
            None::<i128>
        }),
{
    if w[0] < 128 {
        match word_uint(w) {
            Some(v) => {
                if v <= i128::MAX as u128 {
                    Some(v as i128)
                } else {
                    None
                }
            },
            None => None,
        }
    } else {
        let f = flip_bytes(w);
        match word_uint(f.as_slice()) {
            Some(m) => {
                if m <= i128::MAX as u128 {
                    Some(-(m as i128) - 1)
                } else {
                    None
                }
            },
            None => None,
        }
    }
}

} // verus!
