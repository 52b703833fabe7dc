//! Hexadecimal text of byte strings, as the token identifiers are written.
use vstd::prelude::*;

verus! {

/// The value of a hexadecimal digit of either case, or -1 for any other character.
pub open spec fn digit_value(c: char) -> int {
    if '0' <= c && c <= '9' {
        c as int - '0' as int
    } else if 'a' <= c && c <= 'f' {
        c as int - 'a' as int + 10
    } else if 'A' <= c && c <= 'F' {
        c as int - 'A' as int + 10
    } else {
        -1
    }
}

/// A lower-case hexadecimal digit.
pub open spec fn is_lower_digit(c: char) -> bool {
    ('0' <= c && c <= '9') || ('a' <= c && c <= 'f')
}

/// `s` is the lower-case hexadecimal text of `b`: two digits per byte, high nibble first.
pub open spec fn is_hex_of(s: Seq<char>, b: Seq<u8>) -> bool {
    &&& s.len() == 2 * b.len()
    &&& forall|i: int| 0 <= i < s.len() ==> #[trigger] is_lower_digit(s[i])
    &&& forall|i: int|
        0 <= i < b.len() ==> digit_value(s[2 * i]) == b[i] / 16 && digit_value(s[2 * i + 1])
            == #[trigger] b[i] % 16
}

/// Text that `hex::decode` accepts: an even number of hexadecimal digits of either case.
pub open spec fn is_hex(s: Seq<char>) -> bool {
    &&& s.len() % 2 == 0
    &&& forall|i: int| 0 <= i < s.len() ==> #[trigger] digit_value(s[i]) >= 0
}

/// The bytes that hexadecimal text stands for.
pub open spec fn unhex(s: Seq<char>) -> Seq<u8> {
    Seq::new(
        (s.len() / 2) as nat,
        |i: int| (16 * digit_value(s[2 * i]) + digit_value(s[2 * i + 1])) as u8,
    )
}

/// Relies on `hex::encode`: two lower-case digits per byte, high nibble first.
#[verifier::external_body]
pub(crate) fn encode_hex(b: &[u8]) -> (r: String)
    ensures
        is_hex_of(r@, b@),
{
    hex::encode(b)
}

/// Relies on `hex::decode`: it accepts exactly an even number of digits of
/// either case and gives one byte per pair of digits.
#[verifier::external_body]
pub(crate) fn decode_hex(s: &str) -> (r: Option<Vec<u8>>)
    ensures
        r.is_some() == is_hex(s@),
        r.is_some() ==> r.unwrap()@ == unhex(s@),
{
    hex::decode(s).ok()
}

/// Lower-case hexadecimal text is fixed by the bytes it stands for.
pub proof fn lemma_hex_of_unique(s: Seq<char>, t: Seq<char>, b: Seq<u8>)
    requires
        is_hex_of(s, b),
        is_hex_of(t, b),
    ensures
        s == t,
{
    assert forall|i: int| 0 <= i < s.len() implies s[i] == t[i] by {
        let j = i / 2;
        assert(i == 2 * j || i == 2 * j + 1);
        assert(0 <= j < b.len());
        assert(digit_value(s[2 * j]) == b[j] / 16 && digit_value(s[2 * j + 1]) == b[j] % 16);
        assert(digit_value(t[2 * j]) == b[j] / 16 && digit_value(t[2 * j + 1]) == b[j] % 16);
        assert(is_lower_digit(s[i]) && is_lower_digit(t[i]));
        assert(digit_value(s[i]) == digit_value(t[i]));
        assert((s[i] as int) == (t[i] as int));
    }
    assert(s =~= t);
}

/// Lower-case hexadecimal text of even length is the text of what it stands for.
pub proof fn lemma_unhex_lower(s: Seq<char>)
    requires
        s.len() % 2 == 0,
        forall|i: int| 0 <= i < s.len() ==> #[trigger] is_lower_digit(s[i]),
    ensures
        is_hex(s),
        is_hex_of(s, unhex(s)),
{
    let b = unhex(s);
    assert forall|i: int| 0 <= i < s.len() implies #[trigger] digit_value(s[i]) >= 0 by {
        assert(is_lower_digit(s[i]));
    }
    assert forall|i: int| 0 <= i < b.len() implies digit_value(s[2 * i]) == b[i] / 16
        && digit_value(s[2 * i + 1]) == #[trigger] b[i] % 16 by {
        let hi = digit_value(s[2 * i]);
        let lo = digit_value(s[2 * i + 1]);
        assert(is_lower_digit(s[2 * i]) && is_lower_digit(s[2 * i + 1]));
        assert(0 <= hi < 16 && 0 <= lo < 16);
        assert(b[i] == 16 * hi + lo);
        assert((16 * hi + lo) / 16 == hi && (16 * hi + lo) % 16 == lo) by (nonlinear_arith)
            requires
                0 <= hi < 16,
                0 <= lo < 16,
        ;
    }
}

} // verus!
