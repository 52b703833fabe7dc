//! Account identifiers of the host chain.
use vstd::prelude::*;
use vstd::string::is_ascii_spec_bytes;

verus! {

/// Shortest and longest account identifiers.
pub const MIN_ACCOUNT_ID_LEN: usize = 2;

pub const MAX_ACCOUNT_ID_LEN: usize = 64;

pub open spec fn is_separator(c: char) -> bool {
    c == '-' || c == '_' || c == '.'
}

/// Lower-case letters, digits and the separators.
pub open spec fn is_id_char(c: char) -> bool {
    ('a' <= c && c <= 'z') || ('0' <= c && c <= '9') || is_separator(c)
}

/// A valid account identifier: 2 to 64 lower-case letters, digits and
/// separators, neither starting nor ending with a separator, and with no two
/// separators in a row.
pub open spec fn is_valid_account_id(s: Seq<char>) -> bool {
    &&& MIN_ACCOUNT_ID_LEN <= s.len() <= MAX_ACCOUNT_ID_LEN
    &&& forall|i: int| 0 <= i < s.len() ==> #[trigger] is_id_char(s[i])
    &&& !is_separator(s[0])
    &&& !is_separator(s[s.len() - 1])
    &&& forall|i: int|
        0 <= i < s.len() - 1 && #[trigger] is_separator(s[i]) ==> !is_separator(s[i + 1])
}

/// Whether `s` is a valid account identifier.
pub fn valid_account_id(s: &str) -> (r: bool)
    ensures
        r == is_valid_account_id(s@),
{
    if !s.is_ascii() {
        proof {
            let i = choose|i: int| 0 <= i < s@.len() && !('\0' <= s@[i] && s@[i] <= '\u{7f}');
            assert(!is_id_char(s@[i]));
        }
        return false;
    }
    let b = s.as_bytes();
    proof {
        is_ascii_spec_bytes(s);
    }
    let n = b.len();
    if n < MIN_ACCOUNT_ID_LEN || n > MAX_ACCOUNT_ID_LEN {
        return false;
    }
    let mut prev_sep = true;
    let mut i: usize = 0;
    while i < n
        invariant
            n == b@.len(),
            b@.len() == s@.len(),
            forall|k: int| 0 <= k < s@.len() ==> #[trigger] b@[k] == s@[k] as u8,
            forall|k: int| 0 <= k < s@.len() ==> '\0' <= #[trigger] s@[k] && s@[k] <= '\u{7f}',
            MIN_ACCOUNT_ID_LEN <= n <= MAX_ACCOUNT_ID_LEN,
            i <= n,
            forall|k: int| 0 <= k < i ==> #[trigger] is_id_char(s@[k]),
            i > 0 ==> !is_separator(s@[0]),
            forall|k: int| 0 <= k < i - 1 && #[trigger] is_separator(s@[k]) ==> !is_separator(s@[k + 1]),
            i == 0 ==> prev_sep,
            i > 0 ==> prev_sep == is_separator(s@[i - 1]),
        decreases n - i,
    {
        let c = b[i];
        let ghost ch = s@[i as int];
        assert(c == ch as u8);
        let letter_or_digit = (97 <= c && c <= 122) || (48 <= c && c <= 57);
        let sep = c == 45 || c == 95 || c == 46;
        assert(letter_or_digit == (('a' <= ch && ch <= 'z') || ('0' <= ch && ch <= '9')));
        assert(sep == is_separator(ch));
        if !letter_or_digit && !sep {
            assert(!is_id_char(s@[i as int]));
            return false;
        }
        if sep && prev_sep {
            proof {
                if i > 0 {
                    let k = i as int - 1;
                    assert(is_separator(s@[k]) && is_separator(s@[k + 1]));
                }
            }
            return false;
        }
        prev_sep = sep;
        i += 1;
    }
    !prev_sep
}

} // verus!
