//! Content hashing: SHA-256 digests rendered as lowercase hexadecimal, the
//! key format shared by blocks and storage connectors.

use sha2::{Digest, Sha256};
use vstd::prelude::*;
use vstd::string::*;

verus! {

/// The SHA-256 digest of a byte string.
pub uninterp spec fn sha256(data: Seq<u8>) -> Seq<u8>;

/// Number of bytes in a SHA-256 digest.
pub const DIGEST_LEN: usize = 32;

/// Number of characters in a rendered content hash.
pub const HASH_LEN: usize = 64;

/// The sixteen lowercase hexadecimal digits, in order.
pub open spec fn hex_digits() -> Seq<char> {
    seq!['0', '1', '2', '3', '4', '5', '6', '7', '8', '9', 'a', 'b', 'c', 'd', 'e', 'f']
}

/// The lowercase hexadecimal digit for a value below sixteen.
pub open spec fn hex_digit(n: int) -> char
    recommends
        0 <= n < 16,
{
    hex_digits()[n]
}

/// Whether `c` is one of `0`-`9` or `a`-`f`.
pub open spec fn is_hex_digit(c: char) -> bool {
    exists|n: int| 0 <= n < 16 && c == #[trigger] hex_digit(n)
}

/// Two lowercase hexadecimal digits per byte, high nibble first.
pub open spec fn hex_encode(bytes: Seq<u8>) -> Seq<char>
    decreases bytes.len(),
{
    if bytes.len() == 0 {
        Seq::empty()
    } else {
        hex_encode(bytes.drop_last()).push(hex_digit(bytes.last() as int / 16)).push(
            hex_digit(bytes.last() as int % 16),
        )
    }
}

/// The content hash of a byte string: its SHA-256 digest in lowercase hex.
pub open spec fn content_hash(data: Seq<u8>) -> Seq<char> {
    hex_encode(sha256(data))
}

/// Whether `s` has the shape of a content hash: sixty-four lowercase
/// hexadecimal digits.
pub open spec fn is_content_hash(s: Seq<char>) -> bool {
    &&& s.len() == HASH_LEN
    &&& forall|i: int| 0 <= i < s.len() ==> is_hex_digit(#[trigger] s[i])
}

/// Hex encoding doubles the length and yields only hexadecimal digits.
pub proof fn lemma_hex_encode_shape(bytes: Seq<u8>)
    ensures
        hex_encode(bytes).len() == 2 * bytes.len(),
        forall|i: int| 0 <= i < hex_encode(bytes).len() ==>
            is_hex_digit(#[trigger] hex_encode(bytes)[i]),
    decreases bytes.len(),
{
    if bytes.len() > 0 {
        lemma_hex_encode_shape(bytes.drop_last());
        let hi = bytes.last() as int / 16;
        let lo = bytes.last() as int % 16;
        assert(is_hex_digit(hex_digit(hi)));
        assert(is_hex_digit(hex_digit(lo)));
    }
}

/// Calls `Sha256::new`, `update` and `finalize` of the `sha2` crate on
/// `data` and copies the digest out. The digest is a function of the input
/// alone and SHA-256 output is always thirty-two bytes.
#[verifier::external_body]
fn sha256_digest(data: &[u8]) -> (digest: Vec<u8>)
    ensures
        digest@ == sha256(data@),
        digest@.len() == DIGEST_LEN,
{
    let mut hasher = Sha256::new();
    hasher.update(data);
    hasher.finalize().to_vec()
}

/// The one-character string for the hexadecimal digit of `n`.
fn hex_digit_str(n: u8) -> (s: &'static str)
    requires
        n < 16,
    ensures
        s@ == seq![hex_digit(n as int)],
{
    proof {
        reveal_strlit("0");
        reveal_strlit("1");
        reveal_strlit("2");
        reveal_strlit("3");
        reveal_strlit("4");
        reveal_strlit("5");
        reveal_strlit("6");
        reveal_strlit("7");
        reveal_strlit("8");
        reveal_strlit("9");
        reveal_strlit("a");
        reveal_strlit("b");
        reveal_strlit("c");
        reveal_strlit("d");
        reveal_strlit("e");
        reveal_strlit("f");
    }
    let s = if n == 0 {
        "0"
    } else if n == 1 {
        "1"
    } else if n == 2 {
        "2"
    } else if n == 3 {
        "3"
    } else if n == 4 {
        "4"
    } else if n == 5 {
        "5"
    } else if n == 6 {
        "6"
    } else if n == 7 {
        "7"
    } else if n == 8 {
        "8"
    } else if n == 9 {
        "9"
    } else if n == 10 {
        "a"
    } else if n == 11 {
        "b"
    } else if n == 12 {
        "c"
    } else if n == 13 {
        "d"
    } else if n == 14 {
        "e"
    } else {
        "f"
    };
    assert(s@ =~= seq![hex_digit(n as int)]);
    s
}

/// Renders bytes as lowercase hexadecimal.
pub fn to_hex(bytes: &[u8]) -> (hex: String)
    ensures
        hex@ == hex_encode(bytes@),
{
    let mut hex = String::new();
    let mut i: usize = 0;
    while i < bytes.len()
        invariant
            i <= bytes.len(),
            hex@ == hex_encode(bytes@.take(i as int)),
        decreases bytes.len() - i,
    {
        let b = bytes[i];
        hex.append(hex_digit_str(b / 16));
        hex.append(hex_digit_str(b % 16));
        proof {
            let next = bytes@.take(i + 1);
            assert(next.drop_last() =~= bytes@.take(i as int));
            assert(next.last() == b);
            assert(hex@ =~= hex_encode(next));
        }
        i += 1;
    }
    proof {
        assert(bytes@.take(i as int) =~= bytes@);
    }
    hex
}

/// Whether `c` is a lowercase hexadecimal digit.
pub fn is_hex_char(c: char) -> (hex: bool)
    ensures
        hex == is_hex_digit(c),
{
    let hex = c == '0' || c == '1' || c == '2' || c == '3' || c == '4' || c == '5' || c == '6'
        || c == '7' || c == '8' || c == '9' || c == 'a' || c == 'b' || c == 'c' || c == 'd' || c
        == 'e' || c == 'f';
    proof {
        if hex {
            let n: int = if c == '0' {
                0
            } else if c == '1' {
                1
            } else if c == '2' {
                2
            } else if c == '3' {
                3
            } else if c == '4' {
                4
            } else if c == '5' {
                5
            } else if c == '6' {
                6
            } else if c == '7' {
                7
            } else if c == '8' {
                8
            } else if c == '9' {
                9
            } else if c == 'a' {
                10
            } else if c == 'b' {
                11
            } else if c == 'c' {
                12
            } else if c == 'd' {
                13
            } else if c == 'e' {
                14
            } else {
                15
            };
            assert(c == hex_digit(n));
        } else {
            assert forall|n: int| 0 <= n < 16 implies c != #[trigger] hex_digit(n) by {
                assert(hex_digits().len() == 16);
                if n == 0 {
                } else if n == 1 {
                } else if n == 2 {
                } else if n == 3 {
                } else if n == 4 {
                } else if n == 5 {
                } else if n == 6 {
                } else if n == 7 {
                } else if n == 8 {
                } else if n == 9 {
                } else if n == 10 {
                } else if n == 11 {
                } else if n == 12 {
                } else if n == 13 {
                } else if n == 14 {
                } else {
                }
            }
        }
    }
    hex
}

/// Whether `key` has the shape of a content hash: sixty-four lowercase
/// hexadecimal digits. Storage backends take nothing else for a key, but
/// for the one key of the root record.
pub fn is_valid_hash(key: &str) -> (valid: bool)
    ensures
        valid == is_content_hash(key@),
{
    if key.unicode_len() != HASH_LEN {
        return false;
    }
    let mut i: usize = 0;
    while i < HASH_LEN
        invariant
            i <= HASH_LEN,
            key@.len() == HASH_LEN,
            forall|j: int| 0 <= j < i ==> is_hex_digit(#[trigger] key@[j]),
        decreases HASH_LEN - i,
    {
        if !is_hex_char(key.get_char(i)) {
            return false;
        }
        i += 1;
    }
    true
}

/// The content hash of `data`: the key under which a payload is stored.
pub fn calculate_hash(data: &[u8]) -> (hash: String)
    ensures
        hash@ == content_hash(data@),
        is_content_hash(hash@),
{
    let digest = sha256_digest(data);
    proof {
        lemma_hex_encode_shape(digest@);
    }
    to_hex(digest.as_slice())
}

} // verus!
