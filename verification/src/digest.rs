//! SHA-256 digests and their text.
use sha2::{Digest, Sha256};
use vstd::prelude::*;
use vstd::string::*;
use vstd::utf8::encode_utf8;

use crate::error::{problem_if, reports, Result, WombatError};
use crate::text::{cat2, chars_of, starts_with};

verus! {

/// The SHA-256 digest of bytes.
pub uninterp spec fn sha256_of(bytes: Seq<u8>) -> Seq<u8>;

/// `sha2::Sha256::digest`: the 32 bytes of the SHA-256 digest, which depend on the
/// bytes alone.
#[verifier::external_body]
fn sha256(bytes: &[u8]) -> (r: Vec<u8>)
    ensures
        r@ == sha256_of(bytes@),
        r@.len() == 32,
{
    Sha256::digest(bytes).to_vec()
}

/// A hexadecimal digit.
pub open spec fn hex_digit(value: u8) -> char {
    if value < 10 {
        (48 + value) as char
    } else {
        (87 + value) as char
    }
}

/// The hexadecimal text of bytes.
pub open spec fn hex(bytes: Seq<u8>) -> Seq<char>
    decreases bytes.len(),
{
    if bytes.len() == 0 {
        Seq::empty()
    } else {
        hex(bytes.drop_last()).push(hex_digit(bytes.last() / 16)).push(
            hex_digit(bytes.last() % 16),
        )
    }
}

/// The text of the digest of bytes.
pub open spec fn digest_of(bytes: Seq<u8>) -> Seq<char> {
    "sha256:"@ + hex(sha256_of(bytes))
}

fn hex_char(value: u8) -> (r: char)
    requires
        value < 16,
    ensures
        r == hex_digit(value),
{
    if value < 10 {
        (48 + value) as char
    } else {
        (87 + value) as char
    }
}

/// The text of the digest of bytes: `sha256:` and 64 lowercase hexadecimal
/// digits.
pub fn digest(bytes: &[u8]) -> (r: String)
    ensures
        r@ == digest_of(bytes@),
        valid_digest(r@),
{
    let sum = sha256(bytes);
    let mut text = String::new();
    let mut i: usize = 0;
    assert(sum@.take(0) =~= Seq::empty());
    while i < sum.len()
        invariant
            0 <= i <= sum@.len(),
            text@ == hex(sum@.take(i as int)),
        decreases sum@.len() - i,
    {
        assert(sum@.take(i + 1).drop_last() =~= sum@.take(i as int));
        text.push(hex_char(sum[i] / 16));
        text.push(hex_char(sum[i] % 16));
        i += 1;
    }
    assert(sum@.take(i as int) =~= sum@);
    proof {
        lemma_hex(sum@);
        lemma_digest_shape(text@);
    }
    cat2("sha256:", text.as_str())
}

/// Whether a character is a hexadecimal digit of either case.
pub open spec fn is_hex(c: char) -> bool {
    '0' <= c <= '9' || 'a' <= c <= 'f' || 'A' <= c <= 'F'
}

/// Whether text is that of a digest.
pub open spec fn valid_digest(value: Seq<char>) -> bool {
    &&& value.len() == 71
    &&& "sha256:"@.is_prefix_of(value)
    &&& forall|i: int| 7 <= i < value.len() ==> is_hex(#[trigger] value[i])
}

proof fn lemma_hex(bytes: Seq<u8>)
    ensures
        hex(bytes).len() == 2 * bytes.len(),
        forall|i: int| 0 <= i < hex(bytes).len() ==> is_hex(#[trigger] hex(bytes)[i]),
    decreases bytes.len(),
{
    if bytes.len() > 0 {
        lemma_hex(bytes.drop_last());
        let shorter = hex(bytes.drop_last());
        let whole = hex(bytes);
        assert forall|i: int| 0 <= i < whole.len() implies is_hex(#[trigger] whole[i]) by {
            if i < shorter.len() {
                assert(whole[i] == shorter[i]);
            }
        }
    }
}

proof fn lemma_digest_shape(digits: Seq<char>)
    requires
        digits.len() == 64,
        forall|i: int| 0 <= i < digits.len() ==> is_hex(#[trigger] digits[i]),
    ensures
        valid_digest("sha256:"@ + digits),
{
    reveal_strlit("sha256:");
    let whole = "sha256:"@ + digits;
    assert(whole.subrange(0, 7) =~= "sha256:"@);
    assert forall|i: int| 7 <= i < whole.len() implies is_hex(#[trigger] whole[i]) by {
        assert(whole[i] == digits[i - 7]);
    }
}

/// Whether text is that of a digest.
pub fn is_digest(value: &str) -> (r: bool)
    ensures
        r == valid_digest(value@),
{
    let chars = chars_of(value);
    if chars.len() != 71 || !starts_with(value, "sha256:") {
        return false;
    }
    let mut i: usize = 7;
    while i < chars.len()
        invariant
            7 <= i <= chars@.len(),
            chars@ == value@,
            forall|j: int| 7 <= j < i ==> is_hex(#[trigger] value@[j]),
        decreases chars@.len() - i,
    {
        let c = chars[i];
        if !(('0' <= c && c <= '9') || ('a' <= c && c <= 'f') || ('A' <= c && c <= 'F')) {
            assert(!is_hex(value@[i as int]));
            return false;
        }
        i += 1;
    }
    true
}

/// The digest of the UTF-8 bytes of text.
pub open spec fn text_digest_of(text: Seq<char>) -> Seq<char> {
    digest_of(encode_utf8(text))
}

/// Digests the UTF-8 bytes of text.
pub fn text_digest(text: &str) -> (r: String)
    ensures
        r@ == text_digest_of(text@),
        valid_digest(r@),
{
    digest(text.as_bytes())
}

/// Accepts the text of a digest.
pub fn validate_sha_identity(value: &str, label: &str) -> (r: Result<()>)
    ensures
        reports(r, problem_if(!valid_digest(value@), label@ + " is invalid"@)),
{
    if !is_digest(value) {
        return Err(WombatError::Configuration(cat2(label, " is invalid")));
    }
    Ok(())
}

} // verus!
