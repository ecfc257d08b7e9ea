//! Fresh tokens from the operating system's random source.

use vstd::prelude::*;

use base64::engine::general_purpose::URL_SAFE_NO_PAD;
use base64::Engine;

verus! {

/// The error of the operating system's random source.
#[verifier::external_type_specification]
#[verifier::external_body]
pub struct ExRandomSourceError(getrandom::Error);

#[derive(Debug, Clone, Copy, PartialEq, Eq, Structural)]
pub enum ActorStartError {
    Randomness,
}

impl ActorStartError {
    pub open spec fn text(self) -> Seq<char> {
        "the operating system random source is unavailable"@
    }

    /// The error in words.
    pub fn message(&self) -> (message: String)
        ensures
            message@ == self.text(),
    {
        "the operating system random source is unavailable".to_owned()
    }
}

/// Calls `getrandom::fill`, which overwrites the bytes in place. Nothing is
/// claimed of the bytes themselves, only that their number stays.
#[verifier::external_body]
fn fill_random(bytes: &mut Vec<u8>) -> (result: Result<(), getrandom::Error>)
    ensures
        final(bytes)@.len() == old(bytes)@.len(),
{
    getrandom::fill(bytes.as_mut_slice())
}

/// Draws `length` random bytes.
pub fn random_bytes(length: usize) -> (result: Result<Vec<u8>, ActorStartError>)
    ensures
        match result {
            Ok(bytes) => bytes@.len() == length,
            Err(error) => error == ActorStartError::Randomness,
        },
{
    let mut bytes: Vec<u8> = vec![0;length];
    match fill_random(&mut bytes) {
        Ok(()) => Ok(bytes),
        Err(_) => Err(ActorStartError::Randomness),
    }
}

/// The byte at `k`, and zero past the end.
pub open spec fn byte_or_zero(bytes: Seq<u8>, k: int) -> int {
    if 0 <= k < bytes.len() {
        bytes[k] as int
    } else {
        0
    }
}

/// The `i`-th group of six bits of a byte string.
pub open spec fn sextet(bytes: Seq<u8>, i: int) -> int {
    let first = 3 * (i / 4);
    if i % 4 == 0 {
        byte_or_zero(bytes, first) / 4
    } else if i % 4 == 1 {
        (byte_or_zero(bytes, first) % 4) * 16 + byte_or_zero(bytes, first + 1) / 16
    } else if i % 4 == 2 {
        (byte_or_zero(bytes, first + 1) % 16) * 4 + byte_or_zero(bytes, first + 2) / 64
    } else {
        byte_or_zero(bytes, first + 2) % 64
    }
}

/// The letter that stands for six bits in URL-safe base64.
pub open spec fn url_safe_letter(value: int) -> char {
    if value < 26 {
        ('A' as int + value) as char
    } else if value < 52 {
        ('a' as int + (value - 26)) as char
    } else if value < 62 {
        ('0' as int + (value - 52)) as char
    } else if value == 62 {
        '-'
    } else {
        '_'
    }
}

/// URL-safe base64 without padding: one letter for every started six bits.
pub open spec fn url_safe_base64(bytes: Seq<u8>) -> Seq<char> {
    Seq::new(
        ((4 * bytes.len() + 2) / 3) as nat,
        |i: int| url_safe_letter(sextet(bytes, i)),
    )
}

/// Calls `encode` of base64's `URL_SAFE_NO_PAD` engine, which writes the bytes
/// in the URL-safe alphabet and adds no padding. It panics where the length of
/// the text overflows, so that is excluded.
#[verifier::external_body]
fn encode_url_safe(bytes: &[u8]) -> (text: String)
    requires
        4 * bytes@.len() + 2 <= usize::MAX,
    ensures
        text@ == url_safe_base64(bytes@),
{
    URL_SAFE_NO_PAD.encode(bytes)
}

/// Writes a drawn token as a text that a Mumble client can present.
pub fn join_token_text(bytes: &[u8]) -> (token: String)
    requires
        bytes@.len() == 32,
    ensures
        token@ == url_safe_base64(bytes@),
        token@.len() == 43,
{
    encode_url_safe(bytes)
}

/// Whether a text is a token of 32 bytes, written for a Mumble client. It has 43
/// letters.
pub open spec fn is_join_token(token: Seq<char>) -> bool {
    &&& token.len() == 43
    &&& exists|bytes: Seq<u8>| bytes.len() == 32 && #[trigger] url_safe_base64(bytes) == token
}

/// Draws the credential with which a Mumble client joins.
pub fn random_join_token() -> (result: Result<String, ActorStartError>)
    ensures
        match result {
            Ok(token) => is_join_token(token@),
            Err(error) => error == ActorStartError::Randomness,
        },
{
    match random_bytes(32) {
        Ok(bytes) => Ok(join_token_text(bytes.as_slice())),
        Err(error) => Err(error),
    }
}

} // verus!
