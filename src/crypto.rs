//! Calls into the outside hashing, encoding and randomness crates.
use base64::Engine;
use rand::RngCore;
use vstd::prelude::*;

verus! {

#[verifier::external_type_specification]
#[verifier::external_body]
pub struct ExBcryptError(bcrypt::BcryptError);

/// What `bcrypt::verify` gives for a password and a stored hash: `None` for a
/// hash it cannot read, else whether the password matches.
pub uninterp spec fn bcrypt_verify_of(password: Seq<char>, hash: Seq<char>) -> Option<bool>;

/// What `bcrypt::hash_with_salt(..).to_string()` gives; `None` for a cost it
/// refuses.
pub uninterp spec fn bcrypt_hash_of(password: Seq<char>, cost: u32, salt: Seq<u8>) -> Option<Seq<char>>;

/// The unpadded URL-safe base64 text of some bytes.
pub uninterp spec fn url_safe_no_pad(bytes: Seq<u8>) -> Seq<char>;

/// Relies on `rand::rngs::OsRng::try_fill_bytes`: fills the buffer from the
/// operating system's random source, or reports that it could not.
#[verifier::external_body]
pub(crate) fn fill_os_random(buf: &mut Vec<u8>) -> (r: bool)
    ensures
        final(buf)@.len() == old(buf)@.len(),
{
    rand::rngs::OsRng.try_fill_bytes(buf.as_mut_slice()).is_ok()
}

/// A character of the URL-safe base64 alphabet.
pub open spec fn is_url_safe_char(c: char) -> bool {
    ||| 'A' <= c && c <= 'Z'
    ||| 'a' <= c && c <= 'z'
    ||| '0' <= c && c <= '9'
    ||| c == '-'
    ||| c == '_'
}

/// Relies on `base64::engine::general_purpose::URL_SAFE_NO_PAD.encode`: four
/// characters per three bytes, a final partial group of two or three
/// characters and no padding, all from the URL-safe alphabet.
#[verifier::external_body]
pub(crate) fn encode_url_safe(bytes: &Vec<u8>) -> (r: String)
    ensures
        r@ == url_safe_no_pad(bytes@),
        r@.len() == (4 * bytes@.len() + 2) / 3,
        forall|i: int| 0 <= i < r@.len() ==> is_url_safe_char(#[trigger] r@[i]),
{
    base64::engine::general_purpose::URL_SAFE_NO_PAD.encode(bytes)
}

/// Relies on `bcrypt::verify`: an error for an unreadable hash, else whether
/// the password hashes to it; the outcome depends on the two texts alone.
#[verifier::external_body]
pub(crate) fn bcrypt_verify(password: &str, hash: &str) -> (r: Result<bool, bcrypt::BcryptError>)
    ensures
        r matches Ok(b) ==> bcrypt_verify_of(password@, hash@) == Some(b),
        r is Err ==> bcrypt_verify_of(password@, hash@) is None,
{
    bcrypt::verify(password, hash)
}

/// Relies on `bcrypt::hash_with_salt` and `HashParts::to_string`: refuses
/// only a cost outside 4 to 31, and is a function of its arguments.
#[verifier::external_body]
pub(crate) fn bcrypt_hash(password: &str, cost: u32, salt: &Vec<u8>) -> (r: Result<String, bcrypt::BcryptError>)
    requires
        salt@.len() == 16,
    ensures
        r is Ok <==> 4 <= cost <= 31,
        r matches Ok(h) ==> bcrypt_hash_of(password@, cost, salt@) == Some(h@),
        r is Err ==> bcrypt_hash_of(password@, cost, salt@) is None,
{
    let mut s = [0u8; 16];
    s.copy_from_slice(salt.as_slice());
    bcrypt::hash_with_salt(password, cost, s).map(|h| h.to_string())
}

} // verus!
