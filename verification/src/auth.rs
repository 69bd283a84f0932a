use vstd::prelude::*;
use crate::util::bytes_eq;

verus! {

/// Width of a stored credential record: the hash, then the salt.
pub const CREDENTIAL_LENGTH: usize = 40;

/// Width of the hash inside a credential record.
pub const HASH_LENGTH: usize = 24;

/// Width of the salt inside a credential record.
pub const SALT_LENGTH: usize = 16;

/// The hash the key-derivation function computes from a cost, a
/// sixteen-byte salt, and a password; a function of its arguments
/// alone.
pub uninterp spec fn bcrypt_of(cost: u32, salt: Seq<u8>, password: Seq<u8>) -> Seq<u8>;

/// Relies on crypto::bcrypt::bcrypt: fills the output with the
/// 24-byte hash of the cost, salt, and password. The call asserts its
/// argument shapes — a cost below 32, a 16-byte salt, a non-empty
/// password of at most 72 bytes, a 24-byte output — so those become
/// requirements here.
#[verifier::external_body]
fn bcrypt_hash(cost: u32, salt: &[u8], password: &[u8]) -> (r: Vec<u8>)
    requires
        cost < 32,
        salt@.len() == SALT_LENGTH,
        0 < password@.len() <= 72,
    ensures
        r@ == bcrypt_of(cost, salt@, password@),
        r@.len() == HASH_LENGTH,
{
    let mut out = vec![0u8; 24];
    crypto::bcrypt::bcrypt(cost, salt, password, &mut out);
    out
}

/// Checks a password against a stored credential record — the 24-byte
/// hash, then the 16-byte salt, as the authorization tables hold them:
/// true exactly when hashing the password under the record's salt
/// reproduces the record's hash.
pub fn check_password(record: &[u8], password: &[u8]) -> (r: bool)
    requires
        record@.len() == CREDENTIAL_LENGTH,
        0 < password@.len() <= 72,
    ensures
        r <==> bcrypt_of(1, record@.subrange(HASH_LENGTH as int, CREDENTIAL_LENGTH as int), password@)
            == record@.subrange(0, HASH_LENGTH as int),
{
    let (hash, salt) = record.split_at(HASH_LENGTH);
    let out = bcrypt_hash(1, salt, password);
    bytes_eq(out.as_slice(), hash)
}

} // verus!
