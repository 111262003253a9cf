//! The decisions of the database model that do not touch the database:
//! checking a password against the stored hash, and hashing the password
//! of a new user. The queries themselves run in the caller.

use vstd::prelude::*;
use vstd::string::*;

verus! {

/// Whether `password_auth::verify_password` accepts `password` for the
/// stored hash `hash`.
pub uninterp spec fn password_verifies(password: Seq<char>, hash: Seq<char>) -> bool;

/// `password_auth::verify_password`: whether the password matches the
/// stored PHC hash. Its answer depends on the two texts alone (the salt
/// is part of the hash).
#[verifier::external_body]
fn verify_password(password: &str, hash: &str) -> (res: bool)
    ensures
        res == password_verifies(password@, hash@),
{
    password_auth::verify_password(password, hash).is_ok()
}

/// `password_auth::generate_hash`: a PHC hash of the password with a fresh
/// random salt, so two calls give different hashes; each of them verifies
/// with the password (the crate's own test checks this). Argon2 rejects
/// passwords of `u32::MAX` bytes or more, where the crate panics.
#[verifier::external_body]
fn generate_hash(password: &str) -> (res: String)
    requires
        password.spec_bytes().len() < 0xffff_ffff,
    ensures
        password_verifies(password@, res@),
{
    password_auth::generate_hash(password)
}

/// Decides a login from the user's row (id and stored hash), if the name
/// was found: the id when the password verifies, otherwise the reason.
pub fn login(user: Option<(i32, String)>, password: &str) -> (res: Result<i32, String>)
    ensures
        match user {
            None => res matches Err(e) && e@ == "user does not exist"@,
            Some((id, hash)) => if password_verifies(password@, hash@) {
                res == Ok::<i32, String>(id)
            } else {
                res matches Err(e) && e@ == "invalid password"@
            },
        },
{
    match user {
        None => Err("user does not exist".to_owned()),
        Some((id, hash)) => {
            if verify_password(password, hash.as_str()) {
                Ok(id)
            } else {
                Err("invalid password".to_owned())
            }
        },
    }
}

/// Decides a registration: refused when the name is taken, otherwise the
/// hash to store, which verifies with the password.
pub fn register(name_taken: bool, password: &str) -> (res: Result<String, ()>)
    requires
        password.spec_bytes().len() < 0xffff_ffff,
    ensures
        name_taken ==> res is Err,
        !name_taken ==> (res matches Ok(hash) && password_verifies(password@, hash@)),
{
    if name_taken {
        return Err(());
    }
    Ok(generate_hash(password))
}

} // verus!
