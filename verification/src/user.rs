//! User accounts.

use vstd::prelude::*;
use vstd::string::*;

verus! {

/// An account.
#[derive(Debug)]
pub struct User {
    pub username: String,
    pub email: String,
    pub active: bool,
    pub sign_in_count: u64,
}

/// A new account for `username`: active, with two sign-ins on record and
/// the address that the name has at `example.com`.
pub fn build_user(username: String) -> (user: User)
    ensures
        user.username@ == username@,
        user.email@ == username@ + "@example.com"@,
        user.active,
        user.sign_in_count == 2,
{
    let mut email = username.clone();
    email.append("@example.com");
    User { email, username, active: true, sign_in_count: 2 }
}

} // verus!
