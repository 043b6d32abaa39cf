//! The saved mailbox credentials.
use vstd::prelude::*;

verus! {

/// The account name and password that a session logs in with.
pub struct Config {
    pub username: String,
    pub password: String,
}

} // verus!
