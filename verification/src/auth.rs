//! The one password that guards editing.

use vstd::prelude::*;

verus! {

/// What checking a login attempt against the stored password found.
#[derive(Debug, Clone, Copy, PartialEq, Eq, Structural)]
pub enum PasswordCheck {
    /// No password has been set yet
    Unclaimed,
    Wrong,
    Correct,
}

/// What the password hasher made of a login attempt against the stored hash.
#[derive(Debug, Clone, Copy, PartialEq, Eq, Structural)]
pub enum Verification {
    /// The attempt is the stored password
    Matched,
    /// The attempt is some other password
    Mismatched,
    /// The stored hash could not be read, or the hasher failed for another reason
    Failed,
}

/// What a login attempt comes to: `stored` is None when no password has been stored, else what
/// verifying the attempt against the stored hash gave. None when that verification failed, an
/// error the caller passes on.
pub open spec fn password_outcome(stored: Option<Verification>) -> Option<PasswordCheck> {
    match stored {
        None => Some(PasswordCheck::Unclaimed),
        Some(Verification::Matched) => Some(PasswordCheck::Correct),
        Some(Verification::Mismatched) => Some(PasswordCheck::Wrong),
        Some(Verification::Failed) => None,
    }
}

/// Check a login attempt against the stored password, given whether one is stored and, if so,
/// what the hasher said of the attempt.
pub fn password_check(stored: Option<Verification>) -> (r: Option<PasswordCheck>)
    ensures
        r == password_outcome(stored),
{
    match stored {
        None => Some(PasswordCheck::Unclaimed),
        Some(Verification::Matched) => Some(PasswordCheck::Correct),
        Some(Verification::Mismatched) => Some(PasswordCheck::Wrong),
        Some(Verification::Failed) => None,
    }
}

} // verus!
