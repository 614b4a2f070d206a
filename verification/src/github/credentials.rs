//! How long the platform's credential store keeps a secret.

use vstd::prelude::*;

verus! {

/// How long a credential store keeps what it is given.
#[derive(Debug, Clone, Copy, PartialEq, Eq)]
pub enum Persistence {
    /// Only as long as the handle to the credential.
    EntryOnly,
    /// Only as long as the process.
    ProcessOnly,
    /// Until the user logs out.
    UntilLogout,
    /// Until the machine restarts.
    UntilReboot,
    /// Until it is deleted.
    UntilDelete,
    /// Nothing is known of it.
    Unknown,
}

/// The caveat that goes with a store that does not keep secrets.
pub open spec fn caveat(persistence: Persistence) -> Option<Seq<char>> {
    match persistence {
        Persistence::UntilReboot => Some(
            "this system's credential store keeps secrets in kernel memory, so the token will be gone after a reboot"@,
        ),
        Persistence::UntilLogout => Some(
            "this system's credential store is tied to your login session, so the token will be gone once you log out"@,
        ),
        Persistence::ProcessOnly | Persistence::EntryOnly => Some(
            "this system's credential store does not persist, so the token will be gone when this command exits"@,
        ),
        Persistence::UntilDelete | Persistence::Unknown => None,
    }
}

/// Why a token stored here might not still be there next time, if that is a risk.
///
/// A store that keeps secrets until they are deleted needs no caveat, and one of which nothing is
/// known is no reason to invent one.
pub fn transience_warning(persistence: Persistence) -> (r: Option<&'static str>)
    ensures
        crate::text::str_of(r) == caveat(persistence),
{
    match persistence {
        Persistence::UntilReboot => Some(
            "this system's credential store keeps secrets in kernel memory, so the token will be gone after a reboot",
        ),
        Persistence::UntilLogout => Some(
            "this system's credential store is tied to your login session, so the token will be gone once you log out",
        ),
        Persistence::ProcessOnly | Persistence::EntryOnly => Some(
            "this system's credential store does not persist, so the token will be gone when this command exits",
        ),
        Persistence::UntilDelete | Persistence::Unknown => None,
    }
}

} // verus!
