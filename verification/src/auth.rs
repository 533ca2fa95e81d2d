use vstd::prelude::*;

use crate::errors::UploadError;

verus! {

/// Capability tier of a requester. An elevated role may act on records
/// owned by another identity (moderation).
#[derive(Debug, Clone, Copy, PartialEq, Eq, Structural)]
pub enum Role {
    Standard,
    Elevated,
}

/// A resolved identity, as handed in by the session edge.
#[derive(Debug, Clone, Copy, PartialEq, Eq, Structural)]
pub struct Claim {
    pub uid: u32,
    pub role: Role,
}

/// A requester may mutate or read records of `owner` exactly when it is
/// the owner itself or holds an elevated role.
pub open spec fn may_act_on(requester: u32, role: Role, owner: u32) -> bool {
    requester == owner || role == Role::Elevated
}

/// Authorization gate: every mutation and cross-owner read passes here.
pub fn authorize(requester: u32, role: Role, owner: u32) -> (r: Result<(), UploadError>)
    ensures
        r == (if may_act_on(requester, role, owner) {
            Ok::<(), UploadError>(())
        } else {
            Err::<(), UploadError>(UploadError::Unauthorized)
        }),
{
    if requester == owner || role == Role::Elevated {
        Ok(())
    } else {
        Err(UploadError::Unauthorized)
    }
}

/// The session edge resolves a credential to `Some(claim)`; an absent or
/// unresolvable credential is rejected before any work happens.
pub fn require_login(claim: Option<Claim>) -> (r: Result<Claim, UploadError>)
    ensures
        r == (match claim {
            Some(c) => Ok::<Claim, UploadError>(c),
            None => Err::<Claim, UploadError>(UploadError::Unauthenticated),
        }),
{
    match claim {
        Some(c) => Ok(c),
        None => Err(UploadError::Unauthenticated),
    }
}

} // verus!
