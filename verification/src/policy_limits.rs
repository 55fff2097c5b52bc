//! Administrative readback of the current policy and limits. Neither the request
//! nor the response may select another tenant.
use vstd::prelude::*;

use crate::digest::{Digest, Name};
use crate::errors;
use crate::errors::{conflict, error, Error, ErrorCode};
use crate::identities;
use crate::identities::read_identity;

verus! {

/// Who reads a tenant's policy and limits: what refuses its access, the name that it
/// asks for and the caller's administration, each if anything.
#[derive(Clone, Copy, Debug)]
pub struct LimitsReader {
    pub tenant: Name,
    pub access_refusal: Option<Error>,
    pub name_refusal: Option<Error>,
    pub admin_refusal: Option<Error>,
}

/// The state whose policy and limits are read.
#[derive(Clone, Copy, Debug, PartialEq, Eq, Structural)]
pub struct PolicyLimitsSnapshot {
    pub tenant: Name,
    pub incarnation: u128,
    pub revision: u64,
    pub policy_epoch: u64,
    pub schema_epoch: u64,
    pub policy: Digest,
    pub limits: Digest,
}

pub open spec fn reader_admitted(reader: LimitsReader, tenant: Name, incarnation: Seq<char>) -> Result<
    u128,
    Error,
> {
    if reader.access_refusal is Some {
        Err(reader.access_refusal->0)
    } else if reader.name_refusal is Some {
        Err(reader.name_refusal->0)
    } else if tenant != reader.tenant {
        Err(errors::refusal(ErrorCode::Forbidden, "tenant access denied"))
    } else {
        match identities::canonical_identity(incarnation) {
            None => Err(
                errors::refusal(
                    ErrorCode::InvalidArgument,
                    "policy/limits read requires a canonical nonzero incarnation",
                ),
            ),
            Some(id) => if reader.admin_refusal is Some {
                Err(reader.admin_refusal->0)
            } else {
                Ok(id)
            },
        }
    }
}

/// The incarnation that an admitted request expects.
pub fn admit_reader(reader: &LimitsReader, tenant: Name, incarnation: &str) -> (r: Result<u128, Error>)
    ensures
        r == reader_admitted(*reader, tenant, incarnation@),
{
    match reader.access_refusal {
        Some(refusal) => return Err(refusal),
        None => {},
    }
    match reader.name_refusal {
        Some(refusal) => return Err(refusal),
        None => {},
    }
    if tenant != reader.tenant {
        return Err(error(ErrorCode::Forbidden, "tenant access denied"));
    }
    let id: u128 = match read_identity(incarnation) {
        None => return Err(
            error(
                ErrorCode::InvalidArgument,
                "policy/limits read requires a canonical nonzero incarnation",
            ),
        ),
        Some(id) => id,
    };
    match reader.admin_refusal {
        Some(refusal) => Err(refusal),
        None => Ok(id),
    }
}

pub open spec fn snapshot_released(
    current: PolicyLimitsSnapshot,
    tenant: Name,
    incarnation: u128,
    release_refusal: Option<Error>,
    encoded_bytes: u64,
    max_bytes: u64,
) -> Result<PolicyLimitsSnapshot, Error> {
    if current.tenant != tenant || current.incarnation != incarnation {
        Err(errors::refusal(ErrorCode::Conflict, "policy/limits database identity differs"))
    } else if release_refusal is Some {
        Err(release_refusal->0)
    } else if encoded_bytes > max_bytes {
        Err(
            errors::refusal(
                ErrorCode::ResourceExhausted,
                "policy/limits readback exceeds byte budget",
            ),
        )
    } else {
        Ok(current)
    }
}

/// What is released of the current state, which takes so many bytes, if it is the
/// expected one.
pub fn release_snapshot(
    current: &PolicyLimitsSnapshot,
    tenant: Name,
    incarnation: u128,
    release_refusal: Option<Error>,
    encoded_bytes: u64,
    max_bytes: u64,
) -> (r: Result<PolicyLimitsSnapshot, Error>)
    ensures
        r == if current.tenant != tenant || current.incarnation != incarnation {
            Err(
                errors::refusal(ErrorCode::Conflict, "policy/limits database identity differs"),
            )
        } else if release_refusal is Some {
            Err(release_refusal->0)
        } else if encoded_bytes > max_bytes {
            Err(
                errors::refusal(
                    ErrorCode::ResourceExhausted,
                    "policy/limits readback exceeds byte budget",
                ),
            )
        } else {
            Ok(*current)
        },
        r == snapshot_released(
            *current,
            tenant,
            incarnation,
            release_refusal,
            encoded_bytes,
            max_bytes,
        ),
{
    if current.tenant != tenant || current.incarnation != incarnation {
        return Err(conflict("policy/limits database identity differs"));
    }
    match release_refusal {
        Some(refusal) => return Err(refusal),
        None => {},
    }
    if encoded_bytes > max_bytes {
        return Err(
            error(ErrorCode::ResourceExhausted, "policy/limits readback exceeds byte budget"),
        );
    }
    Ok(*current)
}

} // verus!
