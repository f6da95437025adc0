//! What a principal source says.
//!
//! The messages themselves belong to the protocol library. These are the parts
//! of them that decisions are made from, as plain values. A SID is bytes here
//! and nothing more: a source's word is bytes until proven otherwise.

use crate::claim::Claim;
use crate::logon::{Denial, LogonTypes, Profile};
use vstd::prelude::*;

verus! {

/// What a source declares it answers.
#[derive(Debug, Clone, Copy, PartialEq, Eq, Structural)]
pub struct Capabilities {
    pub queries: bool,
    pub enumerates: bool,
    pub members: bool,
    pub pushes_changes: bool,
    pub changes_credentials: bool,
}

/// A membership as a source sends it.
#[derive(Debug, PartialEq, Eq)]
pub struct Membership {
    pub sid: Vec<u8>,
    /// What the source counts the group as, or 0 if it does not number it.
    pub unix_id: u32,
}

/// Who a source says somebody is.
#[derive(Debug, PartialEq, Eq)]
pub struct Assertion {
    pub user_sid: Vec<u8>,
    /// What the source counts the principal as, or 0 if it does not number it.
    pub unix_id: u32,
    pub groups: Vec<Membership>,
    /// Empty where the source did not say.
    pub primary_group: Vec<u8>,
    pub claims: Vec<Claim>,
    pub profile: Profile,
    pub permitted_logon_types: LogonTypes,
}

/// A source's own denial.
#[derive(Debug, PartialEq, Eq)]
pub struct Refusal {
    pub denial: Denial,
    pub reason: String,
}

impl View for Refusal {
    type V = (Denial, Seq<char>);

    open spec fn view(&self) -> (Denial, Seq<char>) {
        (self.denial, self.reason@)
    }
}

/// A refusal is its code and its reason.
pub proof fn law_a_refusal_is_its_parts(refusal: Refusal)
    ensures
        refusal@.0 == refusal.denial,
        refusal@.1 == refusal.reason@,
{
}

} // verus!
