//! Changing the caller's own credential, relayed to the owning source.
//!
//! # The principal is the peer
//!
//! Nothing in a change request names anybody. The credential that changes is the
//! one belonging to the user of the connected peer's token. So a caller can only
//! ever ask about themselves, and reaching the socket, which every authenticated
//! principal can, is not a way to try somebody else's password.
//!
//! Holding a token for the principal is not taken as proof enough: the source
//! asks for the current credential inside the conversation, and it is only
//! relayed here.
//!
//! # Nothing is minted
//!
//! The one successful end carries no token and no session. The relay is shared
//! with logons, and [`crate::relay::Purpose::Change`] is what stops a source
//! ending this conversation with an assertion a token would be minted from.

use crate::conversation::{deny, out_of_reach};
use crate::logon::Denial;
use crate::psi::Refusal;
use crate::registry::{Registry, RegistryModel};
use crate::sid::{Sid, SidModel};
use crate::source::{Facts, FactsModel, SourceModel};
use vstd::prelude::*;

verus! {

/// Which source answers for a principal's credential.
pub enum Route {
    /// The source whose domain holds the principal.
    Owner(Facts),
    /// No registered source holds it, and none is missing that might.
    Nobody,
    /// No registered source holds it, but a configured one is not here, and
    /// could be the one that does.
    Unavailable,
}

/// Which source answers for a principal's credential, mathematically.
pub enum RouteModel {
    Owner(FactsModel),
    Nobody,
    Unavailable,
}

impl View for Route {
    type V = RouteModel;

    open spec fn view(&self) -> RouteModel {
        match *self {
            Route::Owner(source) => RouteModel::Owner(source@),
            Route::Nobody => RouteModel::Nobody,
            Route::Unavailable => RouteModel::Unavailable,
        }
    }
}

/// Which source answers, given who owns the principal.
pub open spec fn routed(registry: RegistryModel, owner: Option<SourceModel>) -> RouteModel {
    match owner {
        Some(source) => RouteModel::Owner(source.facts),
        None => if registry.whole() {
            RouteModel::Nobody
        } else {
            RouteModel::Unavailable
        },
    }
}

/// Find the source that answers for a principal's credential.
///
/// A SID names its own domain, so the owner needs no search and no name: the one
/// registered source authoritative for the domain, or nobody.
///
/// An absent configured source makes "nobody" unsayable. Its domain is not known
/// while it is away, so a principal it holds would look ownerless, and telling
/// that principal their account has no credential to change would turn an outage
/// into a statement about their account.
pub fn route(registry: &Registry, principal: &Sid) -> (found: Route)
    ensures
        found@ == routed(
            registry@,
            crate::registry::first_owning(registry@.order(), principal@),
        ),
{
    match registry.owning(principal) {
        Some(source) => Route::Owner(source.facts().clone()),
        None => if registry.complete() {
            Route::Nobody
        } else {
            Route::Unavailable
        },
    }
}

/// The source a change is sent to, or what the caller is answered with.
///
/// A source is never sent a message it did not declare it answers. One that does
/// not change credentials still holds the principal, so that is a statement
/// about the account rather than an outage.
pub open spec fn sent_to(route: RouteModel) -> Result<FactsModel, (Denial, Seq<char>)> {
    match route {
        RouteModel::Owner(source) => if source.capabilities.changes_credentials {
            Ok(source)
        } else {
            Err(
                (
                    Denial::AccountRestricted,
                    "The credential for this account cannot be changed here."@,
                ),
            )
        },
        RouteModel::Nobody => Err(
            (
                Denial::AccountRestricted,
                "This account has no credential that can be changed here."@,
            ),
        ),
        RouteModel::Unavailable => Err(
            (Denial::AuthorityUnavailable, "The authority could not be reached."@),
        ),
    }
}

/// Find the source a change of the peer's own credential is sent to, or what the
/// caller is answered with.
pub fn begin(registry: &Registry, peer: &Sid) -> (source: Result<Facts, Refusal>)
    ensures
        sent_to(routed(registry@, crate::registry::first_owning(registry@.order(), peer@))) == (
        match source {
            Ok(found) => Ok::<FactsModel, (Denial, Seq<char>)>(found@),
            Err(refusal) => Err::<FactsModel, (Denial, Seq<char>)>(refusal@),
        }),
{
    match route(registry, peer) {
        Route::Owner(source) => {
            if !source.capabilities.changes_credentials {
                return Err(
                    deny(
                        Denial::AccountRestricted,
                        "The credential for this account cannot be changed here.",
                    ),
                );
            }
            Ok(source)
        },
        Route::Nobody => Err(
            deny(
                Denial::AccountRestricted,
                "This account has no credential that can be changed here.",
            ),
        ),
        Route::Unavailable => Err(out_of_reach()),
    }
}

/// An outage is never turned into a statement about an account: while a
/// configured source is missing, a principal nobody here holds is told that the
/// authority could not be reached.
pub proof fn law_an_outage_says_nothing_of_the_account(registry: RegistryModel, peer: SidModel)
    requires
        !registry.whole(),
        crate::registry::first_owning(registry.order(), peer) is None,
    ensures
        sent_to(routed(registry, crate::registry::first_owning(registry.order(), peer))) == Err::<
            FactsModel,
            (Denial, Seq<char>),
        >((Denial::AuthorityUnavailable, "The authority could not be reached."@)),
{
}

/// Whom a change is sent to: the one source that is here and whose domain the peer is
/// in, if it said that it changes credentials. The account is restricted where it did
/// not, and where nobody holds it and everybody is here; and while somebody is missing
/// an account nobody holds is an outage.
pub proof fn law_whom_a_change_is_sent_to(
    registry: RegistryModel,
    peer: SidModel,
    source: SourceModel,
)
    requires
        registry.valid(),
    ensures
        ({
            let sent = sent_to(
                routed(registry, crate::registry::first_owning(registry.order(), peer)),
            );
            let owns = registry.sources.contains(source) && source.live && crate::domain::within(
                source.facts.domain,
                peer,
            );
            let nobody = forall|other: SourceModel| #[trigger]
                registry.sources.contains(other) && other.live ==> !crate::domain::within(
                    other.facts.domain,
                    peer,
                );
            &&& owns && source.facts.capabilities.changes_credentials ==> sent == Ok::<
                FactsModel,
                (Denial, Seq<char>),
            >(source.facts)
            &&& owns && !source.facts.capabilities.changes_credentials ==> (sent matches Err((d, _))
                && d is AccountRestricted)
            &&& nobody && registry.whole() ==> (sent matches Err((d, _)) && d is AccountRestricted)
            &&& nobody && !registry.whole() ==> (sent matches Err((d, _))
                && d is AuthorityUnavailable)
        }),
{
    crate::registry::law_ownership_needs_no_search(registry, peer, source);
    if let Some(found) = crate::registry::first_owning(registry.order(), peer) {
        crate::registry::law_ownership_needs_no_search(registry, peer, found);
        assert(registry.sources.contains(found));
    }
}

/// What a caller is told whose credential is not changed: that it cannot be, that there
/// is none, or that nobody could be reached.
pub proof fn law_what_a_caller_is_told(source: FactsModel)
    ensures
        !source.capabilities.changes_credentials ==> sent_to(RouteModel::Owner(source)) == Err::<
            FactsModel,
            (Denial, Seq<char>),
        >(
            (
                Denial::AccountRestricted,
                "The credential for this account cannot be changed here."@,
            ),
        ),
        sent_to(RouteModel::Nobody) == Err::<FactsModel, (Denial, Seq<char>)>(
            (
                Denial::AccountRestricted,
                "This account has no credential that can be changed here."@,
            ),
        ),
        sent_to(RouteModel::Unavailable) == Err::<FactsModel, (Denial, Seq<char>)>(
            (Denial::AuthorityUnavailable, "The authority could not be reached."@),
        ),
{
}

/// A route is where it goes: to its owner, or nowhere, and why.
pub proof fn law_a_route_is_where_it_goes(route: Route)
    ensures
        match route {
            Route::Owner(source) => route@ == RouteModel::Owner(source@),
            Route::Nobody => route@ is Nobody,
            Route::Unavailable => route@ is Unavailable,
        },
{
}

} // verus!
