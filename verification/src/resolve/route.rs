//! Which single source answers a logon.
//!
//! One source, decided on the identifier before any credential exists; never by
//! trying sources in turn with the credential.

use crate::identity::{Fields, Kind, Protocol};
use crate::registry::Registry;
use crate::resolve::{
    candidates, name_is_usable, Candidate, CandidateModel, Reply, ReplyModel, Walk, WalkModel,
    Walked, WalkedModel,
};
use crate::source::{Facts, FactsModel};
use crate::text;
use vstd::prelude::*;

verus! {

/// Where a logon conversation should be sent.
pub enum Route {
    /// This source claims the identifier, or is the only source configured, in
    /// which case there is nothing to decide and nothing is asked.
    Owner(Facts),
    /// No configured source claims the identifier. The conversation still goes
    /// to this source, the first in the search order, because an unknown
    /// principal must not be distinguishable from a bad credential. A source
    /// runs its own blinded conversation for a name it does not hold and denies
    /// at the end. Exactly one source sees the credential either way.
    Blind(Facts),
    /// The search order could not be walked to a decision: a configured source
    /// is absent, or one that had to answer could not. Falling through is
    /// forbidden: a name that resolves differently while something is broken has
    /// its authority chosen by whoever broke it.
    Unavailable,
    /// Nothing is registered at all, and nothing is expected.
    NoSources,
}

/// Where a logon conversation should be sent, mathematically.
pub enum RouteModel {
    Owner(FactsModel),
    Blind(FactsModel),
    Unavailable,
    NoSources,
}

impl View for Route {
    type V = RouteModel;

    open spec fn view(&self) -> RouteModel {
        match *self {
            Route::Owner(source) => RouteModel::Owner(source@),
            Route::Blind(source) => RouteModel::Blind(source@),
            Route::Unavailable => RouteModel::Unavailable,
            Route::NoSources => RouteModel::NoSources,
        }
    }
}

/// A routing decision that is waiting for a source to say whether it holds the
/// identifier.
pub struct Routing {
    walk: Walk,
    name: String,
    first: Facts,
}

/// A routing decision under way, mathematically.
pub struct RoutingModel {
    pub walk: WalkModel,
    pub name: Seq<char>,
}

impl View for Routing {
    type V = RoutingModel;

    closed spec fn view(&self) -> RoutingModel {
        RoutingModel { walk: self.walk@, name: self.name@ }
    }
}

/// Where a routing decision stands.
pub enum RoutingStep {
    Ask(Routing),
    Done(Route),
}

/// Where a routing decision stands, mathematically.
pub enum RoutingStepModel {
    Ask(RoutingModel),
    Done(RouteModel),
}

impl View for RoutingStep {
    type V = RoutingStepModel;

    open spec fn view(&self) -> RoutingStepModel {
        match *self {
            RoutingStep::Ask(routing) => RoutingStepModel::Ask(routing@),
            RoutingStep::Done(route) => RoutingStepModel::Done(route@),
        }
    }
}

/// The blind path: the first source there is, if there is one.
pub open spec fn blind(candidates: Seq<CandidateModel>) -> RouteModel {
    if candidates.len() == 0 {
        RouteModel::NoSources
    } else {
        match candidates[0] {
            CandidateModel::Live(source) => RouteModel::Blind(source),
            CandidateModel::Absent(_) => RouteModel::Unavailable,
        }
    }
}

/// Where a routing decision stands, given where its walk does.
pub open spec fn walked_to(
    candidates: Seq<CandidateModel>,
    name: Seq<char>,
    stands: WalkedModel,
) -> RoutingStepModel {
    match stands {
        WalkedModel::Ask(walk) => RoutingStepModel::Ask(RoutingModel { walk, name }),
        WalkedModel::Exhausted => RoutingStepModel::Done(blind(candidates)),
        WalkedModel::Blocked => RoutingStepModel::Done(RouteModel::Unavailable),
    }
}

/// Whether a source is missing from an order.
pub open spec fn has_gap(candidates: Seq<CandidateModel>) -> bool {
    exists|i: int| 0 <= i < candidates.len() && #[trigger] candidates[i] is Absent
}

/// The name an identifier is, where it is one a source could hold.
pub open spec fn held_name(identifier: Seq<u8>, protocol: Protocol) -> Option<Seq<char>> {
    if vstd::utf8::valid_utf8(identifier) && crate::resolve::usable_name(
        vstd::utf8::decode_utf8(identifier),
        protocol.max_name_bytes,
    ) {
        Some(vstd::utf8::decode_utf8(identifier))
    } else {
        None
    }
}

/// Where a routing decision begins, given the search order.
///
/// One configured source is the degenerate case with no routing question: every
/// conversation goes there and nothing is asked, which is also what keeps a
/// source that cannot answer "do you own this name?" usable alone.
///
/// A name no source could hold still gets the blind conversation rather than a
/// distinct refusal, for the same reason as an unknown one.
pub open spec fn routing_begun(
    candidates: Seq<CandidateModel>,
    name: Option<Seq<char>>,
) -> RoutingStepModel {
    if candidates.len() == 1 {
        RoutingStepModel::Done(
            match candidates[0] {
                CandidateModel::Live(source) => RouteModel::Owner(source),
                CandidateModel::Absent(_) => RouteModel::Unavailable,
            },
        )
    } else {
        match name {
            Some(name) => walked_to(
                candidates,
                name,
                crate::resolve::walked(candidates, 0),
            ),
            None => RoutingStepModel::Done(
                if has_gap(candidates) {
                    RouteModel::Unavailable
                } else {
                    blind(candidates)
                },
            ),
        }
    }
}

/// Where a routing decision stands once the source it waits for has replied.
///
/// The same rules against falling through as a lookup's, because they guard the
/// same property: which principal a name means must not depend on what happens
/// to be broken.
pub open spec fn routed(routing: RoutingModel, reply: ReplyModel) -> RoutingStepModel {
    let walk = routing.walk;
    match reply {
        ReplyModel::Found(_) => RoutingStepModel::Done(
            match walk.candidates[walk.at] {
                CandidateModel::Live(source) => RouteModel::Owner(source),
                CandidateModel::Absent(_) => RouteModel::Unavailable,
            },
        ),
        ReplyModel::NotFound => walked_to(
            walk.candidates,
            routing.name,
            crate::resolve::walked(walk.candidates, walk.at + 1),
        ),
        ReplyModel::Refused => RoutingStepModel::Done(RouteModel::Unavailable),
        ReplyModel::Unavailable => RoutingStepModel::Done(RouteModel::Unavailable),
    }
}

impl Routing {
    #[verifier::type_invariant]
    spec fn begun(self) -> bool {
        self.walk@.candidates.len() > 0 && self.walk@.candidates[0] == CandidateModel::Live(
            self.first@,
        )
    }

    /// Whom to ask.
    pub fn source(&self) -> (source: &Facts)
        ensures
            0 <= self@.walk.at < self@.walk.candidates.len(),
            self@.walk.candidates[self@.walk.at] == CandidateModel::Live(source@),
    {
        self.walk.source()
    }

    /// What to ask about. The question carries no credential.
    pub fn name(&self) -> (name: &str)
        ensures
            name@ == self@.name,
    {
        self.name.as_str()
    }

    /// What kind of object to ask for.
    pub fn kind(&self) -> (kind: Kind)
        ensures
            kind is Principal,
    {
        Kind::Principal
    }

    /// What to ask for: nothing but whether there is such a principal.
    pub fn fields(&self) -> (fields: Fields)
        ensures
            fields.bits == 0,
    {
        Fields::empty()
    }

    /// Go on with what the source replied.
    pub fn hear(self, reply: Reply) -> (step: RoutingStep)
        ensures
            step@ == routed(self@, reply@),
    {
        proof {
            use_type_invariant(&self);
        }
        match reply {
            Reply::Found(_) => {
                let source = self.walk.source().clone();
                RoutingStep::Done(Route::Owner(source))
            },
            Reply::NotFound => match self.walk.passed() {
                Walked::Ask(walk) => RoutingStep::Ask(
                    Routing { walk, name: self.name, first: self.first },
                ),
                Walked::Exhausted => RoutingStep::Done(Route::Blind(self.first)),
                Walked::Blocked => RoutingStep::Done(Route::Unavailable),
            },
            // A source that had to answer and could not, including one that
            // declared it answers no queries and can never say whom it holds.
            Reply::Refused => RoutingStep::Done(Route::Unavailable),
            Reply::Unavailable => RoutingStep::Done(Route::Unavailable),
        }
    }
}

/// The first source of an order with nobody missing, or why there is none.
fn unasked(candidates: &Vec<Candidate>) -> (route: Route)
    ensures
        route@ == (if has_gap(crate::resolve::candidate_models(candidates@)) {
            RouteModel::Unavailable
        } else {
            blind(crate::resolve::candidate_models(candidates@))
        }),
{
    let ghost all = crate::resolve::candidate_models(candidates@);
    let mut i: usize = 0;
    while i < candidates.len()
        invariant
            i <= candidates@.len(),
            all == crate::resolve::candidate_models(candidates@),
            forall|j: int| 0 <= j < i ==> #[trigger] all[j] is Live,
        decreases candidates@.len() - i,
    {
        assert(all[i as int] == candidates@[i as int]@);
        if let Candidate::Absent(_) = &candidates[i] {
            assert(all[i as int] is Absent);
            return Route::Unavailable;
        }
        i += 1;
    }
    if candidates.len() == 0 {
        return Route::NoSources;
    }
    assert(all[0] == candidates@[0]@);
    match &candidates[0] {
        Candidate::Live(source) => Route::Blind(source.clone()),
        Candidate::Absent(_) => Route::Unavailable,
    }
}

/// Decide which single source answers a logon for an identifier.
///
/// Well-known names are deliberately not consulted: nobody logs on as
/// `Everyone`, and a source cannot own a well-known SID, so such a name takes
/// the blind path and fails authentication like any other name nobody holds.
pub fn route(registry: &Registry, identifier: &[u8], protocol: Protocol) -> (step: RoutingStep)
    ensures
        step@ == routing_begun(
            crate::resolve::candidates_of(registry@.search_order()),
            held_name(identifier@, protocol),
        ),
{
    let slots = registry.slots();
    let order = candidates(&slots);
    let ghost all = crate::resolve::candidate_models(order@);
    if order.len() == 1 {
        assert(all[0] == order@[0]@);
        return match &order[0] {
            Candidate::Live(source) => RoutingStep::Done(Route::Owner(source.clone())),
            Candidate::Absent(_) => RoutingStep::Done(Route::Unavailable),
        };
    }
    let name = match text::utf8(identifier) {
        Some(name) => name,
        None => return RoutingStep::Done(unasked(&order)),
    };
    if !name_is_usable(name, protocol) {
        return RoutingStep::Done(unasked(&order));
    }
    if order.len() == 0 {
        return RoutingStep::Done(Route::NoSources);
    }
    assert(all[0] == order@[0]@);
    let first = match &order[0] {
        Candidate::Live(source) => source.clone(),
        Candidate::Absent(_) => return RoutingStep::Done(Route::Unavailable),
    };
    match Walk::from(order, 0) {
        Walked::Ask(walk) => RoutingStep::Ask(Routing { walk, name: name.to_owned(), first }),
        Walked::Exhausted => RoutingStep::Done(Route::NoSources),
        Walked::Blocked => RoutingStep::Done(Route::Unavailable),
    }
}

/// What a routing decision comes to when each source that is asked gives the
/// reply told for its place.
pub open spec fn decided(
    step: RoutingStepModel,
    replies: spec_fn(int) -> ReplyModel,
) -> RoutingStepModel
    decreases
            match step {
                RoutingStepModel::Ask(routing) => 1 + routing.walk.candidates.len()
                    - routing.walk.at,
                RoutingStepModel::Done(_) => 0,
            },
{
    match step {
        RoutingStepModel::Ask(routing) => if 0 <= routing.walk.at < routing.walk.candidates.len() {
            let after = routed(routing, replies(routing.walk.at));
            match after {
                RoutingStepModel::Ask(next) => if next.walk.candidates == routing.walk.candidates
                    && routing.walk.at < next.walk.at < routing.walk.candidates.len() {
                    decided(after, replies)
                } else {
                    after
                },
                RoutingStepModel::Done(_) => after,
            }
        } else {
            step
        },
        RoutingStepModel::Done(_) => step,
    }
}

/// No routing falls through: the first source that does not say it holds no such
/// principal decides, whoever stands behind it.
pub proof fn law_no_routing_falls_through(
    candidates: Seq<CandidateModel>,
    from: int,
    name: Seq<char>,
    replies: spec_fn(int) -> ReplyModel,
    decides: int,
)
    requires
        0 <= from <= decides < candidates.len(),
        forall|i: int|
            from <= i < decides ==> crate::resolve::passes(
                #[trigger] candidates[i],
                replies(i),
            ),
        !crate::resolve::passes(candidates[decides], replies(decides)),
    ensures
        decided(
            walked_to(candidates, name, crate::resolve::walked(candidates, from)),
            replies,
        ) == RoutingStepModel::Done(
            match candidates[decides] {
                CandidateModel::Live(source) => if replies(decides) is Found {
                    RouteModel::Owner(source)
                } else {
                    RouteModel::Unavailable
                },
                CandidateModel::Absent(_) => RouteModel::Unavailable,
            },
        ),
    decreases decides - from,
{
    if from < decides {
        assert(crate::resolve::passes(candidates[from], replies(from)));
        law_no_routing_falls_through(candidates, from + 1, name, replies, decides);
        if from + 1 < decides {
            assert(crate::resolve::passes(candidates[from + 1], replies(from + 1)));
        }
    }
}

/// Where a walk that everybody passes ends.
proof fn lemma_everybody_passes(
    candidates: Seq<CandidateModel>,
    from: int,
    name: Seq<char>,
    replies: spec_fn(int) -> ReplyModel,
)
    requires
        0 <= from <= candidates.len(),
        forall|i: int|
            from <= i < candidates.len() ==> crate::resolve::passes(
                #[trigger] candidates[i],
                replies(i),
            ),
    ensures
        decided(
            walked_to(candidates, name, crate::resolve::walked(candidates, from)),
            replies,
        ) == RoutingStepModel::Done(blind(candidates)),
    decreases candidates.len() - from,
{
    if from < candidates.len() {
        assert(crate::resolve::passes(candidates[from], replies(from)));
        lemma_everybody_passes(candidates, from + 1, name, replies);
        if from + 1 < candidates.len() {
            assert(crate::resolve::passes(candidates[from + 1], replies(from + 1)));
        }
    }
}

/// A name nobody holds is routed as one nobody could hold is: to the same
/// source, so neither can be told from the other, nor from a bad credential.
pub proof fn law_unknown_names_are_routed_alike(
    candidates: Seq<CandidateModel>,
    name: Seq<char>,
    replies: spec_fn(int) -> ReplyModel,
)
    requires
        forall|i: int|
            0 <= i < candidates.len() ==> crate::resolve::passes(
                #[trigger] candidates[i],
                replies(i),
            ),
    ensures
        decided(routing_begun(candidates, Some(name)), replies) == routing_begun(candidates, None),
{
    if candidates.len() != 1 {
        lemma_everybody_passes(candidates, 0, name, replies);
    }
}

/// Which name an identifier is: the text its bytes spell, where they spell one that can
/// be a name, and none otherwise.
pub proof fn law_which_name_an_identifier_is(identifier: Seq<u8>, protocol: Protocol, name: Seq<char>)
    ensures
        held_name(identifier, protocol) == Some(name) <==> {
            &&& vstd::utf8::valid_utf8(identifier)
            &&& name == vstd::utf8::decode_utf8(identifier)
            &&& crate::resolve::usable_name(name, protocol.max_name_bytes)
        },
{
}

/// Where a logon is sent before anybody is asked. A source that is alone gets every
/// logon and is asked nothing. With several, a name is asked of the first of them, and
/// what cannot be a name goes to the first blindly; a source that is not here, and
/// would have to be first, or among those nothing can be asked of, makes an outage; and
/// where there is nobody there is nobody.
pub proof fn law_where_a_logon_is_sent_unasked(
    candidates: Seq<CandidateModel>,
    name: Seq<char>,
    source: FactsModel,
)
    ensures
        candidates.len() == 0 ==> routing_begun(candidates, Some(name)) == RoutingStepModel::Done(
            RouteModel::NoSources,
        ) && routing_begun(candidates, None) == RoutingStepModel::Done(RouteModel::NoSources),
        candidates.len() == 1 && candidates[0] == CandidateModel::Live(source) ==> routing_begun(
            candidates,
            Some(name),
        ) == RoutingStepModel::Done(RouteModel::Owner(source)) && routing_begun(candidates, None)
            == RoutingStepModel::Done(RouteModel::Owner(source)),
        candidates.len() > 0 && candidates[0] is Absent ==> routing_begun(candidates, Some(name))
            == RoutingStepModel::Done(RouteModel::Unavailable),
        (exists|i: int| 0 <= i < candidates.len() && (#[trigger] candidates[i]) is Absent)
            ==> routing_begun(candidates, None) == RoutingStepModel::Done(RouteModel::Unavailable),
        candidates.len() > 1 && candidates[0] is Live ==> routing_begun(candidates, Some(name))
            == RoutingStepModel::Ask(
            RoutingModel { walk: WalkModel { candidates, at: 0 }, name },
        ),
        candidates.len() > 1 && candidates[0] == CandidateModel::Live(source) && (forall|i: int|
            0 <= i < candidates.len() ==> (#[trigger] candidates[i]) is Live) ==> routing_begun(
            candidates,
            None,
        ) == RoutingStepModel::Done(RouteModel::Blind(source)),
{
    if candidates.len() == 1 && exists|i: int|
        0 <= i < candidates.len() && (#[trigger] candidates[i]) is Absent {
        let i = choose|i: int| 0 <= i < candidates.len() && (#[trigger] candidates[i]) is Absent;
        assert(i == 0);
    }
}

/// What a reply makes of a routing. The source that holds the name is the one. Where it
/// does not, the next is asked under the same name if it is here, and makes an outage
/// if it is not; after the last, the logon goes to the first of all, blindly. One that
/// refuses or does not answer makes an outage.
pub proof fn law_what_a_reply_makes_of_a_routing(
    routing: RoutingModel,
    reply: ReplyModel,
    source: FactsModel,
    first: FactsModel,
)
    requires
        0 <= routing.walk.at < routing.walk.candidates.len(),
        routing.walk.candidates[routing.walk.at] == CandidateModel::Live(source),
        routing.walk.candidates[0] == CandidateModel::Live(first),
    ensures
        ({
            let walk = routing.walk;
            let after = routed(routing, reply);
            match reply {
                ReplyModel::Found(_) => after == RoutingStepModel::Done(RouteModel::Owner(source)),
                ReplyModel::NotFound => if walk.at + 1 == walk.candidates.len() {
                    after == RoutingStepModel::Done(RouteModel::Blind(first))
                } else if walk.candidates[walk.at + 1] is Live {
                    after == RoutingStepModel::Ask(
                        RoutingModel {
                            walk: WalkModel { candidates: walk.candidates, at: walk.at + 1 },
                            name: routing.name,
                        },
                    )
                } else {
                    after == RoutingStepModel::Done(RouteModel::Unavailable)
                },
                ReplyModel::Refused => after == RoutingStepModel::Done(RouteModel::Unavailable),
                ReplyModel::Unavailable => after == RoutingStepModel::Done(RouteModel::Unavailable),
            }
        }),
{
}

/// A route is where it goes: to its owner, blindly, or nowhere, and why.
pub proof fn law_a_route_is_where_it_goes(route: Route)
    ensures
        match route {
            Route::Owner(source) => route@ == RouteModel::Owner(source@),
            Route::Blind(source) => route@ == RouteModel::Blind(source@),
            Route::Unavailable => route@ is Unavailable,
            Route::NoSources => route@ is NoSources,
        },
{
}

} // verus!
