//! Carrying messages between a client and a source until one of them finishes.
//!
//! The source decides what to ask for. What the relay adds is policing and
//! limits: it refuses to carry a question the client cannot put, or one whose
//! answers could not be told apart, and it bounds how many rounds there are and
//! how long they may take.
//!
//! A relay is moved on by what happened: the time is up or not, the source said
//! this, the client answered that. It says what is to happen next.

use crate::conversation::{deny, is_read_timeout, IoKind, MAX_ROUNDS};
use crate::logon::{CredentialRequest, CredentialType, Denial, Prompt};
use crate::psi::{Assertion, Refusal};
use crate::source::Stalled;
use vstd::prelude::*;

verus! {

/// Whether a client said it can render a kind of credential.
pub open spec fn renderable(supported: Seq<CredentialType>, prompt: Prompt) -> bool {
    supported.contains(prompt.credential_type)
}

/// The first kind of credential some prompts ask for that a client cannot
/// render.
pub open spec fn first_unrenderable(
    supported: Seq<CredentialType>,
    prompts: Seq<Prompt>,
) -> Option<CredentialType>
    decreases prompts.len(),
{
    if prompts.len() == 0 {
        None
    } else if !renderable(supported, prompts[0]) {
        Some(prompts[0].credential_type)
    } else {
        first_unrenderable(supported, prompts.drop_first())
    }
}

/// Whether a kind of credential is among some.
fn among(supported: &Vec<CredentialType>, wanted: CredentialType) -> (yes: bool)
    ensures
        yes <==> supported@.contains(wanted),
{
    let mut i: usize = 0;
    while i < supported.len()
        invariant
            i <= supported@.len(),
            forall|j: int| 0 <= j < i ==> #[trigger] supported@[j] != wanted,
        decreases supported@.len() - i,
    {
        if supported[i] == wanted {
            assert(supported@[i as int] == wanted);
            return true;
        }
        i += 1;
    }
    false
}

/// The first prompt asking for something the client cannot render, if any.
pub fn unrenderable_prompt(supported: &Vec<CredentialType>, request: &CredentialRequest) -> (wanted:
    Option<CredentialType>)
    ensures
        wanted == first_unrenderable(supported@, request.prompts@),
{
    let ghost all = request.prompts@;
    let mut i: usize = 0;
    assert(all.skip(0) =~= all);
    while i < request.prompts.len()
        invariant
            i <= request.prompts@.len(),
            all == request.prompts@,
            first_unrenderable(supported@, all) == first_unrenderable(
                supported@,
                all.skip(i as int),
            ),
        decreases request.prompts@.len() - i,
    {
        assert(all.skip(i as int)[0] == all[i as int]);
        assert(all.skip(i as int).drop_first() =~= all.skip(i + 1));
        let wanted = request.prompts[i].credential_type;
        if !among(supported, wanted) {
            return Some(wanted);
        }
        i += 1;
    }
    None
}

/// The first reference some prompts use a second time.
pub open spec fn first_repeated(prompts: Seq<Prompt>) -> Option<u32>
    decreases prompts.len(),
{
    if prompts.len() == 0 {
        None
    } else {
        let front = prompts.drop_last();
        match first_repeated(front) {
            Some(repeated) => Some(repeated),
            None => if exists|i: int|
                0 <= i < front.len() && (#[trigger] front[i]).credential_ref
                    == prompts.last().credential_ref {
                Some(prompts.last().credential_ref)
            } else {
                None
            },
        }
    }
}

/// Whether a request repeats a reference, and which.
///
/// Two prompts asking for different things and one reference to carry both
/// answers back under: the answers would be ambiguous.
pub fn duplicate_credential_ref(request: &CredentialRequest) -> (repeated: Option<u32>)
    ensures
        repeated == first_repeated(request.prompts@),
{
    let ghost all = request.prompts@;
    let mut i: usize = 0;
    assert(all.take(0) =~= Seq::empty());
    while i < request.prompts.len()
        invariant
            i <= request.prompts@.len(),
            all == request.prompts@,
            first_repeated(all.take(i as int)) is None,
        decreases request.prompts@.len() - i,
    {
        let wanted: u32 = request.prompts[i].credential_ref;
        let ghost front = all.take(i as int);
        assert(all.take(i + 1).drop_last() =~= front);
        assert(all.take(i + 1).last() == all[i as int]);
        let mut j: usize = 0;
        while j < i
            invariant
                j <= i < request.prompts@.len(),
                all == request.prompts@,
                front == all.take(i as int),
                wanted == all[i as int].credential_ref,
                all.take(i + 1).drop_last() == front,
                all.take(i + 1).last() == all[i as int],
                first_repeated(front) is None,
                forall|k: int| 0 <= k < j ==> (#[trigger] front[k]).credential_ref != wanted,
            decreases i - j,
        {
            if request.prompts[j].credential_ref == wanted {
                proof {
                    assert(front[j as int].credential_ref == wanted);
                    lemma_first_repeated(all, i + 1);
                }
                return Some(wanted);
            }
            j += 1;
        }
        i += 1;
    }
    assert(all.take(i as int) =~= all);
    None
}

/// A repetition found in the beginning of some prompts is the first there is.
proof fn lemma_first_repeated(prompts: Seq<Prompt>, n: int)
    requires
        0 <= n <= prompts.len(),
        first_repeated(prompts.take(n)) is Some,
    ensures
        first_repeated(prompts) == first_repeated(prompts.take(n)),
    decreases prompts.len(),
{
    if n == prompts.len() {
        assert(prompts.take(n) =~= prompts);
    } else {
        let front = prompts.drop_last();
        assert(front.take(n) =~= prompts.take(n));
        lemma_first_repeated(front, n);
    }
}

/// What a conversation is for, which is what decides how it may end.
#[derive(Debug, Clone, Copy, PartialEq, Eq, Structural)]
pub enum Purpose {
    /// Signing on. Ends in an assertion a token is minted from.
    Logon,
    /// Changing the caller's own credential. Ends with nothing minted.
    Change,
}

/// What a source said on a conversation.
#[derive(Debug, PartialEq, Eq)]
pub enum SourceSaid {
    /// Nothing.
    Stalled(Stalled),
    Request(CredentialRequest),
    Assert(Assertion),
    Changed,
    Refuse(Refusal),
    /// The answer to a question nobody asked on this conversation.
    Lookup,
}

/// What a client did with the questions put to it.
#[derive(Debug, Clone, Copy, PartialEq, Eq, Structural)]
pub enum ClientSaid {
    /// It answered.
    Answered,
    /// It sent a message whose header makes no sense.
    MalformedHeader,
    /// It sent some other message.
    SomethingElse,
    /// It sent an answer that makes no sense.
    MalformedResponse,
    /// It could not be asked, or nothing could be read from it.
    Failed(IoKind),
}

/// How a relay ended.
#[derive(Debug, PartialEq, Eq)]
pub enum Ended {
    /// The source vouched for the principal.
    Asserted(Assertion),
    /// The source changed the credential.
    Changed,
    /// The source's own refusal, to be passed on code and all.
    Refused(Refusal),
    /// A denial of the relay's own. The source has not finished.
    Denied(Refusal),
    /// The connection to the client is gone.
    Aborted,
}

/// How a relay ended, mathematically.
pub enum EndedModel {
    Asserted(Assertion),
    Changed,
    Refused(Denial, Seq<char>),
    Denied(Denial, Seq<char>),
    Aborted,
}

impl View for Ended {
    type V = EndedModel;

    open spec fn view(&self) -> EndedModel {
        match *self {
            Ended::Asserted(assertion) => EndedModel::Asserted(assertion),
            Ended::Changed => EndedModel::Changed,
            Ended::Refused(refusal) => EndedModel::Refused(refusal@.0, refusal@.1),
            Ended::Denied(refusal) => EndedModel::Denied(refusal@.0, refusal@.1),
            Ended::Aborted => EndedModel::Aborted,
        }
    }
}

impl Ended {
    /// Whether the source said the last word, so that it need not be told that
    /// the conversation is over.
    pub fn source_finished(&self) -> (yes: bool)
        ensures
            yes <==> !(self is Denied || self is Aborted),
    {
        match self {
            Ended::Asserted(_) => true,
            Ended::Changed => true,
            Ended::Refused(_) => true,
            Ended::Denied(_) => false,
            Ended::Aborted => false,
        }
    }
}

/// A relay, mathematically.
pub struct RelayModel {
    pub purpose: Purpose,
    /// What the client is able to ask a person for.
    pub supported: Seq<CredentialType>,
    /// How many rounds there were.
    pub rounds: int,
}

/// How a relay ends before another round, if it does.
pub open spec fn out_of_rounds(relay: RelayModel, expired: bool) -> Option<EndedModel> {
    if relay.rounds >= MAX_ROUNDS {
        Some(EndedModel::Denied(Denial::ConversationLimit, "The logon took too many steps."@))
    } else if expired {
        Some(EndedModel::Denied(Denial::ConversationLimit, "The logon took too long."@))
    } else {
        None
    }
}

/// What a conversation that ends as no conversation of its purpose can is
/// answered with.
pub open spec fn confused(purpose: Purpose) -> EndedModel {
    match purpose {
        Purpose::Logon => EndedModel::Denied(
            Denial::Internal,
            "The authority could not complete the logon."@,
        ),
        Purpose::Change => EndedModel::Denied(
            Denial::Internal,
            "The authority could not complete the change."@,
        ),
    }
}

/// How a relay ends on what the source said, if it does. It does not only where
/// the source asked something that may be relayed.
pub open spec fn source_ends(relay: RelayModel, said: SourceSaid) -> Option<EndedModel> {
    match said {
        SourceSaid::Stalled(Stalled::TimedOut) => Some(
            EndedModel::Denied(Denial::AuthorityUnavailable, "The authority did not respond."@),
        ),
        SourceSaid::Stalled(Stalled::SourceGone) => Some(
            EndedModel::Denied(Denial::AuthorityUnavailable, "The authority became unavailable."@),
        ),
        SourceSaid::Request(request) => if first_unrenderable(
            relay.supported,
            request.prompts@,
        ) is Some {
            Some(
                EndedModel::Denied(
                    Denial::Internal,
                    "The authority asked for something this client cannot provide."@,
                ),
            )
        } else if first_repeated(request.prompts@) is Some {
            Some(
                EndedModel::Denied(
                    Denial::Internal,
                    "The authority asked an ambiguous question."@,
                ),
            )
        } else {
            None
        },
        SourceSaid::Assert(assertion) => Some(
            match relay.purpose {
                Purpose::Logon => EndedModel::Asserted(assertion),
                Purpose::Change => confused(relay.purpose),
            },
        ),
        SourceSaid::Changed => Some(
            match relay.purpose {
                Purpose::Change => EndedModel::Changed,
                Purpose::Logon => confused(relay.purpose),
            },
        ),
        SourceSaid::Refuse(refusal) => Some(EndedModel::Refused(refusal@.0, refusal@.1)),
        SourceSaid::Lookup => Some(confused(relay.purpose)),
    }
}

/// How a relay ends on a client that spoke out of turn, if it does.
pub open spec fn haste_ends(already_answered: bool) -> Option<EndedModel> {
    if already_answered {
        Some(
            EndedModel::Denied(
                Denial::MalformedRequest,
                "A response arrived before the request for it."@,
            ),
        )
    } else {
        None
    }
}

/// How a relay ends on what the client did, if it does.
pub open spec fn client_ends(said: ClientSaid) -> Option<EndedModel> {
    match said {
        ClientSaid::Answered => None,
        ClientSaid::MalformedHeader => Some(
            EndedModel::Denied(Denial::MalformedRequest, "Malformed message header."@),
        ),
        ClientSaid::SomethingElse => Some(
            EndedModel::Denied(Denial::MalformedRequest, "Expected a credential response."@),
        ),
        ClientSaid::MalformedResponse => Some(
            EndedModel::Denied(Denial::MalformedRequest, "Malformed credential response."@),
        ),
        ClientSaid::Failed(kind) => if crate::conversation::ran_out_of_time(kind) {
            Some(
                EndedModel::Denied(
                    Denial::ConversationLimit,
                    "The logon took too long to answer."@,
                ),
            )
        } else {
            Some(EndedModel::Aborted)
        },
    }
}

/// A relay between two rounds.
pub struct Relay {
    purpose: Purpose,
    supported: Vec<CredentialType>,
    rounds: u32,
}

/// A relay waiting for the source.
pub struct Listening {
    relay: Relay,
}

/// A relay with a question it may put to the client.
pub struct Prompting {
    relay: Relay,
    request: CredentialRequest,
}

/// A relay waiting for the client.
pub struct Asking {
    relay: Relay,
    request: CredentialRequest,
}

impl View for Relay {
    type V = RelayModel;

    closed spec fn view(&self) -> RelayModel {
        RelayModel {
            purpose: self.purpose,
            supported: self.supported@,
            rounds: self.rounds as int,
        }
    }
}

impl View for Listening {
    type V = RelayModel;

    closed spec fn view(&self) -> RelayModel {
        self.relay@
    }
}

impl View for Prompting {
    type V = (RelayModel, Seq<Prompt>);

    closed spec fn view(&self) -> (RelayModel, Seq<Prompt>) {
        (self.relay@, self.request.prompts@)
    }
}

impl View for Asking {
    type V = (RelayModel, Seq<Prompt>);

    closed spec fn view(&self) -> (RelayModel, Seq<Prompt>) {
        (self.relay@, self.request.prompts@)
    }
}

impl Relay {
    #[verifier::type_invariant]
    spec fn bounded(self) -> bool {
        self.rounds <= MAX_ROUNDS
    }

    /// Begin relaying.
    pub fn begin(purpose: Purpose, supported: Vec<CredentialType>) -> (relay: Relay)
        ensures
            relay@ == (RelayModel { purpose, supported: supported@, rounds: 0 }),
    {
        Relay { purpose, supported, rounds: 0 }
    }

    /// Begin another round, given whether the conversation has outlived its
    /// wall-clock bound. Per-read timeouts cannot see a client that keeps
    /// resetting them.
    pub fn round(self, expired: bool) -> (next: Result<Listening, Ended>)
        ensures
            next is Err <==> out_of_rounds(self@, expired) is Some,
            next matches Ok(listening) ==> listening@ == self@,
            next matches Err(ended) ==> Some(ended@) == out_of_rounds(self@, expired),
    {
        if self.rounds >= MAX_ROUNDS {
            return Err(
                Ended::Denied(deny(Denial::ConversationLimit, "The logon took too many steps.")),
            );
        }
        if expired {
            return Err(Ended::Denied(deny(Denial::ConversationLimit, "The logon took too long.")));
        }
        Ok(Listening { relay: self })
    }

    /// What a source that answered as no conversation of this purpose can be
    /// answered ends in.
    fn confusion(&self) -> (ended: Ended)
        ensures
            ended@ == confused(self@.purpose),
    {
        match self.purpose {
            Purpose::Logon => Ended::Denied(
                deny(Denial::Internal, "The authority could not complete the logon."),
            ),
            Purpose::Change => Ended::Denied(
                deny(Denial::Internal, "The authority could not complete the change."),
            ),
        }
    }
}

impl Listening {
    #[verifier::type_invariant]
    spec fn allowed(self) -> bool {
        self.relay.rounds < MAX_ROUNDS
    }

    /// Go on with what the source said.
    ///
    /// Relaying a question the client cannot render would force it to fail, and
    /// a client that guessed instead might echo a secret to the screen. A source
    /// that answers a lookup nobody made, or ends the conversation as one of
    /// another purpose ends, has confused two of its own conversations, which
    /// makes anything else it says on this one suspect too.
    pub fn hear(self, said: SourceSaid) -> (next: Result<Prompting, Ended>)
        ensures
            next is Err <==> source_ends(self@, said) is Some,
            next matches Ok(prompting) ==> (said matches SourceSaid::Request(request)
                && prompting@ == (self@, request.prompts@)),
            next matches Err(ended) ==> Some(ended@) == source_ends(self@, said),
    {
        proof {
            use_type_invariant(&self);
        }
        match said {
            SourceSaid::Stalled(Stalled::TimedOut) => Err(
                Ended::Denied(
                    deny(Denial::AuthorityUnavailable, "The authority did not respond."),
                ),
            ),
            SourceSaid::Stalled(Stalled::SourceGone) => Err(
                Ended::Denied(
                    deny(Denial::AuthorityUnavailable, "The authority became unavailable."),
                ),
            ),
            SourceSaid::Request(request) => {
                if unrenderable_prompt(&self.relay.supported, &request).is_some() {
                    return Err(
                        Ended::Denied(
                            deny(
                                Denial::Internal,
                                "The authority asked for something this client cannot provide.",
                            ),
                        ),
                    );
                }
                if duplicate_credential_ref(&request).is_some() {
                    return Err(
                        Ended::Denied(
                            deny(Denial::Internal, "The authority asked an ambiguous question."),
                        ),
                    );
                }
                Ok(Prompting { relay: self.relay, request })
            },
            SourceSaid::Assert(assertion) => match self.relay.purpose {
                Purpose::Logon => Err(Ended::Asserted(assertion)),
                Purpose::Change => Err(self.relay.confusion()),
            },
            SourceSaid::Changed => match self.relay.purpose {
                Purpose::Change => Err(Ended::Changed),
                Purpose::Logon => Err(self.relay.confusion()),
            },
            SourceSaid::Refuse(refusal) => Err(Ended::Refused(refusal)),
            SourceSaid::Lookup => Err(self.relay.confusion()),
        }
    }
}

impl Prompting {
    #[verifier::type_invariant]
    spec fn allowed(self) -> bool {
        self.relay.rounds < MAX_ROUNDS
    }

    /// Go on to put the question, given whether anything of the client's is
    /// waiting to be read.
    ///
    /// A response must follow the request for it. Bytes already waiting before
    /// the prompt has been sent are a response sent on speculation about a
    /// question the source had not asked. Checked for each prompt: the second
    /// round's answer can be sent behind the first's as easily as the first's
    /// behind the opening.
    pub fn put(self, already_answered: bool) -> (next: Result<Asking, Ended>)
        ensures
            next is Err <==> haste_ends(already_answered) is Some,
            next matches Ok(asking) ==> asking@ == self@,
            next matches Err(ended) ==> Some(ended@) == haste_ends(already_answered),
    {
        proof {
            use_type_invariant(&self);
        }
        if already_answered {
            return Err(
                Ended::Denied(
                    deny(
                        Denial::MalformedRequest,
                        "A response arrived before the request for it.",
                    ),
                ),
            );
        }
        Ok(Asking { relay: self.relay, request: self.request })
    }
}

impl Asking {
    #[verifier::type_invariant]
    spec fn allowed(self) -> bool {
        self.relay.rounds < MAX_ROUNDS
    }

    /// What to put to the client.
    pub fn request(&self) -> (request: &CredentialRequest)
        ensures
            request.prompts@ == self@.1,
    {
        &self.request
    }

    /// Go on with what the client did: its answers, if it gave any, go to the
    /// source, and another round begins.
    pub fn hear(self, said: ClientSaid) -> (next: Result<Relay, Ended>)
        ensures
            next is Err <==> client_ends(said) is Some,
            next matches Ok(relay) ==> relay@ == (RelayModel {
                rounds: self@.0.rounds + 1,
                ..self@.0
            }),
            next matches Err(ended) ==> Some(ended@) == client_ends(said),
    {
        proof {
            use_type_invariant(&self);
        }
        match said {
            ClientSaid::Answered => {
                let relay = self.relay;
                let rounds: u32 = relay.rounds + 1;
                Ok(Relay { purpose: relay.purpose, supported: relay.supported, rounds })
            },
            ClientSaid::MalformedHeader => Err(
                Ended::Denied(deny(Denial::MalformedRequest, "Malformed message header.")),
            ),
            ClientSaid::SomethingElse => Err(
                Ended::Denied(deny(Denial::MalformedRequest, "Expected a credential response.")),
            ),
            ClientSaid::MalformedResponse => Err(
                Ended::Denied(deny(Denial::MalformedRequest, "Malformed credential response.")),
            ),
            ClientSaid::Failed(kind) => {
                if is_read_timeout(kind) {
                    Err(
                        Ended::Denied(
                            deny(Denial::ConversationLimit, "The logon took too long to answer."),
                        ),
                    )
                } else {
                    Err(Ended::Aborted)
                }
            },
        }
    }
}

/// What happened in one round.
pub struct Round {
    pub expired: bool,
    pub source: SourceSaid,
    pub already_answered: bool,
    pub client: ClientSaid,
}

/// How a relay ends in a round, if it does.
pub open spec fn round_ends(relay: RelayModel, round: Round) -> Option<EndedModel> {
    match out_of_rounds(relay, round.expired) {
        Some(ended) => Some(ended),
        None => match source_ends(relay, round.source) {
            Some(ended) => Some(ended),
            None => match haste_ends(round.already_answered) {
                Some(ended) => Some(ended),
                None => client_ends(round.client),
            },
        },
    }
}

/// How a relay ends, given what happens in every round it comes to.
pub open spec fn ends(relay: RelayModel, rounds: spec_fn(int) -> Round) -> EndedModel
    decreases MAX_ROUNDS - relay.rounds,
{
    match round_ends(relay, rounds(relay.rounds)) {
        Some(ended) => ended,
        None => if relay.rounds < MAX_ROUNDS {
            ends(RelayModel { rounds: relay.rounds + 1, ..relay }, rounds)
        } else {
            EndedModel::Aborted
        },
    }
}

/// No source holds a client in a prompt loop: a conversation whose every round
/// goes on ends at the limit.
pub proof fn law_a_conversation_is_bounded(relay: RelayModel, rounds: spec_fn(int) -> Round)
    requires
        0 <= relay.rounds <= MAX_ROUNDS,
        forall|i: int|
            relay.rounds <= i < MAX_ROUNDS ==> round_ends(
                RelayModel { rounds: i, ..relay },
                #[trigger] rounds(i),
            ) is None,
    ensures
        ends(relay, rounds) == EndedModel::Denied(
            Denial::ConversationLimit,
            "The logon took too many steps."@,
        ),
    decreases MAX_ROUNDS - relay.rounds,
{
    if relay.rounds < MAX_ROUNDS {
        let next = RelayModel { rounds: relay.rounds + 1, ..relay };
        assert(RelayModel { rounds: relay.rounds, ..relay } == relay);
        assert(round_ends(relay, rounds(relay.rounds)) is None);
        law_a_conversation_is_bounded(next, rounds);
    }
}

/// Whatever a source says, changing a credential never ends in an assertion a
/// token could be minted from, and signing on never ends in a change.
pub proof fn law_a_conversation_ends_as_its_purpose_does(
    relay: RelayModel,
    rounds: spec_fn(int) -> Round,
)
    ensures
        relay.purpose is Change ==> !(ends(relay, rounds) is Asserted),
        relay.purpose is Logon ==> !(ends(relay, rounds) is Changed),
    decreases MAX_ROUNDS - relay.rounds,
{
    if relay.rounds < MAX_ROUNDS && round_ends(relay, rounds(relay.rounds)) is None {
        law_a_conversation_ends_as_its_purpose_does(
            RelayModel { rounds: relay.rounds + 1, ..relay },
            rounds,
        );
    }
}

/// Prompts with no unrenderable one are all renderable.
proof fn lemma_renderable(supported: Seq<CredentialType>, prompts: Seq<Prompt>)
    requires
        first_unrenderable(supported, prompts) is None,
    ensures
        forall|i: int| 0 <= i < prompts.len() ==> renderable(supported, #[trigger] prompts[i]),
    decreases prompts.len(),
{
    if prompts.len() > 0 {
        let rest = prompts.drop_first();
        lemma_renderable(supported, rest);
        assert forall|i: int| 0 <= i < prompts.len() implies renderable(
            supported,
            #[trigger] prompts[i],
        ) by {
            if i > 0 {
                assert(rest[i - 1] == prompts[i]);
            }
        }
    }
}

/// Prompts with no repeated reference have one each.
proof fn lemma_distinct(prompts: Seq<Prompt>)
    requires
        first_repeated(prompts) is None,
    ensures
        forall|i: int, j: int|
            0 <= i < j < prompts.len() ==> (#[trigger] prompts[i]).credential_ref != (
            #[trigger] prompts[j]).credential_ref,
    decreases prompts.len(),
{
    if prompts.len() > 0 {
        let front = prompts.drop_last();
        lemma_distinct(front);
        assert forall|i: int, j: int| 0 <= i < j < prompts.len() implies (
        #[trigger] prompts[i]).credential_ref != (#[trigger] prompts[j]).credential_ref by {
            assert(front[i] == prompts[i]);
            if j < front.len() {
                assert(front[j] == prompts[j]);
            }
        }
    }
}

/// What is put to a client is only what it said it can render, with a reference
/// for each prompt that no other prompt has.
pub proof fn law_only_answerable_questions_are_relayed(relay: RelayModel, request: CredentialRequest)
    requires
        source_ends(relay, SourceSaid::Request(request)) is None,
    ensures
        forall|i: int|
            0 <= i < request.prompts@.len() ==> renderable(
                relay.supported,
                #[trigger] request.prompts@[i],
            ),
        forall|i: int, j: int|
            0 <= i < j < request.prompts@.len() ==> (#[trigger] request.prompts@[i]).credential_ref
                != (#[trigger] request.prompts@[j]).credential_ref,
{
    lemma_renderable(relay.supported, request.prompts@);
    lemma_distinct(request.prompts@);
}

/// A question is put to nobody who cannot render it: the first kind of credential
/// that a client did not say it can render is told of, and none is where it said it
/// can render each.
pub proof fn law_what_cannot_be_rendered_is_told_of(supported: Seq<CredentialType>, prompts: Seq<Prompt>)
    ensures
        match first_unrenderable(supported, prompts) {
            Some(wanted) => exists|i: int|
                0 <= i < prompts.len() && (#[trigger] prompts[i]).credential_type == wanted
                    && !supported.contains(wanted) && forall|j: int|
                    0 <= j < i ==> supported.contains((#[trigger] prompts[j]).credential_type),
            None => forall|i: int|
                0 <= i < prompts.len() ==> supported.contains(
                    (#[trigger] prompts[i]).credential_type,
                ),
        },
    decreases prompts.len(),
{
    if prompts.len() > 0 {
        let rest = prompts.drop_first();
        law_what_cannot_be_rendered_is_told_of(supported, rest);
        if !supported.contains(prompts[0].credential_type) {
            assert(prompts[0].credential_type == first_unrenderable(supported, prompts)->0);
        } else {
            match first_unrenderable(supported, prompts) {
                Some(wanted) => {
                    let k = choose|i: int|
                        0 <= i < rest.len() && (#[trigger] rest[i]).credential_type == wanted
                            && !supported.contains(wanted) && forall|j: int|
                            0 <= j < i ==> supported.contains(
                                (#[trigger] rest[j]).credential_type,
                            );
                    assert(prompts[k + 1] == rest[k]);
                    assert forall|j: int| 0 <= j < k + 1 implies supported.contains(
                        (#[trigger] prompts[j]).credential_type,
                    ) by {
                        if j > 0 {
                            assert(rest[j - 1] == prompts[j]);
                        }
                    }
                },
                None => {
                    assert forall|i: int| 0 <= i < prompts.len() implies supported.contains(
                        (#[trigger] prompts[i]).credential_type,
                    ) by {
                        if i > 0 {
                            assert(rest[i - 1] == prompts[i]);
                        }
                    }
                },
            }
        }
    }
}

/// Whether a prompt has a reference that an earlier one has.
pub open spec fn repeats(prompts: Seq<Prompt>, at: int) -> bool {
    exists|i: int|
        0 <= i < at && (#[trigger] prompts[i]).credential_ref == prompts[at].credential_ref
}

/// A reference is told of exactly where two prompts have it, and of several it is the
/// one whose second prompt comes first.
pub proof fn law_what_is_repeated_is_told_of(prompts: Seq<Prompt>)
    ensures
        match first_repeated(prompts) {
            Some(wanted) => exists|at: int|
                0 <= at < prompts.len() && #[trigger] repeats(prompts, at)
                    && prompts[at].credential_ref == wanted && forall|j: int|
                    0 <= j < at ==> !#[trigger] repeats(prompts, j),
            None => forall|at: int| 0 <= at < prompts.len() ==> !#[trigger] repeats(prompts, at),
        },
    decreases prompts.len(),
{
    if prompts.len() > 0 {
        let front = prompts.drop_last();
        let end = prompts.len() - 1;
        law_what_is_repeated_is_told_of(front);
        assert forall|at: int| 0 <= at < end implies (#[trigger] repeats(prompts, at) <==> repeats(
            front,
            at,
        )) by {
            if repeats(prompts, at) {
                let i = choose|i: int|
                    0 <= i < at && (#[trigger] prompts[i]).credential_ref
                        == prompts[at].credential_ref;
                assert(front[i] == prompts[i]);
            }
            if repeats(front, at) {
                let i = choose|i: int|
                    0 <= i < at && (#[trigger] front[i]).credential_ref == front[at].credential_ref;
                assert(front[i] == prompts[i]);
            }
        }
        assert(repeats(prompts, end) <==> exists|i: int|
            0 <= i < front.len() && (#[trigger] front[i]).credential_ref
                == prompts.last().credential_ref) by {
            if repeats(prompts, end) {
                let i = choose|i: int|
                    0 <= i < end && (#[trigger] prompts[i]).credential_ref
                        == prompts[end].credential_ref;
                assert(front[i] == prompts[i]);
            }
            if exists|i: int|
                0 <= i < front.len() && (#[trigger] front[i]).credential_ref
                    == prompts.last().credential_ref {
                let i = choose|i: int|
                    0 <= i < front.len() && (#[trigger] front[i]).credential_ref
                        == prompts.last().credential_ref;
                assert(front[i] == prompts[i]);
            }
        }
        match first_repeated(front) {
            Some(wanted) => {
                let at = choose|at: int|
                    0 <= at < front.len() && #[trigger] repeats(front, at)
                        && front[at].credential_ref == wanted && forall|j: int|
                        0 <= j < at ==> !#[trigger] repeats(front, j);
                assert(repeats(prompts, at));
                assert forall|j: int| 0 <= j < at implies !#[trigger] repeats(prompts, j) by {
                    assert(!repeats(front, j));
                }
            },
            None => {
                assert forall|j: int| 0 <= j < end implies !#[trigger] repeats(prompts, j) by {
                    assert(!repeats(front, j));
                }
            },
        }
    }
}

/// What a source's word ends a relay in. A source that says nothing makes the
/// authority unavailable. A question goes on to the client exactly where the client
/// can render every prompt of it and no two have one reference, and is a fault
/// otherwise. An assertion ends a logon and a change ends a change, as they were
/// sent; each is a fault in the other, and so is the answer to a lookup. A refusal is
/// passed on, code and text.
pub proof fn law_what_the_word_of_a_source_ends_in(relay: RelayModel, said: SourceSaid)
    ensures
        match said {
            SourceSaid::Stalled(_) => source_ends(relay, said) matches Some(EndedModel::Denied(d, _))
                && d is AuthorityUnavailable,
            SourceSaid::Request(request) => {
                let prompts = request.prompts@;
                &&& source_ends(relay, said) is None <==> {
                    &&& forall|i: int|
                        0 <= i < prompts.len() ==> relay.supported.contains(
                            (#[trigger] prompts[i]).credential_type,
                        )
                    &&& forall|i: int, j: int|
                        0 <= i < j < prompts.len() ==> (#[trigger] prompts[i]).credential_ref != (
                        #[trigger] prompts[j]).credential_ref
                }
                &&& source_ends(relay, said) is Some ==> (source_ends(relay, said) matches Some(
                    EndedModel::Denied(d, _),
                ) && d is Internal)
            },
            SourceSaid::Assert(assertion) => {
                &&& relay.purpose is Logon ==> source_ends(relay, said) == Some(
                    EndedModel::Asserted(assertion),
                )
                &&& relay.purpose is Change ==> (source_ends(relay, said) matches Some(
                    EndedModel::Denied(d, _),
                ) && d is Internal)
            },
            SourceSaid::Changed => {
                &&& relay.purpose is Change ==> source_ends(relay, said) == Some(
                    EndedModel::Changed,
                )
                &&& relay.purpose is Logon ==> (source_ends(relay, said) matches Some(
                    EndedModel::Denied(d, _),
                ) && d is Internal)
            },
            SourceSaid::Refuse(refusal) => source_ends(relay, said) == Some(
                EndedModel::Refused(refusal.denial, refusal.reason@),
            ),
            SourceSaid::Lookup => source_ends(relay, said) matches Some(EndedModel::Denied(d, _))
                && d is Internal,
        },
{
    if let SourceSaid::Request(request) = said {
        let prompts = request.prompts@;
        law_what_cannot_be_rendered_is_told_of(relay.supported, prompts);
        law_what_is_repeated_is_told_of(prompts);
        if first_repeated(prompts) is None {
            lemma_distinct(prompts);
        } else {
            let at = choose|at: int|
                0 <= at < prompts.len() && #[trigger] repeats(prompts, at)
                    && prompts[at].credential_ref == first_repeated(prompts)->0 && forall|j: int|
                    0 <= j < at ==> !#[trigger] repeats(prompts, j);
            let i = choose|i: int|
                0 <= i < at && (#[trigger] prompts[i]).credential_ref == prompts[at].credential_ref;
            assert(prompts[i].credential_ref == prompts[at].credential_ref);
        }
    }
}

/// What a client's part ends a relay in. An answer goes on. One before its question
/// and a message that makes no sense, or is another, are malformed; a client that
/// takes too long meets a limit; and one that is gone ends it without a word.
pub proof fn law_what_the_part_of_a_client_ends_in(said: ClientSaid, already_answered: bool)
    ensures
        already_answered <==> haste_ends(already_answered) is Some,
        already_answered ==> (haste_ends(already_answered) matches Some(EndedModel::Denied(d, _))
            && d is MalformedRequest),
        said is Answered <==> client_ends(said) is None,
        said is MalformedHeader || said is SomethingElse || said is MalformedResponse ==> (
        client_ends(said) matches Some(EndedModel::Denied(d, _)) && d is MalformedRequest),
        said matches ClientSaid::Failed(kind) ==> if kind is WouldBlock || kind is TimedOut {
            client_ends(said) matches Some(EndedModel::Denied(d, _)) && d is ConversationLimit
        } else {
            client_ends(said) == Some(EndedModel::Aborted)
        },
{
}

/// A ninth round is one too many, and so is any once the time is up; before that
/// there is another.
pub proof fn law_how_many_rounds_there_are(relay: RelayModel, expired: bool)
    ensures
        out_of_rounds(relay, expired) is None <==> relay.rounds < 8 && !expired,
        out_of_rounds(relay, expired) matches Some(ended) ==> (ended matches EndedModel::Denied(
            d,
            _,
        ) && d is ConversationLimit),
{
}

/// What a client is told where a relay denies it.
pub proof fn law_what_a_denied_client_is_told(relay: RelayModel, said: SourceSaid, by: ClientSaid)
    ensures
        relay.rounds >= 8 ==> out_of_rounds(relay, true) == Some(
            EndedModel::Denied(Denial::ConversationLimit, "The logon took too many steps."@),
        ),
        relay.rounds < 8 ==> out_of_rounds(relay, true) == Some(
            EndedModel::Denied(Denial::ConversationLimit, "The logon took too long."@),
        ),
        said == SourceSaid::Stalled(Stalled::TimedOut) ==> source_ends(relay, said) == Some(
            EndedModel::Denied(Denial::AuthorityUnavailable, "The authority did not respond."@),
        ),
        said == SourceSaid::Stalled(Stalled::SourceGone) ==> source_ends(relay, said) == Some(
            EndedModel::Denied(Denial::AuthorityUnavailable, "The authority became unavailable."@),
        ),
        said matches SourceSaid::Request(request) ==> {
            &&& (exists|i: int|
                0 <= i < request.prompts@.len() && !relay.supported.contains(
                    (#[trigger] request.prompts@[i]).credential_type,
                )) ==> source_ends(relay, said) == Some(
                EndedModel::Denied(
                    Denial::Internal,
                    "The authority asked for something this client cannot provide."@,
                ),
            )
            &&& (forall|i: int|
                0 <= i < request.prompts@.len() ==> relay.supported.contains(
                    (#[trigger] request.prompts@[i]).credential_type,
                )) && source_ends(relay, said) is Some ==> source_ends(relay, said) == Some(
                EndedModel::Denied(
                    Denial::Internal,
                    "The authority asked an ambiguous question."@,
                ),
            )
        },
        said is Lookup && relay.purpose is Logon ==> source_ends(relay, said) == Some(
            EndedModel::Denied(Denial::Internal, "The authority could not complete the logon."@),
        ),
        said is Lookup && relay.purpose is Change ==> source_ends(relay, said) == Some(
            EndedModel::Denied(Denial::Internal, "The authority could not complete the change."@),
        ),
        said is Assert && relay.purpose is Change ==> source_ends(relay, said) == source_ends(
            relay,
            SourceSaid::Lookup,
        ),
        said is Changed && relay.purpose is Logon ==> source_ends(relay, said) == source_ends(
            relay,
            SourceSaid::Lookup,
        ),
        haste_ends(true) == Some(
            EndedModel::Denied(
                Denial::MalformedRequest,
                "A response arrived before the request for it."@,
            ),
        ),
        by is MalformedHeader ==> client_ends(by) == Some(
            EndedModel::Denied(Denial::MalformedRequest, "Malformed message header."@),
        ),
        by is SomethingElse ==> client_ends(by) == Some(
            EndedModel::Denied(Denial::MalformedRequest, "Expected a credential response."@),
        ),
        by is MalformedResponse ==> client_ends(by) == Some(
            EndedModel::Denied(Denial::MalformedRequest, "Malformed credential response."@),
        ),
        by == ClientSaid::Failed(IoKind::TimedOut) || by == ClientSaid::Failed(IoKind::WouldBlock)
            ==> client_ends(by) == Some(
            EndedModel::Denied(
                Denial::ConversationLimit,
                "The logon took too long to answer."@,
            ),
        ),
{
    if let SourceSaid::Request(request) = said {
        law_what_cannot_be_rendered_is_told_of(relay.supported, request.prompts@);
    }
}

/// How a relay ended is what it ended in: the assertion, the change, the source's refusal,
/// the relay's own, or nothing.
pub proof fn law_an_end_is_what_it_ended_in(ended: Ended)
    ensures
        match ended {
            Ended::Asserted(assertion) => ended@ == EndedModel::Asserted(assertion),
            Ended::Changed => ended@ is Changed,
            Ended::Refused(refusal) => ended@ == EndedModel::Refused(
                refusal.denial,
                refusal.reason@,
            ),
            Ended::Denied(refusal) => ended@ == EndedModel::Denied(
                refusal.denial,
                refusal.reason@,
            ),
            Ended::Aborted => ended@ is Aborted,
        },
{
}

} // verus!
