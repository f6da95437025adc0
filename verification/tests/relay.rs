use authd::conversation::{IoKind, MAX_ROUNDS};
use authd::logon::{CredentialRequest, CredentialType, Denial, LogonTypes, Profile, Prompt};
use authd::psi::{Assertion, Refusal};
use authd::relay::{
    duplicate_credential_ref, unrenderable_prompt, ClientSaid, Ended, Purpose, Relay, SourceSaid,
};
use authd::source::Stalled;

fn requesting(types: &[CredentialType]) -> CredentialRequest {
    CredentialRequest {
        prompts: types
            .iter()
            .enumerate()
            .map(|(i, credential_type)| Prompt {
                credential_ref: i as u32 + 1,
                credential_type: *credential_type,
            })
            .collect(),
    }
}

/// Two prompts asking for different things and one reference to carry both
/// answers back under would be ambiguous.
#[test]
fn a_repeated_credential_ref_is_caught() {
    let mut request = requesting(&[CredentialType::Password, CredentialType::Password]);
    assert_eq!(
        duplicate_credential_ref(&request),
        None,
        "distinct refs are the ordinary case"
    );
    request.prompts[1].credential_ref = request.prompts[0].credential_ref;
    assert_eq!(
        duplicate_credential_ref(&request),
        Some(request.prompts[0].credential_ref)
    );
}

#[test]
fn a_single_prompt_and_an_empty_request_are_never_duplicates() {
    assert_eq!(
        duplicate_credential_ref(&requesting(&[CredentialType::Password])),
        None
    );
    assert_eq!(duplicate_credential_ref(&requesting(&[])), None);
}

#[test]
fn an_advertised_credential_type_is_relayed() {
    let supported = vec![CredentialType::Password];
    assert!(unrenderable_prompt(&supported, &requesting(&[CredentialType::Password])).is_none());
}

/// The relay's one refusal to carry: a client that advertised nothing must not
/// be sent a prompt it would have to hard-fail on.
#[test]
fn an_unadvertised_credential_type_is_caught() {
    let supported = Vec::new();
    assert_eq!(
        unrenderable_prompt(&supported, &requesting(&[CredentialType::Password])),
        Some(CredentialType::Password)
    );
}

#[test]
fn a_request_with_no_prompts_is_always_relayable() {
    // Messages without prompts are how an authority says something without
    // asking for anything.
    let supported = Vec::new();
    assert!(unrenderable_prompt(&supported, &requesting(&[])).is_none());
}

#[test]
fn the_first_offending_prompt_is_the_one_reported() {
    let supported = vec![CredentialType::Password];
    let request = requesting(&[
        CredentialType::Password,
        CredentialType::Other(7),
        CredentialType::Other(8),
    ]);
    assert_eq!(
        unrenderable_prompt(&supported, &request),
        Some(CredentialType::Other(7))
    );
    let mut repeated = requesting(&[CredentialType::Password; 4]);
    repeated.prompts[2].credential_ref = 2;
    repeated.prompts[3].credential_ref = 1;
    assert_eq!(duplicate_credential_ref(&repeated), Some(2));
}

// ---------------------------------------------------------------------------
// Whole conversations
// ---------------------------------------------------------------------------

fn assertion() -> Assertion {
    Assertion {
        user_sid: vec![1, 1, 0, 0, 0, 0, 0, 5, 18, 0, 0, 0],
        unix_id: 0,
        groups: Vec::new(),
        primary_group: Vec::new(),
        claims: Vec::new(),
        profile: Profile {
            home: String::new(),
            shell: String::new(),
        },
        permitted_logon_types: LogonTypes::unstated(),
    }
}

fn ask_password() -> SourceSaid {
    SourceSaid::Request(requesting(&[CredentialType::Password]))
}

fn begin(purpose: Purpose) -> Relay {
    Relay::begin(purpose, vec![CredentialType::Password])
}

/// A relay through one round in which the client is asked and answers.
fn answered(relay: Relay) -> Relay {
    let prompting = relay
        .round(false)
        .and_then(|listening| listening.hear(ask_password()))
        .unwrap_or_else(|_| panic!("a question that may be relayed"));
    let asking = prompting
        .put(false)
        .unwrap_or_else(|_| panic!("the client waited"));
    assert_eq!(asking.request(), &requesting(&[CredentialType::Password]));
    asking
        .hear(ClientSaid::Answered)
        .unwrap_or_else(|_| panic!("the client answered"))
}

/// How a relay ends when the source says something.
fn said(purpose: Purpose, source: SourceSaid) -> Ended {
    match begin(purpose)
        .round(false)
        .and_then(|listening| listening.hear(source))
    {
        Ok(_) => panic!("the relay goes on"),
        Err(ended) => ended,
    }
}

fn denied(ended: Ended) -> (Denial, String) {
    match ended {
        Ended::Denied(refusal) => (refusal.denial, refusal.reason),
        other => panic!("expected a denial, got {other:?}"),
    }
}

#[test]
fn a_logon_ends_in_an_assertion() {
    let relay = answered(begin(Purpose::Logon));
    let ended = relay
        .round(false)
        .and_then(|listening| listening.hear(SourceSaid::Assert(assertion())))
        .err()
        .expect("an end");
    assert!(ended.source_finished());
    assert_eq!(ended, Ended::Asserted(assertion()));
}

/// No source holds a client in a prompt loop.
#[test]
fn a_conversation_has_only_so_many_rounds() {
    let mut relay = begin(Purpose::Logon);
    for _ in 0..MAX_ROUNDS {
        relay = answered(relay);
    }
    let ended = relay.round(false).err().expect("an end");
    assert!(!ended.source_finished());
    assert_eq!(
        denied(ended),
        (
            Denial::ConversationLimit,
            "The logon took too many steps.".to_string()
        )
    );
}

#[test]
fn a_conversation_has_only_so_much_time() {
    let ended = begin(Purpose::Logon).round(true).err().expect("an end");
    assert_eq!(
        denied(ended),
        (
            Denial::ConversationLimit,
            "The logon took too long.".to_string()
        )
    );
}

#[test]
fn a_source_that_says_nothing_is_an_outage() {
    assert_eq!(
        denied(said(
            Purpose::Logon,
            SourceSaid::Stalled(Stalled::TimedOut)
        )),
        (
            Denial::AuthorityUnavailable,
            "The authority did not respond.".to_string()
        )
    );
    assert_eq!(
        denied(said(
            Purpose::Logon,
            SourceSaid::Stalled(Stalled::SourceGone)
        )),
        (
            Denial::AuthorityUnavailable,
            "The authority became unavailable.".to_string()
        )
    );
}

#[test]
fn a_question_nobody_could_answer_is_not_relayed() {
    assert_eq!(
        denied(said(
            Purpose::Logon,
            SourceSaid::Request(requesting(&[CredentialType::Other(7)]))
        )),
        (
            Denial::Internal,
            "The authority asked for something this client cannot provide.".to_string()
        )
    );
    let mut ambiguous = requesting(&[CredentialType::Password; 2]);
    ambiguous.prompts[1].credential_ref = 1;
    assert_eq!(
        denied(said(Purpose::Logon, SourceSaid::Request(ambiguous))),
        (
            Denial::Internal,
            "The authority asked an ambiguous question.".to_string()
        )
    );
}

#[test]
fn a_sources_refusal_is_passed_on_code_and_all() {
    let refusal = || Refusal {
        denial: Denial::AuthenticationFailed,
        reason: "Authentication failed.".into(),
    };
    for purpose in [Purpose::Logon, Purpose::Change] {
        let ended = said(purpose, SourceSaid::Refuse(refusal()));
        assert!(ended.source_finished());
        assert_eq!(ended, Ended::Refused(refusal()));
    }
}

/// A source that confuses two conversations is not believed on either.
#[test]
fn a_conversation_ends_as_its_purpose_does() {
    assert_eq!(said(Purpose::Change, SourceSaid::Changed), Ended::Changed);
    assert_eq!(
        denied(said(Purpose::Change, SourceSaid::Assert(assertion()))),
        (
            Denial::Internal,
            "The authority could not complete the change.".to_string()
        )
    );
    for confused in [SourceSaid::Changed, SourceSaid::Lookup] {
        assert_eq!(
            denied(said(Purpose::Logon, confused)),
            (
                Denial::Internal,
                "The authority could not complete the logon.".to_string()
            )
        );
    }
}

/// A response must follow the request for it.
#[test]
fn a_client_that_answers_before_it_is_asked_is_refused() {
    let prompting = begin(Purpose::Logon)
        .round(false)
        .and_then(|listening| listening.hear(ask_password()))
        .unwrap_or_else(|_| panic!("a question that may be relayed"));
    assert_eq!(
        denied(prompting.put(true).err().expect("an end")),
        (
            Denial::MalformedRequest,
            "A response arrived before the request for it.".to_string()
        )
    );
}

#[test]
fn a_client_that_does_not_answer_ends_the_conversation() {
    let hear = |client| {
        begin(Purpose::Logon)
            .round(false)
            .and_then(|listening| listening.hear(ask_password()))
            .and_then(|prompting| prompting.put(false))
            .and_then(|asking| asking.hear(client))
            .err()
            .expect("an end")
    };
    let cases = [
        (
            ClientSaid::MalformedHeader,
            Denial::MalformedRequest,
            "Malformed message header.",
        ),
        (
            ClientSaid::SomethingElse,
            Denial::MalformedRequest,
            "Expected a credential response.",
        ),
        (
            ClientSaid::MalformedResponse,
            Denial::MalformedRequest,
            "Malformed credential response.",
        ),
        (
            ClientSaid::Failed(IoKind::WouldBlock),
            Denial::ConversationLimit,
            "The logon took too long to answer.",
        ),
    ];
    for (client, denial, reason) in cases {
        assert_eq!(denied(hear(client)), (denial, reason.to_string()));
    }
    assert_eq!(
        hear(ClientSaid::Failed(IoKind::BrokenPipe)),
        Ended::Aborted
    );
}
