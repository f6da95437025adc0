//! What a logon conversation speaks of.
//!
//! The messages themselves belong to the protocol library. These are the parts
//! of them that decisions are made from, as plain values.

use vstd::prelude::*;

verus! {

/// How a principal is signing on.
#[derive(Debug, Clone, Copy, PartialEq, Eq, Structural)]
pub enum LogonType {
    Interactive,
    Network,
    Batch,
    Service,
    NetworkCleartext,
    NewCredentials,
}

/// A set of logon types.
///
/// `other` holds bits that stand for types this build has no name for. They are
/// carried, because a set that states only those is still a set that states
/// something.
#[derive(Debug, Clone, Copy, PartialEq, Eq, Structural)]
pub struct LogonTypes {
    pub interactive: bool,
    pub network: bool,
    pub batch: bool,
    pub service: bool,
    pub network_cleartext: bool,
    pub new_credentials: bool,
    pub other: u32,
}

impl LogonTypes {
    /// Whether the set itself holds a type.
    pub open spec fn holds(self, logon_type: LogonType) -> bool {
        match logon_type {
            LogonType::Interactive => self.interactive,
            LogonType::Network => self.network,
            LogonType::Batch => self.batch,
            LogonType::Service => self.service,
            LogonType::NetworkCleartext => self.network_cleartext,
            LogonType::NewCredentials => self.new_credentials,
        }
    }

    /// Whether the set says anything at all.
    pub open spec fn states(self) -> bool {
        ||| exists|logon_type: LogonType| self.holds(logon_type)
        ||| self.other != 0
    }

    /// What the set means as a principal's own sign-on surface: itself, or, for
    /// a set that states nothing, everything a person could use and never
    /// `Service`.
    pub open spec fn allows(self, logon_type: LogonType) -> bool {
        if self.states() {
            self.holds(logon_type)
        } else {
            logon_type != LogonType::Service
        }
    }

    /// The set that states nothing.
    pub fn unstated() -> (set: LogonTypes)
        ensures
            !set.states(),
            forall|logon_type: LogonType| !set.holds(logon_type),
    {
        LogonTypes {
            interactive: false,
            network: false,
            batch: false,
            service: false,
            network_cleartext: false,
            new_credentials: false,
            other: 0,
        }
    }

    /// Whether the set itself holds a type.
    ///
    /// What a *grant* is tested with: [`LogonTypes::permits`] substitutes a
    /// default for the empty set, which is right for a principal's own sign-on
    /// surface and wrong for a grant.
    pub fn has(self, logon_type: LogonType) -> (yes: bool)
        ensures
            yes <==> self.holds(logon_type),
    {
        match logon_type {
            LogonType::Interactive => self.interactive,
            LogonType::Network => self.network,
            LogonType::Batch => self.batch,
            LogonType::Service => self.service,
            LogonType::NetworkCleartext => self.network_cleartext,
            LogonType::NewCredentials => self.new_credentials,
        }
    }

    /// Whether the set says anything at all.
    pub fn stated(self) -> (yes: bool)
        ensures
            yes <==> self.states(),
    {
        proof {
            assert(self.interactive ==> self.holds(LogonType::Interactive));
            assert(self.network ==> self.holds(LogonType::Network));
            assert(self.batch ==> self.holds(LogonType::Batch));
            assert(self.service ==> self.holds(LogonType::Service));
            assert(self.network_cleartext ==> self.holds(LogonType::NetworkCleartext));
            assert(self.new_credentials ==> self.holds(LogonType::NewCredentials));
        }
        self.interactive || self.network || self.batch || self.service || self.network_cleartext
            || self.new_credentials || self.other != 0
    }

    /// Whether a principal whose record says this may sign on this way.
    pub fn permits(self, logon_type: LogonType) -> (yes: bool)
        ensures
            yes <==> self.allows(logon_type),
    {
        if self.stated() {
            self.has(logon_type)
        } else {
            match logon_type {
                LogonType::Service => false,
                _ => true,
            }
        }
    }

    /// The set with one more type in it.
    pub fn with(self, logon_type: LogonType) -> (more: LogonTypes)
        ensures
            more.other == self.other,
            forall|t: LogonType|
                more.holds(t) <==> (self.holds(t) || t == logon_type),
    {
        let mut more = self;
        match logon_type {
            LogonType::Interactive => {
                more.interactive = true;
            },
            LogonType::Network => {
                more.network = true;
            },
            LogonType::Batch => {
                more.batch = true;
            },
            LogonType::Service => {
                more.service = true;
            },
            LogonType::NetworkCleartext => {
                more.network_cleartext = true;
            },
            LogonType::NewCredentials => {
                more.new_credentials = true;
            },
        }
        more
    }
}

/// Why a conversation ended without what it asked for.
#[derive(Debug, Clone, Copy, PartialEq, Eq, Structural)]
pub enum Denial {
    PermissionDenied,
    MalformedRequest,
    UnsupportedVersion,
    LogonTypeNotPermitted,
    AccountRestricted,
    AuthenticationFailed,
    AuthorityUnavailable,
    ConversationLimit,
    Internal,
    /// A code this build gives no meaning to, carried from a source as it came.
    Other(u32),
}

/// A kind of credential a prompt may ask for.
#[derive(Debug, Clone, Copy, PartialEq, Eq, Structural)]
pub enum CredentialType {
    Password,
    /// A kind this build gives no meaning to.
    Other(u32),
}

/// One thing a source asks for.
#[derive(Debug, Clone, Copy, PartialEq, Eq, Structural)]
pub struct Prompt {
    /// What the answer comes back under.
    pub credential_ref: u32,
    pub credential_type: CredentialType,
}

/// A round of prompts.
#[derive(Debug, PartialEq, Eq)]
pub struct CredentialRequest {
    pub prompts: Vec<Prompt>,
}

/// How a logon conversation opens.
#[derive(Debug, PartialEq, Eq)]
pub struct LogonStart {
    pub logon_type: LogonType,
    /// Whoever the caller says is signing on, as they typed it.
    pub identifier: Vec<u8>,
    /// What the client is able to ask a person for.
    pub supported_credential_types: Vec<CredentialType>,
}

/// A request for a service's token.
#[derive(Debug, PartialEq, Eq)]
pub struct ServiceAttest {
    /// The service being launched.
    pub service: String,
    /// The identity it is to run as.
    pub identity: String,
}

/// What a session starts with. Decides no access: a home directory appears in
/// no ACL.
#[derive(Debug, PartialEq, Eq)]
pub struct Profile {
    pub home: String,
    pub shell: String,
}

impl Clone for Profile {
    fn clone(&self) -> (copy: Self)
        ensures
            copy.home@ == self.home@,
            copy.shell@ == self.shell@,
    {
        Profile { home: self.home.clone(), shell: self.shell.clone() }
    }
}

/// A set that states nothing never permits a service logon, and permits every
/// other kind: no principal becomes usable for a credential-free logon by
/// saying nothing.
pub proof fn law_silence_never_permits_service(set: LogonTypes, logon_type: LogonType)
    requires
        !set.states(),
    ensures
        set.allows(logon_type) <==> logon_type != LogonType::Service,
{
}

/// A set that states something permits exactly what it holds.
pub proof fn law_a_statement_is_the_whole_answer(set: LogonTypes, logon_type: LogonType)
    requires
        set.states(),
    ensures
        set.allows(logon_type) <==> set.holds(logon_type),
{
}

/// A set holds a kind of logon exactly where its own flag is set, and states something
/// exactly where any flag is, or a bit that has no name here.
pub proof fn law_a_set_holds_what_is_set(set: LogonTypes)
    ensures
        set.holds(LogonType::Interactive) <==> set.interactive,
        set.holds(LogonType::Network) <==> set.network,
        set.holds(LogonType::Batch) <==> set.batch,
        set.holds(LogonType::Service) <==> set.service,
        set.holds(LogonType::NetworkCleartext) <==> set.network_cleartext,
        set.holds(LogonType::NewCredentials) <==> set.new_credentials,
        set.states() <==> set.interactive || set.network || set.batch || set.service
            || set.network_cleartext || set.new_credentials || set.other != 0,
{
    assert(set.interactive ==> set.holds(LogonType::Interactive));
    assert(set.network ==> set.holds(LogonType::Network));
    assert(set.batch ==> set.holds(LogonType::Batch));
    assert(set.service ==> set.holds(LogonType::Service));
    assert(set.network_cleartext ==> set.holds(LogonType::NetworkCleartext));
    assert(set.new_credentials ==> set.holds(LogonType::NewCredentials));
}

} // verus!
