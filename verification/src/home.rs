//! Creating a principal's home directory at logon.
//!
//! # Why no logon-type check
//!
//! The rule is "create the home if it is non-empty and absent", and that
//! self-scopes. A service identity has no profile, so its home is empty and
//! nothing fires.
//!
//! # Failure is never fatal to the logon
//!
//! A principal whose home could not be created still gets a session, in `/`.
//! Being locked out of a machine is a worse outcome than starting in the wrong
//! directory, and a home directory is not identity: it appears in no ACL and
//! decides no access.

use crate::sid::Sid;
use vstd::prelude::*;

verus! {

/// The descriptor a new home directory gets, for a principal written as text.
pub open spec fn descriptor(user: Seq<char>) -> Seq<char> {
    "O:"@ + user + "G:"@ + user + "D:P(A;OICI;GA;;;"@ + user
        + ")(A;OICI;GA;;;SY)(A;OICI;GA;;;BA)"@
}

/// Build the descriptor a new home directory gets, for a principal written as
/// text.
///
/// Owner is the principal, so that it may re-stamp its own directory. The DACL
/// is protected (`P`): without that, the root's inheritable read access for
/// `Everyone` merges in and every home on the machine is world-readable, which
/// is the whole thing this exists to prevent.
///
/// Administrators is granted alongside SYSTEM. That is a real choice rather than
/// a reflex: every backup and repair tool assumes it, and an administrator can
/// take ownership at will, so withholding it would buy the appearance of privacy
/// rather than privacy.
pub fn home_sddl(user: &str) -> (text: String)
    ensures
        text@ == descriptor(user@),
{
    let mut text: String = String::new();
    text.append("O:");
    text.append(user);
    text.append("G:");
    text.append(user);
    text.append("D:P(A;OICI;GA;;;");
    text.append(user);
    text.append(")(A;OICI;GA;;;SY)(A;OICI;GA;;;BA)");
    assert(text@ =~= descriptor(user@));
    text
}

/// What stands at a path.
#[derive(Debug, Clone, Copy, PartialEq, Eq, Structural)]
pub enum Found {
    Directory,
    /// Something that is not a directory. A symbolic link is judged as the link
    /// it is.
    SomethingElse,
    Nothing,
    /// It could not be inspected.
    Unknown,
}

/// What to do about a home directory.
#[derive(Debug, Clone, Copy, PartialEq, Eq, Structural)]
pub enum Action {
    /// There is nothing to say.
    Nothing,
    /// Report that it is no directory, and leave it alone.
    LeaveAlone,
    /// Check who owns it.
    CheckOwner,
    /// Create it: the last directory of the path and nothing above it. Minting a
    /// tree of directories on a source's say-so turns a typo into structure that
    /// outlives the mistake.
    Create,
    /// Report that it could not be inspected.
    Report,
}

/// Whether a profile names a home at all. Where it does not, the filesystem is
/// not even looked at.
pub fn is_named(home: &str) -> (yes: bool)
    ensures
        yes <==> home@.len() > 0,
{
    !home.is_empty()
}

/// Decide what to do about a home directory, given what stands there.
pub fn ensure(home: &str, found: Found) -> (action: Action)
    ensures
        action == (if home@.len() == 0 {
            Action::Nothing
        } else {
            match found {
                Found::Directory => Action::CheckOwner,
                Found::SomethingElse => Action::LeaveAlone,
                Found::Nothing => Action::Create,
                Found::Unknown => Action::Report,
            }
        }),
{
    if !is_named(home) {
        return Action::Nothing;
    }
    match found {
        Found::Directory => Action::CheckOwner,
        Found::SomethingElse => Action::LeaveAlone,
        Found::Nothing => Action::Create,
        Found::Unknown => Action::Report,
    }
}

/// What the descriptor of a directory says of its owner.
#[derive(Debug, PartialEq, Eq)]
pub enum Ownership {
    /// No descriptor could be read: an unmanaged filesystem.
    NoDescriptor,
    /// The descriptor makes no sense.
    Unreadable,
    /// The owner it names, if it names one.
    Owner(Option<Sid>),
}

/// What is to be said of a home directory that is already there. Nothing is done
/// to it whichever it is.
#[derive(Debug, Clone, Copy, PartialEq, Eq, Structural)]
pub enum Standing {
    Fine,
    UnreadableDescriptor,
    OwnedByAnother,
    Ownerless,
}

/// Judge a home directory that is already there.
///
/// It is never re-stamped, and one owned by somebody else is reported rather
/// than adopted. Adopting it would hand a directory over to whoever pointed an
/// account's home at it; re-stamping even a correctly owned one would silently
/// narrow, at every logon, what an administrator deliberately widened.
pub fn check_existing(user: &Sid, ownership: &Ownership) -> (standing: Standing)
    ensures
        standing == (match *ownership {
            Ownership::NoDescriptor => Standing::Fine,
            Ownership::Unreadable => Standing::UnreadableDescriptor,
            Ownership::Owner(None) => Standing::Ownerless,
            Ownership::Owner(Some(owner)) => if owner@ == user@ {
                Standing::Fine
            } else {
                Standing::OwnedByAnother
            },
        }),
{
    match ownership {
        Ownership::NoDescriptor => Standing::Fine,
        Ownership::Unreadable => Standing::UnreadableDescriptor,
        Ownership::Owner(None) => Standing::Ownerless,
        Ownership::Owner(Some(owner)) => {
            if owner.same(user) {
                Standing::Fine
            } else {
                Standing::OwnedByAnother
            }
        },
    }
}

/// A home directory's descriptor names its user three times, as the owner, as the
/// group, and as the one the first of three entries grants everything to; the list is
/// protected, and the other two grant the same to the system and to administrators.
pub proof fn law_what_the_descriptor_of_a_home_says(user: Seq<char>)
    ensures
        ({
            let n = user.len() as int;
            let said = descriptor(user);
            &&& said.len() == 53 + 3 * n
            &&& said.subrange(0, 2) == "O:"@
            &&& said.subrange(2, 2 + n) == user
            &&& said.subrange(2 + n, 4 + n) == "G:"@
            &&& said.subrange(4 + n, 4 + 2 * n) == user
            &&& said.subrange(4 + 2 * n, 20 + 2 * n) == "D:P(A;OICI;GA;;;"@
            &&& said.subrange(20 + 2 * n, 20 + 3 * n) == user
            &&& said.subrange(20 + 3 * n, 53 + 3 * n) == ")(A;OICI;GA;;;SY)(A;OICI;GA;;;BA)"@
        }),
{
    reveal_strlit("O:");
    reveal_strlit("G:");
    reveal_strlit("D:P(A;OICI;GA;;;");
    reveal_strlit(")(A;OICI;GA;;;SY)(A;OICI;GA;;;BA)");
    let n = user.len() as int;
    let said = descriptor(user);
    assert("O:"@.len() == 2 && "G:"@.len() == 2);
    assert("D:P(A;OICI;GA;;;"@.len() == 16);
    assert(")(A;OICI;GA;;;SY)(A;OICI;GA;;;BA)"@.len() == 33);
    assert(said.subrange(0, 2) =~= "O:"@);
    assert(said.subrange(2, 2 + n) =~= user);
    assert(said.subrange(2 + n, 4 + n) =~= "G:"@);
    assert(said.subrange(4 + n, 4 + 2 * n) =~= user);
    assert(said.subrange(4 + 2 * n, 20 + 2 * n) =~= "D:P(A;OICI;GA;;;"@);
    assert(said.subrange(20 + 2 * n, 20 + 3 * n) =~= user);
    assert(said.subrange(20 + 3 * n, 53 + 3 * n) =~= ")(A;OICI;GA;;;SY)(A;OICI;GA;;;BA)"@);
}

} // verus!
