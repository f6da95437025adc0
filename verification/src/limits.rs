//! How much may be in flight at once.
//!
//! Each of the three sockets has a budget of its own, which is the reason there
//! are three: the populations of their callers are very different, and none
//! should be able to exhaust another.

use vstd::prelude::*;

verus! {

/// How many logon conversations may be in flight at once.
///
/// Each is a thread and a little state. The cap is what stops a caller turning
/// "conversations are stateful" into a way to exhaust the process the whole
/// system's identity depends on.
pub const MAX_CONCURRENT_CONVERSATIONS: usize = 64;

/// How many connections from principal sources may be in flight at once.
///
/// Load-bearing rather than tidy, because anyone can connect. This is what stops
/// "connect and say nothing" from exhausting threads in the daemon that mints
/// all identity. Comfortably above the number of sources any real system runs.
pub const MAX_SOURCE_CONNECTIONS: usize = 32;

/// How many connections for identity lookups may be in flight at once.
///
/// Larger than the logon cap, because the callers are: every process that
/// renders a name holds one of these.
pub const MAX_IDENT_CONNECTIONS: usize = 256;

/// Whether one more connection may be served. One that may not is dropped: it
/// cannot be promised service, and holding it open would be worse than refusing.
pub fn has_room(live: usize, cap: usize) -> (yes: bool)
    ensures
        yes <==> live < cap,
{
    live < cap
}

/// There is a connection for every source that can be registered, and for
/// others to be turned away on.
pub proof fn law_every_source_has_a_connection()
    ensures
        crate::source::MAX_SOURCES < MAX_SOURCE_CONNECTIONS,
{
}

} // verus!
