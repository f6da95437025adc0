# authd

The decisions of an authentication authority: the process that turns "someone
proved who they are" into a token and a logon session, and answers *who is this
SID, this name, this number* for everything else on the machine.

Three ideas carry most of the design.

- **The authority mints; sources assert.** A principal source verifies credentials
  and says *who someone is*. It cannot mint a token, grant a privilege or create a
  session.
- **Sources are processes, never plugins.** A defect in credential parsing must not
  become a compromise of the code that mints tokens.
- **How much this machine trusts you is local.** Privileges and integrity come from
  a per-principal policy record that is read at every logon.

## Layout

- `src/` is the library, verified with Verus: SIDs and domains (`sid`, `domain`,
  `well_known`, `service_sid`), POSIX numbers (`unix_id`), policy (`policy`), the
  registry of sources (`source`, `registry`), the resolver (`resolve`, `ident`),
  logon conversations (`conversation`, `relay`, `change`, `attest`) and what a token
  is made of (`claim`, `derive`, `home`).
- `app/` is the daemon around it: sockets, threads, the kernel and the registry of
  the machine. Where a decision needs something from outside, the library says whom
  to ask what, is told what came back, and says what that comes to.
- `tests/` holds the tests.

## What is trusted

Three wrappers stand for code outside the library: UTF-8 decoding and upper-casing
from the standard library, and SHA-1 from the `sha1` crate.
