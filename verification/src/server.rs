//! The connection bootstrap's verified half.  A client connects over TCP
//! only to exchange a 16-byte connection id; everything after rides the
//! two shared-memory mailboxes named from that id.  The accept loop and
//! socket reads are process work; the id check and the mailbox naming
//! stand here.

use vstd::prelude::*;
use vstd::string::*;
use crate::strutil::concat2;

verus! {

/// The exact length of a client's bootstrap id.
pub const VDM_CLIENT_ID_LEN: usize = 16;

/// Whether a bootstrap read completed the handshake's first phase: the
/// peer must send exactly one full connection id.
pub fn handshake_len_ok(n: usize) -> (r: bool)
    ensures
        r == (n == VDM_CLIENT_ID_LEN),
{
    n == VDM_CLIENT_ID_LEN
}

/// Whether a bootstrap read completed the handshake's third phase: the
/// trigger may carry anything, but it must carry something.
pub fn handshake_trigger_ok(n: usize) -> (r: bool)
    ensures
        r == (n > 0),
{
    n > 0
}

/// The names of a connection's two mailboxes: the client-owned request
/// box and the server-owned response box, derived deterministically from
/// the bootstrap id.
pub fn mailbox_names(id: &String) -> (r: (String, String))
    ensures
        r.0@ == id@ + "_req"@,
        r.1@ == id@ + "_res"@,
{
    let req = concat2(id.as_str(), "_req");
    let res = concat2(id.as_str(), "_res");
    (req, res)
}

} // verus!
