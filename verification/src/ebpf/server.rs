//! The decisions of the eBPF command server: what to do with each receive,
//! and what to send back.

use vstd::prelude::*;

verus! {

/// The UDP port that the server listens on.
pub const EBPF_SERVER_PORT: u16 = 9970;

/// The size of the buffer that commands are received into.
pub const RECEIVE_BUFFER_LEN: usize = 1024;

/// What the server does after a receive.
#[derive(Debug, PartialEq, Eq, Structural)]
pub enum ServerStep {
    /// The receive failed: receive again.
    Retry,
    /// Nothing arrived: yield the CPU, then receive again.
    Yield,
    /// A datagram of this many bytes arrived: parse and run it.
    Handle(usize),
}

/// The step after a receive that returned `received`: a failed receive
/// is retried, an empty one yields, a datagram is handled.
pub open spec fn receive_step(received: int) -> ServerStep {
    if received < 0 {
        ServerStep::Retry
    } else if received == 0 {
        ServerStep::Yield
    } else {
        ServerStep::Handle(received as usize)
    }
}

/// No receive stops the server: whatever a receive returned, the server
/// receives again, after yielding exactly when nothing arrived, and it runs
/// a command only for a datagram that holds bytes.
pub proof fn lemma_server_keeps_serving(received: int)
    ensures
        receive_step(received) is Yield <==> received == 0,
        receive_step(received) is Handle ==> received > 0,
        received <= 0 ==> !(receive_step(received) is Handle),
{
}

/// The step after a receive that returned `received` (negative on error)
/// into a buffer of `capacity` bytes.
pub fn on_receive(received: isize, capacity: usize) -> (step: ServerStep)
    requires
        received <= capacity,
    ensures
        step == receive_step(received as int),
        received < 0 ==> step == ServerStep::Retry,
        received == 0 ==> step == ServerStep::Yield,
        received > 0 ==> step == ServerStep::Handle(received as usize),
{
    if received < 0 {
        ServerStep::Retry
    } else if received == 0 {
        ServerStep::Yield
    } else {
        ServerStep::Handle(received as usize)
    }
}

/// The datagram sent back for a command that ran: its framed reply,
/// whether it succeeded or failed.
pub fn reply_payload(reply: Result<Vec<u8>, Vec<u8>>) -> (payload: Vec<u8>)
    ensures
        payload@ == (match reply {
            Ok(m) => m@,
            Err(e) => e@,
        }),
{
    match reply {
        Ok(m) => m,
        Err(e) => e,
    }
}

} // verus!
