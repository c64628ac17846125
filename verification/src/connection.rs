//! What becomes of an accepted client: it is asked for more bytes, turned
//! away, or handed to a backend.

use vstd::prelude::*;
use crate::error::ProtocolError;
use crate::handshake::{decode_handshake, read_handshake, HandshakeRecord};
use crate::routing::{route_key, route_key_of, BackendAddress, RoutingTable};

verus! {

/// Why a client is turned away before any backend is contacted.
#[derive(Clone, Copy, Debug, PartialEq, Eq, Structural)]
pub enum Refusal {
    /// What it sent is no handshake.
    Protocol(ProtocolError),
    /// No backend is configured for the host and port it asked for.
    HostNotConfigured,
}

/// The next step for a connection whose handshake has not been forwarded
/// yet.
#[derive(Clone, Debug, PartialEq, Eq)]
pub enum Admission {
    /// Read exactly `count` more bytes from the client, then ask again.
    NeedBytes { count: usize },
    /// Close the client's connection.
    Refused { reason: Refusal },
    /// Connect to `backend`; the handshake took the first `consumed` bytes.
    Connect { record: HandshakeRecord, backend: BackendAddress, consumed: usize },
}

/// Decides on the strength of the bytes received from a client so far.
///
/// Nothing is routed before the handshake is complete, and the handshake is
/// complete as soon as its last field is: the client is never asked for a
/// byte beyond it.
pub fn next_step(table: &RoutingTable, received: &[u8]) -> (step: Admission)
    ensures
        match decode_handshake(received@) {
            Err(ProtocolError::Truncated { needed }) => step == (Admission::NeedBytes {
                count: needed,
            }),
            Err(e) => step == (Admission::Refused { reason: Refusal::Protocol(e) }),
            Ok((handshake, n)) => {
                let key = route_key_of(handshake.hostname, handshake.port);
                if table@.contains_key(key) {
                    step matches Admission::Connect { record, backend, consumed } && record@
                        == handshake && backend@ == table@[key] && consumed == n
                } else {
                    step == (Admission::Refused { reason: Refusal::HostNotConfigured })
                }
            },
        },
{
    match read_handshake(received) {
        Err(ProtocolError::Truncated { needed }) => Admission::NeedBytes { count: needed },
        Err(e) => Admission::Refused { reason: Refusal::Protocol(e) },
        Ok((record, consumed)) => {
            let key = route_key(record.hostname.as_str(), record.port);
            match table.resolve(key.as_str()) {
                Some(found) => {
                    let backend = BackendAddress { host: found.host.clone(), port: found.port };
                    Admission::Connect { record, backend, consumed }
                },
                None => Admission::Refused { reason: Refusal::HostNotConfigured },
            }
        },
    }
}

} // verus!
