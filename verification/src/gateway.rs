//! The gateway: the authentication gate that guards admission, the
//! admission step that registers a connection, and the read-loop decision
//! applied to each inbound frame.

use vstd::prelude::*;
use crate::message::Message;
use crate::decode::{decode_message, sp_decode};
use crate::registry::{Registry, RegistryError};

verus! {

/// Why a connection attempt was rejected by the auth gate.
#[derive(Debug, PartialEq, Eq, Structural)]
pub enum AuthError {
    /// The Authorization header was absent.
    MissingToken,
}

/// An admitted client's identity: the bearer token it presented.
pub struct Identity {
    pub token: String,
}

/// The auth gate: extracts the bearer token from the Authorization-style
/// header value, if one was presented. Succeeds exactly when the header
/// is present; its absence is `MissingToken`.
pub fn authenticate(authorization: Option<String>) -> (r: Result<Identity, AuthError>)
    ensures
        r is Ok <==> authorization is Some,
        r matches Ok(ident) ==> authorization matches Some(t) && ident.token == t,
        r is Err ==> r == Err::<Identity, AuthError>(AuthError::MissingToken),
{
    match authorization {
        Some(t) => Ok(Identity { token: t }),
        None => Err(AuthError::MissingToken),
    }
}

/// Why an admission attempt failed: the auth gate rejected it, or the
/// fresh identifier collided with a registered one (negligible under the
/// identifier-generation policy, but checked).
#[derive(Debug, PartialEq, Eq, Structural)]
pub enum AcceptError {
    Auth(AuthError),
    Registry(RegistryError),
}

/// A fresh connection identifier, drawn from a universally-unique
/// generator; collisions are treated as negligible but are still checked
/// by the registry.
///
/// Relies on uuid::Uuid::new_v4 (a random version-4 UUID) and
/// uuid::Uuid::as_u128; the result is random, so nothing is promised
/// of it.
#[verifier::external_body]
pub(crate) fn fresh_connection_id() -> u128 {
    uuid::Uuid::new_v4().as_u128()
}

/// Admission: the auth gate runs to completion first; only on success is
/// a fresh identifier generated and the connection registered. A rejected
/// or conflicting connection leaves the registry exactly as it was and is
/// never registered.
pub fn accept_connection<C: Copy>(
    registry: &mut Registry<C>,
    authorization: Option<String>,
    channel: C,
) -> (r: Result<u128, AcceptError>)
    requires
        old(registry).wf(),
    ensures
        final(registry).wf(),
        r matches Ok(id) ==> !old(registry)@.dom().contains(id)
            && final(registry)@ == old(registry)@.insert(id, channel)
            && authorization is Some,
        r is Err ==> *final(registry) == *old(registry),
        authorization is None <==> r == Err::<u128, AcceptError>(AcceptError::Auth(
            AuthError::MissingToken,
        )),
{
    let _identity = match authenticate(authorization) {
        Ok(i) => i,
        Err(e) => {
            return Err(AcceptError::Auth(e));
        },
    };
    let id = fresh_connection_id();
    match registry.register(id, channel) {
        Ok(_) => Ok(id),
        Err(e) => Err(AcceptError::Registry(e)),
    }
}

/// One inbound event on a connection's transport.
pub enum FrameEvent {
    /// A text frame carrying this payload.
    Text(String),
    /// A frame that is not text (binary, ping, close payloads and the
    /// like): not a message.
    NonText,
    /// The stream failed or ended.
    TransportError,
}

/// What the read loop does with one event.
pub enum LoopAction {
    /// Hand this message to the broadcast engine; the loop continues.
    Broadcast(Message),
    /// Drop the frame; the loop continues.
    Ignore,
    /// Terminate the loop and clean up the connection.
    Disconnect,
}

/// The read-loop decision for one inbound event: a transport failure, and
/// nothing else, ends the loop; a text frame that decodes is broadcast; a
/// malformed or non-text frame is dropped and the loop continues — it is
/// never broadcast and never terminates the loop.
pub fn on_frame_event(ev: FrameEvent) -> (a: LoopAction)
    ensures
        a is Disconnect <==> ev is TransportError,
        a matches LoopAction::Broadcast(m) ==> ev matches FrameEvent::Text(s) && sp_decode(s@) == Some(m@),
        ev matches FrameEvent::Text(s) && sp_decode(s@) is Some ==> a is Broadcast,
        a is Ignore <==> ev is NonText || (ev matches FrameEvent::Text(s) && sp_decode(s@) is None),
{
    match ev {
        FrameEvent::TransportError => LoopAction::Disconnect,
        FrameEvent::NonText => LoopAction::Ignore,
        FrameEvent::Text(s) => match decode_message(s.as_str()) {
            Ok(m) => LoopAction::Broadcast(m),
            Err(_) => LoopAction::Ignore,
        },
    }
}

} // verus!
