//! The message data model: a structured chat message as submitted by a
//! client and fanned out to every registered connection.

use vstd::prelude::*;

verus! {

/// A structured message. `id` is a client-supplied opaque string whose
/// uniqueness is not enforced; `timestamp` is epoch milliseconds. A message
/// is immutable once received: the relay never mutates it server-side.
pub struct Message {
    pub id: String,
    pub content: String,
    pub sender: String,
    pub node_id: String,
    pub timestamp: i64,
}

/// The mathematical model of a message: each text field as a sequence of
/// characters, the timestamp as an unbounded integer.
pub struct MessageView {
    pub id: Seq<char>,
    pub content: Seq<char>,
    pub sender: Seq<char>,
    pub node_id: Seq<char>,
    pub timestamp: int,
}

impl View for Message {
    type V = MessageView;

    open spec fn view(&self) -> MessageView {
        MessageView {
            id: self.id@,
            content: self.content@,
            sender: self.sender@,
            node_id: self.node_id@,
            timestamp: self.timestamp as int,
        }
    }
}

} // verus!
