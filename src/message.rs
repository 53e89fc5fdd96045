//! Message records: as stored, and as shown to users.

use vstd::prelude::*;
use crate::timestamp::Timestamp;

verus! {

/// A message as the store holds it: its author and target by identity.
#[derive(Clone, Debug)]
pub struct StoredMessage {
    pub id: u64,
    pub author_id: u64,
    pub target_id: u64,
    pub text: String,
    pub timestamp: Timestamp,
}

/// A message with its author and target resolved to display names.
#[derive(Clone, Debug)]
pub struct Message {
    pub id: u64,
    pub author: String,
    pub target: String,
    pub text: String,
    pub timestamp: Timestamp,
}

/// The mathematical value of a `Message`.
pub ghost struct MessageView {
    pub id: u64,
    pub author: Seq<char>,
    pub target: Seq<char>,
    pub text: Seq<char>,
    pub timestamp: Timestamp,
}

impl View for Message {
    type V = MessageView;

    open spec fn view(&self) -> MessageView {
        MessageView {
            id: self.id,
            author: self.author@,
            target: self.target@,
            text: self.text@,
            timestamp: self.timestamp,
        }
    }
}

/// The values of a sequence of messages.
pub open spec fn views(ms: Seq<Message>) -> Seq<MessageView> {
    ms.map_values(|m: Message| m@)
}

/// A message as sent by a client: names and text, no time yet.
#[derive(Clone, Debug)]
pub struct IncomingMessage {
    pub author: String,
    pub target: String,
    pub text: String,
}

/// A message as handed out, with its time rendered for display.
#[derive(Clone, Debug)]
pub struct OutgoingMessage {
    pub id: u64,
    pub author: String,
    pub target: String,
    pub text: String,
    pub timestamp: String,
}

impl OutgoingMessage {
    /// The message with its time shown in the display time zone.
    pub fn from_message(message: Message) -> (r: OutgoingMessage)
        requires
            message.timestamp.wf(),
        ensures
            r.id == message.id,
            r.author@ == message.author@,
            r.target@ == message.target@,
            r.text@ == message.text@,
            r.timestamp@ == crate::timestamp::display_of(message.timestamp),
    {
        let timestamp = message.timestamp.display();
        OutgoingMessage {
            id: message.id,
            author: message.author,
            target: message.target,
            text: message.text,
            timestamp,
        }
    }
}

} // verus!
