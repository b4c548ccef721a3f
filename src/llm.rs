//! The conversation held with the language model: the messages sent so far
//! and the reply being streamed back.

use vstd::prelude::*;
use vstd::string::StringExecFns;
use crate::coordinator::Status;

verus! {

/// Who a message is from.
#[derive(Clone, Copy, Debug, PartialEq, Eq, Structural)]
pub enum Role {
    System,
    User,
    Assistant,
}

/// A message of the conversation: its text and who it is from.
#[derive(Debug)]
pub struct ChatMessage(pub String, pub Role);

pub open spec fn message_view(m: ChatMessage) -> (Seq<char>, Role) {
    (m.0@, m.1)
}

pub struct Conversation {
    messages: Vec<ChatMessage>,
    reply: String,
    idle: bool,
}

impl View for Conversation {
    /// The messages, the reply streamed so far, and whether no reply is awaited.
    type V = (Seq<(Seq<char>, Role)>, Seq<char>, bool);

    closed spec fn view(&self) -> (Seq<(Seq<char>, Role)>, Seq<char>, bool) {
        (self.messages@.map_values(|m: ChatMessage| message_view(m)), self.reply@, self.idle)
    }
}

impl Conversation {
    /// An idle conversation with no messages.
    pub fn new() -> (r: Self)
        ensures
            r@ == (Seq::<(Seq<char>, Role)>::empty(), Seq::<char>::empty(), true),
    {
        let r = Conversation { messages: Vec::new(), reply: String::new(), idle: true };
        proof {
            assert(r@.0 =~= Seq::<(Seq<char>, Role)>::empty());
        }
        r
    }

    /// Adds a message for the model and starts waiting for its reply.
    pub fn send(&mut self, message: ChatMessage)
        ensures
            final(self)@ == (old(self)@.0.push(message_view(message)), Seq::<char>::empty(), false),
    {
        let ghost m = message_view(message);
        self.messages.push(message);
        self.reply = String::new();
        self.idle = false;
        proof {
            assert(self@.0 =~= old(self)@.0.push(m));
        }
    }

    /// Adds a streamed token to the reply.
    pub fn receive_token(&mut self, token: &str)
        ensures
            final(self)@ == (old(self)@.0, old(self)@.1 + token@, old(self)@.2),
    {
        self.reply.append(token);
    }

    /// Ends the reply: it joins the conversation as the assistant's message,
    /// and the conversation is idle again. Returns the reply.
    pub fn finish(&mut self) -> (r: String)
        ensures
            r@ == old(self)@.1,
            final(self)@ == (
                old(self)@.0.push((old(self)@.1, Role::Assistant)),
                Seq::<char>::empty(),
                true,
            ),
    {
        let content = self.reply.clone();
        let kept = self.reply.clone();
        self.reply = String::new();
        self.messages.push(ChatMessage(content, Role::Assistant));
        self.idle = true;
        proof {
            assert(self@.0 =~= old(self)@.0.push((old(self)@.1, Role::Assistant)));
        }
        kept
    }

    /// Gives up the reply being streamed after the model's stream failed:
    /// nothing joins the conversation, and it is idle again.
    pub fn abandon(&mut self)
        ensures
            final(self)@ == (old(self)@.0, Seq::<char>::empty(), true),
    {
        self.reply = String::new();
        self.idle = true;
    }

    /// The messages so far, oldest first.
    pub fn messages(&self) -> (r: &Vec<ChatMessage>)
        ensures
            r@.map_values(|m: ChatMessage| message_view(m)) == self@.0,
    {
        &self.messages
    }

    pub fn status(&self) -> (r: Status)
        ensures
            r == (if self@.2 {
                Status::Idle
            } else {
                Status::Busy
            }),
    {
        if self.idle {
            Status::Idle
        } else {
            Status::Busy
        }
    }
}

} // verus!
