//! Chat data: who said a line, one chat line, and the per-peer chat state
//! the UI keeps.

use vstd::prelude::*;

verus! {

/// A peer's textual identifier, `@<base64 key>.ed25519`.
pub type FeedId = String;

/// Who a chat line is from.
#[derive(Debug)]
pub enum ChatSender {
    _You,
    Info,
    Peer(FeedId),
}

impl ChatSender {
    /// The label a chat line is rendered under.
    pub fn display_string(&self) -> (r: String)
        ensures
            r@ == match self {
                ChatSender::_You => "You"@,
                ChatSender::Info => "INFO"@,
                ChatSender::Peer(_) => "User"@,
            },
    {
        match self {
            ChatSender::_You => <String as vstd::string::StringExecFns>::from_str("You"),
            ChatSender::Info => <String as vstd::string::StringExecFns>::from_str("INFO"),
            ChatSender::Peer(_) => <String as vstd::string::StringExecFns>::from_str("User"),
        }
    }
}

/// One chat line.
#[derive(Debug)]
pub struct ChatMsg {
    pub message: String,
    pub sender: ChatSender,
}

/// The chat with one peer: its lines, the input line being typed, and the
/// handle messages to this peer are queued on (absent while disconnected).
pub struct PeerChat {
    pub messages: Vec<ChatMsg>,
    pub input: String,
    pub peer_tx: Option<std::sync::mpsc::Sender<String>>,
}

impl PeerChat {
    /// A fresh chat with no lines, no input and no connection.
    pub fn new() -> (r: PeerChat)
        ensures
            r.messages@.len() == 0,
            r.input@.len() == 0,
            r.peer_tx is None,
    {
        PeerChat { messages: Vec::new(), input: String::new(), peer_tx: Option::None }
    }

    /// Append one line.
    pub fn push_message(&mut self, m: ChatMsg)
        ensures
            final(self).messages@ == old(self).messages@.push(m),
            final(self).input == old(self).input,
            final(self).peer_tx == old(self).peer_tx,
    {
        self.messages.push(m);
    }

    /// Type one character into the input line.
    pub fn push_input(&mut self, c: char)
        ensures
            final(self).input@ == old(self).input@.push(c),
            final(self).messages == old(self).messages,
            final(self).peer_tx == old(self).peer_tx,
    {
        push_char(&mut self.input, c);
    }

    /// Erase the last character of the input line, if any.
    pub fn pop_input(&mut self)
        ensures
            final(self).input@ == if old(self).input@.len() == 0 {
                old(self).input@
            } else {
                old(self).input@.drop_last()
            },
            final(self).messages == old(self).messages,
            final(self).peer_tx == old(self).peer_tx,
    {
        pop_char(&mut self.input);
    }
}

/// Relies on `String::push`: appends one character.
#[verifier::external_body]
fn push_char(s: &mut String, c: char)
    ensures
        final(s)@ == old(s)@.push(c),
{
    s.push(c);
}

/// Relies on `String::pop`: removes the last character, if any.
#[verifier::external_body]
fn pop_char(s: &mut String)
    ensures
        final(s)@ == if old(s)@.len() == 0 {
            old(s)@
        } else {
            old(s)@.drop_last()
        },
{
    s.pop();
}

} // verus!
