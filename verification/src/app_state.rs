//! The application's state machine: the mode, the peer list, the per-peer
//! chats, the selection, and the debug log, with the decisions for each
//! keystroke and each bus event.  The surrounding program feeds it
//! keystrokes and events and performs the one action it cannot: opening a
//! connection.

use vstd::prelude::*;
use crate::channel::send_string;
use crate::chat::{ChatMsg, ChatSender, FeedId, PeerChat};
use crate::discovery::{same_addr, PeerAddr};

verus! {

/// What part of the UI owns the keyboard.
#[derive(Debug)]
pub enum AppMode {
    Normal,
    Debug,
    Chat(FeedId),
}

impl PartialEq for AppMode {
    fn eq(&self, other: &AppMode) -> (r: bool) {
        match (self, other) {
            (AppMode::Normal, AppMode::Normal) => true,
            (AppMode::Debug, AppMode::Debug) => true,
            (AppMode::Chat(a), AppMode::Chat(b)) => *a == *b,
            _ => false,
        }
    }
}

impl vstd::std_specs::cmp::PartialEqSpecImpl for AppMode {
    open spec fn obeys_eq_spec() -> bool {
        true
    }

    open spec fn eq_spec(&self, other: &AppMode) -> bool {
        match (self, other) {
            (AppMode::Normal, AppMode::Normal) => true,
            (AppMode::Debug, AppMode::Debug) => true,
            (AppMode::Chat(a), AppMode::Chat(b)) => a@ == b@,
            _ => false,
        }
    }
}

/// A keystroke, as the state machine reads it.
#[derive(Clone, Copy, PartialEq, Eq, Structural, Debug)]
pub enum InputKey {
    Char(char),
    Up,
    Down,
    Left,
    Backspace,
    Esc,
    Other,
}

/// What the surrounding program must do after a keystroke.
pub enum Action {
    /// Nothing to do.
    Idle,
    /// Leave the program.
    Quit,
    /// Open a connection to this peer and run the client handshake.
    Connect(PeerAddr),
}

/// One line tagged `tag` was appended to the log, dropping the oldest
/// line when the log already held more than fifteen.
pub open spec fn logged_under(pre: Seq<(String, String)>, post: Seq<(String, String)>, tag: Seq<char>) -> bool {
    &&& post.len() == if pre.len() > 15 {
        pre.len() as int
    } else {
        pre.len() + 1int
    }
    &&& post.last().1@ == tag
}

/// The index of the first entry keyed by `id`.
pub open spec fn key_idx<T>(s: Seq<(FeedId, T)>, id: Seq<char>) -> Option<int>
    decreases s.len(),
{
    if s.len() == 0 {
        Option::None
    } else if s[0].0@ == id {
        Option::Some(0)
    } else {
        match key_idx(s.drop_first(), id) {
            Option::None => Option::None,
            Option::Some(i) => Option::Some(i + 1),
        }
    }
}

/// What `key_idx` returns: the least index keyed by `id`, or `None` when
/// no entry is.
pub proof fn lemma_key_idx<T>(s: Seq<(FeedId, T)>, id: Seq<char>)
    ensures
        match key_idx(s, id) {
            Option::Some(i) => 0 <= i < s.len() && s[i].0@ == id && forall|j: int|
                0 <= j < i ==> s[j].0@ != id,
            Option::None => forall|j: int| 0 <= j < s.len() ==> s[j].0@ != id,
        },
    decreases s.len(),
{
    if s.len() > 0 && s[0].0@ != id {
        let d = s.drop_first();
        lemma_key_idx(d, id);
        assert(forall|j: int| 0 <= j < d.len() ==> d[j] == s[j + 1]);
        match key_idx(d, id) {
            Option::Some(i) => {
                assert forall|j: int| 0 <= j < i + 1 implies s[j].0@ != id by {
                    if j >= 1 {
                        assert(d[j - 1] == s[j]);
                    }
                };
            },
            Option::None => {
                assert forall|j: int| 0 <= j < s.len() implies s[j].0@ != id by {
                    if j >= 1 {
                        assert(d[j - 1] == s[j]);
                    }
                };
            },
        }
    }
}

/// The application state the UI renders.
pub struct AppState {
    pub mode: AppMode,
    /// Discovered peers, in arrival order, keyed by feed id.
    pub peers: Vec<(FeedId, PeerAddr)>,
    /// Chats, keyed by feed id.
    pub chats: Vec<(FeedId, PeerChat)>,
    /// The highlighted row of the peer list.
    pub selected: Option<usize>,
    pub debug_log: Vec<(String, String)>,
}

/// No two entries share a key.
pub open spec fn keys_unique<T>(s: Seq<(FeedId, T)>) -> bool {
    forall|i: int, j: int| 0 <= i < j < s.len() ==> s[i].0@ != s[j].0@
}

impl AppState {
    /// The selection stays inside the peer list and keys stay unique.
    pub open spec fn wf(self) -> bool {
        &&& keys_unique(self.peers@)
        &&& keys_unique(self.chats@)
        &&& match self.selected {
            Option::Some(s) => s < self.peers@.len(),
            Option::None => true,
        }
    }

    /// A fresh state: normal mode, nothing discovered, nothing selected.
    pub fn new() -> (r: AppState)
        ensures
            r.wf(),
            r.mode == AppMode::Normal,
            r.peers@.len() == 0,
            r.chats@.len() == 0,
            r.selected is None,
            r.debug_log@.len() == 0,
    {
        AppState {
            mode: AppMode::Normal,
            peers: Vec::new(),
            chats: Vec::new(),
            selected: Option::None,
            debug_log: Vec::new(),
        }
    }

    /// Append a log line, keeping only the latest sixteen.
    pub fn log(&mut self, entry: (String, String))
        ensures
            final(self).debug_log@ == if old(self).debug_log@.len() > 15 {
                old(self).debug_log@.drop_first().push(entry)
            } else {
                old(self).debug_log@.push(entry)
            },
            final(self).mode == old(self).mode,
            final(self).peers == old(self).peers,
            final(self).chats == old(self).chats,
            final(self).selected == old(self).selected,
    {
        if self.debug_log.len() > 15 {
            self.debug_log.remove(0);
        }
        self.debug_log.push(entry);
    }

    /// Move the selection one row down, wrapping to the top; from nothing,
    /// select the first peer if there is one.
    pub fn select_next(&mut self)
        requires
            old(self).wf(),
        ensures
            final(self).wf(),
            final(self).selected == match old(self).selected {
                Option::Some(s) => if s + 1 >= old(self).peers@.len() {
                    Option::Some(0usize)
                } else {
                    Option::Some((s + 1) as usize)
                },
                Option::None => if old(self).peers@.len() > 0 {
                    Option::Some(0usize)
                } else {
                    Option::None::<usize>
                },
            },
            final(self).mode == old(self).mode,
            final(self).peers == old(self).peers,
            final(self).chats == old(self).chats,
            final(self).debug_log == old(self).debug_log,
    {
        let n = self.peers.len();
        self.selected = match self.selected {
            Option::Some(s) => if s + 1 >= n {
                Option::Some(0)
            } else {
                Option::Some(s + 1)
            },
            Option::None => if n > 0 {
                Option::Some(0)
            } else {
                Option::None
            },
        };
    }

    /// Move the selection one row up, wrapping to the bottom; from nothing,
    /// select the first peer if there is one.
    pub fn select_prev(&mut self)
        requires
            old(self).wf(),
        ensures
            final(self).wf(),
            final(self).selected == match old(self).selected {
                Option::Some(s) => if s > 0 {
                    Option::Some((s - 1) as usize)
                } else if old(self).peers@.len() > 0 {
                    Option::Some((old(self).peers@.len() - 1) as usize)
                } else {
                    Option::Some(0usize)
                },
                Option::None => if old(self).peers@.len() > 0 {
                    Option::Some(0usize)
                } else {
                    Option::None::<usize>
                },
            },
            final(self).mode == old(self).mode,
            final(self).peers == old(self).peers,
            final(self).chats == old(self).chats,
            final(self).debug_log == old(self).debug_log,
    {
        let n = self.peers.len();
        self.selected = match self.selected {
            Option::Some(s) => if s > 0 {
                Option::Some(s - 1)
            } else if n > 0 {
                Option::Some(n - 1)
            } else {
                Option::Some(0)
            },
            Option::None => if n > 0 {
                Option::Some(0)
            } else {
                Option::None
            },
        };
    }

    /// The position of `id` in the chat list.
    pub fn find_chat(&self, id: &FeedId) -> (r: Option<usize>)
        ensures
            match r {
                Option::Some(i) => key_idx(self.chats@, id@) == Option::Some(i as int),
                Option::None => key_idx(self.chats@, id@) is None,
            },
    {
        proof {
            lemma_key_idx(self.chats@, id@);
        }
        let n = self.chats.len();
        let mut i: usize = 0;
        while i < n
            invariant
                n == self.chats@.len(),
                i <= n,
                forall|j: int| 0 <= j < i ==> self.chats@[j].0@ != id@,
            decreases n - i,
        {
            if self.chats[i].0 == *id {
                proof {
                    lemma_key_idx(self.chats@, id@);
                    match key_idx(self.chats@, id@) {
                        Option::None => {
                            assert(self.chats@[i as int].0@ != id@);
                        },
                        Option::Some(k) => {
                            if k < i {
                                assert(self.chats@[k].0@ != id@);
                            }
                            if k > i {
                                assert(self.chats@[i as int].0@ != id@);
                            }
                        },
                    }
                }
                return Option::Some(i);
            }
            i += 1;
        }
        Option::None
    }

    /// The position of `id` in the peer list.
    pub fn find_peer(&self, id: &FeedId) -> (r: Option<usize>)
        ensures
            match r {
                Option::Some(i) => key_idx(self.peers@, id@) == Option::Some(i as int),
                Option::None => key_idx(self.peers@, id@) is None,
            },
    {
        proof {
            lemma_key_idx(self.peers@, id@);
        }
        let n = self.peers.len();
        let mut i: usize = 0;
        while i < n
            invariant
                n == self.peers@.len(),
                i <= n,
                forall|j: int| 0 <= j < i ==> self.peers@[j].0@ != id@,
            decreases n - i,
        {
            if self.peers[i].0 == *id {
                proof {
                    lemma_key_idx(self.peers@, id@);
                    match key_idx(self.peers@, id@) {
                        Option::None => {
                            assert(self.peers@[i as int].0@ != id@);
                        },
                        Option::Some(k) => {
                            if k < i {
                                assert(self.peers@[k].0@ != id@);
                            }
                            if k > i {
                                assert(self.peers@[i as int].0@ != id@);
                            }
                        },
                    }
                }
                return Option::Some(i);
            }
            i += 1;
        }
        Option::None
    }

    /// Record a discovered peer under its feed id: appended when new,
    /// ignored when already listed.  The peer list keeps arrival order.
    pub fn add_peer(&mut self, id: FeedId, peer: PeerAddr)
        requires
            old(self).wf(),
        ensures
            final(self).wf(),
            final(self).peers@ == if key_idx(old(self).peers@, id@) is Some {
                old(self).peers@
            } else {
                old(self).peers@.push((id, peer))
            },
            final(self).mode == old(self).mode,
            final(self).chats == old(self).chats,
            final(self).selected == old(self).selected,
            final(self).debug_log == old(self).debug_log,
    {
        match self.find_peer(&id) {
            Option::Some(_) => {},
            Option::None => {
                proof {
                    lemma_key_idx(self.peers@, id@);
                    assert forall|i: int, j: int|
                        0 <= i < j < self.peers@.push((id, peer)).len() implies self.peers@.push(
                        (id, peer),
                    )[i].0@ != self.peers@.push((id, peer))[j].0@ by {
                        if j < self.peers@.len() {
                        } else {
                            assert(self.peers@[i].0@ != id@);
                        }
                    };
                }
                self.peers.push((id, peer));
            },
        }
    }
}

/// The selection after one step down a list of `n` rows.
pub open spec fn next_sel(sel: Option<usize>, n: nat) -> Option<usize> {
    match sel {
        Option::Some(s) => if s + 1 >= n {
            Option::Some(0usize)
        } else {
            Option::Some((s + 1) as usize)
        },
        Option::None => if n > 0 {
            Option::Some(0usize)
        } else {
            Option::None::<usize>
        },
    }
}

/// The selection after one step up a list of `n` rows.
pub open spec fn prev_sel(sel: Option<usize>, n: nat) -> Option<usize> {
    match sel {
        Option::Some(s) => if s > 0 {
            Option::Some((s - 1) as usize)
        } else if n > 0 {
            Option::Some((n - 1) as usize)
        } else {
            Option::Some(0usize)
        },
        Option::None => if n > 0 {
            Option::Some(0usize)
        } else {
            Option::None::<usize>
        },
    }
}

impl AppState {
    /// A keystroke while the debug window owns the keyboard: escape
    /// returns to normal mode, everything else is ignored.
    pub fn handle_input_debug(&mut self, key: InputKey)
        requires
            old(self).wf(),
        ensures
            final(self).wf(),
            final(self).mode == if key is Esc {
                AppMode::Normal
            } else {
                old(self).mode
            },
            final(self).peers == old(self).peers,
            final(self).chats == old(self).chats,
            final(self).selected == old(self).selected,
            final(self).debug_log == old(self).debug_log,
    {
        match key {
            InputKey::Esc => {
                self.mode = AppMode::Normal;
            },
            _ => {},
        }
    }

    /// A keystroke on the peer list: `q` quits, `d` opens the debug
    /// window, `j`/`k` and the arrow keys move the selection with
    /// wrap-around, escape and left clear it, and return opens the chat
    /// with the selected peer, asking for a connection when none exists
    /// yet.  With nothing selected, return only logs a complaint.
    pub fn handle_input_normal(&mut self, key: InputKey) -> (r: Action)
        requires
            old(self).wf(),
        ensures
            final(self).wf(),
            final(self).peers == old(self).peers,
            match key {
                InputKey::Char(c) => {
                    if c == 'q' {
                        &&& r is Quit
                        &&& *final(self) == *old(self)
                    } else if c == 'd' {
                        &&& r is Idle
                        &&& final(self).mode == AppMode::Debug
                        &&& final(self).selected == old(self).selected
                        &&& final(self).chats == old(self).chats
                        &&& final(self).debug_log == old(self).debug_log
                    } else if c == 'j' {
                        &&& r is Idle
                        &&& final(self).selected == next_sel(
                            old(self).selected,
                            old(self).peers@.len(),
                        )
                        &&& final(self).mode == old(self).mode
                        &&& final(self).chats == old(self).chats
                        &&& final(self).debug_log == old(self).debug_log
                    } else if c == 'k' {
                        &&& r is Idle
                        &&& final(self).selected == prev_sel(
                            old(self).selected,
                            old(self).peers@.len(),
                        )
                        &&& final(self).mode == old(self).mode
                        &&& final(self).chats == old(self).chats
                        &&& final(self).debug_log == old(self).debug_log
                    } else if c == '\n' {
                        enter_on_list(*old(self), *final(self), r)
                    } else {
                        r is Idle && *final(self) == *old(self)
                    }
                },
                InputKey::Down => r is Idle && final(self).selected == next_sel(
                    old(self).selected,
                    old(self).peers@.len(),
                ) && final(self).mode == old(self).mode && final(self).chats == old(self).chats
                    && final(self).debug_log == old(self).debug_log,
                InputKey::Up => r is Idle && final(self).selected == prev_sel(
                    old(self).selected,
                    old(self).peers@.len(),
                ) && final(self).mode == old(self).mode && final(self).chats == old(self).chats
                    && final(self).debug_log == old(self).debug_log,
                InputKey::Left => r is Idle && final(self).selected is None && final(self).mode
                    == old(self).mode && final(self).chats == old(self).chats && final(self).debug_log == old(self).debug_log,
                InputKey::Esc => r is Idle && final(self).selected is None && final(self).mode
                    == old(self).mode && final(self).chats == old(self).chats && final(self).debug_log == old(self).debug_log,
                _ => r is Idle && *final(self) == *old(self),
            },
    {
        match key {
            InputKey::Char(c) => {
                if c == 'q' {
                    Action::Quit
                } else if c == 'd' {
                    self.mode = AppMode::Debug;
                    Action::Idle
                } else if c == 'j' {
                    self.select_next();
                    Action::Idle
                } else if c == 'k' {
                    self.select_prev();
                    Action::Idle
                } else if c == '\n' {
                    self.enter_selected()
                } else {
                    Action::Idle
                }
            },
            InputKey::Down => {
                self.select_next();
                Action::Idle
            },
            InputKey::Up => {
                self.select_prev();
                Action::Idle
            },
            InputKey::Left => {
                self.selected = Option::None;
                Action::Idle
            },
            InputKey::Esc => {
                self.selected = Option::None;
                Action::Idle
            },
            _ => Action::Idle,
        }
    }

    /// Open the chat with the selected peer (see [`enter_on_list`]).
    fn enter_selected(&mut self) -> (r: Action)
        requires
            old(self).wf(),
        ensures
            final(self).wf(),
            final(self).peers == old(self).peers,
            enter_on_list(*old(self), *final(self), r),
    {
        match self.selected {
            Option::None => {
                let line = <String as vstd::string::StringExecFns>::from_str(
                    "No peer selected. Cannot initialize handshake",
                );
                let tag = <String as vstd::string::StringExecFns>::from_str("ERROR");
                self.log((line, tag));
                Action::Idle
            },
            Option::Some(sel) => {
                let id = clone_string(&self.peers[sel].0);
                let peer = self.peers[sel].1.clone_addr();
                let r = match self.find_chat(&id) {
                    Option::Some(_) => Action::Idle,
                    Option::None => Action::Connect(peer),
                };
                proof {
                    lemma_key_idx(self.chats@, id@);
                }
                self.mode = AppMode::Chat(id);
                r
            },
        }
    }
}

/// What return does on the peer list: with a selection, the mode moves to
/// that peer's chat and a connection is requested when no chat exists;
/// without one, a complaint is logged.
pub open spec fn enter_on_list(pre: AppState, post: AppState, r: Action) -> bool {
    match pre.selected {
        Option::None => {
            &&& r is Idle
            &&& post.mode == pre.mode
            &&& post.selected == pre.selected
            &&& post.chats == pre.chats
            &&& logged_under(pre.debug_log@, post.debug_log@, "ERROR"@)
        },
        Option::Some(s) => {
            let id = pre.peers@[s as int].0;
            &&& post.mode matches AppMode::Chat(x) && x@ == id@
            &&& post.selected == pre.selected
            &&& post.chats == pre.chats
            &&& post.debug_log == pre.debug_log
            &&& match key_idx(pre.chats@, id@) {
                Option::Some(_) => r is Idle,
                Option::None => r matches Action::Connect(p) && same_addr(
                    p,
                    pre.peers@[s as int].1,
                ),
            }
        },
    }
}

/// Copy a string.
pub fn clone_string(s: &String) -> (r: String)
    ensures
        r@ == s@,
{
    s.clone()
}

impl crate::discovery::PeerAddr {
    /// Copy this address.
    pub fn clone_addr(&self) -> (r: crate::discovery::PeerAddr)
        ensures
            same_addr(r, *self),
    {
        crate::discovery::PeerAddr {
            protocol: self.protocol,
            socket_addr: self.socket_addr,
            public_key: clone_bytes(&self.public_key),
        }
    }
}

/// Copy a byte vector.
pub fn clone_bytes(v: &Vec<u8>) -> (r: Vec<u8>)
    ensures
        r@ == v@,
{
    let r = v.clone();
    proof {
        assert(r@ =~= v@);
    }
    r
}

/// What one keystroke does in a chat: return sends the input line when a
/// connection handle exists (logging an info line instead when it does
/// not, or when the receiver is gone), characters and backspace edit the
/// input line, and escape returns to the peer list.  Return on a chat
/// that was never opened asks for a connection to the peer instead.
pub open spec fn chat_enter(pre: AppState, post: AppState, r: Action, id: Seq<char>) -> bool {
    match key_idx(pre.chats@, id) {
        Option::None => {
            &&& post.chats == pre.chats
            &&& match key_idx(pre.peers@, id) {
                Option::Some(pi) => r matches Action::Connect(p) && same_addr(
                    p,
                    pre.peers@[pi].1,
                ),
                Option::None => r is Idle,
            }
        },
        Option::Some(i) => {
            let pm = pre.chats@[i].1.messages@;
            let m = post.chats@[i].1.messages@;
            &&& r is Idle
            &&& post.chats@.len() == pre.chats@.len()
            &&& (forall|j: int| 0 <= j < pre.chats@.len() && j != i ==> post.chats@[j]
                == pre.chats@[j])
            &&& post.chats@[i].0@ == pre.chats@[i].0@
            &&& post.chats@[i].1.peer_tx == pre.chats@[i].1.peer_tx
            &&& m.len() == pm.len() + 1
            &&& m.take(pm.len() as int) == pm
            &&& match pre.chats@[i].1.peer_tx {
                Option::Some(_) => (m.last().sender is _You && m.last().message@
                    == pre.chats@[i].1.input@ && post.chats@[i].1.input@ == Seq::<char>::empty())
                    || (m.last().sender is Info && post.chats@[i].1.input@
                    == pre.chats@[i].1.input@),
                Option::None => m.last().sender is Info && post.chats@[i].1.input@
                    == pre.chats@[i].1.input@,
            }
        },
    }
}

/// The chat keyed by `id` changed only in its input line, which became `inp`.
pub open spec fn chat_input_becomes(pre: AppState, post: AppState, id: Seq<char>, inp: Seq<char>) -> bool {
    match key_idx(pre.chats@, id) {
        Option::None => post.chats == pre.chats,
        Option::Some(i) => {
            &&& post.chats@.len() == pre.chats@.len()
            &&& (forall|j: int| 0 <= j < pre.chats@.len() && j != i ==> post.chats@[j]
                == pre.chats@[j])
            &&& post.chats@[i].0@ == pre.chats@[i].0@
            &&& post.chats@[i].1.peer_tx == pre.chats@[i].1.peer_tx
            &&& post.chats@[i].1.messages == pre.chats@[i].1.messages
            &&& post.chats@[i].1.input@ == inp
        },
    }
}

impl AppState {
    /// A keystroke while the chat keyed by `id` owns the keyboard.
    pub fn handle_input_chat(&mut self, id: &FeedId, key: InputKey) -> (r: Action)
        requires
            old(self).wf(),
        ensures
            final(self).wf(),
            final(self).peers == old(self).peers,
            final(self).selected == old(self).selected,
            final(self).debug_log == old(self).debug_log,
            final(self).mode == if key is Esc {
                AppMode::Normal
            } else {
                old(self).mode
            },
            match key {
                InputKey::Char(c) => {
                    if c == '\n' {
                        chat_enter(*old(self), *final(self), r, id@)
                    } else {
                        r is Idle && chat_input_becomes(
                            *old(self),
                            *final(self),
                            id@,
                            chat_input_of(old(self).chats@, id@).push(c),
                        )
                    }
                },
                InputKey::Backspace => {
                    let inp = chat_input_of(old(self).chats@, id@);
                    r is Idle && chat_input_becomes(
                        *old(self),
                        *final(self),
                        id@,
                        if inp.len() == 0 {
                            inp
                        } else {
                            inp.drop_last()
                        },
                    )
                },
                InputKey::Esc => r is Idle && final(self).chats == old(self).chats,
                _ => r is Idle && final(self).chats == old(self).chats,
            },
    {
        match key {
            InputKey::Esc => {
                self.mode = AppMode::Normal;
                Action::Idle
            },
            InputKey::Backspace => {
                match self.find_chat(id) {
                    Option::None => Action::Idle,
                    Option::Some(i) => {
                        proof {
                            lemma_key_idx(self.chats@, id@);
                        }
                        let mut entry = (String::new(), PeerChat::new());
                        self.chats.set_and_swap(i, &mut entry);
                        entry.1.pop_input();
                        self.chats.set_and_swap(i, &mut entry);
                        proof {
                            lemma_chats_update(old(self).chats@, self.chats@, i as int);
                        }
                        Action::Idle
                    },
                }
            },
            InputKey::Char(c) => {
                if c == '\n' {
                    self.chat_send(id)
                } else {
                    match self.find_chat(id) {
                        Option::None => Action::Idle,
                        Option::Some(i) => {
                            proof {
                                lemma_key_idx(self.chats@, id@);
                            }
                            let mut entry = (String::new(), PeerChat::new());
                            self.chats.set_and_swap(i, &mut entry);
                            entry.1.push_input(c);
                            self.chats.set_and_swap(i, &mut entry);
                            proof {
                                lemma_chats_update(old(self).chats@, self.chats@, i as int);
                            }
                            Action::Idle
                        },
                    }
                }
            },
            _ => Action::Idle,
        }
    }

    /// Send the chat's input line to its peer (see [`chat_enter`]).
    fn chat_send(&mut self, id: &FeedId) -> (r: Action)
        requires
            old(self).wf(),
        ensures
            final(self).wf(),
            final(self).peers == old(self).peers,
            final(self).selected == old(self).selected,
            final(self).debug_log == old(self).debug_log,
            final(self).mode == old(self).mode,
            chat_enter(*old(self), *final(self), r, id@),
    {
        match self.find_chat(id) {
            Option::None => {
                match self.find_peer(id) {
                    Option::Some(pi) => {
                        proof {
                            lemma_key_idx(self.peers@, id@);
                        }
                        let peer = self.peers[pi].1.clone_addr();
                        Action::Connect(peer)
                    },
                    Option::None => Action::Idle,
                }
            },
            Option::Some(i) => {
                proof {
                    lemma_key_idx(self.chats@, id@);
                }
                let mut entry = (String::new(), PeerChat::new());
                self.chats.set_and_swap(i, &mut entry);
                let has_tx = entry.1.peer_tx.is_some();
                if has_tx {
                    let text = match &entry.1.peer_tx {
                        Option::Some(tx) => {
                            let text = clone_string(&entry.1.input);
                            if send_string(tx, clone_string(&text)) {
                                Option::Some(text)
                            } else {
                                Option::None
                            }
                        },
                        Option::None => Option::None,
                    };
                    match text {
                        Option::Some(text) => {
                            entry.1.push_message(
                                ChatMsg { message: text, sender: ChatSender::_You },
                            );
                            let mut empty = String::new();
                            swap_input(&mut entry.1, &mut empty);
                        },
                        Option::None => {
                            entry.1.push_message(
                                ChatMsg {
                                    message: <String as vstd::string::StringExecFns>::from_str(
                                        "Cannot send message, broken connection?",
                                    ),
                                    sender: ChatSender::Info,
                                },
                            );
                        },
                    }
                } else {
                    entry.1.push_message(
                        ChatMsg {
                            message: <String as vstd::string::StringExecFns>::from_str(
                                "Cannot send message, broken connection?",
                            ),
                            sender: ChatSender::Info,
                        },
                    );
                }
                self.chats.set_and_swap(i, &mut entry);
                proof {
                    lemma_chats_update(old(self).chats@, self.chats@, i as int);
                    assert(self.chats@[i as int].1.messages@.take(
                        old(self).chats@[i as int].1.messages@.len() as int,
                    ) =~= old(self).chats@[i as int].1.messages@);
                }
                Action::Idle
            },
        }
    }
}

/// Replace the chat's input line by `other`, swapping the old line out.
fn swap_input(chat: &mut PeerChat, other: &mut String)
    ensures
        final(chat).input == *old(other),
        *final(other) == old(chat).input,
        final(chat).messages == old(chat).messages,
        final(chat).peer_tx == old(chat).peer_tx,
{
    core::mem::swap(&mut chat.input, other);
}

/// After writing an updated entry back at `i`, the chat list keeps its
/// keys (and hence their uniqueness) as long as the entry's key text is
/// unchanged.
proof fn lemma_chats_update(pre: Seq<(FeedId, PeerChat)>, post: Seq<(FeedId, PeerChat)>, i: int)
    requires
        keys_unique(pre),
        0 <= i < pre.len(),
        post.len() == pre.len(),
        post[i].0@ == pre[i].0@,
        forall|j: int| 0 <= j < pre.len() && j != i ==> post[j] == pre[j],
    ensures
        keys_unique(post),
{
    assert forall|a: int, b: int| 0 <= a < b < post.len() implies post[a].0@ != post[b].0@ by {
        assert(post[a].0@ == pre[a].0@);
        assert(post[b].0@ == pre[b].0@);
    };
}

/// The input line of the chat keyed by `id` (empty when there is none).
pub open spec fn chat_input_of(chats: Seq<(FeedId, PeerChat)>, id: Seq<char>) -> Seq<char> {
    match key_idx(chats, id) {
        Option::Some(i) => chats[i].1.input@,
        Option::None => Seq::<char>::empty(),
    }
}

impl AppState {
    /// Record a discovery arrival: list the peer under its feed id (once)
    /// and log its announcement text.
    pub fn on_new_peer(&mut self, peer: &PeerAddr)
        requires
            old(self).wf(),
            peer.valid(),
        ensures
            final(self).wf(),
            final(self).mode == old(self).mode,
            final(self).selected == old(self).selected,
            final(self).chats == old(self).chats,
            logged_under(old(self).debug_log@, final(self).debug_log@, "ANN"@),
            ({
                let id = crate::wire::ascii_chars(
                    crate::discovery::feed_id_bytes(peer.public_key@),
                );
                &&& key_idx(final(self).peers@, id) is Some
                &&& (key_idx(old(self).peers@, id) is Some ==> final(self).peers@
                    == old(self).peers@)
                &&& (key_idx(old(self).peers@, id) is None ==> {
                    &&& final(self).peers@.len() == old(self).peers@.len() + 1
                    &&& (forall|j: int|
                        0 <= j < old(self).peers@.len() ==> final(self).peers@[j] == old(
                            self,
                        ).peers@[j])
                    &&& final(self).peers@.last().0@ == id
                    &&& same_addr(final(self).peers@.last().1, *peer)
                })
            }),
    {
        let id = peer.feed_id();
        let line = peer.display_string();
        let tag = <String as vstd::string::StringExecFns>::from_str("ANN");
        self.log((line, tag));
        self.add_peer(id, peer.clone_addr());
        proof {
            let idv = crate::wire::ascii_chars(crate::discovery::feed_id_bytes(peer.public_key@));
            lemma_key_idx(old(self).peers@, idv);
            match key_idx(old(self).peers@, idv) {
                Option::Some(i) => {
                    assert(0 <= i < self.peers@.len() && self.peers@[i].0@ == idv);
                },
                Option::None => {
                    assert(self.peers@.last().0@ == idv);
                    let li = self.peers@.len() - 1;
                    assert(0 <= li < self.peers@.len() && self.peers@[li].0@ == idv);
                },
            }
            lemma_key_present(self.peers@, idv);
        }
    }

    /// Record a completed handshake: the chat with the peer (created if
    /// need be) gains two info lines and the fresh outbound handle.
    pub fn on_handshake_successful(
        &mut self,
        peer: &PeerAddr,
        tx: std::sync::mpsc::Sender<String>,
    )
        requires
            old(self).wf(),
            peer.valid(),
        ensures
            final(self).wf(),
            final(self).mode == old(self).mode,
            final(self).selected == old(self).selected,
            final(self).peers == old(self).peers,
            final(self).debug_log == old(self).debug_log,
            ({
                let id = crate::wire::ascii_chars(
                    crate::discovery::feed_id_bytes(peer.public_key@),
                );
                match key_idx(old(self).chats@, id) {
                    Option::Some(i) => {
                        let pm = old(self).chats@[i].1.messages@;
                        let m = final(self).chats@[i].1.messages@;
                        &&& final(self).chats@.len() == old(self).chats@.len()
                        &&& (forall|j: int|
                            0 <= j < old(self).chats@.len() && j != i ==> final(self).chats@[j]
                                == old(self).chats@[j])
                        &&& final(self).chats@[i].0@ == old(self).chats@[i].0@
                        &&& final(self).chats@[i].1.peer_tx == Option::Some(tx)
                        &&& final(self).chats@[i].1.input == old(self).chats@[i].1.input
                        &&& m.len() == pm.len() + 2
                        &&& m.take(pm.len() as int) == pm
                        &&& m[m.len() - 1].sender is Info
                        &&& m[m.len() - 2].sender is Info
                    },
                    Option::None => {
                        let m = final(self).chats@.last().1.messages@;
                        &&& final(self).chats@.len() == old(self).chats@.len() + 1
                        &&& (forall|j: int|
                            0 <= j < old(self).chats@.len() ==> final(self).chats@[j] == old(
                                self,
                            ).chats@[j])
                        &&& final(self).chats@.last().0@ == id
                        &&& final(self).chats@.last().1.peer_tx == Option::Some(tx)
                        &&& final(self).chats@.last().1.input@ == Seq::<char>::empty()
                        &&& m.len() == 2
                        &&& m[0].sender is Info
                        &&& m[1].sender is Info
                    },
                }
            }),
    {
        let id = peer.feed_id();
        let l1 = ChatMsg {
            message: <String as vstd::string::StringExecFns>::from_str("Succeeded in handshake!"),
            sender: ChatSender::Info,
        };
        let mut l2s = <String as vstd::string::StringExecFns>::from_str("Now connected to ");
        let id2 = peer.feed_id();
        vstd::string::StringExecFns::append(&mut l2s, id2.as_str());
        vstd::string::StringExecFns::append(&mut l2s, " via encrypted BoxStream");
        let l2 = ChatMsg { message: l2s, sender: ChatSender::Info };
        match self.find_chat(&id) {
            Option::Some(i) => {
                proof {
                    lemma_key_idx(self.chats@, id@);
                }
                let mut entry = (String::new(), PeerChat::new());
                self.chats.set_and_swap(i, &mut entry);
                entry.1.push_message(l1);
                entry.1.push_message(l2);
                entry.1.peer_tx = Option::Some(tx);
                self.chats.set_and_swap(i, &mut entry);
                proof {
                    lemma_chats_update(old(self).chats@, self.chats@, i as int);
                    assert(self.chats@[i as int].1.messages@.take(
                        old(self).chats@[i as int].1.messages@.len() as int,
                    ) =~= old(self).chats@[i as int].1.messages@);
                }
            },
            Option::None => {
                proof {
                    lemma_key_idx(self.chats@, id@);
                }
                let mut chat = PeerChat::new();
                chat.push_message(l1);
                chat.push_message(l2);
                chat.peer_tx = Option::Some(tx);
                self.chats.push((id, chat));
                proof {
                    assert forall|a: int, b: int|
                        0 <= a < b < self.chats@.len() implies self.chats@[a].0@
                        != self.chats@[b].0@ by {
                        if b < old(self).chats@.len() {
                        } else {
                            assert(old(self).chats@[a].0@ != self.chats@.last().0@);
                        }
                    };
                }
            },
        }
    }

    /// Record a received chat line from the peer, when its chat is open.
    pub fn on_message_received(&mut self, peer: &PeerAddr, text: String)
        requires
            old(self).wf(),
            peer.valid(),
        ensures
            final(self).wf(),
            final(self).mode == old(self).mode,
            final(self).selected == old(self).selected,
            final(self).peers == old(self).peers,
            final(self).debug_log == old(self).debug_log,
            ({
                let id = crate::wire::ascii_chars(
                    crate::discovery::feed_id_bytes(peer.public_key@),
                );
                match key_idx(old(self).chats@, id) {
                    Option::Some(i) => {
                        let pm = old(self).chats@[i].1.messages@;
                        let m = final(self).chats@[i].1.messages@;
                        &&& final(self).chats@.len() == old(self).chats@.len()
                        &&& (forall|j: int|
                            0 <= j < old(self).chats@.len() && j != i ==> final(self).chats@[j]
                                == old(self).chats@[j])
                        &&& final(self).chats@[i].0@ == old(self).chats@[i].0@
                        &&& final(self).chats@[i].1.peer_tx == old(self).chats@[i].1.peer_tx
                        &&& final(self).chats@[i].1.input == old(self).chats@[i].1.input
                        &&& m.len() == pm.len() + 1
                        &&& m.take(pm.len() as int) == pm
                        &&& m.last().sender matches ChatSender::Peer(f) && f@ == id
                        &&& m.last().message == text
                    },
                    Option::None => final(self).chats == old(self).chats,
                }
            }),
    {
        let id = peer.feed_id();
        match self.find_chat(&id) {
            Option::None => {},
            Option::Some(i) => {
                proof {
                    lemma_key_idx(self.chats@, id@);
                }
                let mut entry = (String::new(), PeerChat::new());
                self.chats.set_and_swap(i, &mut entry);
                entry.1.push_message(ChatMsg { message: text, sender: ChatSender::Peer(id) });
                self.chats.set_and_swap(i, &mut entry);
                proof {
                    lemma_chats_update(old(self).chats@, self.chats@, i as int);
                    assert(self.chats@[i as int].1.messages@.take(
                        old(self).chats@[i as int].1.messages@.len() as int,
                    ) =~= old(self).chats@[i as int].1.messages@);
                }
            },
        }
    }

    /// Record the end of a session: the chat (if open) gains an info line
    /// and loses its outbound handle; an unclean close is also logged.
    pub fn on_connection_closed(&mut self, peer: &PeerAddr, clean: bool)
        requires
            old(self).wf(),
            peer.valid(),
        ensures
            final(self).wf(),
            final(self).mode == old(self).mode,
            final(self).selected == old(self).selected,
            final(self).peers == old(self).peers,
            clean ==> final(self).debug_log == old(self).debug_log,
            ({
                let id = crate::wire::ascii_chars(
                    crate::discovery::feed_id_bytes(peer.public_key@),
                );
                match key_idx(old(self).chats@, id) {
                    Option::Some(i) => {
                        let pm = old(self).chats@[i].1.messages@;
                        let m = final(self).chats@[i].1.messages@;
                        &&& final(self).chats@.len() == old(self).chats@.len()
                        &&& (forall|j: int|
                            0 <= j < old(self).chats@.len() && j != i ==> final(self).chats@[j]
                                == old(self).chats@[j])
                        &&& final(self).chats@[i].0@ == old(self).chats@[i].0@
                        &&& final(self).chats@[i].1.peer_tx is None
                        &&& final(self).chats@[i].1.input == old(self).chats@[i].1.input
                        &&& m.len() == pm.len() + 1
                        &&& m.take(pm.len() as int) == pm
                        &&& m.last().sender is Info
                    },
                    Option::None => final(self).chats == old(self).chats,
                }
            }),
    {
        if !clean {
            let line = <String as vstd::string::StringExecFns>::from_str(
                "Connection Closed -- Error",
            );
            let tag = <String as vstd::string::StringExecFns>::from_str("ERROR");
            self.log((line, tag));
        }
        let id = peer.feed_id();
        let text = if clean {
            <String as vstd::string::StringExecFns>::from_str("Connection Closed -- Goodbye!")
        } else {
            <String as vstd::string::StringExecFns>::from_str("Connection Closed -- Error")
        };
        match self.find_chat(&id) {
            Option::None => {},
            Option::Some(i) => {
                proof {
                    lemma_key_idx(self.chats@, id@);
                }
                let mut entry = (String::new(), PeerChat::new());
                self.chats.set_and_swap(i, &mut entry);
                entry.1.push_message(ChatMsg { message: text, sender: ChatSender::Info });
                entry.1.peer_tx = Option::None;
                self.chats.set_and_swap(i, &mut entry);
                proof {
                    lemma_chats_update(old(self).chats@, self.chats@, i as int);
                    assert(self.chats@[i as int].1.messages@.take(
                        old(self).chats@[i as int].1.messages@.len() as int,
                    ) =~= old(self).chats@[i as int].1.messages@);
                }
            },
        }
    }

    /// Record a failed handshake attempt: logged, and noted in the chat
    /// (if open), whose outbound handle is dropped.
    pub fn on_handshake_failed(&mut self, peer: &PeerAddr)
        requires
            old(self).wf(),
            peer.valid(),
        ensures
            final(self).wf(),
            final(self).mode == old(self).mode,
            final(self).selected == old(self).selected,
            final(self).peers == old(self).peers,
            logged_under(old(self).debug_log@, final(self).debug_log@, "ERROR"@),
            ({
                let id = crate::wire::ascii_chars(
                    crate::discovery::feed_id_bytes(peer.public_key@),
                );
                match key_idx(old(self).chats@, id) {
                    Option::Some(i) => {
                        let pm = old(self).chats@[i].1.messages@;
                        let m = final(self).chats@[i].1.messages@;
                        &&& final(self).chats@.len() == old(self).chats@.len()
                        &&& (forall|j: int|
                            0 <= j < old(self).chats@.len() && j != i ==> final(self).chats@[j]
                                == old(self).chats@[j])
                        &&& final(self).chats@[i].0@ == old(self).chats@[i].0@
                        &&& final(self).chats@[i].1.peer_tx is None
                        &&& final(self).chats@[i].1.input == old(self).chats@[i].1.input
                        &&& m.len() == pm.len() + 1
                        &&& m.take(pm.len() as int) == pm
                        &&& m.last().sender is Info
                    },
                    Option::None => final(self).chats == old(self).chats,
                }
            }),
    {
        let id = peer.feed_id();
        let mut line = <String as vstd::string::StringExecFns>::from_str("Failed to connect to ");
        vstd::string::StringExecFns::append(&mut line, id.as_str());
        let tag = <String as vstd::string::StringExecFns>::from_str("ERROR");
        self.log((line, tag));
        let mut text = <String as vstd::string::StringExecFns>::from_str("Failed to connect to ");
        vstd::string::StringExecFns::append(&mut text, id.as_str());
        match self.find_chat(&id) {
            Option::None => {},
            Option::Some(i) => {
                proof {
                    lemma_key_idx(self.chats@, id@);
                }
                let mut entry = (String::new(), PeerChat::new());
                self.chats.set_and_swap(i, &mut entry);
                entry.1.push_message(ChatMsg { message: text, sender: ChatSender::Info });
                entry.1.peer_tx = Option::None;
                self.chats.set_and_swap(i, &mut entry);
                proof {
                    lemma_chats_update(old(self).chats@, self.chats@, i as int);
                    assert(self.chats@[i as int].1.messages@.take(
                        old(self).chats@[i as int].1.messages@.len() as int,
                    ) =~= old(self).chats@[i as int].1.messages@);
                }
            },
        }
    }
}

/// An entry keyed by `id` means `key_idx` finds one.
pub proof fn lemma_key_present<T>(s: Seq<(FeedId, T)>, id: Seq<char>)
    requires
        exists|i: int| 0 <= i < s.len() && s[i].0@ == id,
    ensures
        key_idx(s, id) is Some,
{
    lemma_key_idx(s, id);
    match key_idx(s, id) {
        Option::Some(_) => {},
        Option::None => {
            let i = choose|i: int| 0 <= i < s.len() && s[i].0@ == id;
            assert(s[i].0@ != id);
        },
    }
}

} // verus!
