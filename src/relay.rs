//! The relay: a user table and a message log, with get-or-create resolution
//! of names, appending of messages and the two read modes.
//!
//! `Relay` is an in-memory model of the relational store: it states and
//! proves what the store-backed service does, and serves tests and embedded
//! use. The HTTP service keeps its tables in SQLite and uses the row readers
//! of `reader` and the protocol step of `directory` instead.

use vstd::prelude::*;
use crate::directory::{
    check_name, directory_wf, id_in, insert_outcome, lemma_id_in, name_of, names_of, resolved, User,
};
use crate::error::RelayError;
use crate::message::{views, IncomingMessage, Message, MessageView, StoredMessage};
use crate::reader::{
    chronological, conversation_rows, conversation_view, from_log_addressed_to, inbox_rows,
    inbox_view, joined, lemma_inbox_exact, shown, views_chronological,
};
use crate::timestamp::Timestamp;

verus! {

/// A log whose messages are numbered from one in order, carry valid
/// instants in non-decreasing order, and reference users `1..=n_users`.
pub open spec fn log_wf(log: Seq<StoredMessage>, n_users: nat) -> bool {
    &&& forall|i: int|
        0 <= i < log.len() ==> {
            &&& (#[trigger] log[i]).id == i + 1
            &&& log[i].timestamp.wf()
            &&& 1 <= log[i].author_id <= n_users
            &&& 1 <= log[i].target_id <= n_users
        }
    &&& chronological(log)
}

/// `name` can be resolved in a directory holding `names`: it is not empty,
/// and it is known or there is an identity left for it.
pub open spec fn resolvable(names: Seq<Seq<char>>, name: Seq<char>) -> bool {
    name.len() > 0 && (id_in(names, name) is Some || names.len() < u64::MAX)
}

/// The user table has identities left for two more users.
pub open spec fn room_for_two(names: Seq<Seq<char>>) -> bool {
    names.len() + 2 <= u64::MAX
}

/// The instant given to a message appended at `now` to `log`: `now`, or the
/// last message's instant where the clock reads earlier than that.
pub open spec fn stamp_for(log: Seq<StoredMessage>, now: Timestamp) -> Timestamp {
    if log.len() > 0 && now.instant() <= log.last().timestamp.instant() {
        log.last().timestamp
    } else {
        now
    }
}

/// The user table and the message log of a relay.
pub struct Relay {
    users: Vec<User>,
    messages: Vec<StoredMessage>,
}

impl Relay {
    /// The rows of the user table.
    pub closed spec fn user_rows(&self) -> Seq<User> {
        self.users@
    }

    /// The message log, in the order of appending.
    pub closed spec fn log(&self) -> Seq<StoredMessage> {
        self.messages@
    }

    /// The names of the users, in order of creation; the user at position
    /// `i` has identity `i + 1`.
    pub open spec fn names(&self) -> Seq<Seq<char>> {
        names_of(self.user_rows())
    }

    /// The user table is numbered from one with unique, non-empty names, and
    /// the log is numbered from one, in order of time, between known users.
    pub open spec fn wf(&self) -> bool {
        directory_wf(self.user_rows()) && log_wf(self.log(), self.user_rows().len())
    }

    /// An empty relay.
    pub fn new() -> (r: Relay)
        ensures
            r.wf(),
            r.names() == Seq::<Seq<char>>::empty(),
            r.log() == Seq::<StoredMessage>::empty(),
    {
        let r = Relay { users: Vec::new(), messages: Vec::new() };
        assert(r.names() =~= Seq::<Seq<char>>::empty());
        r
    }

    /// The rows of the user table.
    pub fn users(&self) -> (r: &Vec<User>)
        ensures
            r@ == self.user_rows(),
    {
        &self.users
    }

    /// The message log.
    pub fn messages(&self) -> (r: &Vec<StoredMessage>)
        ensures
            r@ == self.log(),
    {
        &self.messages
    }

    /// The user named `name`, if there is one.
    pub fn get_user(&self, name: &String) -> (r: Option<User>)
        requires
            self.wf(),
        ensures
            r is None <==> id_in(self.names(), name@) is None,
            r matches Some(u) ==> id_in(self.names(), name@) == Some(u.id as nat) && u.name@
                == name@,
    {
        let mut i: usize = 0;
        while i < self.users.len()
            invariant
                self.wf(),
                i <= self.users.len(),
                forall|k: int| 0 <= k < i ==> self.names()[k] != name@,
            decreases self.users.len() - i,
        {
            if self.users[i].name == *name {
                proof {
                    lemma_id_in(self.names(), name@);
                    assert(self.names()[i as int] == name@);
                }
                return Some(User { id: self.users[i].id, name: self.users[i].name.clone() });
            }
            i = i + 1;
        }
        proof {
            lemma_id_in(self.names(), name@);
        }
        assert(!self.names().contains(name@));
        None
    }

    /// Adds a user named `name`. The name must be new (the unique index on
    /// names) and not empty, and an identity must be left for it.
    pub fn create_user(&mut self, name: &String) -> (r: Result<u64, RelayError>)
        requires
            old(self).wf(),
        ensures
            final(self).wf(),
            final(self).log() == old(self).log(),
            name@.len() == 0 ==> r == Err::<u64, RelayError>(RelayError::UserResolutionFailed),
            name@.len() > 0 ==> match insert_outcome(old(self).names(), name@) {
                Err(e) => r == Err::<u64, RelayError>(e),
                Ok((names, id)) => if old(self).names().len() < u64::MAX {
                    r == Ok::<u64, RelayError>(id as u64) && final(self).names() == names
                } else {
                    r == Err::<u64, RelayError>(RelayError::StoreUnavailable)
                },
            },
            r is Err ==> final(self).names() == old(self).names(),
    {
        if let Err(e) = check_name(name) {
            return Err(e);
        }
        if self.get_user(name).is_some() {
            return Err(RelayError::IdentityConflict);
        }
        if self.users.len() as u64 == u64::MAX {
            return Err(RelayError::StoreUnavailable);
        }
        let id = self.users.len() as u64 + 1;
        proof {
            lemma_id_in(self.names(), name@);
        }
        let ghost before = self.names();
        self.users.push(User { id, name: name.clone() });
        proof {
            assert(self.names() =~= before.push(name@));
            assert forall|i: int, j: int| 0 <= i < j < self.names().len() implies self.names()[i]
                != self.names()[j] by {
                if j == before.len() {
                    assert(self.names()[i] == before[i]);
                } else {
                    assert(self.names()[i] == before[i] && self.names()[j] == before[j]);
                }
            }
        }
        Ok(id)
    }

    /// The user named `name`, created if there is none yet: look the name
    /// up; where it is missing, insert it, and on success or on a conflict
    /// (another caller inserted it first) look it up again.
    pub fn get_or_create_user(&mut self, name: &String) -> (r: Result<User, RelayError>)
        requires
            old(self).wf(),
        ensures
            final(self).wf(),
            final(self).log() == old(self).log(),
            r == Err::<User, RelayError>(RelayError::UserResolutionFailed) <==> name@.len() == 0,
            r == Err::<User, RelayError>(RelayError::StoreUnavailable) <==> name@.len() > 0
                && !resolvable(old(self).names(), name@),
            r is Ok <==> resolvable(old(self).names(), name@),
            r matches Ok(u) ==> {
                &&& u.name@ == name@
                &&& u.id as nat == resolved(old(self).names(), name@).1
                &&& final(self).names() == resolved(old(self).names(), name@).0
            },
            r is Err ==> final(self).names() == old(self).names(),
    {
        if let Some(user) = self.get_user(name) {
            proof {
                lemma_id_in(self.names(), name@);
                let k = user.id - 1;
                assert(self.names()[k] == self.user_rows()[k].name@);
            }
            return Ok(user);
        }
        match self.create_user(name) {
            Ok(_) => {},
            Err(RelayError::IdentityConflict) => {},
            Err(e) => {
                return Err(e);
            },
        }
        proof {
            lemma_id_in(self.names(), name@);
            assert(self.names().last() == name@);
        }
        match self.get_user(name) {
            Some(user) => Ok(user),
            None => Err(RelayError::StoreUnavailable),
        }
    }

    /// Appends the message from `incoming.author` to `incoming.target` at
    /// the clock reading `now`,
    /// creating either user if new. The message is stamped `now`, or the
    /// last message's instant where the clock reads earlier, so that the log
    /// stays in order of time. Fails with `StoreUnavailable`, changing
    /// nothing, where no identity is left for two more users or for one more
    /// message.
    pub fn send_message(&mut self, incoming: IncomingMessage, now: Timestamp) -> (r: Result<
        Message,
        RelayError,
    >)
        requires
            old(self).wf(),
            now.wf(),
        ensures
            final(self).wf(),
            r == Err::<Message, RelayError>(RelayError::UserResolutionFailed) <==> (incoming.author@.len()
                == 0 || incoming.target@.len() == 0),
            r == Err::<Message, RelayError>(RelayError::StoreUnavailable) <==> (incoming.author@.len() > 0
                && incoming.target@.len() > 0 && !(room_for_two(old(self).names()) && old(self).log().len()
                < u64::MAX)),
            r is Ok <==> (incoming.author@.len() > 0 && incoming.target@.len() > 0 && room_for_two(
                old(self).names(),
            ) && old(self).log().len() < u64::MAX),
            r is Err ==> final(self).names() == old(self).names() && final(self).log() == old(
                self,
            ).log(),
            r matches Ok(m) ==> {
                let (after_author, author_id) = resolved(old(self).names(), incoming.author@);
                let (after_target, target_id) = resolved(after_author, incoming.target@);
                let stored = final(self).log().last();
                &&& final(self).names() == after_target
                &&& final(self).log().len() == old(self).log().len() + 1
                &&& final(self).log().drop_last() == old(self).log()
                &&& stored.id == old(self).log().len() + 1
                &&& stored.author_id == author_id
                &&& stored.target_id == target_id
                &&& stored.text@ == incoming.text@
                &&& stored.timestamp == stamp_for(old(self).log(), now)
                &&& m@ == (MessageView {
                    id: stored.id,
                    author: incoming.author@,
                    target: incoming.target@,
                    text: incoming.text@,
                    timestamp: stored.timestamp,
                })
                &&& forall|i: int|
                    0 <= i < old(self).log().len() ==> (#[trigger] old(self).log()[i]).timestamp.instant()
                        <= m.timestamp.instant()
            },
    {
        let IncomingMessage { author, target, text } = incoming;
        if author.as_str().is_empty() || target.as_str().is_empty() {
            return Err(RelayError::UserResolutionFailed);
        }
        if self.users.len() as u64 > u64::MAX - 2 || self.messages.len() as u64 == u64::MAX {
            return Err(RelayError::StoreUnavailable);
        }
        let ghost start = self.names();
        proof {
            lemma_resolved_in_range(start, author@);
        }
        let author_user = match self.get_or_create_user(&author) {
            Ok(u) => u,
            Err(e) => {
                return Err(e);
            },
        };
        proof {
            lemma_resolved_in_range(self.names(), target@);
        }
        let target_user = match self.get_or_create_user(&target) {
            Ok(u) => u,
            Err(e) => {
                return Err(e);
            },
        };
        let n = self.messages.len();
        let last = if n > 0 {
            Some(self.messages[n - 1].timestamp)
        } else {
            None
        };
        let timestamp = Timestamp::stamp_after(last, now);
        let id = n as u64 + 1;
        let ghost before = self.log();
        self.messages.push(
            StoredMessage {
                id,
                author_id: author_user.id,
                target_id: target_user.id,
                text: text.clone(),
                timestamp,
            },
        );
        proof {
            assert(self.log().drop_last() =~= before);
            assert forall|i: int, j: int| 0 <= i < j < self.log().len() implies self.log()[i].timestamp.instant()
                <= self.log()[j].timestamp.instant() by {
                if j == before.len() && i < before.len() - 1 {
                    assert(before[i].timestamp.instant() <= before.last().timestamp.instant());
                }
            }
        }
        Ok(
            Message {
                id,
                author: author_user.name,
                target: target_user.name,
                text,
                timestamp,
            },
        )
    }

    /// Everything addressed to `target`, oldest first, with names; `target`
    /// is created if new.
    pub fn get_inbox(&mut self, target: &String) -> (r: Result<Vec<Message>, RelayError>)
        requires
            old(self).wf(),
        ensures
            final(self).wf(),
            final(self).log() == old(self).log(),
            r == Err::<Vec<Message>, RelayError>(RelayError::UserResolutionFailed) <==> target@.len()
                == 0,
            r == Err::<Vec<Message>, RelayError>(RelayError::StoreUnavailable) <==> target@.len() > 0
                && !resolvable(old(self).names(), target@),
            r is Ok <==> resolvable(old(self).names(), target@),
            r is Err ==> final(self).names() == old(self).names(),
            r matches Ok(v) ==> {
                let (names, id) = resolved(old(self).names(), target@);
                &&& final(self).names() == names
                &&& views(v@) == inbox_view(final(self).user_rows(), final(self).log(), id as u64)
            },
    {
        let user = match self.get_or_create_user(target) {
            Ok(u) => u,
            Err(e) => {
                return Err(e);
            },
        };
        Ok(inbox_rows(&self.users, &self.messages, user.id))
    }

    /// Everything exchanged between `me` and `other`, in either direction,
    /// oldest first, with names; either user is created if new. Fails with
    /// `StoreUnavailable`, changing nothing, where the user table has no
    /// identities left for two more users.
    pub fn get_messages(&mut self, me: &String, other: &String) -> (r: Result<
        Vec<Message>,
        RelayError,
    >)
        requires
            old(self).wf(),
        ensures
            final(self).wf(),
            final(self).log() == old(self).log(),
            r == Err::<Vec<Message>, RelayError>(RelayError::UserResolutionFailed) <==> (me@.len()
                == 0 || other@.len() == 0),
            r == Err::<Vec<Message>, RelayError>(RelayError::StoreUnavailable) <==> (me@.len() > 0
                && other@.len() > 0 && !room_for_two(old(self).names())),
            r is Ok <==> (me@.len() > 0 && other@.len() > 0 && room_for_two(old(self).names())),
            r is Err ==> final(self).names() == old(self).names(),
            r matches Ok(v) ==> {
                let (after_me, me_id) = resolved(old(self).names(), me@);
                let (after_other, other_id) = resolved(after_me, other@);
                &&& final(self).names() == after_other
                &&& views(v@) == conversation_view(
                    final(self).user_rows(),
                    final(self).log(),
                    me_id as u64,
                    other_id as u64,
                )
            },
    {
        if me.as_str().is_empty() || other.as_str().is_empty() {
            return Err(RelayError::UserResolutionFailed);
        }
        if self.users.len() as u64 > u64::MAX - 2 {
            return Err(RelayError::StoreUnavailable);
        }
        proof {
            lemma_resolved_in_range(self.names(), me@);
        }
        let me_user = match self.get_or_create_user(me) {
            Ok(u) => u,
            Err(e) => {
                return Err(e);
            },
        };
        proof {
            lemma_resolved_in_range(self.names(), other@);
        }
        let other_user = match self.get_or_create_user(other) {
            Ok(u) => u,
            Err(e) => {
                return Err(e);
            },
        };
        Ok(conversation_rows(&self.users, &self.messages, me_user.id, other_user.id))
    }
}

/// The identity a resolution yields is a row of the resulting directory,
/// which grows by at most one row and keeps its names unique.
proof fn lemma_resolved_in_range(names: Seq<Seq<char>>, name: Seq<char>)
    requires
        crate::directory::names_unique(names),
    ensures
        1 <= resolved(names, name).1 <= resolved(names, name).0.len() <= names.len() + 1,
{
    lemma_id_in(names, name);
}

/// In a directory numbered from one in order, identity `id` names the row at
/// position `id - 1`.
proof fn lemma_name_of_numbered(users: Seq<User>, id: u64)
    requires
        forall|i: int| 0 <= i < users.len() ==> (#[trigger] users[i]).id == i + 1,
        1 <= id <= users.len(),
    ensures
        name_of(users, id) == Some(users[id - 1].name@),
    decreases users.len(),
{
    if id < users.len() {
        let rest = users.drop_last();
        assert forall|i: int| 0 <= i < rest.len() implies (#[trigger] rest[i]).id == i + 1 by {
            assert(rest[i] == users[i]);
        }
        assert(users.last() == users[users.len() - 1]);
        lemma_name_of_numbered(rest, id);
        assert(rest[id - 1] == users[id - 1]);
    }
}

/// The inbox of the user with identity `target` holds exactly the messages
/// addressed to `target`, each once, oldest first: every message of the
/// relay's log resolves to names.
pub proof fn lemma_relay_inbox(relay: &Relay, target: u64)
    requires
        relay.wf(),
    ensures
        forall|i: int| 0 <= i < relay.log().len() ==> joined(relay.user_rows(), #[trigger] relay.log()[i]),
        forall|k: int|
            0 <= k < inbox_view(relay.user_rows(), relay.log(), target).len()
                ==> #[trigger] from_log_addressed_to(
                relay.user_rows(),
                relay.log(),
                target,
                inbox_view(relay.user_rows(), relay.log(), target)[k],
            ),
        forall|i: int|
            0 <= i < relay.log().len() && relay.log()[i].target_id == target ==> inbox_view(
                relay.user_rows(),
                relay.log(),
                target,
            ).contains(#[trigger] shown(relay.user_rows(), relay.log()[i])),
        views_chronological(inbox_view(relay.user_rows(), relay.log(), target)),
{
    let users = relay.user_rows();
    let log = relay.log();
    assert forall|i: int| 0 <= i < log.len() implies joined(users, #[trigger] log[i]) by {
        lemma_name_of_numbered(users, log[i].author_id);
        lemma_name_of_numbered(users, log[i].target_id);
    }
    lemma_inbox_exact(users, log, target);
}

} // verus!
