//! The conversation reader: inbox and two-party history, read from the rows
//! of the user and message tables, with identities resolved to names.

use vstd::prelude::*;
use crate::directory::{name_of, User};
use crate::message::{views, Message, MessageView, StoredMessage};

verus! {

/// Both ends of the message resolve to a user row (the inner join).
pub open spec fn joined(users: Seq<User>, m: StoredMessage) -> bool {
    name_of(users, m.author_id) is Some && name_of(users, m.target_id) is Some
}

/// The message as shown: its author and target by name.
pub open spec fn shown(users: Seq<User>, m: StoredMessage) -> MessageView {
    MessageView {
        id: m.id,
        author: name_of(users, m.author_id).unwrap(),
        target: name_of(users, m.target_id).unwrap(),
        text: m.text@,
        timestamp: m.timestamp,
    }
}

/// The joined messages of `log` that `keep` accepts, shown, in log order.
pub open spec fn selected(
    users: Seq<User>,
    log: Seq<StoredMessage>,
    keep: spec_fn(StoredMessage) -> bool,
) -> Seq<MessageView>
    decreases log.len(),
{
    if log.len() == 0 {
        Seq::empty()
    } else {
        let rest = selected(users, log.drop_last(), keep);
        if keep(log.last()) && joined(users, log.last()) {
            rest.push(shown(users, log.last()))
        } else {
            rest
        }
    }
}

/// The message is addressed to `target`.
pub open spec fn addressed_to(m: StoredMessage, target: u64) -> bool {
    m.target_id == target
}

/// The message goes between `me` and `other`, in either direction; between
/// two distinct identities, one whose two ends carry the same name (stale
/// duplicate rows) is left out.
pub open spec fn exchanged(users: Seq<User>, m: StoredMessage, me: u64, other: u64) -> bool {
    &&& (m.author_id == me && m.target_id == other) || (m.author_id == other && m.target_id == me)
    &&& me == other || name_of(users, m.author_id) != name_of(users, m.target_id)
}

/// Everything addressed to `target`, in log order.
pub open spec fn inbox_view(users: Seq<User>, log: Seq<StoredMessage>, target: u64) -> Seq<
    MessageView,
> {
    selected(users, log, |m: StoredMessage| addressed_to(m, target))
}

/// Everything exchanged between `me` and `other`, in log order.
pub open spec fn conversation_view(
    users: Seq<User>,
    log: Seq<StoredMessage>,
    me: u64,
    other: u64,
) -> Seq<MessageView> {
    selected(users, log, |m: StoredMessage| exchanged(users, m, me, other))
}

/// The log is in non-decreasing order of time.
pub open spec fn chronological(log: Seq<StoredMessage>) -> bool {
    forall|i: int, j: int|
        0 <= i < j < log.len() ==> log[i].timestamp.instant() <= log[j].timestamp.instant()
}

/// The shown messages are in non-decreasing order of time.
pub open spec fn views_chronological(ms: Seq<MessageView>) -> bool {
    forall|i: int, j: int|
        0 <= i < j < ms.len() ==> ms[i].timestamp.instant() <= ms[j].timestamp.instant()
}

/// The name of the user with identity `id`, as `name_of` picks it.
pub fn find_name(users: &Vec<User>, id: u64) -> (r: Option<String>)
    ensures
        r matches Some(n) ==> name_of(users@, id) == Some(n@),
        r is None ==> name_of(users@, id) is None,
{
    let mut i = users.len();
    assert(users@.subrange(0, i as int) =~= users@);
    while i > 0
        invariant
            i <= users.len(),
            name_of(users@.subrange(0, i as int), id) == name_of(users@, id),
        decreases i,
    {
        let ghost sub = users@.subrange(0, i as int);
        assert(sub.drop_last() =~= users@.subrange(0, i - 1));
        if users[i - 1].id == id {
            return Some(users[i - 1].name.clone());
        }
        i = i - 1;
    }
    None
}

/// The message with its ends resolved to names, if both resolve.
pub fn show(users: &Vec<User>, m: &StoredMessage) -> (r: Option<Message>)
    ensures
        r is Some <==> joined(users@, *m),
        r matches Some(v) ==> v@ == shown(users@, *m),
{
    match find_name(users, m.author_id) {
        None => None,
        Some(author) => match find_name(users, m.target_id) {
            None => None,
            Some(target) => Some(
                Message {
                    id: m.id,
                    author,
                    target,
                    text: m.text.clone(),
                    timestamp: m.timestamp,
                },
            ),
        },
    }
}

/// One more message of the log, looked at by a selection.
proof fn lemma_selected_step(
    users: Seq<User>,
    log: Seq<StoredMessage>,
    keep: spec_fn(StoredMessage) -> bool,
    i: int,
)
    requires
        0 <= i < log.len(),
    ensures
        selected(users, log.subrange(0, i + 1), keep) == (if keep(log[i]) && joined(
            users,
            log[i],
        ) {
            selected(users, log.subrange(0, i), keep).push(shown(users, log[i]))
        } else {
            selected(users, log.subrange(0, i), keep)
        }),
{
    assert(log.subrange(0, i + 1).drop_last() =~= log.subrange(0, i));
}

/// The inbox of `target`: every message addressed to it whose ends resolve,
/// shown with names, in the order of `messages`.
pub fn inbox_rows(users: &Vec<User>, messages: &Vec<StoredMessage>, target: u64) -> (r: Vec<
    Message,
>)
    ensures
        views(r@) == inbox_view(users@, messages@, target),
        chronological(messages@) ==> views_chronological(views(r@)),
{
    let ghost keep = |m: StoredMessage| addressed_to(m, target);
    let mut r: Vec<Message> = Vec::new();
    let mut i: usize = 0;
    while i < messages.len()
        invariant
            i <= messages.len(),
            keep == (|m: StoredMessage| addressed_to(m, target)),
            views(r@) == selected(users@, messages@.subrange(0, i as int), keep),
        decreases messages.len() - i,
    {
        proof {
            lemma_selected_step(users@, messages@, keep, i as int);
        }
        if messages[i].target_id == target {
            if let Some(v) = show(users, &messages[i]) {
                let ghost before = r@;
                r.push(v);
                assert(views(r@) =~= views(before).push(v@));
            }
        }
        i = i + 1;
    }
    assert(messages@.subrange(0, messages.len() as int) =~= messages@);
    proof {
        if chronological(messages@) {
            lemma_selected_chronological(users@, messages@, keep);
        }
    }
    r
}

/// The conversation between `me` and `other`: every message between them in
/// either direction whose ends resolve (between distinct identities, not one
/// whose ends carry the same name), shown with names, in the order of
/// `messages`.
pub fn conversation_rows(
    users: &Vec<User>,
    messages: &Vec<StoredMessage>,
    me: u64,
    other: u64,
) -> (r: Vec<Message>)
    ensures
        views(r@) == conversation_view(users@, messages@, me, other),
        chronological(messages@) ==> views_chronological(views(r@)),
{
    let ghost keep = |m: StoredMessage| exchanged(users@, m, me, other);
    let mut r: Vec<Message> = Vec::new();
    let mut i: usize = 0;
    while i < messages.len()
        invariant
            i <= messages.len(),
            keep == (|m: StoredMessage| exchanged(users@, m, me, other)),
            views(r@) == selected(users@, messages@.subrange(0, i as int), keep),
        decreases messages.len() - i,
    {
        proof {
            lemma_selected_step(users@, messages@, keep, i as int);
        }
        let m = &messages[i];
        let between = (m.author_id == me && m.target_id == other) || (m.author_id == other
            && m.target_id == me);
        if between {
            if let Some(v) = show(users, m) {
                if me == other || v.author != v.target {
                    let ghost before = r@;
                    r.push(v);
                    assert(views(r@) =~= views(before).push(v@));
                }
            }
        }
        i = i + 1;
    }
    assert(messages@.subrange(0, messages.len() as int) =~= messages@);
    proof {
        if chronological(messages@) {
            lemma_selected_chronological(users@, messages@, keep);
        }
    }
    r
}

/// Two selections whose tests agree on every message select the same.
proof fn lemma_selected_congruent(
    users: Seq<User>,
    log: Seq<StoredMessage>,
    p: spec_fn(StoredMessage) -> bool,
    q: spec_fn(StoredMessage) -> bool,
)
    requires
        forall|m: StoredMessage| #[trigger] p(m) == q(m),
    ensures
        selected(users, log, p) == selected(users, log, q),
    decreases log.len(),
{
    if log.len() > 0 {
        lemma_selected_congruent(users, log.drop_last(), p, q);
    }
}

/// Each selected message is a kept, joined message of the log, shown, and
/// each kept, joined message of the log is among those selected.
pub proof fn lemma_selected_members(
    users: Seq<User>,
    log: Seq<StoredMessage>,
    keep: spec_fn(StoredMessage) -> bool,
)
    ensures
        forall|k: int|
            0 <= k < selected(users, log, keep).len() ==> exists|i: int|
                0 <= i < log.len() && keep(log[i]) && joined(users, log[i])
                    && #[trigger] selected(users, log, keep)[k] == shown(users, log[i]),
        forall|i: int|
            0 <= i < log.len() && keep(log[i]) && joined(users, log[i]) ==> selected(
                users,
                log,
                keep,
            ).contains(#[trigger] shown(users, log[i])),
    decreases log.len(),
{
    if log.len() > 0 {
        let rest = log.drop_last();
        lemma_selected_members(users, rest, keep);
        let sel = selected(users, log, keep);
        let sub = selected(users, rest, keep);
        assert forall|k: int| 0 <= k < sel.len() implies exists|i: int|
            0 <= i < log.len() && keep(log[i]) && joined(users, log[i]) && #[trigger] sel[k]
                == shown(users, log[i]) by {
            if k < sub.len() {
                assert(sel[k] == sub[k]);
                let i = choose|i: int|
                    0 <= i < rest.len() && keep(rest[i]) && joined(users, rest[i]) && sub[k]
                        == shown(users, rest[i]);
                assert(log[i] == rest[i]);
            } else {
                assert(log[log.len() - 1] == log.last());
            }
        }
        assert forall|i: int|
            0 <= i < log.len() && keep(log[i]) && joined(users, log[i]) implies sel.contains(
            #[trigger] shown(users, log[i]),
        ) by {
            if i < rest.len() {
                assert(rest[i] == log[i]);
                let k = choose|k: int| 0 <= k < sub.len() && sub[k] == shown(users, rest[i]);
                assert(sel[k] == sub[k]);
            } else {
                assert(sel[sel.len() - 1] == shown(users, log.last()));
            }
        }
    }
}

/// A selection from a chronological log is chronological.
pub proof fn lemma_selected_chronological(
    users: Seq<User>,
    log: Seq<StoredMessage>,
    keep: spec_fn(StoredMessage) -> bool,
)
    requires
        chronological(log),
    ensures
        views_chronological(selected(users, log, keep)),
    decreases log.len(),
{
    if log.len() > 0 {
        let rest = log.drop_last();
        lemma_selected_chronological(users, rest, keep);
        lemma_selected_members(users, rest, keep);
        let sel = selected(users, log, keep);
        let sub = selected(users, rest, keep);
        assert forall|a: int, b: int| 0 <= a < b < sel.len() implies sel[a].timestamp.instant()
            <= sel[b].timestamp.instant() by {
            if b >= sub.len() {
                assert(sel[a] == sub[a]);
                let i = choose|i: int|
                    0 <= i < rest.len() && keep(rest[i]) && joined(users, rest[i]) && sub[a]
                        == shown(users, rest[i]);
                assert(rest[i] == log[i]);
                assert(log[log.len() - 1] == log.last());
            } else {
                assert(sel[a] == sub[a] && sel[b] == sub[b]);
            }
        }
    }
}

/// The inbox of `target` holds exactly the messages addressed to it (whose
/// ends resolve), and is chronological when the log is.
pub proof fn lemma_inbox_exact(users: Seq<User>, log: Seq<StoredMessage>, target: u64)
    ensures
        forall|k: int|
            0 <= k < inbox_view(users, log, target).len() ==> #[trigger] from_log_addressed_to(
                users,
                log,
                target,
                inbox_view(users, log, target)[k],
            ),
        forall|i: int|
            0 <= i < log.len() && log[i].target_id == target && joined(users, log[i])
                ==> inbox_view(users, log, target).contains(#[trigger] shown(users, log[i])),
        chronological(log) ==> views_chronological(inbox_view(users, log, target)),
{
    let keep = |m: StoredMessage| addressed_to(m, target);
    lemma_selected_members(users, log, keep);
    let inbox = inbox_view(users, log, target);
    assert forall|k: int| 0 <= k < inbox.len() implies #[trigger] from_log_addressed_to(
        users,
        log,
        target,
        inbox[k],
    ) by {
        let i = choose|i: int|
            0 <= i < log.len() && keep(log[i]) && joined(users, log[i]) && inbox[k] == shown(
                users,
                log[i],
            );
        assert(log[i].target_id == target);
    }
    if chronological(log) {
        lemma_selected_chronological(users, log, keep);
    }
}

/// `v` shows a message of `log` addressed to `target` whose ends resolve.
pub open spec fn from_log_addressed_to(
    users: Seq<User>,
    log: Seq<StoredMessage>,
    target: u64,
    v: MessageView,
) -> bool {
    exists|i: int|
        0 <= i < log.len() && log[i].target_id == target && joined(users, log[i]) && v == shown(
            users,
            #[trigger] log[i],
        )
}

/// The conversation between `me` and `other` is the conversation between
/// `other` and `me`: the same messages in the same order.
pub proof fn lemma_conversation_symmetric(
    users: Seq<User>,
    log: Seq<StoredMessage>,
    me: u64,
    other: u64,
)
    ensures
        conversation_view(users, log, me, other) == conversation_view(users, log, other, me),
{
    lemma_selected_congruent(
        users,
        log,
        |m: StoredMessage| exchanged(users, m, me, other),
        |m: StoredMessage| exchanged(users, m, other, me),
    );
}

/// A user's conversation with itself is every message it sent to itself
/// (whose ends resolve), each once, in log order.
pub proof fn lemma_self_conversation(users: Seq<User>, log: Seq<StoredMessage>, me: u64)
    ensures
        conversation_view(users, log, me, me) == selected(
            users,
            log,
            |m: StoredMessage| m.author_id == me && m.target_id == me,
        ),
        conversation_view(users, log, me, me).len() == log.filter(
            |m: StoredMessage| m.author_id == me && m.target_id == me && joined(users, m),
        ).len(),
{
    let own = |m: StoredMessage| m.author_id == me && m.target_id == me;
    lemma_selected_congruent(users, log, |m: StoredMessage| exchanged(users, m, me, me), own);
    lemma_selected_len(users, log, own);
    assert((|m: StoredMessage| own(m) && joined(users, m)) =~= (|m: StoredMessage|
        m.author_id == me && m.target_id == me && joined(users, m)));
}

/// A selection holds as many messages as the log has kept, joined ones.
proof fn lemma_selected_len(
    users: Seq<User>,
    log: Seq<StoredMessage>,
    keep: spec_fn(StoredMessage) -> bool,
)
    ensures
        selected(users, log, keep).len() == log.filter(
            |m: StoredMessage| keep(m) && joined(users, m),
        ).len(),
    decreases log.len(),
{
    reveal(Seq::filter);
    if log.len() > 0 {
        lemma_selected_len(users, log.drop_last(), keep);
    }
}

} // verus!
