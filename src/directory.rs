//! The user directory: display names and their numeric identities, and the
//! get-or-create protocol that resolves a name.

use vstd::prelude::*;
use crate::error::RelayError;

verus! {

/// A row of the user table.
#[derive(Clone, Debug)]
pub struct User {
    pub id: u64,
    pub name: String,
}

/// The name of the user row with identity `id`; the last such row where
/// several share it, none where no row has it.
pub open spec fn name_of(users: Seq<User>, id: u64) -> Option<Seq<char>>
    decreases users.len(),
{
    if users.len() == 0 {
        None
    } else if users.last().id == id {
        Some(users.last().name@)
    } else {
        name_of(users.drop_last(), id)
    }
}

/// The names of a table of user rows, in row order.
pub open spec fn names_of(users: Seq<User>) -> Seq<Seq<char>> {
    users.map_values(|u: User| u.name@)
}

/// A directory whose rows are numbered from one in order, with non-empty
/// names that are unique (the unique index on names).
pub open spec fn directory_wf(users: Seq<User>) -> bool {
    &&& forall|i: int| 0 <= i < users.len() ==> (#[trigger] users[i]).id == i + 1
    &&& forall|i: int| 0 <= i < users.len() ==> (#[trigger] users[i]).name@.len() > 0
    &&& names_unique(names_of(users))
}

/// No name occurs twice.
pub open spec fn names_unique(names: Seq<Seq<char>>) -> bool {
    forall|i: int, j: int| 0 <= i < j < names.len() ==> names[i] != names[j]
}

/// The identity of `name` in a directory holding `names` in order, where the
/// row at position `i` has identity `i + 1`.
pub open spec fn id_in(names: Seq<Seq<char>>, name: Seq<char>) -> Option<nat>
    decreases names.len(),
{
    if names.len() == 0 {
        None
    } else if names.last() == name {
        Some(names.len())
    } else {
        id_in(names.drop_last(), name)
    }
}

/// The directory and identity after resolving `name`: its identity where it
/// is known, else a new row at the end.
pub open spec fn resolved(names: Seq<Seq<char>>, name: Seq<char>) -> (Seq<Seq<char>>, nat) {
    match id_in(names, name) {
        Some(id) => (names, id),
        None => (names.push(name), names.len() + 1),
    }
}

/// Inserting a row for `name`: refused by the unique index where the name is
/// taken, else the directory with the new row, and its identity.
pub open spec fn insert_outcome(names: Seq<Seq<char>>, name: Seq<char>) -> Result<
    (Seq<Seq<char>>, nat),
    RelayError,
> {
    if id_in(names, name) is Some {
        Err(RelayError::IdentityConflict)
    } else {
        Ok((names.push(name), names.len() + 1))
    }
}

/// The number of rows named `name`.
pub open spec fn rows_named(names: Seq<Seq<char>>, name: Seq<char>) -> nat {
    names.filter(|x: Seq<char>| x == name).len()
}

/// A name has an identity exactly where some row carries it, and the
/// identity is that row's position plus one.
pub proof fn lemma_id_in(names: Seq<Seq<char>>, name: Seq<char>)
    requires
        names_unique(names),
    ensures
        id_in(names, name) is None <==> !names.contains(name),
        id_in(names, name) matches Some(id) ==> 1 <= id <= names.len() && names[id - 1] == name,
        forall|i: int| 0 <= i < names.len() && names[i] == name ==> id_in(names, name) == Some((i + 1) as nat),
    decreases names.len(),
{
    if names.len() > 0 {
        let rest = names.drop_last();
        lemma_id_in(rest, name);
        if names.last() != name {
            assert forall|i: int| 0 <= i < rest.len() && rest[i] == name implies names.contains(name) by {
                assert(names[i] == rest[i]);
            }
            if names.contains(name) {
                let k = choose|k: int| 0 <= k < names.len() && names[k] == name;
                assert(rest[k] == name);
            }
        }
    }
}

/// Resolving a name twice, one after the other, yields the same identity
/// both times, and the second resolution leaves the directory as the first
/// left it.
pub proof fn lemma_resolve_idempotent(names: Seq<Seq<char>>, name: Seq<char>)
    requires
        name.len() > 0,
    ensures
        resolved(resolved(names, name).0, name) == resolved(names, name),
{
    let first = resolved(names, name);
    if id_in(names, name) is None {
        assert(first.0.last() == name);
        assert(id_in(first.0, name) == Some(first.1));
    }
}

/// Two callers that both find `name` missing both try to insert it: the
/// first insert creates the only row named `name`, the second is refused by
/// the unique index as a conflict, and the re-read after the conflict returns
/// the identity the first caller created.
pub proof fn lemma_concurrent_first_resolution(names: Seq<Seq<char>>, name: Seq<char>)
    requires
        name.len() > 0,
        names_unique(names),
        id_in(names, name) is None,
    ensures
        insert_outcome(names, name) is Ok,
        insert_outcome(insert_outcome(names, name).unwrap().0, name) == Err::<
            (Seq<Seq<char>>, nat),
            RelayError,
        >(RelayError::IdentityConflict),
        id_in(insert_outcome(names, name).unwrap().0, name) == Some(
            insert_outcome(names, name).unwrap().1,
        ),
        rows_named(insert_outcome(names, name).unwrap().0, name) == 1,
        names_unique(insert_outcome(names, name).unwrap().0),
{
    lemma_id_in(names, name);
    let after = names.push(name);
    assert(after.drop_last() =~= names);
    lemma_filter_absent(names, name);
    reveal(Seq::filter);
    assert(rows_named(after, name) == rows_named(names, name) + 1);
    assert forall|i: int, j: int| 0 <= i < j < after.len() implies after[i] != after[j] by {
        if j == names.len() {
            assert(after[i] == names[i]);
        } else {
            assert(after[i] == names[i] && after[j] == names[j]);
        }
    }
}

/// No row carries a name that the directory does not contain.
proof fn lemma_filter_absent(names: Seq<Seq<char>>, name: Seq<char>)
    requires
        !names.contains(name),
    ensures
        rows_named(names, name) == 0,
    decreases names.len(),
{
    reveal(Seq::filter);
    if names.len() > 0 {
        let rest = names.drop_last();
        if rest.contains(name) {
            let k = choose|k: int| 0 <= k < rest.len() && rest[k] == name;
            assert(names[k] == name);
        }
        lemma_filter_absent(rest, name);
    }
}

/// Accepts a name that can identify a user: any name but the empty one.
pub fn check_name(name: &String) -> (r: Result<(), RelayError>)
    ensures
        r is Ok <==> name@.len() > 0,
        r is Err ==> r == Err::<(), RelayError>(RelayError::UserResolutionFailed),
{
    if name.as_str().is_empty() {
        Err(RelayError::UserResolutionFailed)
    } else {
        Ok(())
    }
}

/// Where a resolution stands against a store that it reaches step by step.
#[derive(Clone, Copy, Debug, PartialEq, Eq, Structural)]
pub enum ResolvePhase {
    /// No insert has been tried yet.
    Initial,
    /// An insert was tried, by this caller or, as a conflict shows, another.
    Inserted,
}

/// What the store answered to the last action of a resolution.
#[derive(Clone, Copy, Debug, PartialEq, Eq, Structural)]
pub enum ResolveEvent {
    /// The lookup found the name with this identity.
    Found(u64),
    /// The lookup found no row with the name.
    Missing,
    /// The insert of a row with the name succeeded.
    Created,
    /// The insert was refused by the unique index on names.
    Conflict,
    /// The store failed (connection or I/O).
    StoreFailed,
}

/// What a resolution does next.
#[derive(Clone, Copy, Debug, PartialEq, Eq, Structural)]
pub enum ResolveAction {
    /// Look the name up.
    Lookup,
    /// Insert a row with the name.
    Insert,
    /// The name resolves to this identity.
    Done(u64),
    /// The resolution fails with this error.
    Fail(RelayError),
}

/// The next phase and action of a get-or-create resolution, given its phase
/// and the store's answer to the last action (the first action is always a
/// lookup): a found name is done; a missing name is inserted once; after an
/// insert, successful or refused as a conflict, the name is looked up again;
/// a name still missing after that, or a store failure, fails the resolution.
pub open spec fn resolve_transition(phase: ResolvePhase, event: ResolveEvent) -> (
    ResolvePhase,
    ResolveAction,
) {
    match event {
        ResolveEvent::Found(id) => (phase, ResolveAction::Done(id)),
        ResolveEvent::Missing => match phase {
            ResolvePhase::Initial => (ResolvePhase::Inserted, ResolveAction::Insert),
            ResolvePhase::Inserted => (phase, ResolveAction::Fail(RelayError::StoreUnavailable)),
        },
        ResolveEvent::Created => (ResolvePhase::Inserted, ResolveAction::Lookup),
        ResolveEvent::Conflict => (ResolvePhase::Inserted, ResolveAction::Lookup),
        ResolveEvent::StoreFailed => (phase, ResolveAction::Fail(RelayError::StoreUnavailable)),
    }
}

/// One step of the get-or-create protocol (see `resolve_transition`). A
/// conflict on insert is never an error: it leads back to a lookup.
pub fn resolve_step(phase: ResolvePhase, event: ResolveEvent) -> (r: (ResolvePhase, ResolveAction))
    ensures
        r == resolve_transition(phase, event),
        event == ResolveEvent::Conflict ==> r.1 == ResolveAction::Lookup,
{
    match event {
        ResolveEvent::Found(id) => (phase, ResolveAction::Done(id)),
        ResolveEvent::Missing => match phase {
            ResolvePhase::Initial => (ResolvePhase::Inserted, ResolveAction::Insert),
            ResolvePhase::Inserted => (phase, ResolveAction::Fail(RelayError::StoreUnavailable)),
        },
        ResolveEvent::Created => (ResolvePhase::Inserted, ResolveAction::Lookup),
        ResolveEvent::Conflict => (ResolvePhase::Inserted, ResolveAction::Lookup),
        ResolveEvent::StoreFailed => (phase, ResolveAction::Fail(RelayError::StoreUnavailable)),
    }
}

} // verus!
