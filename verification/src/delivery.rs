//! What the registry asks of a client handle, and what a broadcast may make of
//! a room's membership.

use crate::registry::Registry;
use vstd::prelude::*;
use vstd::string::*;

verus! {

/// A client's inbound side, as the registry sees it: something a text can be
/// handed to. The registry never owns the connection behind it.
pub trait Deliver {
    /// Attempts to hand `text` to the client. Returns `true` where the client
    /// took it, and `false` where the client is gone.
    fn deliver(&self, text: &str) -> bool;
}

/// An attempt to hand a text that reads `text` to `client` may come out as
/// `taken`. What a handle does is its own affair: the same handle may take one
/// text and fail on the next.
pub open spec fn may_deliver<H: Deliver>(client: H, text: Seq<char>, taken: bool) -> bool {
    exists|t: &str| #[trigger] t@ == text && call_ensures(H::deliver, (&client, t), taken)
}

/// The handle never fails to take `text`.
pub open spec fn always_takes<H: Deliver>(client: H, text: Seq<char>) -> bool {
    !may_deliver(client, text, false)
}

/// The handle never takes `text`: the client is gone.
pub open spec fn never_takes<H: Deliver>(client: H, text: Seq<char>) -> bool {
    !may_deliver(client, text, true)
}

/// A broadcast of `text` to the membership `before` may leave `after`: every
/// client of `before` was tried, those whose delivery succeeded are in `after`
/// under their old id, and nobody else is.
pub open spec fn broadcast_leaves<H: Deliver>(
    before: Map<usize, H>,
    after: Map<usize, H>,
    text: Seq<char>,
) -> bool {
    &&& after.submap_of(before)
    &&& forall|id: usize| #[trigger]
        before.contains_key(id) ==> may_deliver(before[id], text, after.contains_key(id))
}

/// Sending `text` to `room` may turn the registry `before` into `after`:
/// the room's clients that did not take the text are gone, and nothing else
/// has changed.
pub open spec fn sent<H: Deliver>(
    before: Registry<H>,
    after: Registry<H>,
    room: Seq<char>,
    text: Seq<char>,
) -> bool {
    &&& after == before.retain(room, after.members(room).dom())
    &&& broadcast_leaves(before.members(room), after.members(room), text)
}

/// The name under which a client is announced: its display name, or "anon".
pub open spec fn announced_name(client_name: Option<Seq<char>>) -> Seq<char> {
    match client_name {
        Some(name) => name,
        None => "anon"@,
    }
}

/// The text that tells a room of a new member.
pub open spec fn announcement(client_name: Option<Seq<char>>, room: Seq<char>) -> Seq<char> {
    announced_name(client_name) + " joined "@ + room
}

/// The display name as a mathematical value.
pub open spec fn name_view(client_name: Option<String>) -> Option<Seq<char>> {
    match client_name {
        Some(name) => Some(name@),
        None => None,
    }
}

/// A join may turn the registry `before` into `after`: `client` was registered
/// in `room` under the id `id`, which nobody in the room had, and the room,
/// the new client included, was then sent the announcement.
pub open spec fn joined<H: Deliver>(
    before: Registry<H>,
    after: Registry<H>,
    room: Seq<char>,
    id: usize,
    client: H,
    client_name: Option<Seq<char>>,
) -> bool {
    &&& !before.is_member(room, id)
    &&& sent(before.join(room, id, client), after, room, announcement(client_name, room))
}

/// Writes the text that tells `room_name` of a new member.
pub fn join_announcement(client_name: &Option<String>, room_name: &str) -> (text: String)
    ensures
        text@ == announcement(name_view(*client_name), room_name@),
{
    let mut text = match client_name {
        Some(name) => name.clone(),
        None => "anon".to_owned(),
    };
    text.append(" joined ");
    text.append(room_name);
    text
}

} // verus!
