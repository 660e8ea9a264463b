//! The executable registry. It owns the rooms and is the only place where
//! their membership changes.

use crate::delivery::{join_announcement, joined, may_deliver, name_view, sent, Deliver};
use crate::identity::{pick_id, random_id};
use crate::registry::Registry;
use std::collections::HashMap;
use vstd::prelude::*;
use vstd::std_specs::iter::IteratorSpec;

verus! {

/// The membership of one room: client id to handle.
pub type Room<H> = HashMap<usize, H>;

/// The registry of rooms. `H` is the handle by which a client is reached.
///
/// A room is created by the first join that names it and is never removed, so
/// the rooms are kept in the order in which they were created.
pub struct Server<H> {
    names: Vec<String>,
    rooms: Vec<Room<H>>,
}

/// The names as mathematical values.
spec fn name_views(names: Seq<String>) -> Seq<Seq<char>> {
    Seq::new(names.len(), |i: int| names[i]@)
}

/// Where names do not repeat, a name is found at its own place.
proof fn lemma_place<A>(names: Seq<A>, i: int)
    requires
        names.no_duplicates(),
        0 <= i < names.len(),
    ensures
        names.contains(names[i]),
        names.index_of(names[i]) == i,
{
    let j = names.index_of(names[i]);
    assert(0 <= j < names.len() && names[j] == names[i]);
}

/// The ids of a room's clients, each once, in no particular order.
pub fn member_ids<H>(room: &Room<H>) -> (ids: Vec<usize>)
    ensures
        ids@.no_duplicates(),
        ids@.to_set() == room@.dom(),
{
    broadcast use vstd::std_specs::hash::group_hash_axioms;

    let ghost keys = room.keys().remaining().unref();
    let mut ids: Vec<usize> = Vec::new();
    for id in it: room.keys()
        invariant
            it.seq().unref() == keys,
            ids@ == keys.take(it.index()),
    {
        ids.push(*id);
    }
    proof {
        assert(ids@ =~= keys);
        assert forall|i: int, j: int| 0 <= i < j < keys.len() implies keys[i] != keys[j] by {
            assert(room.keys().remaining()[i] != room.keys().remaining()[j]);
        }
    }
    ids
}

impl<H> View for Server<H> {
    type V = Registry<H>;

    /// The registry as a mathematical value: the names in the order of the
    /// rooms' creation, and each room's membership under its name.
    closed spec fn view(&self) -> Registry<H> {
        let names = name_views(self.names@);
        Registry {
            names,
            rooms: Map::new(
                |room: Seq<char>| names.contains(room),
                |room: Seq<char>| self.rooms@[names.index_of(room)]@,
            ),
        }
    }
}

impl<H> Default for Server<H> {
    /// A registry without rooms.
    fn default() -> (server: Self)
        ensures
            server@ == Registry::<H>::empty(),
    {
        Server::new()
    }
}

impl<H> Server<H> {
    /// No two rooms share a name, and every name has its room.
    #[verifier::type_invariant]
    spec fn inv(&self) -> bool {
        &&& name_views(self.names@).no_duplicates()
        &&& self.names.len() == self.rooms.len()
    }

    /// A registry without rooms.
    pub fn new() -> (server: Self)
        ensures
            server@ == Registry::<H>::empty(),
    {
        Server { names: Vec::new(), rooms: Vec::new() }
    }

    /// The place of the room called `wanted`, if there is such a room.
    fn find(&self, wanted: &String) -> (place: Option<usize>)
        ensures
            self@.wf(),
            place is Some <==> self@.has_room(wanted@),
            place is Some ==> {
                &&& place->0 < self.rooms.len()
                &&& place->0 < self.names.len()
                &&& self.names[place->0 as int]@ == wanted@
                &&& self.rooms[place->0 as int]@ == self@.rooms[wanted@]
            },
    {
        proof {
            use_type_invariant(self);
            self.lemma_view_wf();
        }
        let ghost names = name_views(self.names@);
        let mut i: usize = 0;
        while i < self.names.len()
            invariant
                i <= self.names.len(),
                names == name_views(self.names@),
                names.no_duplicates(),
                self.names.len() == self.rooms.len(),
                self@.wf(),
                forall|j: int| 0 <= j < i ==> names[j] != wanted@,
            decreases self.names.len() - i,
        {
            if self.names[i] == *wanted {
                proof {
                    lemma_place(names, i as int);
                }
                return Some(i);
            }
            i += 1;
        }
        None
    }

    /// Takes the whole membership out of a room and leaves the room empty.
    /// Returns `None`, and changes nothing, where there is no such room.
    pub fn take_room(&mut self, room_name: &str) -> (taken: Option<Room<H>>)
        ensures
            taken is Some <==> old(self)@.has_room(room_name@),
            taken is Some ==> taken->0@ == old(self)@.rooms[room_name@],
            final(self)@ == old(self)@.detach(room_name@),
            final(self)@.wf(),
    {
        broadcast use vstd::std_specs::hash::group_hash_axioms;

        let wanted = room_name.to_owned();
        match self.find(&wanted) {
            None => None,
            Some(place) => {
                proof {
                    use_type_invariant(&*self);
                }
                let mut room: Room<H> = HashMap::new();
                std::mem::swap(&mut self.rooms[place], &mut room);
                proof {
                    self.lemma_room_changed(*old(self), place as int);
                }
                Some(room)
            },
        }
    }

    /// Opens a room for its first client.
    fn open_room(&mut self, name: String, room: Room<H>)
        requires
            !old(self)@.has_room(name@),
        ensures
            final(self)@.names == old(self)@.names.push(name@),
            final(self)@.rooms == old(self)@.rooms.insert(name@, room@),
            final(self)@.wf(),
    {
        proof {
            use_type_invariant(&*self);
        }
        let mut moved: Server<H> = Server::new();
        std::mem::swap(self, &mut moved);
        let Server { mut names, mut rooms } = moved;
        names.push(name);
        rooms.push(room);
        let ghost before = name_views(old(self).names@);
        let ghost after = name_views(names@);
        proof {
            assert(after =~= before.push(name@));
            assert forall|room: Seq<char>| after.contains(room) implies after.index_of(room) == (
            if room == name@ {
                before.len() as int
            } else {
                before.index_of(room)
            }) by {
                let j = after.index_of(room);
                lemma_place(after, j);
                if room != name@ {
                    assert(before[j] == room);
                    lemma_place(before, j);
                }
            }
            assert forall|room: Seq<char>| after.contains(room) <==> (room == name@
                || before.contains(room)) by {
                if room == name@ {
                    assert(after[before.len() as int] == room);
                }
                if before.contains(room) {
                    let j = before.index_of(room);
                    assert(after[j] == room);
                }
            }
        }
        *self = Server { names, rooms };
    }

    /// Registers `client` in the room called `room_name`, which is created if
    /// it does not exist, and returns the id under which it is registered.
    ///
    /// The id is `id` where that is given and free in the room. Where none is
    /// given, one is drawn at random; where the candidate is taken, another
    /// free id is found. No client that is already registered is touched.
    pub fn add_client_to_room(
        &mut self,
        room_name: &str,
        id: Option<usize>,
        client: H,
    ) -> (assigned: usize)
        ensures
            !old(self)@.is_member(room_name@, assigned),
            id is Some && !old(self)@.is_member(room_name@, id->0) ==> assigned == id->0,
            final(self)@ == old(self)@.join(room_name@, assigned, client),
            final(self)@.wf(),
    {
        broadcast use vstd::std_specs::hash::group_hash_axioms;

        let candidate = match id {
            Some(id) => id,
            None => random_id(),
        };
        let wanted = room_name.to_owned();
        match self.find(&wanted) {
            Some(place) => {
                proof {
                    use_type_invariant(&*self);
                }
                let assigned = pick_id(&self.rooms[place], candidate);
                self.rooms[place].insert(assigned, client);
                proof {
                    self.lemma_room_changed(*old(self), place as int);
                }
                assigned
            },
            None => {
                let mut room: Room<H> = HashMap::new();
                room.insert(candidate, client);
                self.open_room(wanted, room);
                candidate
            },
        }
    }

    /// Puts a client that was taken out of a room back under its old id. The
    /// client is dropped instead where the id has gone to somebody else in the
    /// meantime, or where there is no such room.
    pub fn restore_client(&mut self, room_name: &str, id: usize, client: H)
        ensures
            final(self)@ == old(self)@.restore(room_name@, id, client),
            final(self)@.wf(),
    {
        broadcast use vstd::std_specs::hash::group_hash_axioms;

        let wanted = room_name.to_owned();
        match self.find(&wanted) {
            Some(place) => {
                proof {
                    use_type_invariant(&*self);
                }
                if !self.rooms[place].contains_key(&id) {
                    self.rooms[place].insert(id, client);
                    proof {
                        self.lemma_room_changed(*old(self), place as int);
                    }
                }
            },
            None => {},
        }
    }

    /// Settles one delivery of a broadcast: a client that took the text goes
    /// back into the room, as [`Server::restore_client`] says; one that did
    /// not is dropped.
    pub fn settle_delivery(&mut self, room_name: &str, id: usize, client: H, delivered: bool)
        ensures
            final(self)@ == if delivered {
                old(self)@.restore(room_name@, id, client)
            } else {
                old(self)@
            },
            final(self)@.wf(),
    {
        if delivered {
            self.restore_client(room_name, id, client);
        } else {
            proof {
                use_type_invariant(&*self);
                self.lemma_view_wf();
            }
        }
    }

    /// Removes the client `id` from the room called `room_name`. Nothing
    /// happens where there is no such room or no such client.
    pub fn leave_room(&mut self, room_name: &str, id: usize)
        ensures
            final(self)@ == old(self)@.leave(room_name@, id),
            final(self)@.wf(),
    {
        broadcast use vstd::std_specs::hash::group_hash_axioms;

        let wanted = room_name.to_owned();
        match self.find(&wanted) {
            Some(place) => {
                proof {
                    use_type_invariant(&*self);
                }
                self.rooms[place].remove(&id);
                proof {
                    self.lemma_room_changed(*old(self), place as int);
                }
            },
            None => {},
        }
    }

    /// The names of all rooms, oldest room first. A room that has lost all its
    /// clients is still listed.
    pub fn list_rooms(&self) -> (listed: Vec<String>)
        ensures
            self@.wf(),
            listed@.len() == self@.names.len(),
            forall|i: int| 0 <= i < listed@.len() ==> #[trigger] listed@[i]@ == self@.names[i],
    {
        proof {
            use_type_invariant(self);
            self.lemma_view_wf();
        }
        let mut listed: Vec<String> = Vec::new();
        let mut i: usize = 0;
        while i < self.names.len()
            invariant
                i <= self.names.len(),
                listed@.len() == i,
                forall|j: int| 0 <= j < i ==> #[trigger] listed@[j]@ == self.names[j]@,
            decreases self.names.len() - i,
        {
            listed.push(self.names[i].clone());
            i += 1;
        }
        listed
    }

    /// Whether `id` names a client of the room called `room_name`.
    pub fn is_member(&self, room_name: &str, id: usize) -> (found: bool)
        ensures
            found == self@.is_member(room_name@, id),
    {
        broadcast use vstd::std_specs::hash::group_hash_axioms;

        let wanted = room_name.to_owned();
        match self.find(&wanted) {
            Some(place) => self.rooms[place].contains_key(&id),
            None => false,
        }
    }

    /// How many clients the room called `room_name` has; 0 where there is no
    /// such room.
    pub fn member_count(&self, room_name: &str) -> (count: usize)
        ensures
            count == self@.members(room_name@).len(),
    {
        broadcast use vstd::std_specs::hash::group_hash_axioms;

        let wanted = room_name.to_owned();
        match self.find(&wanted) {
            Some(place) => self.rooms[place].len(),
            None => 0,
        }
    }

    /// Sends `msg` to every client of the room called `room_name`, the sender
    /// included, and drops the clients that do not take it.
    ///
    /// The membership is taken out of the room first. Each client is tried
    /// once and goes back in if its delivery succeeded. Returns `None`, and
    /// does nothing, where there is no such room.
    pub fn send_chat_message(
        &mut self,
        room_name: &str,
        msg: &str,
        _src: usize,
    ) -> (done: Option<()>) where H: Deliver
        ensures
            done is Some <==> old(self)@.has_room(room_name@),
            sent(old(self)@, final(self)@, room_name@, msg@),
            final(self)@.wf(),
    {
        broadcast use vstd::std_specs::hash::group_hash_axioms;

        match self.take_room(room_name) {
            None => {
                None
            },
            Some(mut room) => {
                let ghost before = room@;
                let ids = member_ids(&room);
                let mut i: usize = 0;
                while i < ids.len()
                    invariant
                        i <= ids.len(),
                        ids@.no_duplicates(),
                        ids@.to_set() == before.dom(),
                        old(self)@.has_room(room_name@),
                        before == old(self)@.rooms[room_name@],
                        self@.wf(),
                        self@.names == old(self)@.names,
                        self@.rooms == old(self)@.rooms.insert(
                            room_name@,
                            self@.members(room_name@),
                        ),
                        self@.members(room_name@).submap_of(before),
                        forall|j: int| i <= j < ids.len() ==> room@.contains_key(#[trigger] ids[j]),
                        forall|j: int|
                            i <= j < ids.len() ==> !self@.is_member(room_name@, #[trigger] ids[j]),
                        room@.submap_of(before),
                        forall|j: int|
                            0 <= j < i ==> may_deliver(
                                before[#[trigger] ids[j]],
                                msg@,
                                self@.is_member(room_name@, ids[j]),
                            ),
                    decreases ids.len() - i,
                {
                    let id = ids[i];
                    match room.remove(&id) {
                        Some(client) => {
                            assert(before.dom().contains(id));
                            let delivered = client.deliver(msg);
                            self.settle_delivery(room_name, id, client, delivered);
                            proof {
                                assert(msg@ == msg@ && call_ensures(
                                    H::deliver,
                                    (&before[id], msg),
                                    self@.is_member(room_name@, id),
                                ));
                            }
                        },
                        None => {},
                    }
                    i += 1;
                }
                proof {
                    let after = self@.members(room_name@);
                    assert(after =~= before.restrict(after.dom()));
                    assert forall|id: usize| #[trigger] before.contains_key(id) implies may_deliver(
                        before[id],
                        msg@,
                        after.contains_key(id),
                    ) by {
                        let j = choose|j: int| 0 <= j < ids@.len() && ids@[j] == id;
                        assert(ids[j] == id);
                    }
                }
                Some(())
            },
        }
    }

    /// Lets `client` join the room called `room_name` with `candidate` as the
    /// id it would like, and tells the room, the new client included, that
    /// `client_name` (or "anon") joined. Returns the client's id: `candidate`
    /// where nobody in the room has it, another free id otherwise.
    pub fn join_room_as(
        &mut self,
        room_name: &str,
        client_name: Option<String>,
        client: H,
        candidate: usize,
    ) -> (id: usize) where H: Deliver
        ensures
            !old(self)@.is_member(room_name@, candidate) ==> id == candidate,
            joined(old(self)@, final(self)@, room_name@, id, client, name_view(client_name)),
            final(self)@.wf(),
    {
        let id = self.add_client_to_room(room_name, Some(candidate), client);
        let join_msg = join_announcement(&client_name, room_name);
        self.send_chat_message(room_name, join_msg.as_str(), id);
        id
    }

    /// Lets `client` join the room called `room_name` under an id drawn at
    /// random, and tells the room, the new client included, that `client_name`
    /// (or "anon") joined. Returns the client's id. Joining never fails, and
    /// any room name will do.
    pub fn join_room(
        &mut self,
        room_name: &str,
        client_name: Option<String>,
        client: H,
    ) -> (id: usize) where H: Deliver
        ensures
            joined(old(self)@, final(self)@, room_name@, id, client, name_view(client_name)),
            final(self)@.wf(),
    {
        self.join_room_as(room_name, client_name, client, random_id())
    }

    /// The view of a registry is well formed.
    proof fn lemma_view_wf(self)
        requires
            self.inv(),
        ensures
            self@.wf(),
    {
    }

    /// When one room's membership has changed and nothing else has, the view
    /// differs in that room alone.
    proof fn lemma_room_changed(self, before: Self, place: int)
        requires
            before.inv(),
            0 <= place < before.rooms.len(),
            self.names == before.names,
            self.rooms@ == before.rooms@.update(place, self.rooms@[place]),
        ensures
            self@.names == before@.names,
            self@.rooms == before@.rooms.insert(before.names[place]@, self.rooms[place]@),
            self@.wf(),
            before@.wf(),
    {
        let names = name_views(self.names@);
        lemma_place(names, place);
        assert forall|room: Seq<char>| names.contains(room) implies #[trigger] self@.rooms[room] == (
        if room == names[place] {
            self.rooms[place]@
        } else {
            before@.rooms[room]
        }) by {
            let j = names.index_of(room);
            lemma_place(names, j);
        }
    }
}

} // verus!
