//! The registry as a mathematical value, and the steps that change it.
//!
//! Every contract of the executable registry is stated over [`Registry`]: a
//! call maps the value before it to the value after it by one of the steps
//! defined here.

use vstd::prelude::*;

verus! {

/// All room state: which rooms exist, in which order they were created, and
/// who is registered in each.
#[verifier::ext_equal]
pub struct Registry<H> {
    /// The room names, oldest room first.
    pub names: Seq<Seq<char>>,
    /// The membership of each room: client id to handle.
    pub rooms: Map<Seq<char>, Map<usize, H>>,
}

/// One change of the registry.
pub enum Step<H> {
    /// A client is registered in a room under an id.
    Join { room: Seq<char>, id: usize, client: H },
    /// A client leaves a room.
    Leave { room: Seq<char>, id: usize },
    /// A room's membership is taken out for a broadcast.
    Detach { room: Seq<char> },
    /// A client that was taken out goes back in.
    Restore { room: Seq<char>, id: usize, client: H },
    /// A broadcast has dropped the clients outside `kept`.
    Retain { room: Seq<char>, kept: Set<usize> },
}

impl<H> Step<H> {
    /// Whether the step leaves the client `id` of `room` where it is.
    pub open spec fn spares(self, room: Seq<char>, id: usize) -> bool {
        match self {
            Step::Join { room: r, id: i, .. } => !(r == room && i == id),
            Step::Leave { room: r, id: i } => !(r == room && i == id),
            Step::Detach { room: r } => r != room,
            Step::Restore { .. } => true,
            Step::Retain { room: r, kept } => r != room || kept.contains(id),
        }
    }

    /// Whether the step is a join into `room`.
    pub open spec fn joins(self, room: Seq<char>) -> bool {
        self matches Step::Join { room: r, .. } && r == room
    }
}

impl<H> Registry<H> {
    /// No room is listed twice, and the listed rooms are exactly those that
    /// have a membership.
    pub open spec fn wf(self) -> bool {
        &&& self.names.no_duplicates()
        &&& forall|room: Seq<char>| #[trigger]
            self.rooms.contains_key(room) <==> self.names.contains(room)
    }

    /// The registry without any room.
    pub open spec fn empty() -> Self {
        Registry { names: Seq::empty(), rooms: Map::empty() }
    }

    /// Whether a room of this name exists.
    pub open spec fn has_room(self, room: Seq<char>) -> bool {
        self.rooms.contains_key(room)
    }

    /// Who is registered in `room`; nobody, where the room does not exist.
    pub open spec fn members(self, room: Seq<char>) -> Map<usize, H> {
        if self.rooms.contains_key(room) {
            self.rooms[room]
        } else {
            Map::empty()
        }
    }

    /// Whether `id` names a client of `room`.
    pub open spec fn is_member(self, room: Seq<char>, id: usize) -> bool {
        self.members(room).contains_key(id)
    }

    /// `client` is registered in `room` under `id`. The room is created, as
    /// the newest one, if it does not exist yet.
    pub open spec fn join(self, room: Seq<char>, id: usize, client: H) -> Self {
        Registry {
            names: if self.rooms.contains_key(room) {
                self.names
            } else {
                self.names.push(room)
            },
            rooms: self.rooms.insert(room, self.members(room).insert(id, client)),
        }
    }

    /// `id` is no longer registered in `room`. Nothing changes where the room
    /// or the id does not exist; the room itself stays.
    pub open spec fn leave(self, room: Seq<char>, id: usize) -> Self {
        if self.rooms.contains_key(room) {
            Registry {
                names: self.names,
                rooms: self.rooms.insert(room, self.rooms[room].remove(id)),
            }
        } else {
            self
        }
    }

    /// The whole membership of `room` is taken out, and the room stays behind
    /// empty. Nothing changes where the room does not exist.
    pub open spec fn detach(self, room: Seq<char>) -> Self {
        if self.rooms.contains_key(room) {
            Registry { names: self.names, rooms: self.rooms.insert(room, Map::empty()) }
        } else {
            self
        }
    }

    /// A client that was taken out of `room` goes back in under its old id,
    /// unless the id has been given to somebody else in the meantime, or the
    /// room does not exist: then nothing changes.
    pub open spec fn restore(self, room: Seq<char>, id: usize, client: H) -> Self {
        if self.rooms.contains_key(room) && !self.rooms[room].contains_key(id) {
            Registry {
                names: self.names,
                rooms: self.rooms.insert(room, self.rooms[room].insert(id, client)),
            }
        } else {
            self
        }
    }

    /// Of the members of `room` only those whose id is in `kept` remain.
    pub open spec fn retain(self, room: Seq<char>, kept: Set<usize>) -> Self {
        if self.rooms.contains_key(room) {
            Registry {
                names: self.names,
                rooms: self.rooms.insert(room, self.rooms[room].restrict(kept)),
            }
        } else {
            self
        }
    }

    /// The registry after one step.
    pub open spec fn step(self, step: Step<H>) -> Self {
        match step {
            Step::Join { room, id, client } => self.join(room, id, client),
            Step::Leave { room, id } => self.leave(room, id),
            Step::Detach { room } => self.detach(room),
            Step::Restore { room, id, client } => self.restore(room, id, client),
            Step::Retain { room, kept } => self.retain(room, kept),
        }
    }

    /// The registry after the steps of `steps`, first step first.
    pub open spec fn run(self, steps: Seq<Step<H>>) -> Self
        decreases steps.len(),
    {
        if steps.len() == 0 {
            self
        } else {
            self.run(steps.drop_last()).step(steps.last())
        }
    }
}

} // verus!
