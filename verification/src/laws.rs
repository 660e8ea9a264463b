//! What holds of the registry over any run of joins, leaves and broadcasts.

use crate::delivery::{always_takes, never_takes, sent, Deliver};
use crate::registry::{Registry, Step};
use vstd::prelude::*;

verus! {

/// Every step keeps the registry well formed.
pub proof fn lemma_step_keeps_wf<H>(before: Registry<H>, step: Step<H>)
    requires
        before.wf(),
    ensures
        before.step(step).wf(),
{
    let after = before.step(step);
    match step {
        Step::Join { room, id, client } => {
            if !before.rooms.contains_key(room) {
                assert forall|r: Seq<char>| #[trigger]
                    after.rooms.contains_key(r) <==> after.names.contains(r) by {
                    if r == room {
                        assert(after.names[before.names.len() as int] == r);
                    }
                    if before.names.contains(r) {
                        let j = before.names.index_of(r);
                        assert(after.names[j] == r);
                    }
                }
            }
        },
        _ => {},
    }
}

/// A room exists after a run if and only if it existed before the run or one
/// of the run's steps is a join into it: leaving a room, sending to it and
/// losing clients never remove it, and nothing but a join creates it.
pub proof fn lemma_rooms_come_from_joins<H>(
    before: Registry<H>,
    steps: Seq<Step<H>>,
    room: Seq<char>,
)
    requires
        before.wf(),
    ensures
        before.run(steps).wf(),
        before.run(steps).has_room(room) <==> before.has_room(room) || exists|i: int|
            0 <= i < steps.len() && (#[trigger] steps[i]).joins(room),
        before.run(steps).names.contains(room) <==> before.run(steps).has_room(room),
    decreases steps.len(),
{
    if steps.len() > 0 {
        let earlier = steps.drop_last();
        lemma_rooms_come_from_joins(before, earlier, room);
        lemma_step_keeps_wf(before.run(earlier), steps.last());
        if exists|i: int| 0 <= i < earlier.len() && (#[trigger] earlier[i]).joins(room) {
            let i = choose|i: int| 0 <= i < earlier.len() && (#[trigger] earlier[i]).joins(room);
            assert(steps[i].joins(room));
        }
        if steps.last().joins(room) {
            assert(steps[steps.len() - 1].joins(room));
        }
        if exists|i: int| 0 <= i < steps.len() && (#[trigger] steps[i]).joins(room) {
            let i = choose|i: int| 0 <= i < steps.len() && (#[trigger] steps[i]).joins(room);
            if i < earlier.len() {
                assert(earlier[i].joins(room));
            }
        }
    }
}

/// Starting from the registry without rooms, the rooms that are listed are
/// exactly those that some join has named.
pub proof fn lemma_listed_iff_joined<H>(steps: Seq<Step<H>>, room: Seq<char>)
    ensures
        Registry::<H>::empty().run(steps).names.contains(room) <==> exists|i: int|
            0 <= i < steps.len() && (#[trigger] steps[i]).joins(room),
{
    lemma_rooms_come_from_joins(Registry::<H>::empty(), steps, room);
}

/// The steps by which the clients of `clients` join `room` one after another,
/// each under the id at its place in `ids`.
pub open spec fn joins_of<H>(room: Seq<char>, ids: Seq<usize>, clients: Seq<H>) -> Seq<Step<H>>
    recommends
        ids.len() == clients.len(),
{
    Seq::new(ids.len(), |k: int| Step::Join { room, id: ids[k], client: clients[k] })
}

/// Each id of `ids` was free in `room` at the moment it was given out: the
/// joins before it had not used it, nor had anybody who was there before.
pub open spec fn given_out_free<H>(
    before: Registry<H>,
    room: Seq<char>,
    ids: Seq<usize>,
    clients: Seq<H>,
) -> bool {
    forall|k: int|
        0 <= k < ids.len() ==> !before.run(joins_of(room, ids.take(k), clients.take(k))).is_member(
            room,
            #[trigger] ids[k],
        )
}

/// The last of a run of joins, taken by itself.
proof fn lemma_joins_unfold<H>(
    before: Registry<H>,
    room: Seq<char>,
    ids: Seq<usize>,
    clients: Seq<H>,
)
    requires
        ids.len() == clients.len(),
        ids.len() > 0,
    ensures
        before.run(joins_of(room, ids, clients)) == before.run(
            joins_of(room, ids.drop_last(), clients.drop_last()),
        ).join(room, ids.last(), clients.last()),
{
    assert(joins_of(room, ids, clients).drop_last() =~= joins_of(
        room,
        ids.drop_last(),
        clients.drop_last(),
    ));
}

/// What holds of a run of joins holds of the run without its last join.
proof fn lemma_given_out_free_before<H>(
    before: Registry<H>,
    room: Seq<char>,
    ids: Seq<usize>,
    clients: Seq<H>,
)
    requires
        ids.len() == clients.len(),
        ids.len() > 0,
        given_out_free(before, room, ids, clients),
    ensures
        given_out_free(before, room, ids.drop_last(), clients.drop_last()),
        !before.run(joins_of(room, ids.drop_last(), clients.drop_last())).is_member(
            room,
            ids.last(),
        ),
{
    let n = ids.len() as int;
    let ids0 = ids.drop_last();
    let clients0 = clients.drop_last();
    assert forall|k: int| 0 <= k < ids0.len() implies !before.run(
        joins_of(room, ids0.take(k), clients0.take(k)),
    ).is_member(room, #[trigger] ids0[k]) by {
        assert(ids0.take(k) =~= ids.take(k));
        assert(clients0.take(k) =~= clients.take(k));
    }
    assert(ids.take(n - 1) =~= ids0);
    assert(clients.take(n - 1) =~= clients0);
}

/// After the joins of `ids` and `clients` into `room`, the room holds whoever
/// it held before, untouched, and each new client under its own id.
pub open spec fn holds_all<H>(
    before: Registry<H>,
    after: Registry<H>,
    room: Seq<char>,
    ids: Seq<usize>,
    clients: Seq<H>,
) -> bool {
    &&& forall|k: int| 0 <= k < ids.len() ==> !before.is_member(room, #[trigger] ids[k])
    &&& forall|k: int|
        0 <= k < ids.len() ==> after.is_member(room, #[trigger] ids[k]) && after.members(
            room,
        )[ids[k]] == clients[k]
    &&& forall|id: usize| #[trigger]
        before.is_member(room, id) ==> after.is_member(room, id) && after.members(room)[id]
            == before.members(room)[id]
    &&& forall|id: usize| #[trigger]
        after.is_member(room, id) ==> before.is_member(room, id) || ids.contains(id)
}

/// One more join, under an id that is free, keeps what the joins before it
/// have built.
proof fn lemma_holds_all_step<H>(
    before: Registry<H>,
    mid: Registry<H>,
    room: Seq<char>,
    ids: Seq<usize>,
    clients: Seq<H>,
)
    requires
        ids.len() == clients.len(),
        ids.len() > 0,
        ids.drop_last().no_duplicates(),
        holds_all(before, mid, room, ids.drop_last(), clients.drop_last()),
        !mid.is_member(room, ids.last()),
    ensures
        ids.no_duplicates(),
        holds_all(before, mid.join(room, ids.last(), clients.last()), room, ids, clients),
{
    let n = ids.len() as int;
    let ids0 = ids.drop_last();
    let clients0 = clients.drop_last();
    let after = mid.join(room, ids.last(), clients.last());
    assert forall|k: int| 0 <= k < n - 1 implies #[trigger] ids[k] != ids[n - 1] && ids[k]
        == ids0[k] && clients[k] == clients0[k] && mid.is_member(room, ids[k]) by {
        assert(mid.is_member(room, ids0[k]));
    }
    assert forall|i: int, j: int| 0 <= i < j < n implies ids[i] != ids[j] by {
        if j < n - 1 {
            assert(ids0[i] != ids0[j]);
        }
    }
    assert forall|id: usize| #[trigger] after.is_member(room, id) implies before.is_member(room, id)
        || ids.contains(id) by {
        if id != ids[n - 1] {
            assert(mid.is_member(room, id));
            if ids0.contains(id) {
                let j = choose|j: int| 0 <= j < ids0.len() && ids0[j] == id;
                assert(ids[j] == id);
            }
        }
    }
}

/// After any number of joins into one room, each under an id that was free
/// when it was given out, no two of the new clients share an id, none has the
/// id of a client that was there before, and every client, old or new, is
/// registered under its own id with its own handle.
pub proof fn lemma_join_ids_unique<H>(
    before: Registry<H>,
    room: Seq<char>,
    ids: Seq<usize>,
    clients: Seq<H>,
)
    requires
        ids.len() == clients.len(),
        given_out_free(before, room, ids, clients),
    ensures
        ids.no_duplicates(),
        holds_all(before, before.run(joins_of(room, ids, clients)), room, ids, clients),
    decreases ids.len(),
{
    if ids.len() > 0 {
        lemma_given_out_free_before(before, room, ids, clients);
        lemma_join_ids_unique(before, room, ids.drop_last(), clients.drop_last());
        lemma_joins_unfold(before, room, ids, clients);
        lemma_holds_all_step(
            before,
            before.run(joins_of(room, ids.drop_last(), clients.drop_last())),
            room,
            ids,
            clients,
        );
    }
}

/// Leaving a room a second time changes nothing.
pub proof fn lemma_leave_twice<H>(before: Registry<H>, room: Seq<char>, id: usize)
    ensures
        before.leave(room, id).leave(room, id) == before.leave(room, id),
{
    let once = before.leave(room, id);
    assert(once.leave(room, id).rooms =~= once.rooms) by {
        if before.rooms.contains_key(room) {
            assert(once.rooms[room].remove(id) =~= once.rooms[room]);
        }
    }
}

/// Leaving a room that does not exist, or one in which the id is not
/// registered, changes nothing.
pub proof fn lemma_leave_of_stranger<H>(before: Registry<H>, room: Seq<char>, id: usize)
    requires
        !before.is_member(room, id),
    ensures
        before.leave(room, id) == before,
{
    if before.rooms.contains_key(room) {
        assert(before.rooms[room].remove(id) =~= before.rooms[room]);
    }
}

/// A client that every step of a run spares is registered after the run as
/// it was before, under the same id and with the same handle.
pub proof fn lemma_spared_client_stays<H>(
    before: Registry<H>,
    steps: Seq<Step<H>>,
    room: Seq<char>,
    id: usize,
)
    requires
        before.is_member(room, id),
        forall|i: int| 0 <= i < steps.len() ==> (#[trigger] steps[i]).spares(room, id),
    ensures
        before.run(steps).is_member(room, id),
        before.run(steps).members(room)[id] == before.members(room)[id],
    decreases steps.len(),
{
    if steps.len() > 0 {
        let earlier = steps.drop_last();
        assert forall|i: int| 0 <= i < earlier.len() implies (#[trigger] earlier[i]).spares(
            room,
            id,
        ) by {
            assert(steps[i].spares(room, id));
        }
        lemma_spared_client_stays(before, earlier, room, id);
        assert(steps[steps.len() - 1].spares(room, id));
    }
}

/// A client that joins a room while a broadcast to that room is under way is
/// in the room when the broadcast is over: the clients that the broadcast
/// puts back, whichever they are and whatever ids they had, never take its
/// place.
pub proof fn lemma_join_survives_broadcast<H>(
    before: Registry<H>,
    room: Seq<char>,
    id: usize,
    client: H,
    put_back: Seq<Step<H>>,
)
    requires
        forall|i: int| 0 <= i < put_back.len() ==> (#[trigger] put_back[i]) is Restore,
    ensures
        !before.detach(room).is_member(room, id),
        before.detach(room).join(room, id, client).run(put_back).is_member(room, id),
        before.detach(room).join(room, id, client).run(put_back).members(room)[id] == client,
{
    lemma_spared_client_stays(before.detach(room).join(room, id, client), put_back, room, id);
}

/// The steps that put the clients `ids` of the membership `taken` back into
/// `room`, one by one.
pub open spec fn restores_of<H>(room: Seq<char>, ids: Seq<usize>, taken: Map<usize, H>) -> Seq<
    Step<H>,
> {
    Seq::new(ids.len(), |k: int| Step::Restore { room, id: ids[k], client: taken[ids[k]] })
}

/// To take a room's membership out and put some of its clients back, one by
/// one and in any order, is to drop the others: as long as nobody else
/// touches the room in between, the room ends up holding exactly the clients
/// that were put back, each under its old id.
pub proof fn lemma_put_back_is_retain<H>(before: Registry<H>, room: Seq<char>, ids: Seq<usize>)
    requires
        forall|k: int| 0 <= k < ids.len() ==> before.is_member(room, #[trigger] ids[k]),
    ensures
        before.detach(room).run(restores_of(room, ids, before.members(room))) == before.retain(
            room,
            ids.to_set(),
        ),
    decreases ids.len(),
{
    let taken = before.members(room);
    let started = before.detach(room);
    let after = started.run(restores_of(room, ids, taken));
    if ids.len() == 0 {
        assert(restores_of(room, ids, taken) =~= Seq::<Step<H>>::empty());
        if before.has_room(room) {
            assert(before.rooms[room].restrict(ids.to_set()) =~= Map::<usize, H>::empty());
        }
    } else {
        let ids0 = ids.drop_last();
        let last = ids.last();
        assert(restores_of(room, ids, taken).drop_last() =~= restores_of(room, ids0, taken));
        assert forall|k: int| 0 <= k < ids0.len() implies before.is_member(
            room,
            #[trigger] ids0[k],
        ) by {
            assert(ids0[k] == ids[k]);
        }
        lemma_put_back_is_retain(before, room, ids0);
        let mid = before.retain(room, ids0.to_set());
        assert(restores_of(room, ids, taken).last() == Step::Restore {
            room,
            id: last,
            client: taken[last],
        });
        assert forall|id: usize| ids.to_set().contains(id) <==> ids0.to_set().contains(id) || id
            == last by {
            if ids0.contains(id) {
                let j = choose|j: int| 0 <= j < ids0.len() && ids0[j] == id;
                assert(ids[j] == id);
            }
            if ids.contains(id) && id != last {
                let j = choose|j: int| 0 <= j < ids.len() && ids[j] == id;
                assert(ids0[j] == id);
            }
            if id == last {
                assert(ids[ids.len() - 1] == id);
            }
        }
        assert(after.rooms[room] =~= taken.restrict(ids.to_set()));
    }
}

/// Where every client of a room takes the text, a send to the room leaves the
/// registry as it was: everybody in the room, the sender too if it is there,
/// was reached, and nobody is dropped.
pub proof fn lemma_send_reaches_all<H: Deliver>(
    before: Registry<H>,
    after: Registry<H>,
    room: Seq<char>,
    text: Seq<char>,
)
    requires
        sent(before, after, room, text),
        forall|id: usize| #[trigger]
            before.is_member(room, id) ==> always_takes(before.members(room)[id], text),
    ensures
        after == before,
{
    let members = before.members(room);
    let left = after.members(room);
    assert forall|id: usize| members.dom().contains(id) implies left.dom().contains(id) by {
        assert(before.is_member(room, id));
    }
    assert(left =~= members);
    if before.has_room(room) {
        assert(before.rooms[room].restrict(left.dom()) =~= before.rooms[room]);
        assert(after.rooms =~= before.rooms);
    }
}

/// A client that cannot take the text is gone after the send and is not
/// reached by any later send to the room, while every client that always
/// takes the text is still there with its handle.
pub proof fn lemma_dead_client_pruned<H: Deliver>(
    before: Registry<H>,
    after: Registry<H>,
    later: Registry<H>,
    room: Seq<char>,
    text: Seq<char>,
    next_text: Seq<char>,
    dead: usize,
)
    requires
        sent(before, after, room, text),
        sent(after, later, room, next_text),
        before.is_member(room, dead),
        never_takes(before.members(room)[dead], text),
    ensures
        !after.is_member(room, dead),
        !later.is_member(room, dead),
        forall|id: usize|
            before.is_member(room, id) && always_takes(before.members(room)[id], text)
                ==> #[trigger] after.is_member(room, id) && after.members(room)[id]
                == before.members(room)[id],
{
    let members = before.members(room);
    let left = after.members(room);
    assert(later.members(room).dom().contains(dead) ==> left.dom().contains(dead));
    assert forall|id: usize|
        before.is_member(room, id) && always_takes(members[id], text) implies #[trigger] after.is_member(
        room,
        id,
    ) && left[id] == members[id] by {
        assert(left.dom().contains(id) && members.dom().contains(id));
    }
}

} // verus!
