use room_registry::delivery::{join_announcement, Deliver};
use room_registry::server::{member_ids, Room, Server};
use std::cell::{Cell, RefCell};
use std::collections::HashMap;
use std::collections::HashSet;
use std::rc::Rc;

/// A client that keeps what it was sent, and can hang up.
#[derive(Clone)]
struct Inbox {
    received: Rc<RefCell<Vec<String>>>,
    alive: Rc<Cell<bool>>,
}

impl Inbox {
    fn new() -> Inbox {
        Inbox { received: Rc::new(RefCell::new(Vec::new())), alive: Rc::new(Cell::new(true)) }
    }

    fn texts(&self) -> Vec<String> {
        self.received.borrow().clone()
    }

    fn hang_up(&self) {
        self.alive.set(false);
    }
}

impl Deliver for Inbox {
    fn deliver(&self, text: &str) -> bool {
        if self.alive.get() {
            self.received.borrow_mut().push(text.to_string());
            true
        } else {
            false
        }
    }
}

fn texts(items: &[&str]) -> Vec<String> {
    items.iter().map(|s| s.to_string()).collect()
}

#[test]
fn lobby_scenario() {
    let mut server: Server<Inbox> = Server::new();
    let alice = Inbox::new();
    let bob = Inbox::new();

    let a = server.join_room_as("lobby", Some("alice".to_string()), alice.clone(), 1);
    assert_eq!(a, 1);
    assert_eq!(alice.texts(), texts(&["alice joined lobby"]));

    let b = server.join_room_as("lobby", Some("bob".to_string()), bob.clone(), 2);
    assert_eq!(b, 2);
    assert_eq!(alice.texts(), texts(&["alice joined lobby", "bob joined lobby"]));
    assert_eq!(bob.texts(), texts(&["bob joined lobby"]));

    assert_eq!(server.send_chat_message("lobby", "hi", 1), Some(()));
    assert_eq!(alice.texts(), texts(&["alice joined lobby", "bob joined lobby", "hi"]));
    assert_eq!(bob.texts(), texts(&["bob joined lobby", "hi"]));

    server.leave_room("lobby", 1);
    assert_eq!(server.send_chat_message("lobby", "hi again", 2), Some(()));
    assert_eq!(alice.texts(), texts(&["alice joined lobby", "bob joined lobby", "hi"]));
    assert_eq!(bob.texts(), texts(&["bob joined lobby", "hi", "hi again"]));

    assert_eq!(server.list_rooms(), texts(&["lobby"]));
}

#[test]
fn new_registry_has_no_rooms() {
    let server: Server<Inbox> = Server::new();
    assert!(server.list_rooms().is_empty());
    assert_eq!(server.member_count("lobby"), 0);
    assert!(!server.is_member("lobby", 0));
    let other: Server<Inbox> = Server::default();
    assert!(other.list_rooms().is_empty());
}

#[test]
fn candidate_id_is_kept_when_free() {
    let mut server: Server<Inbox> = Server::new();
    assert_eq!(server.add_client_to_room("lobby", Some(7), Inbox::new()), 7);
    assert_eq!(server.add_client_to_room("lobby", Some(0), Inbox::new()), 0);
    assert_eq!(server.add_client_to_room("lobby", Some(usize::MAX), Inbox::new()), usize::MAX);
    assert_eq!(server.add_client_to_room("den", Some(7), Inbox::new()), 7);
    assert_eq!(server.member_count("lobby"), 3);
    assert_eq!(server.member_count("den"), 1);
    assert!(server.is_member("lobby", 7));
    assert!(server.is_member("den", 7));
    assert!(!server.is_member("den", 0));
}

#[test]
fn taken_candidate_gets_another_id() {
    let mut server: Server<Inbox> = Server::new();
    let first = Inbox::new();
    let second = Inbox::new();
    assert_eq!(server.add_client_to_room("lobby", Some(7), first.clone()), 7);
    let id = server.add_client_to_room("lobby", Some(7), second.clone());
    assert_ne!(id, 7);
    assert_eq!(server.member_count("lobby"), 2);
    assert!(server.is_member("lobby", 7));
    assert!(server.is_member("lobby", id));

    // The first client still sits under 7: after the second leaves, it alone is reached.
    server.leave_room("lobby", id);
    server.send_chat_message("lobby", "still here", 7);
    assert_eq!(first.texts(), texts(&["still here"]));
    assert!(second.texts().is_empty());
}

#[test]
fn drawn_ids_are_unique_within_a_room() {
    let mut server: Server<Inbox> = Server::new();
    let mut seen = HashSet::new();
    for _ in 0..200 {
        let id = server.join_room("crowd", None, Inbox::new());
        assert!(seen.insert(id));
        assert!(server.is_member("crowd", id));
    }
    for _ in 0..50 {
        let id = server.add_client_to_room("crowd", None, Inbox::new());
        assert!(seen.insert(id));
    }
    assert_eq!(server.member_count("crowd"), 250);
}

#[test]
fn same_candidate_again_and_again() {
    let mut server: Server<Inbox> = Server::new();
    let mut seen = HashSet::new();
    for _ in 0..40 {
        let id = server.join_room_as("crowd", None, Inbox::new(), 3);
        assert!(seen.insert(id));
    }
    assert!(seen.contains(&3));
    assert_eq!(server.member_count("crowd"), 40);
}

#[test]
fn rooms_are_listed_from_first_join_on() {
    let mut server: Server<Inbox> = Server::new();
    assert_eq!(server.list_rooms(), texts(&[]));

    // Nothing but a join makes a room.
    server.leave_room("ghost", 1);
    assert_eq!(server.send_chat_message("ghost", "anyone?", 1), None);
    assert!(server.take_room("ghost").is_none());
    server.restore_client("ghost", 1, Inbox::new());
    server.settle_delivery("ghost", 1, Inbox::new(), true);
    assert_eq!(server.list_rooms(), texts(&[]));
    assert_eq!(server.member_count("ghost"), 0);

    server.join_room_as("b", None, Inbox::new(), 1);
    server.join_room_as("a", None, Inbox::new(), 1);
    server.join_room_as("b", None, Inbox::new(), 2);
    assert_eq!(server.list_rooms(), texts(&["b", "a"]));
}

#[test]
fn empty_room_stays_listed() {
    let mut server: Server<Inbox> = Server::new();
    let gone = Inbox::new();
    server.join_room_as("lobby", None, Inbox::new(), 1);
    server.join_room_as("den", None, gone.clone(), 1);
    server.leave_room("lobby", 1);
    gone.hang_up();
    server.send_chat_message("den", "hello?", 1);
    assert_eq!(server.member_count("lobby"), 0);
    assert_eq!(server.member_count("den"), 0);
    assert_eq!(server.list_rooms(), texts(&["lobby", "den"]));
    // A send to the empty room is still a send to a room.
    assert_eq!(server.send_chat_message("lobby", "echo", 1), Some(()));
}

#[test]
fn empty_room_name_is_a_room() {
    let mut server: Server<Inbox> = Server::new();
    let client = Inbox::new();
    let id = server.join_room_as("", None, client.clone(), 4);
    assert_eq!(id, 4);
    assert_eq!(server.list_rooms(), texts(&[""]));
    assert_eq!(client.texts(), texts(&["anon joined "]));
    server.send_chat_message("", "", 4);
    assert_eq!(client.texts(), texts(&["anon joined ", ""]));
}

#[test]
fn broadcast_reaches_everyone_once() {
    let mut server: Server<Inbox> = Server::new();
    let a = Inbox::new();
    let b = Inbox::new();
    let c = Inbox::new();
    server.add_client_to_room("r", Some(1), a.clone());
    server.add_client_to_room("r", Some(2), b.clone());
    server.add_client_to_room("r", Some(3), c.clone());
    let outsider = Inbox::new();
    server.add_client_to_room("elsewhere", Some(1), outsider.clone());

    assert_eq!(server.send_chat_message("r", "news", 2), Some(()));
    assert_eq!(a.texts(), texts(&["news"]));
    assert_eq!(b.texts(), texts(&["news"]));
    assert_eq!(c.texts(), texts(&["news"]));
    assert!(outsider.texts().is_empty());
    assert_eq!(server.member_count("r"), 3);
    assert!(server.is_member("r", 1) && server.is_member("r", 2) && server.is_member("r", 3));
    assert_eq!(server.member_count("elsewhere"), 1);
}

#[test]
fn sender_need_not_be_a_member() {
    let mut server: Server<Inbox> = Server::new();
    let a = Inbox::new();
    server.add_client_to_room("r", Some(1), a.clone());
    assert_eq!(server.send_chat_message("r", "from outside", 99), Some(()));
    assert_eq!(a.texts(), texts(&["from outside"]));
    assert!(!server.is_member("r", 99));
}

#[test]
fn dead_client_is_pruned() {
    let mut server: Server<Inbox> = Server::new();
    let a = Inbox::new();
    let b = Inbox::new();
    let c = Inbox::new();
    server.add_client_to_room("r", Some(1), a.clone());
    server.add_client_to_room("r", Some(2), b.clone());
    server.add_client_to_room("r", Some(3), c.clone());

    b.hang_up();
    assert_eq!(server.send_chat_message("r", "one", 1), Some(()));
    assert!(server.is_member("r", 1));
    assert!(!server.is_member("r", 2));
    assert!(server.is_member("r", 3));
    assert_eq!(server.member_count("r"), 2);

    // Even a client that comes back to life is not in the room any more.
    b.alive.set(true);
    assert_eq!(server.send_chat_message("r", "two", 1), Some(()));
    assert_eq!(a.texts(), texts(&["one", "two"]));
    assert!(b.texts().is_empty());
    assert_eq!(c.texts(), texts(&["one", "two"]));
    assert_eq!(server.list_rooms(), texts(&["r"]));
}

#[test]
fn join_announcement_prunes_too() {
    let mut server: Server<Inbox> = Server::new();
    let old = Inbox::new();
    server.add_client_to_room("r", Some(1), old.clone());
    old.hang_up();
    let new = Inbox::new();
    let id = server.join_room_as("r", Some("newcomer".to_string()), new.clone(), 2);
    assert_eq!(id, 2);
    assert_eq!(new.texts(), texts(&["newcomer joined r"]));
    assert!(!server.is_member("r", 1));
    assert!(server.is_member("r", 2));
}

#[test]
fn joining_client_that_is_gone_does_not_stay() {
    let mut server: Server<Inbox> = Server::new();
    let gone = Inbox::new();
    gone.hang_up();
    let id = server.join_room_as("r", None, gone, 5);
    assert_eq!(id, 5);
    assert!(!server.is_member("r", 5));
    assert_eq!(server.list_rooms(), texts(&["r"]));
}

#[test]
fn leave_twice_is_leave_once() {
    let mut server: Server<Inbox> = Server::new();
    let a = Inbox::new();
    let b = Inbox::new();
    server.add_client_to_room("r", Some(1), a.clone());
    server.add_client_to_room("r", Some(2), b.clone());

    server.leave_room("r", 1);
    assert_eq!(server.member_count("r"), 1);
    server.leave_room("r", 1);
    assert_eq!(server.member_count("r"), 1);
    assert!(server.is_member("r", 2));

    server.leave_room("r", 77);
    server.leave_room("nowhere", 2);
    assert_eq!(server.member_count("r"), 1);
    assert_eq!(server.list_rooms(), texts(&["r"]));

    // Leaving tells nobody.
    assert!(a.texts().is_empty());
    assert!(b.texts().is_empty());
}

#[test]
fn take_room_leaves_the_room_empty() {
    let mut server: Server<Inbox> = Server::new();
    server.add_client_to_room("r", Some(1), Inbox::new());
    server.add_client_to_room("r", Some(2), Inbox::new());
    server.add_client_to_room("s", Some(9), Inbox::new());

    let taken: Room<Inbox> = server.take_room("r").unwrap();
    let mut ids: Vec<usize> = taken.keys().copied().collect();
    ids.sort();
    assert_eq!(ids, vec![1, 2]);
    assert_eq!(server.member_count("r"), 0);
    assert_eq!(server.member_count("s"), 1);
    assert_eq!(server.list_rooms(), texts(&["r", "s"]));

    assert!(server.take_room("r").unwrap().is_empty());
    assert!(server.take_room("missing").is_none());
}

#[test]
fn join_during_broadcast_survives() {
    let mut server: Server<Inbox> = Server::new();
    let a = Inbox::new();
    let b = Inbox::new();
    let c = Inbox::new();
    let d = Inbox::new();
    server.add_client_to_room("r", Some(1), a.clone());
    server.add_client_to_room("r", Some(2), b.clone());
    server.add_client_to_room("r", Some(3), c.clone());

    // The broadcast has taken the membership out; now somebody joins.
    let mut taken = server.take_room("r").unwrap();
    let id = server.add_client_to_room("r", Some(4), d.clone());
    assert_eq!(id, 4);

    b.hang_up();
    for member in [1, 2, 3] {
        let client = taken.remove(&member).unwrap();
        let delivered = client.deliver("late news");
        server.settle_delivery("r", member, client, delivered);
    }
    assert!(server.is_member("r", 4));
    assert!(server.is_member("r", 1));
    assert!(!server.is_member("r", 2));
    assert!(server.is_member("r", 3));
    assert_eq!(server.member_count("r"), 3);
    assert!(d.texts().is_empty());

    server.send_chat_message("r", "next", 4);
    assert_eq!(d.texts(), texts(&["next"]));
    assert_eq!(a.texts(), texts(&["late news", "next"]));
}

#[test]
fn restore_never_takes_a_newer_clients_place() {
    let mut server: Server<Inbox> = Server::new();
    let old = Inbox::new();
    let new = Inbox::new();
    server.add_client_to_room("r", Some(1), old.clone());

    let mut taken = server.take_room("r").unwrap();
    // While the old client is out, a new one is given its id.
    assert_eq!(server.add_client_to_room("r", Some(1), new.clone()), 1);
    server.restore_client("r", 1, taken.remove(&1).unwrap());

    assert_eq!(server.member_count("r"), 1);
    server.send_chat_message("r", "who is 1?", 1);
    assert_eq!(new.texts(), texts(&["who is 1?"]));
    assert!(old.texts().is_empty());
}

#[test]
fn restore_puts_a_client_back() {
    let mut server: Server<Inbox> = Server::new();
    let a = Inbox::new();
    server.add_client_to_room("r", Some(1), Inbox::new());
    server.restore_client("r", 2, a.clone());
    assert!(server.is_member("r", 2));
    assert_eq!(server.member_count("r"), 2);
    server.send_chat_message("r", "back", 2);
    assert_eq!(a.texts(), texts(&["back"]));
}

#[test]
fn failed_delivery_is_not_settled_back() {
    let mut server: Server<Inbox> = Server::new();
    server.add_client_to_room("r", Some(1), Inbox::new());
    server.settle_delivery("r", 2, Inbox::new(), false);
    assert!(!server.is_member("r", 2));
    server.settle_delivery("r", 2, Inbox::new(), true);
    assert!(server.is_member("r", 2));
    assert_eq!(server.member_count("r"), 2);
}

#[test]
fn announcement_text() {
    assert_eq!(join_announcement(&Some("alice".to_string()), "lobby"), "alice joined lobby");
    assert_eq!(join_announcement(&None, "lobby"), "anon joined lobby");
    assert_eq!(join_announcement(&Some(String::new()), ""), " joined ");
    assert_eq!(join_announcement(&Some("a b".to_string()), "x joined y"), "a b joined x joined y");
}

#[test]
fn member_ids_names_each_member_once() {
    let mut room: Room<Inbox> = HashMap::new();
    assert!(member_ids(&room).is_empty());
    for id in [5usize, 0, usize::MAX, 17] {
        room.insert(id, Inbox::new());
    }
    let mut ids = member_ids(&room);
    ids.sort();
    assert_eq!(ids, vec![0, 5, 17, usize::MAX]);
}

#[test]
fn rooms_do_not_share_ids_or_members() {
    let mut server: Server<Inbox> = Server::new();
    let a = Inbox::new();
    let b = Inbox::new();
    server.join_room_as("x", Some("a".to_string()), a.clone(), 1);
    server.join_room_as("y", Some("b".to_string()), b.clone(), 1);
    server.send_chat_message("x", "to x", 1);
    assert_eq!(a.texts(), texts(&["a joined x", "to x"]));
    assert_eq!(b.texts(), texts(&["b joined y"]));
    server.leave_room("x", 1);
    assert!(server.is_member("y", 1));
    assert!(!server.is_member("x", 1));
}
