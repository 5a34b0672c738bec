//! The client table in memory, and the slot an enrolment is given.

use o89_core::clients::{Clients, Occupant, Place, Role, MAX_ADMINS, SLOTS};
use o89_core::idents::{ClientId, Generation};

fn id(n: u32) -> ClientId {
    ClientId::new(n).expect("a slot")
}

fn occupant(key: u8, role: Role, label: &str) -> Occupant {
    Occupant {
        client: [key; 32],
        tag_key: [key.wrapping_add(100); 32],
        generation: Generation::first(),
        role,
        kind: 1,
        label: label.to_string(),
    }
}

fn table(slots: &[(u32, u8, Role, &str)]) -> Clients {
    let mut clients = Clients::new();
    for (slot, key, role, label) in slots {
        clients.seat(id(*slot), occupant(*key, *role, label));
    }
    clients
}

#[test]
fn an_empty_table_gives_its_first_slot_to_an_owner() {
    let clients = Clients::new();
    assert_eq!(clients.len(), SLOTS);
    assert_eq!(clients.enrolled(), 0);
    assert_eq!(clients.place(None, "phone"), Place::Free(id(1), Role::Owner));
    assert_eq!(
        clients.place(Some(&[1; 32]), "phone"),
        Place::Free(id(1), Role::Owner)
    );
}

#[test]
fn the_second_is_an_admin_at_the_lowest_free_slot() {
    let clients = table(&[(1, 1, Role::Owner, "a"), (3, 3, Role::Admin, "c")]);
    assert_eq!(clients.place(Some(&[9; 32]), "new"), Place::Free(id(2), Role::Admin));
}

#[test]
fn a_key_already_held_takes_its_own_slot_and_keeps_its_role() {
    let clients = table(&[(1, 1, Role::Owner, "a"), (2, 2, Role::Admin, "b")]);
    assert_eq!(
        clients.place(Some(&[1; 32]), "renamed"),
        Place::SameKey(id(1), Role::Owner)
    );
    assert_eq!(
        clients.place(Some(&[2; 32]), "b"),
        Place::SameKey(id(2), Role::Admin)
    );
}

#[test]
fn past_the_admin_ceiling_only_a_label_is_reclaimed() {
    let mut slots = vec![(1, 1, Role::Owner, "owner")];
    let labels = ["a", "b", "c", "d", "e", "f"];
    for (n, label) in labels.iter().enumerate() {
        slots.push((n as u32 + 2, n as u8 + 2, Role::Admin, *label));
    }
    let clients = table(&slots);
    assert_eq!(labels.len(), MAX_ADMINS);
    assert_eq!(clients.place(Some(&[99; 32]), "d"), Place::Reclaim(id(5)));
    assert_eq!(clients.place(Some(&[99; 32]), "nobody"), Place::Full);
    // The owner's label is nobody's to reclaim.
    assert_eq!(clients.place(Some(&[99; 32]), "owner"), Place::Full);
    assert_eq!(
        clients.place(Some(&[99; 32]), "d").slot(),
        Some((id(5), Role::Admin))
    );
    assert_eq!(Place::Full.slot(), None);
}

#[test]
fn seating_freeing_and_listing_move_what_they_say() {
    let mut clients = table(&[(2, 7, Role::Viewer, "relay")]);
    assert_eq!(clients.enrolled(), 1);
    assert_eq!(clients.occupied(), vec![(2, [107; 32])]);
    let held = clients.occupant(id(2)).expect("seated");
    assert_eq!(held.client, [7; 32]);
    assert_eq!(held.label, "relay");
    assert!(clients.occupant(id(1)).is_none());
    clients.free_all();
    assert_eq!(clients.enrolled(), 0);
    assert!(clients.occupant(id(2)).is_none());
    assert_eq!(clients.len(), SLOTS);
}
