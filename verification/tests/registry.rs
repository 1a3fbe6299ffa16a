use aeronet::registry::{ClientId, ClientRegistry};

#[test]
fn fresh_registry_knows_no_id() {
    let mut reg: ClientRegistry<u32> = ClientRegistry::new();
    for index in 0..4 {
        for generation in 0..4 {
            let id = ClientId::from_raw(index, generation);
            assert!(reg.get(id).is_none());
            assert!(reg.remove(id).is_none());
            assert!(!reg.contains(id));
        }
    }
}

#[test]
fn insert_then_get_then_remove() {
    let mut reg: ClientRegistry<u32> = ClientRegistry::new();
    let a = reg.insert(10);
    let b = reg.insert(20);
    assert_ne!(a, b);
    assert_eq!(reg.get(a), Some(&10));
    assert_eq!(reg.get(b), Some(&20));
    assert_eq!(reg.remove(a), Some(10));
    assert_eq!(reg.get(a), None);
    assert_eq!(reg.remove(a), None);
    assert_eq!(reg.get(b), Some(&20));
}

#[test]
fn stale_id_fails_even_after_slot_reuse() {
    let mut reg: ClientRegistry<u32> = ClientRegistry::new();
    let a = reg.insert(1);
    assert_eq!(reg.remove(a), Some(1));
    let b = reg.insert(2);
    // The freed slot is reused under a bumped generation.
    assert_eq!(b.into_raw().0, a.into_raw().0);
    assert_ne!(a, b);
    assert!(reg.is_stale(a));
    assert!(!reg.is_stale(b));
    assert_eq!(reg.get(a), None);
    assert_eq!(reg.remove(a), None);
    assert_eq!(reg.get(b), Some(&2));
}

#[test]
fn set_replaces_only_known_ids() {
    let mut reg: ClientRegistry<u32> = ClientRegistry::new();
    let a = reg.insert(5);
    assert!(reg.set(a, 6));
    assert_eq!(reg.get(a), Some(&6));
    let ghost_id = ClientId::from_raw(9, 9);
    assert!(!reg.set(ghost_id, 7));
    assert_eq!(reg.get(ghost_id), None);
}

#[test]
fn replace_returns_old_value() {
    let mut reg: ClientRegistry<u32> = ClientRegistry::new();
    let a = reg.insert(5);
    assert_eq!(reg.replace(a, 6), Some(5));
    assert_eq!(reg.get(a), Some(&6));
    assert_eq!(reg.replace(ClientId::from_raw(3, 0), 8), None);
}

#[test]
fn ids_lists_exactly_the_live_clients() {
    let mut reg: ClientRegistry<u32> = ClientRegistry::new();
    let a = reg.insert(1);
    let b = reg.insert(2);
    let c = reg.insert(3);
    reg.remove(b);
    let ids = reg.ids();
    assert_eq!(ids.len(), 2);
    assert!(ids.contains(&a));
    assert!(ids.contains(&c));
    assert!(!ids.contains(&b));
}

#[test]
fn raw_parts_round_trip() {
    let id = ClientId::from_raw(4, 17);
    assert_eq!(id.into_raw(), (4, 17));
}
