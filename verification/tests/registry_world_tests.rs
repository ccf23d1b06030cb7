use statesync::error::SyncError;
use statesync::registry::ComponentRegistry;
use statesync::world::WorldStorage;

#[test]
fn register_and_look_up_both_ways() {
    let mut r = ComponentRegistry::new();
    assert!(r.register(1, 100).is_ok());
    assert!(r.register(2, 200).is_ok());
    let d1 = r.by_id(1).unwrap();
    assert_eq!(d1.wire_id, 1);
    assert_eq!(d1.type_key, 100);
    let d2 = r.by_type(200).unwrap();
    assert_eq!(d2.wire_id, 2);
    assert_eq!(d2.type_key, 200);
}

#[test]
fn duplicate_registration_fails() {
    let mut r = ComponentRegistry::new();
    assert!(r.register(1, 100).is_ok());
    assert_eq!(r.register(1, 300), Err(SyncError::ComponentIdRegistered(1)));
    assert_eq!(r.register(3, 100), Err(SyncError::ComponentTypeRegistered(100)));
}

#[test]
fn unknown_lookups_fail_loudly() {
    let r = ComponentRegistry::new();
    assert_eq!(r.by_id(9).unwrap_err(), SyncError::UnknownComponent(9));
    assert_eq!(r.by_type(9).unwrap_err(), SyncError::UnknownComponentType(9));
}

#[test]
fn diff_of_identical_payload_is_no_change() {
    let mut r = ComponentRegistry::new();
    r.register(1, 100).unwrap();
    let d = r.by_id(1).unwrap();
    let x = vec![1u8, 2, 3, 4];
    assert!(d.diff(&x, &x.clone()).is_none());
    let empty: Vec<u8> = Vec::new();
    assert!(d.diff(&empty, &Vec::new()).is_none());
}

#[test]
fn diff_of_different_payloads_carries_the_new_one() {
    let mut r = ComponentRegistry::new();
    r.register(1, 100).unwrap();
    let d = r.by_id(1).unwrap();
    let old_bytes = vec![1u8, 2, 3];
    let new_bytes = vec![1u8, 2, 4];
    assert_eq!(d.diff(&old_bytes, &new_bytes), Some(vec![1u8, 2, 4]));
    assert_eq!(d.diff(&old_bytes, &vec![1u8, 2]), Some(vec![1u8, 2]));
}

#[test]
fn attach_detach_and_queries() {
    let mut w = WorldStorage::new();
    let h = w.create_entity().unwrap();
    assert!(w.is_alive(h));
    assert_eq!(w.entity_count(), 1);
    assert!(w.attach(h, 1, vec![5u8, 6]).is_ok());
    assert!(w.has_component(h, 1));
    assert_eq!(w.get_component(h, 1), Some(&vec![5u8, 6]));
    // overwrite in place
    assert!(w.attach(h, 1, vec![7u8]).is_ok());
    assert_eq!(w.get_component(h, 1), Some(&vec![7u8]));
    assert!(w.detach(h, 1).is_ok());
    assert!(!w.has_component(h, 1));
    // detaching an absent component is a no-op
    assert!(w.detach(h, 1).is_ok());
}

#[test]
fn dead_handle_is_refused() {
    let mut w = WorldStorage::new();
    assert_eq!(w.attach(9, 1, vec![1u8]), Err(SyncError::DeadEntity(9)));
    assert_eq!(w.detach(9, 1), Err(SyncError::DeadEntity(9)));
}

#[test]
fn delete_removes_entity_and_components() {
    let mut w = WorldStorage::new();
    let h1 = w.create_entity().unwrap();
    let h2 = w.create_entity().unwrap();
    w.attach(h1, 1, vec![1u8]).unwrap();
    w.attach(h1, 2, vec![2u8]).unwrap();
    w.attach(h2, 1, vec![3u8]).unwrap();
    w.delete_entity(h1);
    assert!(!w.is_alive(h1));
    assert!(!w.has_component(h1, 1));
    assert!(!w.has_component(h1, 2));
    // the other entity is untouched
    assert!(w.is_alive(h2));
    assert_eq!(w.get_component(h2, 1), Some(&vec![3u8]));
    assert_eq!(w.entity_count(), 1);
}

#[test]
fn descriptor_operations_reach_the_world() {
    let mut r = ComponentRegistry::new();
    r.register(4, 400).unwrap();
    let d = r.by_type(400).unwrap();
    let mut w = WorldStorage::new();
    let h = w.create_entity().unwrap();
    assert!(d.add_component(&mut w, h, vec![9u8]).is_ok());
    assert!(d.exists_in_world(&w, h));
    assert!(d.apply_changes(&mut w, h, vec![8u8]).is_ok());
    assert_eq!(w.get_component(h, 4), Some(&vec![8u8]));
    assert!(d.remove_component(&mut w, h).is_ok());
    assert!(!d.exists_in_world(&w, h));
}
