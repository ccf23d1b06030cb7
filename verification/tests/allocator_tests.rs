use statesync::error::SyncError;
use statesync::uid::UidAllocator;

#[test]
fn allocate_requested_and_look_up() {
    let mut a = UidAllocator::new();
    assert_eq!(a.allocate(5, Some(42)), Ok(42));
    assert_eq!(a.get_by_uid(42), Ok(5));
    assert_eq!(a.get_by_handle(5), Ok(42));
}

#[test]
fn allocate_minted_identities_are_fresh() {
    let mut a = UidAllocator::new();
    let u1 = a.allocate(1, None).unwrap();
    let u2 = a.allocate(2, None).unwrap();
    assert_ne!(u1, u2);
    assert_eq!(a.get_by_uid(u1), Ok(1));
    assert_eq!(a.get_by_uid(u2), Ok(2));
}

#[test]
fn minting_skips_requested_identities() {
    let mut a = UidAllocator::new();
    assert_eq!(a.allocate(1, Some(10)), Ok(10));
    let u = a.allocate(2, None).unwrap();
    assert_ne!(u, 10);
    assert_eq!(a.get_by_uid(u), Ok(2));
}

#[test]
fn double_allocation_of_identity_fails() {
    let mut a = UidAllocator::new();
    assert_eq!(a.allocate(1, Some(7)), Ok(7));
    assert_eq!(a.allocate(2, Some(7)), Err(SyncError::IdentityInUse(7)));
    // the failed call changed nothing
    assert_eq!(a.get_by_uid(7), Ok(1));
}

#[test]
fn double_allocation_of_handle_fails() {
    let mut a = UidAllocator::new();
    assert_eq!(a.allocate(1, Some(7)), Ok(7));
    assert_eq!(a.allocate(1, Some(8)), Err(SyncError::HandleInUse(1)));
}

#[test]
fn deallocated_identity_fails_loudly_on_lookup() {
    let mut a = UidAllocator::new();
    assert_eq!(a.allocate(3, Some(9)), Ok(9));
    assert_eq!(a.deallocate(9), Ok(3));
    assert_eq!(a.get_by_uid(9), Err(SyncError::UnknownIdentity(9)));
    assert_eq!(a.get_by_handle(3), Err(SyncError::HandleInUse(3)));
}

#[test]
fn deallocate_unknown_identity_fails() {
    let mut a = UidAllocator::new();
    assert_eq!(a.deallocate(77), Err(SyncError::UnknownIdentity(77)));
}

#[test]
fn bijection_survives_allocate_deallocate_sequences() {
    let mut a = UidAllocator::new();
    // interleave allocations, deallocations and re-allocations
    assert_eq!(a.allocate(1, Some(100)), Ok(100));
    assert_eq!(a.allocate(2, Some(200)), Ok(200));
    assert_eq!(a.deallocate(100), Ok(1));
    assert_eq!(a.allocate(1, Some(300)), Ok(300));
    let minted = a.allocate(4, None).unwrap();
    // each bound identity maps to its own handle, both directions agree
    let pairs = [(200u64, 2u32), (300u64, 1u32), (minted, 4u32)];
    for (uid, h) in pairs {
        assert_eq!(a.get_by_uid(uid), Ok(h));
        assert_eq!(a.get_by_handle(h), Ok(uid));
    }
    // a handle freed by deallocation can be bound again exactly once
    assert_eq!(a.deallocate(300), Ok(1));
    assert_eq!(a.allocate(1, Some(400)), Ok(400));
    assert_eq!(a.allocate(1, Some(500)), Err(SyncError::HandleInUse(1)));
}

#[test]
fn reserved_identity_is_refused() {
    let mut a = UidAllocator::new();
    assert_eq!(a.allocate(1, Some(u64::MAX)), Err(SyncError::IdentityExhausted));
}
