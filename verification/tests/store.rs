use linkstore::batch::Batch;
use linkstore::kv::KvStore;
use linkstore::store::{Store, StoreError};

fn le(id: u64) -> Vec<u8> {
    id.to_le_bytes().to_vec()
}

fn link_key(owner_id: u64, rkey: &str) -> Vec<u8> {
    let mut k = le(owner_id);
    k.push(b':');
    k.extend_from_slice(rkey.as_bytes());
    k
}

#[test]
fn test_add() {
    assert_eq!(linkstore::add(1, 2), 3);
}

#[test]
fn test_store() {
    let mut store = Store::new();
    assert_eq!(store.next().unwrap(), 0);
    let (ids, links) = store.into_parts();
    let mut store = Store::open(ids, links).unwrap();
    assert_eq!(store.next().unwrap(), 1);
}

#[test]
fn repeated_intern_returns_same_id_and_keeps_counter() {
    let mut store = Store::new();
    let first = store.intern(b"did:plc:alpha").unwrap();
    assert_eq!(first, 0);
    assert_eq!(store.counter_value(), 1);
    let again = store.intern(b"did:plc:alpha").unwrap();
    assert_eq!(again, first);
    assert_eq!(store.counter_value(), 1);
}

#[test]
fn distinct_identifiers_get_distinct_ids() {
    let mut store = Store::new();
    let a = store.intern(b"did:plc:alpha").unwrap();
    let b = store.intern(b"did:plc:beta").unwrap();
    let c = store.intern(b"app.bsky.feed.like").unwrap();
    assert_ne!(a, b);
    assert_ne!(a, c);
    assert_ne!(b, c);
}

#[test]
fn reopened_counter_counts_distinct_identifiers() {
    let mut store = Store::new();
    store.intern(b"one").unwrap();
    store.intern(b"two").unwrap();
    store.intern(b"three").unwrap();
    store.intern(b"two").unwrap();
    let (ids, links) = store.into_parts();
    let mut reopened = Store::open(ids, links).unwrap();
    assert_eq!(reopened.counter_value(), 3);
    // Re-querying an already-seen identifier allocates no new id.
    assert_eq!(reopened.intern(b"two").unwrap(), 1);
    assert_eq!(reopened.counter_value(), 3);
}

#[test]
fn uncommitted_batch_is_invisible_after_reopen() {
    let mut store = Store::new();
    let mut batch = Batch::new();
    let id = store.ensure_id(&mut batch, b"did:plc:ghost").unwrap();
    assert_eq!(id, 0);
    assert_eq!(batch.len(), 2);
    drop(batch); // never committed
    let (ids, links) = store.into_parts();
    let reopened = Store::open(ids, links).unwrap();
    assert_eq!(reopened.counter_value(), 0);
    assert!(reopened.lookup_id(b"did:plc:ghost").is_none());
}

#[test]
fn committed_batch_is_visible_after_reopen() {
    let mut store = Store::new();
    let mut batch = Batch::new();
    let id = store.ensure_id(&mut batch, b"did:plc:kept").unwrap();
    store.commit(batch);
    let (ids, links) = store.into_parts();
    let reopened = Store::open(ids, links).unwrap();
    assert_eq!(reopened.counter_value(), 1);
    assert_eq!(reopened.lookup_id(b"did:plc:kept").unwrap(), &le(id));
}

#[test]
fn create_records_forward_and_reverse_entries() {
    // Interns "did:plc:1" as 0, "did:plc:2" as 1, "app.bsky.feed.like" as 2;
    // the composite target then takes 3, the link key maps to it, and the
    // reverse entry for 3 lists owner 0.
    let mut store = Store::new();
    assert_eq!(store.intern(b"did:plc:1").unwrap(), 0);
    assert_eq!(store.intern(b"did:plc:2").unwrap(), 1);
    assert_eq!(store.intern(b"app.bsky.feed.like").unwrap(), 2);
    store
        .create("did:plc:1", "a", "at://did:plc:2/app.bsky.feed.like/k1")
        .unwrap();
    let mut composite = le(1);
    composite.extend_from_slice(&le(2));
    composite.extend_from_slice(b"k1");
    assert_eq!(store.lookup_id(&composite).unwrap(), &le(3));
    assert_eq!(store.counter_value(), 4);
    assert_eq!(store.lookup_link(&link_key(0, "a")).unwrap(), &le(3));
    assert_eq!(store.lookup_link(&le(3)).unwrap(), &le(0));
}

#[test]
fn two_creates_share_target_reverse_list() {
    let mut store = Store::new();
    store
        .create("did:plc:aaa", "r1", "at://did:plc:target/app.bsky.feed.like/xyz")
        .unwrap();
    store
        .create("did:plc:bbb", "r2", "at://did:plc:target/app.bsky.feed.like/xyz")
        .unwrap();
    let a = u64::from_le_bytes(store.lookup_id(b"did:plc:aaa").unwrap().as_slice().try_into().unwrap());
    let b = u64::from_le_bytes(store.lookup_id(b"did:plc:bbb").unwrap().as_slice().try_into().unwrap());
    assert_ne!(a, b);
    // Resolve the shared target through either forward entry.
    let target = store.lookup_link(&link_key(a, "r1")).unwrap().clone();
    assert_eq!(store.lookup_link(&link_key(b, "r2")).unwrap(), &target);
    let reverse = store.lookup_link(&target).unwrap().clone();
    let likers = linkstore::merge::parse_likers(&reverse).unwrap();
    assert_eq!(likers, vec![a, b]);
    assert_eq!(likers.iter().filter(|x| **x == a).count(), 1);
    assert_eq!(likers.iter().filter(|x| **x == b).count(), 1);
}

#[test]
fn delete_removes_forward_mapping_and_is_idempotent() {
    let mut store = Store::new();
    store
        .create("did:plc:aaa", "r1", "at://did:plc:target/app.bsky.feed.like/xyz")
        .unwrap();
    let a = u64::from_le_bytes(store.lookup_id(b"did:plc:aaa").unwrap().as_slice().try_into().unwrap());
    assert!(store.lookup_link(&link_key(a, "r1")).is_some());
    assert!(store.delete("did:plc:aaa", "r1"));
    assert!(store.lookup_link(&link_key(a, "r1")).is_none());
    // Repeating the delete is a no-op.
    assert!(!store.delete("did:plc:aaa", "r1"));
    // Deleting under an owner never interned is a no-op too.
    assert!(!store.delete("did:plc:unknown", "r1"));
}

#[test]
fn malformed_targets_fail_before_any_mutation() {
    let mut store = Store::new();
    let err = store.create("did:plc:a", "r", "http://x").unwrap_err();
    assert!(matches!(err, StoreError::MalformedTarget(_)));
    let err = store.create("did:plc:a", "r", "at://did:plc:t").unwrap_err();
    assert_eq!(err, StoreError::IncompleteTarget);
    let err = store
        .create("did:plc:a", "r", "at://did:plc:t/app.bsky.feed.like")
        .unwrap_err();
    assert_eq!(err, StoreError::IncompleteTarget);
    // Nothing was staged or committed.
    assert_eq!(store.counter_value(), 0);
    assert!(store.lookup_id(b"did:plc:a").is_none());
}

#[test]
fn reserved_counter_key_is_refused_as_identifier() {
    let mut store = Store::new();
    assert_eq!(store.intern(b"id seq").unwrap_err(), StoreError::ReservedIdentifier);
    assert_eq!(store.counter_value(), 0);
}

#[test]
fn exhausted_counter_cannot_allocate() {
    let mut ids = KvStore::new();
    ids.put(b"id seq".to_vec(), u64::MAX.to_le_bytes().to_vec());
    let mut store = Store::open(ids, KvStore::new()).unwrap();
    assert_eq!(store.counter_value(), u64::MAX);
    assert_eq!(store.next().unwrap_err(), StoreError::Exhausted);
    assert_eq!(store.intern(b"did:plc:late").unwrap_err(), StoreError::Exhausted);
    assert_eq!(store.counter_value(), u64::MAX);
}

#[test]
fn corrupt_counter_fails_open() {
    let mut ids = KvStore::new();
    ids.put(b"id seq".to_vec(), vec![1, 2, 3]);
    let err = Store::open(ids, KvStore::new()).unwrap_err();
    assert_eq!(err, StoreError::Corrupt);
}

#[test]
fn corrupt_surrogate_fails_intern() {
    let mut ids = KvStore::new();
    ids.put(b"did:plc:bad".to_vec(), vec![1, 2, 3]);
    let mut store = Store::open(ids, KvStore::new()).unwrap();
    assert_eq!(store.intern(b"did:plc:bad").unwrap_err(), StoreError::Corrupt);
}

#[test]
fn recreate_overwrites_forward_mapping() {
    let mut store = Store::new();
    store
        .create("did:plc:aaa", "r1", "at://did:plc:t1/app.bsky.feed.like/k1")
        .unwrap();
    store
        .create("did:plc:aaa", "r1", "at://did:plc:t2/app.bsky.feed.like/k2")
        .unwrap();
    let a = u64::from_le_bytes(store.lookup_id(b"did:plc:aaa").unwrap().as_slice().try_into().unwrap());
    // The forward mapping is last-write-wins: it now names the second target.
    let target = store.lookup_link(&link_key(a, "r1")).unwrap().clone();
    let mut composite2 = store.lookup_id(b"did:plc:t2").unwrap().clone();
    composite2.extend_from_slice(store.lookup_id(b"app.bsky.feed.like").unwrap());
    composite2.extend_from_slice(b"k2");
    assert_eq!(&target, store.lookup_id(&composite2).unwrap());
}
