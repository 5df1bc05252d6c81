use linkstore::kv::KvStore;
use linkstore::merge::{join_merge, parse_likers};
use linkstore::table::{persist_like, persist_unlike};

#[test]
fn join_starts_without_separator() {
    let ops = vec![b"aaaaaaaa".to_vec()];
    assert_eq!(join_merge(None, &ops), b"aaaaaaaa".to_vec());
}

#[test]
fn join_separates_operands() {
    let ops = vec![b"aaaaaaaa".to_vec(), b"bbbbbbbb".to_vec()];
    assert_eq!(join_merge(None, &ops), b"aaaaaaaa;bbbbbbbb".to_vec());
}

#[test]
fn join_appends_to_existing_value() {
    let existing = b"xxxxxxxx".to_vec();
    let ops = vec![b"aaaaaaaa".to_vec()];
    assert_eq!(join_merge(Some(&existing), &ops), b"xxxxxxxx;aaaaaaaa".to_vec());
}

#[test]
fn join_of_nothing_is_empty() {
    let ops: Vec<Vec<u8>> = vec![];
    assert_eq!(join_merge(None, &ops), Vec::<u8>::new());
    let existing = b"keep".to_vec();
    assert_eq!(join_merge(Some(&existing), &ops), b"keep".to_vec());
}

#[test]
fn join_is_associative_over_groupings() {
    // Combining in two rounds equals combining all operands at once.
    let a = b"aaaaaaaa".to_vec();
    let b = b"bbbbbbbb".to_vec();
    let c = b"cccccccc".to_vec();
    let all = join_merge(None, &vec![a.clone(), b.clone(), c.clone()]);
    let first = join_merge(None, &vec![a, b]);
    let two_rounds = join_merge(Some(&first), &vec![c]);
    assert_eq!(all, two_rounds);
}

#[test]
fn likers_round_trip() {
    let mut wire = 7u64.to_le_bytes().to_vec();
    wire.push(b';');
    wire.extend_from_slice(&99u64.to_le_bytes());
    assert_eq!(parse_likers(&wire).unwrap(), vec![7, 99]);
    assert_eq!(parse_likers(&7u64.to_le_bytes()).unwrap(), vec![7]);
    assert_eq!(parse_likers(b"").unwrap(), Vec::<u64>::new());
}

#[test]
fn malformed_likers_are_rejected() {
    assert!(parse_likers(b"short").is_none());
    let mut wire = 7u64.to_le_bytes().to_vec();
    wire.push(b'!'); // wrong separator
    wire.extend_from_slice(&99u64.to_le_bytes());
    assert!(parse_likers(&wire).is_none());
}

#[test]
fn persist_like_grows_value_in_place() {
    let mut likes = KvStore::new();
    let uri = "at://did:plc:t/app.bsky.feed.like/k";
    assert!(persist_like(&mut likes, "did:plc:a", "r1", uri));
    assert_eq!(likes.get(uri.as_bytes()).unwrap(), &b"did:plc:a!r1".to_vec());
    assert!(!persist_like(&mut likes, "did:plc:b", "r2", uri));
    assert_eq!(
        likes.get(uri.as_bytes()).unwrap(),
        &b"did:plc:a!r1;did:plc:b!r2".to_vec()
    );
}

#[test]
fn persist_unlike_records_tombstone() {
    let mut unlikes = KvStore::new();
    persist_unlike(&mut unlikes, "did:plc:a", "r1");
    assert_eq!(unlikes.get(b"did:plc:a!r1").unwrap(), &Vec::<u8>::new());
    // Recording the same tombstone again changes nothing.
    persist_unlike(&mut unlikes, "did:plc:a", "r1");
    assert_eq!(unlikes.get(b"did:plc:a!r1").unwrap(), &Vec::<u8>::new());
}
