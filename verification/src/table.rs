//! The read-modify-write table variant of edge persistence.
//!
//! Instead of interning and combine-appends, this variant keys a likes table
//! directly by the target locator text and grows each value in place:
//! `owner!rkey` entries joined by `;`. Deletions go to a separate tombstone
//! table keyed by `owner!rkey`.
use vstd::prelude::*;
use vstd::string::StringSliceAdditionalSpecFns;
use crate::kv::KvStore;
use crate::merge::LIKERS_SEP;
use crate::util::{copy_bytes, extend_bytes};

verus! {

/// The byte that joins an owner identifier to its local record key inside a
/// table entry: ASCII `!`.
pub const ENTRY_SEP: u8 = 33;

/// The table entry recording one edge: owner, `!`, record key.
pub open spec fn like_entry(did: Seq<u8>, rkey: Seq<u8>) -> Seq<u8> {
    did + seq![ENTRY_SEP] + rkey
}

/// Appends one edge to the likes table: a first edge to a target starts its
/// value, a later one is joined on with `;`. Returns whether the target is
/// new to the table.
pub fn persist_like(likes: &mut KvStore, did: &str, rkey: &str, uri: &str) -> (new_subject: bool)
    ensures
        ({
            let key = uri.spec_bytes();
            let val = like_entry(did.spec_bytes(), rkey.spec_bytes());
            &&& new_subject == !old(likes)@.contains_key(key)
            &&& final(likes)@ == old(likes)@.insert(
                key,
                if old(likes)@.contains_key(key) {
                    old(likes)@[key] + seq![LIKERS_SEP] + val
                } else {
                    val
                },
            )
        }),
{
    let mut val = copy_bytes(did.as_bytes());
    val.push(ENTRY_SEP);
    extend_bytes(&mut val, rkey.as_bytes());
    assert(val@ =~= like_entry(did.spec_bytes(), rkey.spec_bytes()));
    let key = uri.as_bytes();
    let mut new_subject = false;
    let newv = match likes.get(key) {
        Some(ex) => {
            let mut t = copy_bytes(ex.as_slice());
            t.push(LIKERS_SEP);
            extend_bytes(&mut t, val.as_slice());
            assert(t@ =~= old(likes)@[key@] + seq![LIKERS_SEP] + val@);
            t
        },
        None => {
            new_subject = true;
            val
        },
    };
    likes.put(copy_bytes(key), newv);
    new_subject
}

/// Records one deletion as a tombstone: the `owner!rkey` entry is added to
/// the tombstone table with an empty value; recording it again changes
/// nothing.
pub fn persist_unlike(unlikes: &mut KvStore, did: &str, rkey: &str)
    ensures
        final(unlikes)@ == old(unlikes)@.insert(
            like_entry(did.spec_bytes(), rkey.spec_bytes()),
            Seq::<u8>::empty(),
        ),
{
    let mut key = copy_bytes(did.as_bytes());
    key.push(ENTRY_SEP);
    extend_bytes(&mut key, rkey.as_bytes());
    assert(key@ =~= like_entry(did.spec_bytes(), rkey.spec_bytes()));
    let empty: Vec<u8> = Vec::new();
    unlikes.put(key, empty);
}

} // verus!
