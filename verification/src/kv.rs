//! A keyspace: a persistent map from byte-string keys to byte-string values.
//!
//! The store keeps its data as an append-only journal of put and delete
//! records; the abstract content (the `View`) is the map obtained by folding
//! the journal from oldest to newest, later records overriding earlier ones.
//! This mirrors how a log-structured storage engine absorbs writes, and it is
//! the state a `Store` persists between sessions.
use vstd::prelude::*;
use crate::util::bytes_eq;

verus! {

/// One journal record: a put of a value, or a delete.
#[derive(Debug)]
pub struct Entry {
    pub key: Vec<u8>,
    pub val: Option<Vec<u8>>,
}

/// The map described by a journal prefix, folded oldest first.
pub open spec fn journal_view(log: Seq<Entry>) -> Map<Seq<u8>, Seq<u8>>
    decreases log.len(),
{
    if log.len() == 0 {
        Map::empty()
    } else {
        let prev = journal_view(log.drop_last());
        let e = log.last();
        match e.val {
            Some(v) => prev.insert(e.key@, v@),
            None => prev.remove(e.key@),
        }
    }
}

/// A byte-keyed keyspace with map semantics.
#[derive(Debug)]
pub struct KvStore {
    log: Vec<Entry>,
}

impl View for KvStore {
    type V = Map<Seq<u8>, Seq<u8>>;

    closed spec fn view(&self) -> Map<Seq<u8>, Seq<u8>> {
        journal_view(self.log@)
    }
}

/// A later record for a different key leaves a key's binding unchanged.
proof fn lemma_journal_view_skip_last(log: Seq<Entry>, k: Seq<u8>)
    requires
        log.len() > 0,
        log.last().key@ != k,
    ensures
        journal_view(log).contains_key(k) == journal_view(log.drop_last()).contains_key(k),
        journal_view(log).contains_key(k) ==> journal_view(log)[k] == journal_view(
            log.drop_last(),
        )[k],
{
}

impl KvStore {
    /// An empty keyspace.
    pub fn new() -> (r: KvStore)
        ensures
            r@ == Map::<Seq<u8>, Seq<u8>>::empty(),
    {
        KvStore { log: Vec::new() }
    }

    /// Point lookup: the value currently bound to `key`, if any.
    pub fn get(&self, key: &[u8]) -> (r: Option<&Vec<u8>>)
        ensures
            match r {
                Some(v) => self@.contains_key(key@) && v@ == self@[key@],
                None => !self@.contains_key(key@),
            },
    {
        let n = self.log.len();
        assert(self.log@.subrange(0, n as int) =~= self.log@);
        let mut i: usize = n;
        while i > 0
            invariant
                n == self.log@.len(),
                0 <= i <= n,
                self@.contains_key(key@) == journal_view(self.log@.subrange(0, i as int)).contains_key(key@),
                self@.contains_key(key@) ==> self@[key@] == journal_view(
                    self.log@.subrange(0, i as int),
                )[key@],
            decreases i,
        {
            let ghost pre = self.log@.subrange(0, i as int);
            assert(pre.drop_last() =~= self.log@.subrange(0, i - 1));
            let e = &self.log[i - 1];
            if bytes_eq(e.key.as_slice(), key) {
                match &e.val {
                    Some(v) => {
                        return Some(v);
                    },
                    None => {
                        return None;
                    },
                }
            }
            proof {
                lemma_journal_view_skip_last(pre, key@);
            }
            i = i - 1;
        }
        assert(self.log@.subrange(0, 0) =~= Seq::<Entry>::empty());
        None
    }

    /// Binds `key` to `val`, replacing any earlier binding.
    pub fn put(&mut self, key: Vec<u8>, val: Vec<u8>)
        ensures
            final(self)@ == old(self)@.insert(key@, val@),
    {
        let ghost old_log = self.log@;
        self.log.push(Entry { key, val: Some(val) });
        assert(self.log@.drop_last() =~= old_log);
    }

    /// Removes any binding for `key`.
    pub fn del(&mut self, key: Vec<u8>)
        ensures
            final(self)@ == old(self)@.remove(key@),
    {
        let ghost old_log = self.log@;
        self.log.push(Entry { key, val: None });
        assert(self.log@.drop_last() =~= old_log);
    }
}

} // verus!
