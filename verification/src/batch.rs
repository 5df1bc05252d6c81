//! Atomic batches of staged mutations.
//!
//! A batch collects puts against the identifier keyspace together with puts,
//! combine-appends and deletes against the link keyspace. Staging never
//! touches the store; `Store::commit` applies a whole batch at once, so all
//! newly minted surrogates and the edge mutation that needed them become
//! visible together or not at all.
use vstd::prelude::*;
use crate::merge::{join_one, LIKERS_SEP};

verus! {

/// One staged mutation.
#[derive(Debug)]
pub enum Op {
    /// Bind an identifier (or the reserved counter key) in the identifier
    /// keyspace.
    PutId(Vec<u8>, Vec<u8>),
    /// Bind a forward link key to a target surrogate.
    PutLink(Vec<u8>, Vec<u8>),
    /// Combine-append an operand into a reverse adjacency value.
    MergeLink(Vec<u8>, Vec<u8>),
    /// Remove a forward link key.
    DeleteLink(Vec<u8>),
}

/// The mathematical shape of a staged mutation.
pub enum OpV {
    PutId(Seq<u8>, Seq<u8>),
    PutLink(Seq<u8>, Seq<u8>),
    MergeLink(Seq<u8>, Seq<u8>),
    DeleteLink(Seq<u8>),
}

impl View for Op {
    type V = OpV;

    open spec fn view(&self) -> OpV {
        match self {
            Op::PutId(k, v) => OpV::PutId(k@, v@),
            Op::PutLink(k, v) => OpV::PutLink(k@, v@),
            Op::MergeLink(k, v) => OpV::MergeLink(k@, v@),
            Op::DeleteLink(k) => OpV::DeleteLink(k@),
        }
    }
}

/// What one staged mutation does to the identifier keyspace.
pub open spec fn apply_op_ids(m: Map<Seq<u8>, Seq<u8>>, op: OpV) -> Map<Seq<u8>, Seq<u8>> {
    match op {
        OpV::PutId(k, v) => m.insert(k, v),
        _ => m,
    }
}

/// What one staged mutation does to the link keyspace. A combine-append
/// merges its operand into the stored value exactly as the registered
/// combine would.
pub open spec fn apply_op_links(m: Map<Seq<u8>, Seq<u8>>, op: OpV) -> Map<Seq<u8>, Seq<u8>> {
    match op {
        OpV::PutLink(k, v) => m.insert(k, v),
        OpV::MergeLink(k, v) => m.insert(
            k,
            join_one(
                if m.contains_key(k) {
                    Some(m[k])
                } else {
                    None
                },
                v,
            ),
        ),
        OpV::DeleteLink(k) => m.remove(k),
        _ => m,
    }
}

/// The identifier keyspace after a whole batch, oldest op first.
pub open spec fn apply_ids(m: Map<Seq<u8>, Seq<u8>>, ops: Seq<OpV>) -> Map<Seq<u8>, Seq<u8>>
    decreases ops.len(),
{
    if ops.len() == 0 {
        m
    } else {
        apply_op_ids(apply_ids(m, ops.drop_last()), ops.last())
    }
}

/// The link keyspace after a whole batch, oldest op first.
pub open spec fn apply_links(m: Map<Seq<u8>, Seq<u8>>, ops: Seq<OpV>) -> Map<Seq<u8>, Seq<u8>>
    decreases ops.len(),
{
    if ops.len() == 0 {
        m
    } else {
        apply_op_links(apply_links(m, ops.drop_last()), ops.last())
    }
}

/// An empty batch changes nothing.
pub proof fn lemma_apply_empty(m: Map<Seq<u8>, Seq<u8>>)
    ensures
        apply_ids(m, Seq::<OpV>::empty()) == m,
        apply_links(m, Seq::<OpV>::empty()) == m,
{
}

/// Appending one staged mutation applies it after the rest.
pub proof fn lemma_apply_ids_push(m: Map<Seq<u8>, Seq<u8>>, ops: Seq<OpV>, op: OpV)
    ensures
        apply_ids(m, ops.push(op)) == apply_op_ids(apply_ids(m, ops), op),
{
    assert(ops.push(op).drop_last() =~= ops);
    assert(ops.push(op).last() == op);
}

/// Appending one staged mutation applies it after the rest.
pub proof fn lemma_apply_links_push(m: Map<Seq<u8>, Seq<u8>>, ops: Seq<OpV>, op: OpV)
    ensures
        apply_links(m, ops.push(op)) == apply_op_links(apply_links(m, ops), op),
{
    assert(ops.push(op).drop_last() =~= ops);
    assert(ops.push(op).last() == op);
}

/// Identifier bindings do not touch the link keyspace.
pub proof fn lemma_apply_links_only_put_ids(m: Map<Seq<u8>, Seq<u8>>, ops: Seq<OpV>)
    requires
        forall|i: int| 0 <= i < ops.len() ==> ops[i] is PutId,
    ensures
        apply_links(m, ops) == m,
    decreases ops.len(),
{
    if ops.len() > 0 {
        lemma_apply_links_only_put_ids(m, ops.drop_last());
    }
}

/// Applying a concatenation applies the two parts in turn.
pub proof fn lemma_apply_ids_append(m: Map<Seq<u8>, Seq<u8>>, ops1: Seq<OpV>, ops2: Seq<OpV>)
    ensures
        apply_ids(m, ops1 + ops2) == apply_ids(apply_ids(m, ops1), ops2),
    decreases ops2.len(),
{
    if ops2.len() == 0 {
        assert(ops1 + ops2 =~= ops1);
    } else {
        lemma_apply_ids_append(m, ops1, ops2.drop_last());
        assert((ops1 + ops2).drop_last() =~= ops1 + ops2.drop_last());
        assert((ops1 + ops2).last() == ops2.last());
    }
}

/// The value the identifier keyspace holds for `k` after a batch: the last
/// staged binding for `k`, or the stored one.
pub open spec fn last_put_id(ops: Seq<OpV>, k: Seq<u8>) -> Option<Seq<u8>>
    decreases ops.len(),
{
    if ops.len() == 0 {
        None
    } else {
        match ops.last() {
            OpV::PutId(k2, v) => if k2 == k {
                Some(v)
            } else {
                last_put_id(ops.drop_last(), k)
            },
            _ => last_put_id(ops.drop_last(), k),
        }
    }
}

/// A batch lookup resolves as `last_put_id` says.
pub proof fn lemma_apply_ids_lookup(m: Map<Seq<u8>, Seq<u8>>, ops: Seq<OpV>, k: Seq<u8>)
    ensures
        match last_put_id(ops, k) {
            Some(v) => apply_ids(m, ops).contains_key(k) && apply_ids(m, ops)[k] == v,
            None => apply_ids(m, ops).contains_key(k) == m.contains_key(k) && (m.contains_key(k)
                ==> apply_ids(m, ops)[k] == m[k]),
        },
    decreases ops.len(),
{
    if ops.len() == 0 {
    } else {
        lemma_apply_ids_lookup(m, ops.drop_last(), k);
    }
}

/// A batch of staged mutations, applied all at once by `Store::commit`.
#[derive(Debug)]
pub struct Batch {
    ops: Vec<Op>,
}

impl View for Batch {
    type V = Seq<OpV>;

    closed spec fn view(&self) -> Seq<OpV> {
        Seq::new(self.ops@.len(), |i: int| self.ops@[i]@)
    }
}

impl Batch {
    /// An empty batch.
    pub fn new() -> (r: Batch)
        ensures
            r@ == Seq::<OpV>::empty(),
    {
        let r = Batch { ops: Vec::new() };
        proof {
            assert(r@ =~= Seq::<OpV>::empty());
        }
        r
    }

    /// The number of staged mutations.
    pub fn len(&self) -> (r: usize)
        ensures
            r == self@.len(),
    {
        self.ops.len()
    }

    /// Stages a binding in the identifier keyspace.
    pub fn push_put_id(&mut self, k: Vec<u8>, v: Vec<u8>)
        ensures
            final(self)@ == old(self)@.push(OpV::PutId(k@, v@)),
    {
        self.ops.push(Op::PutId(k, v));
        proof {
            assert(self@ =~= old(self)@.push(OpV::PutId(k@, v@)));
        }
    }

    /// Stages a forward link binding.
    pub fn push_put_link(&mut self, k: Vec<u8>, v: Vec<u8>)
        ensures
            final(self)@ == old(self)@.push(OpV::PutLink(k@, v@)),
    {
        self.ops.push(Op::PutLink(k, v));
        proof {
            assert(self@ =~= old(self)@.push(OpV::PutLink(k@, v@)));
        }
    }

    /// Stages a combine-append into a reverse adjacency value.
    pub fn push_merge_link(&mut self, k: Vec<u8>, v: Vec<u8>)
        ensures
            final(self)@ == old(self)@.push(OpV::MergeLink(k@, v@)),
    {
        self.ops.push(Op::MergeLink(k, v));
        proof {
            assert(self@ =~= old(self)@.push(OpV::MergeLink(k@, v@)));
        }
    }

    /// Stages removal of a forward link.
    pub fn push_delete_link(&mut self, k: Vec<u8>)
        ensures
            final(self)@ == old(self)@.push(OpV::DeleteLink(k@)),
    {
        self.ops.push(Op::DeleteLink(k));
        proof {
            assert(self@ =~= old(self)@.push(OpV::DeleteLink(k@)));
        }
    }

    /// The value the identifier keyspace would hold for `key` from this
    /// batch alone: the latest staged binding, if any.
    pub fn find_id(&self, key: &[u8]) -> (r: Option<&Vec<u8>>)
        ensures
            match r {
                Some(v) => last_put_id(self@, key@) == Some(v@),
                None => last_put_id(self@, key@) is None,
            },
    {
        let n = self.ops.len();
        assert(self@.subrange(0, n as int) =~= self@);
        let mut i: usize = n;
        while i > 0
            invariant
                n == self.ops@.len(),
                n == self@.len(),
                0 <= i <= n,
                last_put_id(self@, key@) == last_put_id(self@.subrange(0, i as int), key@),
                forall|j: int| 0 <= j < n ==> self@[j] == self.ops@[j]@,
            decreases i,
        {
            let ghost pre = self@.subrange(0, i as int);
            assert(pre.drop_last() =~= self@.subrange(0, i - 1));
            assert(pre.last() == self@[i - 1]);
            match &self.ops[i - 1] {
                Op::PutId(k, v) => {
                    if crate::util::bytes_eq(k.as_slice(), key) {
                        return Some(v);
                    }
                },
                _ => {},
            }
            i = i - 1;
        }
        assert(self@.subrange(0, 0) =~= Seq::<OpV>::empty());
        None
    }

    /// The staged mutations, oldest first, surrendering the batch.
    pub fn into_ops(self) -> (r: Vec<Op>)
        ensures
            r@.len() == self@.len(),
            forall|i: int| 0 <= i < r@.len() ==> r@[i]@ == self@[i],
    {
        self.ops
    }
}

} // verus!
