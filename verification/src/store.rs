//! The identifier interner and the link store.
//!
//! The interner binds each distinct identifier, on first sight, to the next
//! value of a persisted counter; the link store composes the interner with
//! the locator codec to turn create and delete events into one atomic batch
//! against two keyspaces: identifiers (plus the reserved counter key) and
//! links (forward link keys, and per-target reverse adjacency values).
use vstd::prelude::*;
use vstd::bytes::{spec_u64_to_le_bytes, spec_u64_from_le_bytes, u64_to_le_bytes, u64_from_le_bytes};
use crate::batch::{Batch, Op, OpV, apply_ids, apply_links, lemma_apply_ids_lookup};
use crate::kv::KvStore;
use crate::merge::{join_one, LIKERS_SEP};
use crate::uri::{AtUri, AtUriView, ParseError, spec_parse};
use crate::util::{bytes_eq, copy_bytes, extend_bytes};
use vstd::string::StringSliceAdditionalSpecFns;
use vstd::utf8::encode_utf8;

verus! {

/// The reserved key, `id seq` in ASCII, under which the identifier keyspace
/// persists the allocation counter.
pub open spec fn seq_key() -> Seq<u8> {
    seq![105u8, 100u8, 32u8, 115u8, 101u8, 113u8]
}

/// The reserved counter key as bytes.
pub fn seq_key_bytes() -> (r: Vec<u8>)
    ensures
        r@ == seq_key(),
{
    let mut r: Vec<u8> = Vec::new();
    r.push(105);
    r.push(100);
    r.push(32);
    r.push(115);
    r.push(101);
    r.push(113);
    proof {
        assert(r@ =~= seq_key());
    }
    r
}

/// Why an operation failed.
#[derive(Debug, PartialEq, Eq)]
pub enum StoreError {
    /// The target locator was rejected by the codec.
    MalformedTarget(ParseError),
    /// The target locator parsed, but does not name authority, collection
    /// and record key.
    IncompleteTarget,
    /// The identifier collides with the reserved counter key.
    ReservedIdentifier,
    /// A stored surrogate or counter value is not exactly 8 bytes wide.
    Corrupt,
    /// The allocation counter cannot advance further.
    Exhausted,
}

/// How one interning step resolved.
pub enum InternOutcome {
    /// A new surrogate was allocated.
    Fresh(u64),
    /// The identifier was already bound to this surrogate.
    Found(u64),
    /// The identifier collides with the reserved counter key.
    Reserved,
    /// The stored binding is not 8 bytes wide.
    Corrupt,
    /// The counter cannot advance further.
    Exhausted,
}

/// The surrogate an interning step yields, when it yields one.
pub open spec fn outcome_id(o: InternOutcome) -> Option<u64> {
    match o {
        InternOutcome::Fresh(id) => Some(id),
        InternOutcome::Found(id) => Some(id),
        _ => None,
    }
}

/// The surrogate an interning step yields, with an arbitrary value on
/// failure; meaningful only when `outcome_id` is `Some`.
pub open spec fn outcome_id_val(o: InternOutcome) -> u64 {
    match o {
        InternOutcome::Fresh(id) => id,
        InternOutcome::Found(id) => id,
        _ => 0,
    }
}

/// The error an interning step fails with, when it fails.
pub open spec fn outcome_error(o: InternOutcome) -> StoreError {
    match o {
        InternOutcome::Reserved => StoreError::ReservedIdentifier,
        InternOutcome::Corrupt => StoreError::Corrupt,
        InternOutcome::Exhausted => StoreError::Exhausted,
        _ => StoreError::Corrupt,
    }
}

/// One interning step over the effective identifier keyspace: the outcome,
/// the keyspace afterwards, and the counter afterwards.
///
/// An identifier already bound resolves to its stored surrogate and changes
/// nothing. A fresh identifier takes the current counter value and stages
/// two bindings: the counter key to the incremented counter, then the
/// identifier to its new surrogate.
pub open spec fn intern1(m: Map<Seq<u8>, Seq<u8>>, next: u64, ident: Seq<u8>) -> (
    InternOutcome,
    Map<Seq<u8>, Seq<u8>>,
    u64,
) {
    if ident == seq_key() {
        (InternOutcome::Reserved, m, next)
    } else if m.contains_key(ident) {
        if m[ident].len() == 8 {
            (InternOutcome::Found(spec_u64_from_le_bytes(m[ident])), m, next)
        } else {
            (InternOutcome::Corrupt, m, next)
        }
    } else if next < u64::MAX {
        (
            InternOutcome::Fresh(next),
            m.insert(seq_key(), spec_u64_to_le_bytes((next + 1) as u64)).insert(
                ident,
                spec_u64_to_le_bytes(next),
            ),
            (next + 1) as u64,
        )
    } else {
        (InternOutcome::Exhausted, m, next)
    }
}

/// The byte that separates an owner surrogate from the owner's local record
/// key inside a forward link key: ASCII `:`.
pub const LINK_SEP: u8 = 58;

/// The persisted counter agrees with the in-memory one: the counter key
/// holds its encoding, or is absent with the counter at zero.
pub open spec fn counter_consistent(m: Map<Seq<u8>, Seq<u8>>, next: u64) -> bool {
    if m.contains_key(seq_key()) {
        m[seq_key()] == spec_u64_to_le_bytes(next)
    } else {
        next == 0
    }
}

/// Interning keeps the persisted counter in step with the in-memory one:
/// an allocation stages both together.
pub proof fn lemma_intern_keeps_counter(m: Map<Seq<u8>, Seq<u8>>, next: u64, ident: Seq<u8>)
    requires
        counter_consistent(m, next),
    ensures
        counter_consistent(intern1(m, next, ident).1, intern1(m, next, ident).2),
{
}

/// What a create event does, given the target locator already split into
/// authority, collection and record key bytes: the owner, the authority, the
/// collection and the composite target identifier are interned in turn over
/// the running keyspace, then the forward link binding and the reverse
/// adjacency append are staged, and the whole batch applies at once. The
/// first failing interning step aborts everything.
pub open spec fn spec_create(
    ids: Map<Seq<u8>, Seq<u8>>,
    links: Map<Seq<u8>, Seq<u8>>,
    next: u64,
    owner: Seq<u8>,
    rkey: Seq<u8>,
    tdid: Seq<u8>,
    tcol: Seq<u8>,
    trkey: Seq<u8>,
) -> Result<(Map<Seq<u8>, Seq<u8>>, Map<Seq<u8>, Seq<u8>>, u64), StoreError> {
    let s1 = intern1(ids, next, owner);
    match outcome_id(s1.0) {
        None => Err(outcome_error(s1.0)),
        Some(oid) => {
            let s2 = intern1(s1.1, s1.2, tdid);
            match outcome_id(s2.0) {
                None => Err(outcome_error(s2.0)),
                Some(tid) => {
                    let s3 = intern1(s2.1, s2.2, tcol);
                    match outcome_id(s3.0) {
                        None => Err(outcome_error(s3.0)),
                        Some(cid) => {
                            let comp = spec_u64_to_le_bytes(tid) + spec_u64_to_le_bytes(cid)
                                + trkey;
                            let s4 = intern1(s3.1, s3.2, comp);
                            match outcome_id(s4.0) {
                                None => Err(outcome_error(s4.0)),
                                Some(uid) => {
                                    let lk = spec_u64_to_le_bytes(oid) + seq![LINK_SEP] + rkey;
                                    let rk = spec_u64_to_le_bytes(uid);
                                    let l1 = links.insert(lk, spec_u64_to_le_bytes(uid));
                                    let l2 = l1.insert(
                                        rk,
                                        join_one(
                                            if l1.contains_key(rk) {
                                                Some(l1[rk])
                                            } else {
                                                None
                                            },
                                            spec_u64_to_le_bytes(oid),
                                        ),
                                    );
                                    Ok((s4.1, l2, s4.2))
                                },
                            }
                        },
                    }
                },
            }
        },
    }
}

/// The link keyspace after a delete event: the forward binding for the
/// owner's link key is removed when the owner is known and the binding
/// exists; otherwise nothing changes. The reverse adjacency value of the
/// resolved target is left as it is.
pub open spec fn spec_delete_links(
    ids: Map<Seq<u8>, Seq<u8>>,
    links: Map<Seq<u8>, Seq<u8>>,
    owner: Seq<u8>,
    rkey: Seq<u8>,
) -> Map<Seq<u8>, Seq<u8>> {
    if !ids.contains_key(owner) {
        links
    } else {
        let lk = ids[owner] + seq![LINK_SEP] + rkey;
        if !links.contains_key(lk) {
            links
        } else {
            links.remove(lk)
        }
    }
}

/// Whether a delete event finds a forward binding to remove.
pub open spec fn spec_delete_removed(
    ids: Map<Seq<u8>, Seq<u8>>,
    links: Map<Seq<u8>, Seq<u8>>,
    owner: Seq<u8>,
    rkey: Seq<u8>,
) -> bool {
    ids.contains_key(owner) && links.contains_key(ids[owner] + seq![LINK_SEP] + rkey)
}

/// The persisted allocation counter: the next surrogate to hand out.
#[derive(Debug)]
pub struct StoreIdSeq {
    current_id: u64,
}

impl StoreIdSeq {
    /// The next surrogate this counter will hand out.
    pub closed spec fn current(self) -> u64 {
        self.current_id
    }

    /// Reads the counter from the identifier keyspace; a store never touched
    /// starts at zero.
    pub fn new(ids: &KvStore) -> (r: Result<StoreIdSeq, StoreError>)
        ensures
            match r {
                Ok(s) => if ids@.contains_key(seq_key()) {
                    ids@[seq_key()].len() == 8 && s.current() == spec_u64_from_le_bytes(
                        ids@[seq_key()],
                    )
                } else {
                    s.current() == 0
                },
                Err(e) => e == StoreError::Corrupt && ids@.contains_key(seq_key())
                    && ids@[seq_key()].len() != 8,
            },
    {
        let key = seq_key_bytes();
        match ids.get(key.as_slice()) {
            Some(v) => {
                if v.len() != 8 {
                    return Err(StoreError::Corrupt);
                }
                let current_id = u64_from_le_bytes(v.as_slice());
                Ok(StoreIdSeq { current_id })
            },
            None => Ok(StoreIdSeq { current_id: 0 }),
        }
    }

    /// Hands out the current counter value and stages the incremented
    /// counter into the batch.
    pub fn next(&mut self, batch: &mut Batch) -> (id: u64)
        requires
            old(self).current() < u64::MAX,
        ensures
            id == old(self).current(),
            final(self).current() == old(self).current() + 1,
            final(batch)@ == old(batch)@.push(
                OpV::PutId(seq_key(), spec_u64_to_le_bytes((old(self).current() + 1) as u64)),
            ),
    {
        let yours = self.current_id;
        self.current_id = self.current_id + 1;
        batch.push_put_id(seq_key_bytes(), u64_to_le_bytes(self.current_id));
        yours
    }

    /// Resolves an identifier to its surrogate over the keyspace plus the
    /// staged batch; a fresh identifier is allocated the current counter
    /// value, and the two writes that record it are staged into the batch,
    /// never applied here.
    pub fn ensure_id(&mut self, ids: &KvStore, batch: &mut Batch, ident: &[u8]) -> (r: Result<
        u64,
        StoreError,
    >)
        ensures
            ({
                let eff0 = apply_ids(ids@, old(batch)@);
                let step = intern1(eff0, old(self).current(), ident@);
                &&& final(self).current() == step.2
                &&& apply_ids(ids@, final(batch)@) == step.1
                &&& match outcome_id(step.0) {
                    Some(id) => r == Ok::<u64, StoreError>(id),
                    None => r == Err::<u64, StoreError>(outcome_error(step.0)),
                }
                &&& (step.0 matches InternOutcome::Fresh(id) ==> final(batch)@ == old(batch)@
                    + seq![
                    OpV::PutId(seq_key(), spec_u64_to_le_bytes((id + 1) as u64)),
                    OpV::PutId(ident@, spec_u64_to_le_bytes(id)),
                ])
                &&& (!(step.0 is Fresh) ==> final(batch)@ == old(batch)@)
            }),
    {
        proof {
            lemma_apply_ids_lookup(ids@, batch@, ident@);
        }
        let reserved = seq_key_bytes();
        if bytes_eq(ident, reserved.as_slice()) {
            return Err(StoreError::ReservedIdentifier);
        }
        match batch.find_id(ident) {
            Some(v) => {
                if v.len() != 8 {
                    return Err(StoreError::Corrupt);
                }
                return Ok(u64_from_le_bytes(v.as_slice()));
            },
            None => {},
        }
        match ids.get(ident) {
            Some(v) => {
                if v.len() != 8 {
                    return Err(StoreError::Corrupt);
                }
                return Ok(u64_from_le_bytes(v.as_slice()));
            },
            None => {},
        }
        if self.current_id == u64::MAX {
            return Err(StoreError::Exhausted);
        }
        let ghost eff0 = apply_ids(ids@, batch@);
        let ghost b0 = batch@;
        let id = self.next(batch);
        batch.push_put_id(copy_bytes(ident), u64_to_le_bytes(id));
        proof {
            let op1 = OpV::PutId(seq_key(), spec_u64_to_le_bytes((id + 1) as u64));
            let op2 = OpV::PutId(ident@, spec_u64_to_le_bytes(id));
            assert(batch@ =~= b0 + seq![op1, op2]);
            assert(batch@ =~= b0.push(op1).push(op2));
            crate::batch::lemma_apply_ids_push(ids@, b0, op1);
            crate::batch::lemma_apply_ids_push(ids@, b0.push(op1), op2);
            assert(apply_ids(ids@, batch@) == eff0.insert(
                seq_key(),
                spec_u64_to_le_bytes((id + 1) as u64),
            ).insert(ident@, spec_u64_to_le_bytes(id)));
        }
        Ok(id)
    }
}

/// The link store: two keyspaces and the allocation counter.
#[derive(Debug)]
pub struct Store {
    ids: KvStore,
    links: KvStore,
    seq: StoreIdSeq,
}

impl Store {
    /// The identifier keyspace: identifier bytes to 8-byte surrogates, plus
    /// the reserved counter key.
    pub closed spec fn ids_view(self) -> Map<Seq<u8>, Seq<u8>> {
        self.ids@
    }

    /// The link keyspace: forward link keys to 8-byte target surrogates, and
    /// 8-byte target surrogates to reverse adjacency values.
    pub closed spec fn links_view(self) -> Map<Seq<u8>, Seq<u8>> {
        self.links@
    }

    /// The next surrogate to hand out.
    pub closed spec fn counter(self) -> u64 {
        self.seq.current()
    }

    /// The in-memory counter agrees with the persisted one.
    pub open spec fn wf(self) -> bool {
        counter_consistent(self.ids_view(), self.counter())
    }

    /// A store with nothing interned and nothing linked.
    pub fn new() -> (r: Store)
        ensures
            r.ids_view() == Map::<Seq<u8>, Seq<u8>>::empty(),
            r.links_view() == Map::<Seq<u8>, Seq<u8>>::empty(),
            r.counter() == 0,
            r.wf(),
    {
        Store { ids: KvStore::new(), links: KvStore::new(), seq: StoreIdSeq { current_id: 0 } }
    }

    /// Reopens a store over persisted keyspaces, reading the counter back
    /// from the identifier keyspace.
    pub fn open(ids: KvStore, links: KvStore) -> (r: Result<Store, StoreError>)
        ensures
            match r {
                Ok(s) => {
                    &&& s.ids_view() == ids@
                    &&& s.links_view() == links@
                    &&& if ids@.contains_key(seq_key()) {
                        ids@[seq_key()].len() == 8 && s.counter() == spec_u64_from_le_bytes(
                            ids@[seq_key()],
                        )
                    } else {
                        s.counter() == 0
                    }
                    &&& s.wf()
                },
                Err(e) => e == StoreError::Corrupt && ids@.contains_key(seq_key())
                    && ids@[seq_key()].len() != 8,
            },
    {
        let seq = match StoreIdSeq::new(&ids) {
            Ok(s) => s,
            Err(e) => {
                return Err(e);
            },
        };
        let r = Store { ids, links, seq };
        proof {
            if r.ids_view().contains_key(seq_key()) {
                vstd::bytes::lemma_auto_spec_u64_to_from_le_bytes();
            }
        }
        Ok(r)
    }

    /// Surrenders the two keyspaces, as when the store is closed and its
    /// state persisted.
    pub fn into_parts(self) -> (r: (KvStore, KvStore))
        ensures
            r.0@ == self.ids_view(),
            r.1@ == self.links_view(),
    {
        (self.ids, self.links)
    }

    /// Applies a staged batch as one all-or-nothing unit.
    pub fn commit(&mut self, batch: Batch)
        ensures
            final(self).ids_view() == apply_ids(old(self).ids_view(), batch@),
            final(self).links_view() == apply_links(old(self).links_view(), batch@),
            final(self).counter() == old(self).counter(),
    {
        let ghost bview = batch@;
        let ghost ids0 = self.ids@;
        let ghost links0 = self.links@;
        let ops = batch.into_ops();
        let n = ops.len();
        assert(bview.take(0) =~= Seq::<OpV>::empty());
        let mut i: usize = 0;
        while i < n
            invariant
                n == ops@.len(),
                bview.len() == n,
                forall|j: int| 0 <= j < n ==> ops@[j]@ == bview[j],
                0 <= i <= n,
                self.ids@ == apply_ids(ids0, bview.take(i as int)),
                self.links@ == apply_links(links0, bview.take(i as int)),
                self.seq == old(self).seq,
            decreases n - i,
        {
            proof {
                assert(bview.take(i + 1).drop_last() =~= bview.take(i as int));
                assert(bview.take(i + 1).last() == bview[i as int]);
            }
            match &ops[i] {
                Op::PutId(k, v) => {
                    self.ids.put(copy_bytes(k.as_slice()), copy_bytes(v.as_slice()));
                },
                Op::PutLink(k, v) => {
                    self.links.put(copy_bytes(k.as_slice()), copy_bytes(v.as_slice()));
                },
                Op::MergeLink(k, v) => {
                    let newv = match self.links.get(k.as_slice()) {
                        Some(ex) => {
                            let mut t = copy_bytes(ex.as_slice());
                            t.push(LIKERS_SEP);
                            extend_bytes(&mut t, v.as_slice());
                            assert(t@ =~= join_one(Some(ex@), v@));
                            t
                        },
                        None => copy_bytes(v.as_slice()),
                    };
                    self.links.put(copy_bytes(k.as_slice()), newv);
                },
                Op::DeleteLink(k) => {
                    self.links.del(copy_bytes(k.as_slice()));
                },
            }
            i = i + 1;
        }
        assert(bview.take(n as int) =~= bview);
    }

    /// Resolves an identifier to its surrogate within a batch under
    /// construction, staging the allocation if the identifier is fresh. Only
    /// the in-memory counter advances here; the keyspaces change when the
    /// batch is committed, and an abandoned batch leaves nothing behind to
    /// persist.
    pub fn ensure_id(&mut self, batch: &mut Batch, ident: &[u8]) -> (r: Result<u64, StoreError>)
        ensures
            ({
                let eff0 = apply_ids(old(self).ids_view(), old(batch)@);
                let step = intern1(eff0, old(self).counter(), ident@);
                &&& final(self).counter() == step.2
                &&& final(self).ids_view() == old(self).ids_view()
                &&& final(self).links_view() == old(self).links_view()
                &&& apply_ids(old(self).ids_view(), final(batch)@) == step.1
                &&& match outcome_id(step.0) {
                    Some(id) => r == Ok::<u64, StoreError>(id),
                    None => r == Err::<u64, StoreError>(outcome_error(step.0)),
                }
                &&& (step.0 matches InternOutcome::Fresh(id) ==> final(batch)@ == old(batch)@
                    + seq![
                    OpV::PutId(seq_key(), spec_u64_to_le_bytes((id + 1) as u64)),
                    OpV::PutId(ident@, spec_u64_to_le_bytes(id)),
                ])
                &&& (!(step.0 is Fresh) ==> final(batch)@ == old(batch)@)
            }),
    {
        self.seq.ensure_id(&self.ids, batch, ident)
    }

    /// Allocates and immediately commits one fresh surrogate: the counter
    /// value, with the incremented counter persisted in the same step.
    pub fn next(&mut self) -> (r: Result<u64, StoreError>)
        ensures
            if old(self).counter() < u64::MAX {
                &&& r == Ok::<u64, StoreError>(old(self).counter())
                &&& final(self).counter() == old(self).counter() + 1
                &&& final(self).ids_view() == old(self).ids_view().insert(
                    seq_key(),
                    spec_u64_to_le_bytes(final(self).counter()),
                )
                &&& final(self).links_view() == old(self).links_view()
            } else {
                &&& r == Err::<u64, StoreError>(StoreError::Exhausted)
                &&& final(self).ids_view() == old(self).ids_view()
                &&& final(self).links_view() == old(self).links_view()
                &&& final(self).counter() == old(self).counter()
            },
            old(self).wf() ==> final(self).wf(),
    {
        if self.seq.current_id == u64::MAX {
            return Err(StoreError::Exhausted);
        }
        let mut batch = Batch::new();
        let id = self.seq.next(&mut batch);
        let ghost b = batch@;
        let ghost ids0 = self.ids@;
        let ghost links0 = self.links@;
        proof {
            let op = OpV::PutId(seq_key(), spec_u64_to_le_bytes((id + 1) as u64));
            assert(b =~= Seq::<OpV>::empty().push(op));
            crate::batch::lemma_apply_empty(ids0);
            crate::batch::lemma_apply_empty(links0);
            crate::batch::lemma_apply_ids_push(ids0, Seq::<OpV>::empty(), op);
            crate::batch::lemma_apply_links_push(links0, Seq::<OpV>::empty(), op);
        }
        self.commit(batch);
        Ok(id)
    }

    /// Interns one identifier on its own: the lookup or allocation is
    /// committed before returning.
    pub fn intern(&mut self, ident: &[u8]) -> (r: Result<u64, StoreError>)
        ensures
            ({
                let step = intern1(old(self).ids_view(), old(self).counter(), ident@);
                &&& final(self).ids_view() == step.1
                &&& final(self).counter() == step.2
                &&& final(self).links_view() == old(self).links_view()
                &&& match outcome_id(step.0) {
                    Some(id) => r == Ok::<u64, StoreError>(id),
                    None => r == Err::<u64, StoreError>(outcome_error(step.0)),
                }
            }),
            old(self).wf() ==> final(self).wf(),
    {
        proof {
            if old(self).wf() {
                lemma_intern_keeps_counter(self.ids@, self.seq.current_id, ident@);
            }
        }
        let mut batch = Batch::new();
        proof {
            crate::batch::lemma_apply_empty(self.ids@);
            crate::batch::lemma_apply_empty(self.links@);
        }
        let r = self.seq.ensure_id(&self.ids, &mut batch, ident);
        match r {
            Ok(id) => {
                let ghost b = batch@;
                let ghost links0 = self.links@;
                proof {
                    crate::batch::lemma_apply_links_only_put_ids(links0, b);
                }
                self.commit(batch);
                Ok(id)
            },
            Err(e) => Err(e),
        }
    }

    /// Records one create event: interns the owner, the target's authority,
    /// collection and composite identifier as needed, then commits the
    /// forward link binding and the reverse adjacency append together with
    /// every freshly minted surrogate as one atomic batch. A target locator
    /// that does not name authority, collection and record key fails before
    /// anything is staged, as does any failing interning step: on every
    /// error the store is exactly as it was.
    pub fn create(&mut self, did: &str, rkey: &str, target: &str) -> (r: Result<(), StoreError>)
        ensures
            ({
                let pr = spec_parse(target@);
                match r {
                    Ok(_) => pr matches Ok(AtUriView::DidCollectionKey(d, c, k)) && spec_create(
                        old(self).ids_view(),
                        old(self).links_view(),
                        old(self).counter(),
                        did.spec_bytes(),
                        rkey.spec_bytes(),
                        encode_utf8(d),
                        encode_utf8(c),
                        encode_utf8(k),
                    ) == Ok::<_, StoreError>(
                        (final(self).ids_view(), final(self).links_view(), final(self).counter()),
                    ),
                    Err(e) => {
                        &&& final(self).ids_view() == old(self).ids_view()
                        &&& final(self).links_view() == old(self).links_view()
                        &&& final(self).counter() == old(self).counter()
                        &&& match pr {
                            Err(pe) => e == StoreError::MalformedTarget(pe),
                            Ok(u) => match u {
                                AtUriView::DidCollectionKey(d, c, k) => spec_create(
                                    old(self).ids_view(),
                                    old(self).links_view(),
                                    old(self).counter(),
                                    did.spec_bytes(),
                                    rkey.spec_bytes(),
                                    encode_utf8(d),
                                    encode_utf8(c),
                                    encode_utf8(k),
                                ) == Err::<(Map<Seq<u8>, Seq<u8>>, Map<Seq<u8>, Seq<u8>>, u64), _>(
                                    e,
                                ),
                                _ => e == StoreError::IncompleteTarget,
                            },
                        }
                    },
                }
            }),
            old(self).wf() ==> final(self).wf(),
    {
        let (tdid, tcol, trkey) = match AtUri::parse(target) {
            Err(pe) => {
                return Err(StoreError::MalformedTarget(pe));
            },
            Ok(AtUri::DidCollectionKey(d, c, k)) => (d, c, k),
            Ok(_) => {
                return Err(StoreError::IncompleteTarget);
            },
        };
        let ghost m0 = self.ids@;
        let ghost links0 = self.links@;
        let ghost c0v = self.seq.current_id;
        let c0 = self.seq.current_id;
        let mut batch = Batch::new();
        proof {
            crate::batch::lemma_apply_empty(m0);
        }
        let ghost s1 = intern1(m0, c0v, did.spec_bytes());
        let oid = match self.seq.ensure_id(&self.ids, &mut batch, did.as_bytes()) {
            Ok(v) => v,
            Err(e) => {
                self.seq.current_id = c0;
                return Err(e);
            },
        };
        assert(forall|j: int| 0 <= j < batch@.len() ==> batch@[j] is PutId);
        let ghost s2 = intern1(s1.1, s1.2, encode_utf8(tdid@));
        let tid = match self.seq.ensure_id(&self.ids, &mut batch, tdid.as_str().as_bytes()) {
            Ok(v) => v,
            Err(e) => {
                self.seq.current_id = c0;
                return Err(e);
            },
        };
        assert(forall|j: int| 0 <= j < batch@.len() ==> batch@[j] is PutId);
        let ghost s3 = intern1(s2.1, s2.2, encode_utf8(tcol@));
        let cid = match self.seq.ensure_id(&self.ids, &mut batch, tcol.as_str().as_bytes()) {
            Ok(v) => v,
            Err(e) => {
                self.seq.current_id = c0;
                return Err(e);
            },
        };
        assert(forall|j: int| 0 <= j < batch@.len() ==> batch@[j] is PutId);
        let mut comp = u64_to_le_bytes(tid);
        let cid_bytes = u64_to_le_bytes(cid);
        extend_bytes(&mut comp, cid_bytes.as_slice());
        extend_bytes(&mut comp, trkey.as_str().as_bytes());
        assert(comp@ == spec_u64_to_le_bytes(tid) + spec_u64_to_le_bytes(cid)
            + encode_utf8(trkey@));
        let ghost s4 = intern1(s3.1, s3.2, comp@);
        let uid = match self.seq.ensure_id(&self.ids, &mut batch, comp.as_slice()) {
            Ok(v) => v,
            Err(e) => {
                self.seq.current_id = c0;
                return Err(e);
            },
        };
        assert(forall|j: int| 0 <= j < batch@.len() ==> batch@[j] is PutId);
        let ghost b4 = batch@;
        let mut lk = u64_to_le_bytes(oid);
        lk.push(LINK_SEP);
        extend_bytes(&mut lk, rkey.as_bytes());
        assert(lk@ == spec_u64_to_le_bytes(oid) + seq![LINK_SEP] + rkey.spec_bytes());
        let uid_bytes = u64_to_le_bytes(uid);
        let oid_bytes = u64_to_le_bytes(oid);
        let ghost lkv = lk@;
        batch.push_put_link(lk, uid_bytes);
        batch.push_merge_link(u64_to_le_bytes(uid), oid_bytes);
        proof {
            let op_pl = OpV::PutLink(lkv, spec_u64_to_le_bytes(uid));
            let op_ml = OpV::MergeLink(spec_u64_to_le_bytes(uid), spec_u64_to_le_bytes(oid));
            assert(batch@ == b4.push(op_pl).push(op_ml));
            crate::batch::lemma_apply_ids_push(m0, b4, op_pl);
            crate::batch::lemma_apply_ids_push(m0, b4.push(op_pl), op_ml);
            crate::batch::lemma_apply_links_only_put_ids(links0, b4);
            crate::batch::lemma_apply_links_push(links0, b4, op_pl);
            crate::batch::lemma_apply_links_push(links0, b4.push(op_pl), op_ml);
            if counter_consistent(m0, c0v) {
                lemma_intern_keeps_counter(m0, c0v, did.spec_bytes());
                lemma_intern_keeps_counter(s1.1, s1.2, encode_utf8(tdid@));
                lemma_intern_keeps_counter(s2.1, s2.2, encode_utf8(tcol@));
                lemma_intern_keeps_counter(s3.1, s3.2, comp@);
            }
        }
        self.commit(batch);
        Ok(())
    }

    /// Records one delete event: resolves the owner's surrogate, and when
    /// the forward binding for the owner's link key exists, removes it. An
    /// owner never interned, or a link key never recorded, is a no-op, not
    /// an error. The reverse adjacency value of the target keeps the owner's
    /// entry.
    pub fn delete(&mut self, did: &str, rkey: &str) -> (removed: bool)
        ensures
            final(self).ids_view() == old(self).ids_view(),
            final(self).counter() == old(self).counter(),
            final(self).links_view() == spec_delete_links(
                old(self).ids_view(),
                old(self).links_view(),
                did.spec_bytes(),
                rkey.spec_bytes(),
            ),
            removed == spec_delete_removed(
                old(self).ids_view(),
                old(self).links_view(),
                did.spec_bytes(),
                rkey.spec_bytes(),
            ),
            old(self).wf() ==> final(self).wf(),
    {
        let ghost links0 = self.links@;
        let ghost ob = did.spec_bytes();
        let ghost rb = rkey.spec_bytes();
        let mut lk: Vec<u8>;
        match self.ids.get(did.as_bytes()) {
            None => {
                assert(!spec_delete_removed(self.ids@, self.links@, ob, rb));
                assert(spec_delete_links(self.ids@, self.links@, ob, rb) == self.links@);
                return false;
            },
            Some(v) => {
                lk = copy_bytes(v.as_slice());
            },
        }
        lk.push(LINK_SEP);
        extend_bytes(&mut lk, rkey.as_bytes());
        assert(lk@ =~= self.ids@[ob] + seq![LINK_SEP] + rb);
        match self.links.get(lk.as_slice()) {
            None => {
                assert(!spec_delete_removed(self.ids@, self.links@, ob, rb));
                assert(spec_delete_links(self.ids@, self.links@, ob, rb) == self.links@);
                return false;
            },
            Some(_) => {},
        }
        assert(spec_delete_removed(self.ids@, self.links@, ob, rb));
        assert(spec_delete_links(self.ids@, self.links@, ob, rb) == self.links@.remove(lk@));
        let ghost lkv = lk@;
        let mut batch = Batch::new();
        batch.push_delete_link(lk);
        proof {
            let op = OpV::DeleteLink(lkv);
            assert(batch@ =~= Seq::<OpV>::empty().push(op));
            crate::batch::lemma_apply_empty(self.ids@);
            crate::batch::lemma_apply_empty(links0);
            crate::batch::lemma_apply_ids_push(self.ids@, Seq::<OpV>::empty(), op);
            crate::batch::lemma_apply_links_push(links0, Seq::<OpV>::empty(), op);
        }
        self.commit(batch);
        true
    }

    /// The stored binding for an identifier (or for the reserved counter
    /// key), as raw bytes.
    pub fn lookup_id(&self, ident: &[u8]) -> (r: Option<&Vec<u8>>)
        ensures
            match r {
                Some(v) => self.ids_view().contains_key(ident@) && v@ == self.ids_view()[ident@],
                None => !self.ids_view().contains_key(ident@),
            },
    {
        self.ids.get(ident)
    }

    /// The stored value for a link key: the 8-byte target surrogate of a
    /// forward key, or the reverse adjacency value of an 8-byte target key.
    pub fn lookup_link(&self, key: &[u8]) -> (r: Option<&Vec<u8>>)
        ensures
            match r {
                Some(v) => self.links_view().contains_key(key@) && v@ == self.links_view()[key@],
                None => !self.links_view().contains_key(key@),
            },
    {
        self.links.get(key)
    }

    /// The next surrogate to be handed out.
    pub fn counter_value(&self) -> (r: u64)
        ensures
            r == self.counter(),
    {
        self.seq.current_id
    }
}

} // verus!
