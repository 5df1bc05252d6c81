//! The properties the store guarantees, stated over the models that the
//! executable functions are specified against.
use vstd::prelude::*;
use vstd::bytes::{spec_u64_to_le_bytes, spec_u64_from_le_bytes, lemma_auto_spec_u64_to_from_le_bytes};
use crate::store::{seq_key, intern1, spec_create, spec_delete_links, spec_delete_removed,
    outcome_id, outcome_id_val, InternOutcome, LINK_SEP};
use crate::merge::spec_likers;

verus! {

broadcast use vstd::set::group_set_axioms;

/// Integrity of the identifier keyspace against its counter: the counter
/// key holds the encoded counter (or is absent with the counter at zero);
/// every other binding is an 8-byte surrogate below the counter; no two
/// identifiers share a surrogate; and the counter equals the number of
/// distinct identifiers ever interned.
pub open spec fn sound_ids(m: Map<Seq<u8>, Seq<u8>>, next: u64) -> bool {
    &&& m.dom().finite()
    &&& (m.contains_key(seq_key()) ==> m[seq_key()] == spec_u64_to_le_bytes(next))
    &&& (!m.contains_key(seq_key()) ==> next == 0)
    &&& (forall|k: Seq<u8>| #[trigger] m.contains_key(k) && k != seq_key() ==> m[k].len() == 8
        && spec_u64_from_le_bytes(m[k]) < next)
    &&& (forall|k1: Seq<u8>, k2: Seq<u8>|
        #![trigger m.contains_key(k1), m.contains_key(k2)]
        m.contains_key(k1) && m.contains_key(k2) && k1 != seq_key() && k2 != seq_key() && k1 != k2
            ==> m[k1] != m[k2])
    &&& m.dom().remove(seq_key()).len() == next as nat
}

/// A store with nothing interned is sound, with its counter at zero.
pub proof fn lemma_sound_empty()
    ensures
        sound_ids(Map::<Seq<u8>, Seq<u8>>::empty(), 0),
{
    assert(Map::<Seq<u8>, Seq<u8>>::empty().dom().remove(seq_key()) =~= Set::<Seq<u8>>::empty());
}

/// After a successful interning step the identifier is bound to the encoded
/// surrogate that the step returned.
pub proof fn lemma_intern_binds(m: Map<Seq<u8>, Seq<u8>>, next: u64, ident: Seq<u8>)
    requires
        outcome_id(intern1(m, next, ident).0) is Some,
    ensures
        ({
            let s = intern1(m, next, ident);
            &&& s.1.contains_key(ident)
            &&& s.1[ident] == spec_u64_to_le_bytes(outcome_id_val(s.0))
            &&& ident != seq_key()
        }),
{
    lemma_auto_spec_u64_to_from_le_bytes();
}

/// Interning never rebinds an identifier that is already bound.
pub proof fn lemma_intern_stable(m: Map<Seq<u8>, Seq<u8>>, next: u64, ident: Seq<u8>, k: Seq<u8>)
    requires
        k != seq_key(),
        m.contains_key(k),
    ensures
        intern1(m, next, ident).1.contains_key(k),
        intern1(m, next, ident).1[k] == m[k],
{
}

/// Interning an identifier a second time finds the same surrogate and moves
/// nothing: not the keyspace and not the counter.
pub proof fn lemma_intern_idempotent(m: Map<Seq<u8>, Seq<u8>>, next: u64, ident: Seq<u8>)
    requires
        outcome_id(intern1(m, next, ident).0) is Some,
    ensures
        ({
            let s1 = intern1(m, next, ident);
            let s2 = intern1(s1.1, s1.2, ident);
            &&& s2.0 == InternOutcome::Found(outcome_id_val(s1.0))
            &&& s2.1 == s1.1
            &&& s2.2 == s1.2
        }),
{
    lemma_auto_spec_u64_to_from_le_bytes();
    lemma_intern_binds(m, next, ident);
}

/// Distinct identifiers never share a surrogate: whatever one step of
/// interning returned for one identifier, a later step returns something
/// else for a different identifier.
pub proof fn lemma_intern_injective(m: Map<Seq<u8>, Seq<u8>>, next: u64, x: Seq<u8>, y: Seq<u8>)
    requires
        sound_ids(m, next),
        x != y,
        outcome_id(intern1(m, next, x).0) is Some,
        outcome_id(intern1(intern1(m, next, x).1, intern1(m, next, x).2, y).0) is Some,
    ensures
        ({
            let s1 = intern1(m, next, x);
            let s2 = intern1(s1.1, s1.2, y);
            outcome_id_val(s1.0) != outcome_id_val(s2.0)
        }),
{
    lemma_auto_spec_u64_to_from_le_bytes();
    let s1 = intern1(m, next, x);
    let s2 = intern1(s1.1, s1.2, y);
    let ix = outcome_id_val(s1.0);
    let iy = outcome_id_val(s2.0);
    if s1.0 is Found {
        assert(ix < next);
        if s2.0 is Found {
            if m.contains_key(y) {
                if m[x] == m[y] {
                    assert(false);
                }
                assert(spec_u64_to_le_bytes(ix) == m[x]);
                assert(spec_u64_to_le_bytes(iy) == m[y]);
            }
        }
    } else {
        assert(s1.0 is Fresh && ix == next);
        if s2.0 is Found {
            assert(s1.1.contains_key(y));
            if m.contains_key(y) {
                assert(s1.1[y] == m[y]);
                assert(iy < next);
            } else {
                assert(y == x || y == seq_key());
                assert(false);
            }
        } else {
            assert(s2.0 is Fresh && iy == s1.2);
        }
    }
}

/// Interning keeps the identifier keyspace sound: in particular, the
/// persisted counter still counts exactly the distinct identifiers interned.
pub proof fn lemma_intern_preserves_sound(m: Map<Seq<u8>, Seq<u8>>, next: u64, ident: Seq<u8>)
    requires
        sound_ids(m, next),
    ensures
        sound_ids(intern1(m, next, ident).1, intern1(m, next, ident).2),
{
    lemma_auto_spec_u64_to_from_le_bytes();
    let s = intern1(m, next, ident);
    if s.0 is Fresh {
        let m2 = s.1;
        let n2 = s.2;
        assert forall|k: Seq<u8>| #[trigger] m2.contains_key(k) && k != seq_key() implies m2[k].len()
            == 8 && spec_u64_from_le_bytes(m2[k]) < n2 by {
            if k == ident {
            } else {
                assert(m.contains_key(k));
            }
        }
        assert forall|k1: Seq<u8>, k2: Seq<u8>|
            #![trigger m2.contains_key(k1), m2.contains_key(k2)]
            m2.contains_key(k1) && m2.contains_key(k2) && k1 != seq_key() && k2 != seq_key() && k1
                != k2 implies m2[k1] != m2[k2] by {
            if k1 == ident {
                assert(m.contains_key(k2) && spec_u64_from_le_bytes(m[k2]) < next);
            } else if k2 == ident {
                assert(m.contains_key(k1) && spec_u64_from_le_bytes(m[k1]) < next);
            } else {
                assert(m.contains_key(k1) && m.contains_key(k2));
            }
        }
        assert(m2.dom().remove(seq_key()) =~= m.dom().remove(seq_key()).insert(ident));
        assert(!m.dom().remove(seq_key()).contains(ident));
        assert(m2.dom().remove(seq_key()).len() == next + 1);
        assert(m2.dom() =~= m.dom().insert(seq_key()).insert(ident));
    }
}

/// A successful create keeps the identifier keyspace sound: every surrogate
/// it minted is co-committed with the counter that covers it.
pub proof fn lemma_create_preserves_sound(
    ids: Map<Seq<u8>, Seq<u8>>,
    links: Map<Seq<u8>, Seq<u8>>,
    next: u64,
    owner: Seq<u8>,
    rkey: Seq<u8>,
    tdid: Seq<u8>,
    tcol: Seq<u8>,
    trkey: Seq<u8>,
)
    requires
        sound_ids(ids, next),
        spec_create(ids, links, next, owner, rkey, tdid, tcol, trkey) is Ok,
    ensures
        ({
            let (m2, l2, n2) = spec_create(ids, links, next, owner, rkey, tdid, tcol, trkey)
                ->Ok_0;
            sound_ids(m2, n2)
        }),
{
    let s1 = intern1(ids, next, owner);
    lemma_intern_preserves_sound(ids, next, owner);
    let s2 = intern1(s1.1, s1.2, tdid);
    lemma_intern_preserves_sound(s1.1, s1.2, tdid);
    let s3 = intern1(s2.1, s2.2, tcol);
    lemma_intern_preserves_sound(s2.1, s2.2, tcol);
    let comp = spec_u64_to_le_bytes(outcome_id_val(s2.0)) + spec_u64_to_le_bytes(
        outcome_id_val(s3.0),
    ) + trkey;
    lemma_intern_preserves_sound(s3.1, s3.2, comp);
}

/// A successful create never rebinds an identifier that was already bound.
pub proof fn lemma_create_stable(
    ids: Map<Seq<u8>, Seq<u8>>,
    links: Map<Seq<u8>, Seq<u8>>,
    next: u64,
    owner: Seq<u8>,
    rkey: Seq<u8>,
    tdid: Seq<u8>,
    tcol: Seq<u8>,
    trkey: Seq<u8>,
    k: Seq<u8>,
)
    requires
        k != seq_key(),
        ids.contains_key(k),
        spec_create(ids, links, next, owner, rkey, tdid, tcol, trkey) is Ok,
    ensures
        ({
            let (m2, l2, n2) = spec_create(ids, links, next, owner, rkey, tdid, tcol, trkey)
                ->Ok_0;
            m2.contains_key(k) && m2[k] == ids[k]
        }),
{
    let s1 = intern1(ids, next, owner);
    lemma_intern_stable(ids, next, owner, k);
    let s2 = intern1(s1.1, s1.2, tdid);
    lemma_intern_stable(s1.1, s1.2, tdid, k);
    let s3 = intern1(s2.1, s2.2, tcol);
    lemma_intern_stable(s2.1, s2.2, tcol, k);
    let comp = spec_u64_to_le_bytes(outcome_id_val(s2.0)) + spec_u64_to_le_bytes(
        outcome_id_val(s3.0),
    ) + trkey;
    lemma_intern_stable(s3.1, s3.2, comp, k);
}

/// Two creates by distinct owners against the same target leave that
/// target's reverse adjacency value listing exactly the two owners'
/// surrogates, one entry each, in event order — provided the target had no
/// reverse entry yet (the link keyspace holds no 8-byte key; every forward
/// link key is at least 9 bytes wide, so a store built by creates alone
/// satisfies this until the first edge).
pub proof fn lemma_two_creates_share_target(
    ids: Map<Seq<u8>, Seq<u8>>,
    links: Map<Seq<u8>, Seq<u8>>,
    next: u64,
    a: Seq<u8>,
    ra: Seq<u8>,
    b: Seq<u8>,
    rb: Seq<u8>,
    td: Seq<u8>,
    tc: Seq<u8>,
    tk: Seq<u8>,
)
    requires
        sound_ids(ids, next),
        a != b,
        forall|k: Seq<u8>| #[trigger] links.contains_key(k) ==> k.len() != 8,
        spec_create(ids, links, next, a, ra, td, tc, tk) is Ok,
        ({
            let (m1, l1, n1) = spec_create(ids, links, next, a, ra, td, tc, tk)->Ok_0;
            spec_create(m1, l1, n1, b, rb, td, tc, tk) is Ok
        }),
    ensures
        ({
            let (m1, l1, n1) = spec_create(ids, links, next, a, ra, td, tc, tk)->Ok_0;
            let (m2, l2, n2) = spec_create(m1, l1, n1, b, rb, td, tc, tk)->Ok_0;
            let oa = spec_u64_from_le_bytes(m2[a]);
            let ob = spec_u64_from_le_bytes(m2[b]);
            let tid = spec_u64_from_le_bytes(m2[td]);
            let cid = spec_u64_from_le_bytes(m2[tc]);
            let comp = spec_u64_to_le_bytes(tid) + spec_u64_to_le_bytes(cid) + tk;
            let rk = spec_u64_to_le_bytes(spec_u64_from_le_bytes(m2[comp]));
            &&& m2.contains_key(a) && m2.contains_key(b) && m2.contains_key(td)
                && m2.contains_key(tc) && m2.contains_key(comp)
            &&& oa != ob
            &&& l2.contains_key(rk)
            &&& l2[rk] == spec_likers(seq![oa, ob])
        }),
{
    lemma_auto_spec_u64_to_from_le_bytes();
    // First create, step by step.
    let s1 = intern1(ids, next, a);
    let oa = outcome_id_val(s1.0);
    lemma_intern_binds(ids, next, a);
    let s2 = intern1(s1.1, s1.2, td);
    let tid = outcome_id_val(s2.0);
    lemma_intern_binds(s1.1, s1.2, td);
    let s3 = intern1(s2.1, s2.2, tc);
    let cid = outcome_id_val(s3.0);
    lemma_intern_binds(s2.1, s2.2, tc);
    let comp = spec_u64_to_le_bytes(tid) + spec_u64_to_le_bytes(cid) + tk;
    let s4 = intern1(s3.1, s3.2, comp);
    let uid = outcome_id_val(s4.0);
    lemma_intern_binds(s3.1, s3.2, comp);
    let m1 = s4.1;
    let n1 = s4.2;
    // The bindings the first create leaves in its keyspace.
    lemma_intern_stable(s1.1, s1.2, td, a);
    lemma_intern_stable(s2.1, s2.2, tc, a);
    lemma_intern_stable(s3.1, s3.2, comp, a);
    assert(m1.contains_key(a) && m1[a] == spec_u64_to_le_bytes(oa));
    lemma_intern_stable(s2.1, s2.2, tc, td);
    lemma_intern_stable(s3.1, s3.2, comp, td);
    assert(m1.contains_key(td) && m1[td] == spec_u64_to_le_bytes(tid));
    lemma_intern_stable(s3.1, s3.2, comp, tc);
    assert(m1.contains_key(tc) && m1[tc] == spec_u64_to_le_bytes(cid));
    assert(m1.contains_key(comp) && m1[comp] == spec_u64_to_le_bytes(uid));
    // The first create's link writes: the target's reverse value starts as
    // the first owner's surrogate alone.
    let lk_a = spec_u64_to_le_bytes(oa) + seq![LINK_SEP] + ra;
    let rk = spec_u64_to_le_bytes(uid);
    assert(lk_a.len() >= 9 && rk.len() == 8);
    let la1 = links.insert(lk_a, spec_u64_to_le_bytes(uid));
    assert(!la1.contains_key(rk));
    let l1 = la1.insert(rk, spec_u64_to_le_bytes(oa));
    assert(spec_create(ids, links, next, a, ra, td, tc, tk)->Ok_0 == (m1, l1, n1));
    // Second create: every target component is found again, bound to the
    // same surrogate as before.
    let t1 = intern1(m1, n1, b);
    let ob = outcome_id_val(t1.0);
    lemma_intern_binds(m1, n1, b);
    lemma_intern_stable(m1, n1, b, td);
    lemma_intern_stable(m1, n1, b, tc);
    lemma_intern_stable(m1, n1, b, comp);
    lemma_intern_stable(m1, n1, b, a);
    let t2 = intern1(t1.1, t1.2, td);
    assert(t2.0 == InternOutcome::Found(tid));
    assert(t2.1 == t1.1 && t2.2 == t1.2);
    let t3 = intern1(t2.1, t2.2, tc);
    assert(t3.0 == InternOutcome::Found(cid));
    assert(t3.1 == t1.1 && t3.2 == t1.2);
    assert(spec_u64_to_le_bytes(outcome_id_val(t2.0)) + spec_u64_to_le_bytes(
        outcome_id_val(t3.0),
    ) + tk == comp);
    let t4 = intern1(t3.1, t3.2, comp);
    assert(t4.0 == InternOutcome::Found(uid));
    assert(t4.1 == t1.1 && t4.2 == t1.2);
    let m2 = t4.1;
    let n2 = t4.2;
    // The final keyspace still shows every binding.
    assert(m2.contains_key(a) && m2[a] == spec_u64_to_le_bytes(oa));
    assert(m2.contains_key(b) && m2[b] == spec_u64_to_le_bytes(ob));
    assert(m2.contains_key(td) && m2[td] == spec_u64_to_le_bytes(tid));
    assert(m2.contains_key(tc) && m2[tc] == spec_u64_to_le_bytes(cid));
    assert(m2.contains_key(comp) && m2[comp] == spec_u64_to_le_bytes(uid));
    // Distinct owners carry distinct surrogates.
    lemma_create_preserves_sound(ids, links, next, a, ra, td, tc, tk);
    lemma_create_preserves_sound(m1, l1, n1, b, rb, td, tc, tk);
    assert(sound_ids(m2, n2)) by {
        lemma_intern_preserves_sound(m1, n1, b);
        lemma_intern_preserves_sound(t1.1, t1.2, td);
        lemma_intern_preserves_sound(t2.1, t2.2, tc);
        lemma_intern_preserves_sound(t3.1, t3.2, comp);
    }
    assert(m2[a] != m2[b]);
    assert(oa != ob);
    // The second create's link writes extend the reverse value in place.
    let lk_b = spec_u64_to_le_bytes(ob) + seq![LINK_SEP] + rb;
    assert(lk_b.len() >= 9);
    let lb1 = l1.insert(lk_b, spec_u64_to_le_bytes(uid));
    assert(lb1.contains_key(rk) && lb1[rk] == spec_u64_to_le_bytes(oa));
    let l2 = lb1.insert(
        rk,
        spec_u64_to_le_bytes(oa) + seq![crate::merge::LIKERS_SEP] + spec_u64_to_le_bytes(ob),
    );
    assert(spec_create(m1, l1, n1, b, rb, td, tc, tk)->Ok_0 == (m2, l2, n2));
    // The reverse value reads back as the two surrogates, oldest first.
    assert(seq![oa, ob].drop_last() =~= seq![oa]);
    assert(spec_likers(seq![oa]) == spec_u64_to_le_bytes(oa));
    assert(spec_likers(seq![oa, ob]) == spec_u64_to_le_bytes(oa) + seq![crate::merge::LIKERS_SEP]
        + spec_u64_to_le_bytes(ob));
}

/// A sound store's persisted counter reads back as the count of distinct
/// identifiers interned so far.
pub proof fn lemma_counter_counts(m: Map<Seq<u8>, Seq<u8>>, next: u64)
    requires
        sound_ids(m, next),
    ensures
        m.contains_key(seq_key()) ==> spec_u64_from_le_bytes(m[seq_key()]) == m.dom().remove(
            seq_key(),
        ).len(),
        !m.contains_key(seq_key()) ==> m.dom().remove(seq_key()).len() == 0,
{
    lemma_auto_spec_u64_to_from_le_bytes();
}

/// Delete removes exactly the forward binding it resolved and nothing else.
pub proof fn lemma_delete_removes(
    ids: Map<Seq<u8>, Seq<u8>>,
    links: Map<Seq<u8>, Seq<u8>>,
    owner: Seq<u8>,
    rkey: Seq<u8>,
)
    requires
        spec_delete_removed(ids, links, owner, rkey),
    ensures
        ({
            let lk = ids[owner] + seq![LINK_SEP] + rkey;
            let l1 = spec_delete_links(ids, links, owner, rkey);
            &&& !l1.contains_key(lk)
            &&& forall|k: Seq<u8>|
                k != lk ==> #[trigger] l1.contains_key(k) == links.contains_key(k) && (
                l1.contains_key(k) ==> l1[k] == links[k])
        }),
{
}

/// A repeated delete of the same link is a no-op: the forward binding is
/// already gone, so the keyspace does not change again.
pub proof fn lemma_delete_idempotent(
    ids: Map<Seq<u8>, Seq<u8>>,
    links: Map<Seq<u8>, Seq<u8>>,
    owner: Seq<u8>,
    rkey: Seq<u8>,
)
    ensures
        ({
            let l1 = spec_delete_links(ids, links, owner, rkey);
            &&& !spec_delete_removed(ids, l1, owner, rkey)
            &&& spec_delete_links(ids, l1, owner, rkey) == l1
        }),
{
}

} // verus!
