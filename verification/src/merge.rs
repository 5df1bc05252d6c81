//! The associative combine for reverse adjacency values, and the wire format
//! of those values.
//!
//! A reverse adjacency value is a concatenation of 8-byte little-endian
//! surrogate ids separated by single `;` bytes, with no length prefix: the
//! format relies on the fixed 8-byte id width.
use vstd::prelude::*;
use vstd::bytes::{spec_u64_to_le_bytes, u64_to_le_bytes, u64_from_le_bytes};
use crate::util::extend_bytes;

verus! {

/// The byte that separates adjacent surrogate ids in a reverse adjacency
/// value: ASCII `;`.
pub const LIKERS_SEP: u8 = 59;

/// One combine step: appends an operand to the stored bytes, with a
/// separator when stored bytes exist.
pub open spec fn join_one(existing: Option<Seq<u8>>, operand: Seq<u8>) -> Seq<u8> {
    match existing {
        Some(e) => e + seq![LIKERS_SEP] + operand,
        None => operand,
    }
}

/// The combined value: every operand appended in order, each step as
/// `join_one`. With no stored bytes and no operands the result is empty.
pub open spec fn spec_join(existing: Option<Seq<u8>>, operands: Seq<Seq<u8>>) -> Seq<u8>
    decreases operands.len(),
{
    if operands.len() == 0 {
        match existing {
            Some(e) => e,
            None => Seq::empty(),
        }
    } else {
        spec_join(Some(join_one(existing, operands[0])), operands.drop_first())
    }
}

/// The combine is associative: merging a second round of operands into an
/// already-combined value gives the same bytes as combining all operands at
/// once. The storage layer may therefore apply pending operands in any
/// grouping. (With no stored bytes, at least one operand must be in the
/// first round, since an empty combined value is indistinguishable from
/// absent stored bytes only when nothing was ever combined.)
pub proof fn lemma_join_associative(
    existing: Option<Seq<u8>>,
    ops1: Seq<Seq<u8>>,
    ops2: Seq<Seq<u8>>,
)
    requires
        existing is Some || ops1.len() > 0,
    ensures
        spec_join(existing, ops1 + ops2) == spec_join(Some(spec_join(existing, ops1)), ops2),
    decreases ops1.len(),
{
    if ops1.len() == 0 {
        assert(ops1 + ops2 =~= ops2);
    } else {
        let e2 = Some(join_one(existing, ops1[0]));
        assert((ops1 + ops2).drop_first() =~= ops1.drop_first() + ops2);
        lemma_join_associative(e2, ops1.drop_first(), ops2);
    }
}

/// Combines the stored bytes (if any) with the pending operands, exactly as
/// the storage engine's merge callback must.
pub fn join_merge(existing: Option<&Vec<u8>>, operands: &Vec<Vec<u8>>) -> (r: Vec<u8>)
    ensures
        r@ == spec_join(
            match existing {
                Some(e) => Some(e@),
                None => None,
            },
            operands.deep_view(),
        ),
{
    let ghost exv: Option<Seq<u8>> = match existing {
        Some(e) => Some(e@),
        None => None,
    };
    let ghost all = operands.deep_view();
    let mut res: Vec<u8> = Vec::new();
    let mut first = true;
    match existing {
        Some(ex) => {
            extend_bytes(&mut res, ex.as_slice());
            first = false;
        },
        None => {},
    }
    let n = operands.len();
    let mut i: usize = 0;
    assert(all.skip(0) =~= all);
    while i < n
        invariant
            n == operands@.len(),
            all == operands.deep_view(),
            all.len() == n,
            0 <= i <= n,
            forall|j: int| 0 <= j < n ==> all[j] == operands@[j]@,
            first ==> exv is None && i == 0 && res@ == Seq::<u8>::empty(),
            !first ==> spec_join(exv, all) == spec_join(Some(res@), all.skip(i as int)),
        decreases n - i,
    {
        let ghost pre = res@;
        let ghost was_first = first;
        if first {
            first = false;
        } else {
            res.push(LIKERS_SEP);
        }
        extend_bytes(&mut res, operands[i].as_slice());
        proof {
            assert(all.skip(i as int).drop_first() =~= all.skip(i + 1));
            if was_first {
                assert(res@ =~= join_one(None, all[0]));
                assert(spec_join(exv, all) == spec_join(Some(res@), all.skip(1)));
            } else {
                assert(res@ =~= join_one(Some(pre), all[i as int]));
                assert(spec_join(Some(pre), all.skip(i as int)) == spec_join(
                    Some(res@),
                    all.skip(i + 1),
                ));
            }
        }
        i = i + 1;
    }
    proof {
        if !first {
            assert(all.skip(n as int) =~= Seq::<Seq<u8>>::empty());
        }
    }
    res
}

/// The reverse adjacency value that lists exactly the given surrogate ids,
/// oldest first.
pub open spec fn spec_likers(ids: Seq<u64>) -> Seq<u8>
    decreases ids.len(),
{
    if ids.len() == 0 {
        Seq::empty()
    } else if ids.len() == 1 {
        spec_u64_to_le_bytes(ids[0])
    } else {
        spec_likers(ids.drop_last()) + seq![LIKERS_SEP] + spec_u64_to_le_bytes(ids.last())
    }
}

/// Whether some byte string is shaped like a reverse adjacency value: empty,
/// or 8-byte chunks with a separator after every one but the last.
pub open spec fn likers_wire_ok(v: Seq<u8>) -> bool {
    v.len() == 0 || (v.len() % 9 == 8 && forall|j: int|
        0 <= j < v.len() && j % 9 == 8 ==> #[trigger] v[j] == LIKERS_SEP)
}

/// Decodes a reverse adjacency value into the surrogate ids it lists; the
/// bytes decode exactly when they are shaped like such a value.
pub fn parse_likers(v: &[u8]) -> (r: Option<Vec<u64>>)
    ensures
        match r {
            Some(ids) => v@ == spec_likers(ids@) && likers_wire_ok(v@),
            None => !likers_wire_ok(v@),
        },
{
    if v.len() == 0 {
        let ids: Vec<u64> = Vec::new();
        return Some(ids);
    }
    if v.len() % 9 != 8 {
        return None;
    }
    let vlen = v.len();
    let count = vlen / 9 + 1;
    assert(count * 9 - 1 == v@.len()) by (nonlinear_arith)
        requires
            v@.len() % 9 == 8,
            count == v@.len() / 9 + 1,
    ;
    let mut ids: Vec<u64> = Vec::new();
    let mut i: usize = 0;
    while i < count
        invariant
            vlen == v@.len(),
            v@.len() == count * 9 - 1,
            count >= 1,
            0 <= i <= count,
            ids@.len() == i,
            0 < i < count ==> spec_likers(ids@) + seq![LIKERS_SEP] == v@.subrange(
                0,
                9 * i as int,
            ),
            i == count ==> spec_likers(ids@) == v@,
            forall|j: int|
                0 <= j < 9 * (i as int) && j < v@.len() && j % 9 == 8 ==> #[trigger] v@[j]
                    == LIKERS_SEP,
        decreases count - i,
    {
        assert(9 * i + 8 <= v@.len() && (i + 1 < count ==> 9 * i + 9 <= v@.len()))
            by (nonlinear_arith)
            requires
                v@.len() == count * 9 - 1,
                i < count,
        ;
        let ghost pre = ids@;
        let start = 9 * i;
        let chunk = vstd::slice::slice_subrange(v, start, start + 8);
        let id = u64_from_le_bytes(chunk);
        proof {
            vstd::bytes::lemma_auto_spec_u64_to_from_le_bytes();
            assert(spec_u64_to_le_bytes(id) == chunk@);
        }
        ids.push(id);
        assert(ids@.drop_last() =~= pre);
        assert(ids@.last() == id);
        proof {
            if i == 0 {
                assert(spec_likers(ids@) == chunk@);
            } else {
                assert(spec_likers(ids@) == spec_likers(pre) + seq![LIKERS_SEP] + chunk@);
                assert(spec_likers(pre) + seq![LIKERS_SEP] == v@.subrange(0, 9 * i as int));
            }
        }
        if i + 1 < count {
            if v[start + 8] != LIKERS_SEP {
                proof {
                    assert((9 * (i as int) + 8) % 9 == 8) by (nonlinear_arith);
                    assert(v@[9 * (i as int) + 8] != LIKERS_SEP);
                    assert(!likers_wire_ok(v@));
                }
                return None;
            }
            assert(spec_likers(ids@) + seq![LIKERS_SEP] =~= v@.subrange(0, 9 * (i + 1) as int));
        } else {
            assert(9 * i + 8 == v@.len());
            assert(spec_likers(ids@) =~= v@);
        }
        proof {
            assert forall|j: int|
                0 <= j < 9 * (i as int) + 9 && j < v@.len() && j % 9 == 8 implies #[trigger] v@[j]
                == LIKERS_SEP by {
                if j >= 9 * (i as int) {
                    assert(j == 9 * (i as int) + 8) by (nonlinear_arith)
                        requires
                            9 * (i as int) <= j < 9 * (i as int) + 9,
                            j % 9 == 8,
                    ;
                }
            }
        }
        i = i + 1;
    }
    assert(likers_wire_ok(v@));
    Some(ids)
}

} // verus!
