//! Byte sums over `(owner, size)` charges, the currency of the quota ledger.
use vstd::prelude::*;

verus! {

/// One stored item as the ledger sees it: who pays for it and how many bytes.
pub type Charge = (Option<i32>, u64);

/// What `c` costs the token `t`.
pub open spec fn share(c: Charge, t: i32) -> int {
    if c.0 == Some(t) { c.1 as int } else { 0 }
}

/// Bytes charged to `t` over all items.
pub open spec fn owned_bytes(s: Seq<Charge>, t: i32) -> int
    decreases s.len(),
{
    if s.len() == 0 { 0 } else { owned_bytes(s.drop_last(), t) + share(s.last(), t) }
}

/// Number of items charged to `t`.
pub open spec fn owned_count(s: Seq<Charge>, t: i32) -> int
    decreases s.len(),
{
    if s.len() == 0 { 0 } else { owned_count(s.drop_last(), t) + (if s.last().0 == Some(t) { 1int } else { 0int }) }
}

/// Bytes over all items.
pub open spec fn total_bytes(s: Seq<Charge>) -> int
    decreases s.len(),
{
    if s.len() == 0 { 0 } else { total_bytes(s.drop_last()) + s.last().1 }
}

pub proof fn lemma_push(s: Seq<Charge>, c: Charge, t: i32)
    ensures
        owned_bytes(s.push(c), t) == owned_bytes(s, t) + share(c, t),
        owned_count(s.push(c), t) == owned_count(s, t) + (if c.0 == Some(t) { 1int } else { 0int }),
        total_bytes(s.push(c)) == total_bytes(s) + c.1,
{
    assert(s.push(c).drop_last() =~= s);
}

pub proof fn lemma_remove(s: Seq<Charge>, i: int, t: i32)
    requires
        0 <= i < s.len(),
    ensures
        owned_bytes(s.remove(i), t) == owned_bytes(s, t) - share(s[i], t),
        owned_count(s.remove(i), t) == owned_count(s, t) - (if s[i].0 == Some(t) { 1int } else { 0int }),
        total_bytes(s.remove(i)) == total_bytes(s) - s[i].1,
    decreases s.len(),
{
    if i == s.len() - 1 {
        assert(s.remove(i) =~= s.drop_last());
    } else {
        lemma_remove(s.drop_last(), i, t);
        assert(s.remove(i).drop_last() =~= s.drop_last().remove(i));
        assert(s.remove(i).last() == s.last());
    }
}

pub proof fn lemma_bounds(s: Seq<Charge>, t: i32)
    ensures
        0 <= owned_bytes(s, t) <= total_bytes(s),
        0 <= owned_count(s, t) <= s.len(),
        total_bytes(s) <= s.len() * (u64::MAX as int),
    decreases s.len(),
{
    if s.len() > 0 {
        lemma_bounds(s.drop_last(), t);
        let n = s.len() - 1;
        assert((n + 1) * (u64::MAX as int) == n * (u64::MAX as int) + u64::MAX) by (nonlinear_arith);
    }
}

/// Nothing is charged to an owner that no item names.
pub proof fn lemma_unowned(s: Seq<Charge>, t: i32)
    requires
        forall|i: int| 0 <= i < s.len() ==> (#[trigger] s[i]).0 != Some(t),
    ensures
        owned_bytes(s, t) == 0,
    decreases s.len(),
{
    if s.len() > 0 {
        assert forall|i: int| 0 <= i < s.drop_last().len() implies (#[trigger] s.drop_last()[i]).0 != Some(t) by {
            assert(s.drop_last()[i] == s[i]);
        }
        lemma_unowned(s.drop_last(), t);
    }
}

/// An item's bytes are part of what its owner is charged.
pub proof fn lemma_share_within(s: Seq<Charge>, i: int, t: i32)
    requires
        0 <= i < s.len(),
    ensures
        share(s[i], t) <= owned_bytes(s, t),
        s[i].1 <= total_bytes(s),
{
    lemma_remove(s, i, t);
    lemma_bounds(s.remove(i), t);
}

/// Sums over a prefix grow by the next element.
pub proof fn lemma_prefix(s: Seq<Charge>, i: int, t: i32)
    requires
        0 <= i < s.len(),
    ensures
        owned_bytes(s.subrange(0, i + 1), t) == owned_bytes(s.subrange(0, i), t) + share(s[i], t),
        owned_count(s.subrange(0, i + 1), t) == owned_count(s.subrange(0, i), t) + (if s[i].0 == Some(t) { 1int } else { 0int }),
        total_bytes(s.subrange(0, i + 1)) == total_bytes(s.subrange(0, i)) + s[i].1,
{
    assert(s.subrange(0, i + 1) =~= s.subrange(0, i).push(s[i]));
    lemma_push(s.subrange(0, i), s[i], t);
}

} // verus!
