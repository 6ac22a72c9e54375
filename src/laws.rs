//! Laws of the store that span several operations.
use crate::cache::decayed;
use crate::catalog::ObjectRecord;
use crate::digest::content_key;
use crate::quota::{ApiTokenInfo, adjustment_exceeds, usage_cap, within_limit};
use crate::store::{Storage, upload_answer};
use vstd::prelude::*;

verus! {

/// Uploading the same bytes again as the same owner is answered with the
/// record that the first upload committed: `begin_upload` returns exactly
/// `upload_answer`, as `Existing`, and changes nothing, so quota is reserved
/// only once.
pub proof fn lemma_upload_idempotent(s: Storage, data: Seq<u8>, owner: Option<i32>, rec: ObjectRecord)
    requires
        s.wf(),
        s.catalog.records@.contains(rec),
        rec.hash@ == content_key(data, owner),
    ensures
        s.catalog.has_hash(content_key(data, owner)),
        upload_answer(s, data, owner) == Some(rec),
{
    let k = content_key(data, owner);
    let i = choose|i: int| 0 <= i < s.catalog.records@.len() && s.catalog.records@[i] == rec;
    assert(s.catalog.records@[i].hash@ == k);
    let c = choose|r: ObjectRecord| s.catalog.records@.contains(r) && r.hash@ == k;
    let j = choose|j: int| 0 <= j < s.catalog.records@.len() && s.catalog.records@[j] == c;
    assert(i == j);
}

/// In a well-formed store every token's usage is exactly the bytes charged to
/// it (its objects, its cache entries and its uploads in flight), is never
/// negative, and never passes its limit. Every operation on the store keeps
/// it well formed.
pub proof fn lemma_usage_matches_charges(s: Storage)
    requires
        s.wf(),
    ensures
        forall|i: int| 0 <= i < s.tokens.tokens@.len() ==> {
            let t = #[trigger] s.tokens.tokens@[i];
            &&& t.used_upload_size == s.charged(t.id)
            &&& 0 <= t.used_upload_size <= usage_cap(t)
        },
{
}

/// A reservation that brings usage exactly to the limit is accepted; one byte
/// more is refused (and a refused reservation changes nothing).
pub proof fn lemma_reserve_boundary(t: ApiTokenInfo)
    requires
        within_limit(t),
        t.max_upload_size is Some,
    ensures
        t.used_upload_size < t.max_upload_size->0 ==> !adjustment_exceeds(t, t.max_upload_size->0 - t.used_upload_size),
        adjustment_exceeds(t, t.max_upload_size->0 - t.used_upload_size + 1),
{
}

/// Heat after `n` decay steps.
pub open spec fn decayed_times(heat: u64, num: u64, den: u64, n: nat) -> u64
    decreases n,
{
    if n == 0 { heat } else { decayed(decayed_times(heat, num, den, (n - 1) as nat), num, den) }
}

/// Repeated decay never raises a heat score, and never takes it below zero.
pub proof fn lemma_decay_monotone(heat: u64, num: u64, den: u64, n: nat, m: nat)
    requires
        0 < num < den,
        m <= n,
    ensures
        0 <= decayed_times(heat, num, den, n) <= decayed_times(heat, num, den, m) <= heat,
    decreases n,
{
    if n > m {
        lemma_decay_monotone(heat, num, den, (n - 1) as nat, m);
        let h = decayed_times(heat, num, den, (n - 1) as nat);
        assert((h as int) * (num as int) / (den as int) <= h) by (nonlinear_arith)
            requires 0 < num < den, h >= 0;
        assert((h as int) * (num as int) / (den as int) >= 0) by (nonlinear_arith)
            requires 0 < num < den, h >= 0;
    } else if n > 0 {
        lemma_decay_monotone(heat, num, den, (n - 1) as nat, (n - 1) as nat);
        let h = decayed_times(heat, num, den, (n - 1) as nat);
        assert((h as int) * (num as int) / (den as int) <= h) by (nonlinear_arith)
            requires 0 < num < den, h >= 0;
    }
}

} // verus!
