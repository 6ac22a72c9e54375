//! Token operations: issuing, verifying, and the storage charges made
//! through a token's ledger row.
use crate::digest::{hash_text, is_digest, sha256_hex};
use crate::store::{EvictRule, Storage, evicts, has_original, lemma_filter_keeps_all, lemma_filter_remove, survives};
use crate::catalog::ObjectRecord;
use crate::cache::CacheEntry;
use crate::accounting::owned_bytes;
use crate::quota::{is_admin, ApiTokenInfo, QuotaError, TokenRepository, TokenRole, adjustment_exceeds, clamped_usage, with_usage};
use crate::text::{is_alphanumeric_ascii, random_alphanumeric, trim, trim_of};
use vstd::prelude::*;
use vstd::string::StringSliceAdditionalSpecFns;
use vstd::utf8::encode_utf8;

verus! {

/// Length of a freshly issued token.
pub const TOKEN_LENGTH: usize = 48;

/// Why a presented token was refused.
#[derive(Clone, Copy, Debug, PartialEq, Eq, Structural)]
pub enum AuthError {
    /// The request carries no token.
    MissingToken,
    EmptyToken,
    UnknownToken,
    Disabled,
    Expired,
}

/// Why a token operation was refused.
#[derive(Clone, Copy, Debug, PartialEq, Eq, Structural)]
pub enum TokenError {
    EmptyName,
    NotFound,
    /// The only admin token cannot be deleted.
    LastAdmin,
    /// Uploads charged to the token are still in flight.
    UploadsInFlight,
    /// No ids are left.
    IdsExhausted,
    /// A token with the same digest exists already.
    Conflict,
}

/// A new token with its plaintext, which is shown once and never stored.
pub struct CreateTokenResponse {
    pub token: ApiTokenInfo,
    pub plaintext: String,
}

pub open spec fn is_token_text(s: Seq<char>) -> bool {
    s.len() == TOKEN_LENGTH && forall|i: int| 0 <= i < s.len() ==> is_alphanumeric_ascii(#[trigger] s[i])
}

/// Whether a token has expired at `now`.
pub open spec fn expired(t: ApiTokenInfo, now: i64) -> bool {
    match t.expires_at {
        Some(e) => e < now,
        None => false,
    }
}

pub struct TokenService;

impl TokenService {
    /// The digest under which a token is stored.
    pub fn hash_token(token: &str) -> (r: String)
        ensures
            r@ == sha256_hex(token.spec_bytes()),
            is_digest(r@),
    {
        hash_text(token)
    }

    /// A fresh random token: 48 ASCII letters and digits.
    pub fn generate_token() -> (r: String)
        ensures
            is_token_text(r@),
    {
        random_alphanumeric(TOKEN_LENGTH)
    }

    /// Reserves `bytes` on the token's quota; a non-positive amount does nothing.
    pub fn reserve_storage(repo: &mut TokenRepository, token_id: i32, bytes: i64) -> (r: Result<(), QuotaError>)
        requires
            old(repo).wf(),
        ensures
            final(repo).wf(),
            bytes <= 0 ==> r is Ok && *final(repo) == *old(repo),
            bytes > 0 && token_id == 0 ==> r is Ok && *final(repo) == *old(repo),
            bytes > 0 && token_id != 0 && !old(repo).contains_id(token_id)
                ==> r == Err::<(), QuotaError>(QuotaError::NotFound) && *final(repo) == *old(repo),
            forall|i: int| 0 <= i < old(repo).tokens@.len() && old(repo).tokens@[i].id == token_id && token_id != 0 && bytes > 0 ==> {
                let t = old(repo).tokens@[i];
                if adjustment_exceeds(t, bytes as int) {
                    r == Err::<(), QuotaError>(QuotaError::QuotaExceeded) && *final(repo) == *old(repo)
                } else {
                    r is Ok && final(repo).tokens@ == old(repo).tokens@.update(i, with_usage(t, (t.used_upload_size + bytes) as u64))
                }
            },
    {
        if bytes <= 0 {
            return Ok(());
        }
        repo.adjust_usage(token_id, bytes)
    }

    /// Gives `bytes` back to the token's quota, never below zero; a
    /// non-positive amount does nothing.
    pub fn release_storage(repo: &mut TokenRepository, token_id: i32, bytes: i64) -> (r: Result<(), QuotaError>)
        requires
            old(repo).wf(),
        ensures
            final(repo).wf(),
            bytes <= 0 ==> r is Ok && *final(repo) == *old(repo),
            bytes > 0 && token_id == 0 ==> r is Ok && *final(repo) == *old(repo),
            bytes > 0 && token_id != 0 && !old(repo).contains_id(token_id)
                ==> r == Err::<(), QuotaError>(QuotaError::NotFound) && *final(repo) == *old(repo),
            forall|i: int| 0 <= i < old(repo).tokens@.len() && old(repo).tokens@[i].id == token_id && token_id != 0 && bytes > 0 ==> {
                let t = old(repo).tokens@[i];
                r is Ok && final(repo).tokens@ == old(repo).tokens@.update(
                    i,
                    with_usage(t, clamped_usage(t.used_upload_size, -(bytes as int)) as u64),
                )
            },
    {
        if bytes <= 0 {
            return Ok(());
        }
        repo.adjust_usage(token_id, 0 - bytes)
    }

    pub fn get_token(repo: &TokenRepository, token_id: i32) -> (r: Result<ApiTokenInfo, TokenError>)
        ensures
            match r {
                Ok(t) => t.id == token_id && repo.tokens@.contains(t),
                Err(e) => e == TokenError::NotFound && !repo.contains_id(token_id),
            },
    {
        match repo.find_by_id(token_id) {
            Some(t) => Ok(t),
            None => Err(TokenError::NotFound),
        }
    }

    /// The token whose stored digest is that of `token`, as presented.
    pub fn find_by_token_hash(repo: &TokenRepository, token: &str) -> (r: Option<ApiTokenInfo>)
        ensures
            match r {
                Some(t) => t.token_hash@ == sha256_hex(token.spec_bytes()) && repo.tokens@.contains(t),
                None => forall|i: int| 0 <= i < repo.tokens@.len()
                    ==> (#[trigger] repo.tokens@[i]).token_hash@ != sha256_hex(token.spec_bytes()),
            },
    {
        let h = Self::hash_token(token);
        repo.find_by_hash(h.as_str())
    }

    /// Issues a token under the trimmed `name`. Only the digest of the
    /// plaintext is stored; the plaintext is handed back once.
    pub fn create_token(
        repo: &mut TokenRepository,
        name: &str,
        role: TokenRole,
        max_upload_size: Option<u64>,
        expires_at: Option<i64>,
        now: i64,
    ) -> (r: Result<CreateTokenResponse, TokenError>)
        requires
            old(repo).wf(),
        ensures
            final(repo).wf(),
            r is Err ==> *final(repo) == *old(repo),
            trim_of(name@).len() == 0 <==> r == Err::<CreateTokenResponse, TokenError>(TokenError::EmptyName),
            trim_of(name@).len() != 0 && old(repo).next_id == i32::MAX
                ==> r == Err::<CreateTokenResponse, TokenError>(TokenError::IdsExhausted),
            // Otherwise only a digest clash with a stored token, which depends on
            // the random plaintext, stops it.
            trim_of(name@).len() != 0 && old(repo).next_id < i32::MAX
                ==> (r is Ok || r == Err::<CreateTokenResponse, TokenError>(TokenError::Conflict)),
            r == Err::<CreateTokenResponse, TokenError>(TokenError::Conflict) ==> trim_of(name@).len() != 0,
            r matches Ok(resp) ==> {
                &&& is_token_text(resp.plaintext@)
                &&& resp.token.id == old(repo).next_id
                &&& resp.token.name@ == trim_of(name@)
                &&& resp.token.token_hash@ == sha256_hex(encode_utf8(resp.plaintext@))
                &&& resp.token.role == role
                &&& resp.token.max_upload_size == max_upload_size
                &&& resp.token.used_upload_size == 0
                &&& resp.token.expires_at == expires_at
                &&& resp.token.is_active
                &&& resp.token.created_at == now
                &&& resp.token.last_used_at is None
                &&& final(repo).tokens@ == old(repo).tokens@.push(resp.token)
            },
    {
        let n = trim(name);
        if n.is_empty() {
            return Err(TokenError::EmptyName);
        }
        if repo.next_id == i32::MAX {
            return Err(TokenError::IdsExhausted);
        }
        let plaintext = Self::generate_token();
        let token_hash = Self::hash_token(plaintext.as_str());
        match repo.insert(n.to_owned(), token_hash, role, max_upload_size, expires_at, now) {
            Some(token) => Ok(CreateTokenResponse { token, plaintext }),
            None => Err(TokenError::Conflict),
        }
    }

    /// Issues the first admin token when the table is empty, and returns its
    /// plaintext; otherwise does nothing.
    pub fn ensure_default_admin(repo: &mut TokenRepository, now: i64) -> (r: Result<Option<String>, TokenError>)
        requires
            old(repo).wf(),
        ensures
            final(repo).wf(),
            old(repo).tokens@.len() > 0 ==> r == Ok::<Option<String>, TokenError>(None) && *final(repo) == *old(repo),
            old(repo).tokens@.len() == 0 && old(repo).next_id < i32::MAX ==> (r matches Ok(Some(p)) && {
                &&& is_token_text(p@)
                &&& final(repo).tokens@.len() == 1
                &&& final(repo).tokens@[0].role == TokenRole::Admin
                &&& final(repo).tokens@[0].max_upload_size is None
                &&& final(repo).tokens@[0].token_hash@ == sha256_hex(encode_utf8(p@))
            }),
    {
        if repo.count_all() > 0 {
            return Ok(None);
        }
        let plaintext = Self::generate_token();
        let token_hash = Self::hash_token(plaintext.as_str());
        match repo.insert("超级管理员".to_owned(), token_hash, TokenRole::Admin, None, None, now) {
            Some(_) => Ok(Some(plaintext)),
            None => Err(TokenError::IdsExhausted),
        }
    }

    /// Deletes a token and everything charged to it: its cache entries, then
    /// its objects (with their blobs), then the token itself. The last admin
    /// token cannot be deleted, nor one with uploads in flight.
    pub fn delete_token_with_data(store: &mut Storage, token_id: i32) -> (r: Result<(), TokenError>)
        requires
            old(store).wf(),
        ensures
            final(store).wf(),
            r is Err ==> *final(store) == *old(store),
            !old(store).tokens.contains_id(token_id) <==> r == Err::<(), TokenError>(TokenError::NotFound),
            old(store).tokens.contains_id(token_id) && last_admin(old(store).tokens.tokens@, token_id)
                <==> r == Err::<(), TokenError>(TokenError::LastAdmin),
            old(store).tokens.contains_id(token_id) && !last_admin(old(store).tokens.tokens@, token_id)
                && has_upload_in_flight(*old(store), token_id)
                <==> r == Err::<(), TokenError>(TokenError::UploadsInFlight),
            old(store).tokens.contains_id(token_id) && !last_admin(old(store).tokens.tokens@, token_id)
                && !has_upload_in_flight(*old(store), token_id) <==> r is Ok,
            r is Ok ==> {
                &&& exists|i: int| 0 <= i < old(store).tokens.tokens@.len() && old(store).tokens.tokens@[i].id == token_id
                    && final(store).tokens.tokens@ == old(store).tokens.tokens@.remove(i)
                &&& final(store).catalog.records@
                    == old(store).catalog.records@.filter(|o: ObjectRecord| o.owner_token_id != Some(token_id))
                &&& final(store).cache.entries@
                    == old(store).cache.entries@.filter(|e: CacheEntry| e.owner_token_id != Some(token_id))
                &&& final(store).reservations == old(store).reservations
                &&& final(store).config == old(store).config
            },
    {
        let token = match store.tokens.find_by_id(token_id) {
            Some(t) => t,
            None => { return Err(TokenError::NotFound); },
        };
        proof {
            let ts = store.tokens.tokens@;
            let j = choose|j: int| 0 <= j < ts.len() && ts[j] == token;
            assert forall|i: int| 0 <= i < ts.len() && ts[i].id == token_id implies i == j by {}
        }
        if token.role == TokenRole::Admin && store.tokens.count_admins() <= 1 {
            return Err(TokenError::LastAdmin);
        }
        let mut i: usize = 0;
        while i < store.reservations.len()
            invariant
                *store == *old(store),
                store.wf(),
                store.tokens.contains_id(token_id),
                !last_admin(old(store).tokens.tokens@, token_id),
                i <= store.reservations@.len(),
                forall|k: int| 0 <= k < i ==> (#[trigger] store.reservations@[k]).owner_token_id != Some(token_id),
            decreases store.reservations@.len() - i,
        {
            if store.reservations[i].owner_token_id == Some(token_id) {
                return Err(TokenError::UploadsInFlight);
            }
            i = i + 1;
        }
        let ghost start = *store;
        let ghost not_mine_o = |o: ObjectRecord| o.owner_token_id != Some(token_id);
        let ghost not_mine_e = |e: CacheEntry| e.owner_token_id != Some(token_id);
        // First the token's cache entries.
        let rule = EvictRule::OwnedBy(token_id);
        store.evict_matching(&rule);
        proof {
            assert(survives(rule) =~= not_mine_e);
            broadcast use vstd::seq_lib::group_filter_ensures;
            assert forall|k: int| 0 <= k < store.cache.entries@.len() implies
                (#[trigger] store.cache.entries@[k]).owner_token_id != Some(token_id) by {
                assert(survives(rule)(store.cache.entries@[k]));
            }
            assert forall|k: int| 0 <= k < start.tokens.tokens@.len() && start.tokens.tokens@[k].id != token_id implies
                #[trigger] store.tokens.tokens@[k] == start.tokens.tokens@[k] by {
                assert forall|x: int| 0 <= x < start.cache.entries@.len() && evicts(rule, #[trigger] start.cache.entries@[x])
                    implies start.cache.entries@[x].owner_token_id != Some(start.tokens.tokens@[k].id) by {}
            }
        }
        let ghost cache_after = store.cache.entries@;
        // Then its objects, one at a time; none has derived entries left.
        let mut next = store.catalog.first_owned_by(token_id);
        while next.is_some()
            invariant
                store.wf(),
                store.reservations == start.reservations,
                store.config == start.config,
                store.cache.entries@ == cache_after,
                forall|k: int| 0 <= k < cache_after.len() ==> (#[trigger] cache_after[k]).owner_token_id != Some(token_id),
                store.catalog.records@.filter(not_mine_o) == start.catalog.records@.filter(not_mine_o),
                not_mine_o == (|o: ObjectRecord| o.owner_token_id != Some(token_id)),
                store.tokens.tokens@.len() == start.tokens.tokens@.len(),
                forall|j: int| 0 <= j < start.tokens.tokens@.len() ==> #[trigger] store.tokens.tokens@[j]
                    == if start.tokens.tokens@[j].id != token_id { start.tokens.tokens@[j] } else {
                        with_usage(start.tokens.tokens@[j], store.tokens.tokens@[j].used_upload_size)
                    },
                match next {
                    Some(k) => k < store.catalog.records@.len() && store.catalog.records@[k as int].owner_token_id == Some(token_id),
                    None => forall|i: int| 0 <= i < store.catalog.records@.len()
                        ==> (#[trigger] store.catalog.records@[i]).owner_token_id != Some(token_id),
                },
            decreases store.catalog.records@.len(),
        {
            let k = match next {
                Some(k) => k,
                None => 0,
            };
            let h = store.catalog.records[k].hash.clone();
            let ghost pre = *store;
            proof {
                assert(pre.catalog.has_hash(h@));
                assert forall|x: int| 0 <= x < cache_after.len() implies (#[trigger] cache_after[x]).original_hash@ != h@ by {
                    assert(has_original(pre.catalog.records@, cache_after[x]));
                    let j = choose|j: int| 0 <= j < pre.catalog.records@.len()
                        && pre.catalog.records@[j].hash@ == cache_after[x].original_hash@
                        && pre.catalog.records@[j].owner_token_id == cache_after[x].owner_token_id;
                    if cache_after[x].original_hash@ == h@ {
                        assert(j == k);
                    }
                }
                lemma_filter_keeps_all(cache_after, |e: CacheEntry| e.original_hash@ != h@);
            }
            let _ = store.delete_object(h.as_str());
            proof {
                let ii = choose|ii: int| 0 <= ii < pre.catalog.records@.len() && (#[trigger] pre.catalog.records@[ii]).hash@ == h@
                    && {
                    let rec = pre.catalog.records@[ii];
                    &&& store.catalog.records@ == pre.catalog.records@.remove(ii)
                    &&& store.cache.entries@ == pre.cache.entries@.filter(|e: CacheEntry| e.original_hash@ != h@)
                    &&& forall|q: int| 0 <= q < pre.tokens.tokens@.len() ==> #[trigger] store.tokens.tokens@[q]
                        == if Some(pre.tokens.tokens@[q].id) == rec.owner_token_id {
                            with_usage(pre.tokens.tokens@[q], (pre.tokens.tokens@[q].used_upload_size - rec.size
                                - (owned_bytes(pre.cache.charges(), pre.tokens.tokens@[q].id)
                                    - owned_bytes(store.cache.charges(), pre.tokens.tokens@[q].id))) as u64)
                        } else {
                            pre.tokens.tokens@[q]
                        }
                };
                assert(ii == k);
                lemma_filter_remove(pre.catalog.records@, not_mine_o, ii);
                assert forall|j: int| 0 <= j < start.tokens.tokens@.len() implies #[trigger] store.tokens.tokens@[j]
                    == if start.tokens.tokens@[j].id != token_id { start.tokens.tokens@[j] } else {
                        with_usage(start.tokens.tokens@[j], store.tokens.tokens@[j].used_upload_size)
                    } by {
                    assert(pre.tokens.tokens@[j].id == start.tokens.tokens@[j].id);
                }
            }
            next = store.catalog.first_owned_by(token_id);
        }
        let ghost pre = *store;
        proof {
            lemma_filter_keeps_all(store.catalog.records@, not_mine_o);
            assert forall|k: int| 0 <= k < store.catalog.charges().len() implies (#[trigger] store.catalog.charges()[k]).0 != Some(token_id) by {
                assert(store.catalog.charges()[k].0 == store.catalog.records@[k].owner_token_id);
            }
            assert forall|k: int| 0 <= k < store.cache.charges().len() implies (#[trigger] store.cache.charges()[k]).0 != Some(token_id) by {
                assert(store.cache.charges()[k].0 == store.cache.entries@[k].owner_token_id);
            }
            assert forall|k: int| 0 <= k < store.reserved_charges().len() implies (#[trigger] store.reserved_charges()[k]).0 != Some(token_id) by {
                assert(store.reserved_charges()[k].0 == store.reservations@[k].owner_token_id);
            }
            crate::accounting::lemma_unowned(store.catalog.charges(), token_id);
            crate::accounting::lemma_unowned(store.cache.charges(), token_id);
            crate::accounting::lemma_unowned(store.reserved_charges(), token_id);
            let ti = choose|ti: int| 0 <= ti < start.tokens.tokens@.len() && start.tokens.tokens@[ti].id == token_id;
            assert(pre.tokens.tokens@[ti].id == token_id);
        }
        store.tokens.delete_by_id(token_id);
        proof {
            let x = choose|x: int| 0 <= x < pre.tokens.tokens@.len() && pre.tokens.tokens@[x].id == token_id
                && store.tokens.tokens@ == pre.tokens.tokens@.remove(x);
            let newt = store.tokens.tokens@;
            let oldt = pre.tokens.tokens@;
            assert(start.tokens.tokens@[x].id == token_id);
            assert(newt =~= start.tokens.tokens@.remove(x)) by {
                assert forall|q: int| 0 <= q < newt.len() implies newt[q] == start.tokens.tokens@.remove(x)[q] by {
                    let q0 = if q < x { q } else { q + 1 };
                    assert(newt[q] == oldt[q0]);
                    assert(start.tokens.tokens@[q0].id != token_id);
                }
            }
            assert forall|k: int| 0 <= k < newt.len() implies
                (#[trigger] newt[k]).used_upload_size == store.charged(newt[k].id) by {
                let k0 = if k < x { k } else { k + 1 };
                assert(newt[k] == oldt[k0]);
            }
            assert forall|a: int| 0 <= a < oldt.len() && oldt[a].id != token_id implies
                #[trigger] crate::quota::has_id(newt, oldt[a].id) by {
                assert(a != x);
                let a1 = if a < x { a } else { a - 1 };
                assert(newt[a1] == oldt[a]);
            }
            assert(owners_known_after(pre.catalog.charges(), oldt, newt, token_id));
            assert(owners_known_after(pre.cache.charges(), oldt, newt, token_id));
            assert(owners_known_after(pre.reserved_charges(), oldt, newt, token_id));
        }
        Ok(())
    }

    /// All tokens, newest first.
    pub fn list_tokens(repo: &TokenRepository) -> (r: Vec<ApiTokenInfo>)
        ensures
            r@.len() == repo.tokens@.len(),
            forall|i: int| 0 <= i < r@.len() ==> #[trigger] r@[i] == repo.tokens@[repo.tokens@.len() - 1 - i],
    {
        let n = repo.tokens.len();
        let mut out: Vec<ApiTokenInfo> = Vec::new();
        let mut k: usize = n;
        while k > 0
            invariant
                k <= n,
                n == repo.tokens@.len(),
                out@.len() == n - k,
                forall|i: int| 0 <= i < out@.len() ==> #[trigger] out@[i] == repo.tokens@[n - 1 - i],
            decreases k,
        {
            out.push(repo.tokens[k - 1].duplicate());
            k = k - 1;
        }
        out
    }

    /// Checks a presented token: it must be non-blank once trimmed, known,
    /// active and unexpired. On success its last use is stamped and the
    /// record, as found, is returned.
    pub fn verify_plain_token(repo: &mut TokenRepository, token: &str, now: i64) -> (r: Result<ApiTokenInfo, AuthError>)
        requires
            old(repo).wf(),
        ensures
            final(repo).wf(),
            r is Err ==> *final(repo) == *old(repo),
            trim_of(token@).len() == 0 <==> r == Err::<ApiTokenInfo, AuthError>(AuthError::EmptyToken),
            trim_of(token@).len() != 0 ==> forall|i: int| 0 <= i < old(repo).tokens@.len()
                && (#[trigger] old(repo).tokens@[i]).token_hash@ == sha256_hex(encode_utf8(trim_of(token@))) ==>
                (r is Ok <==> old(repo).tokens@[i].is_active && !expired(old(repo).tokens@[i], now))
                && (r is Ok ==> r == Ok::<ApiTokenInfo, AuthError>(old(repo).tokens@[i])),
            ({
                let h = sha256_hex(encode_utf8(trim_of(token@)));
                match r {
                    Ok(t) => old(repo).tokens@.contains(t) && t.is_active && !expired(t, now) && t.token_hash@ == h
                        && final(repo).tokens@.len() == old(repo).tokens@.len()
                        && forall|i: int| 0 <= i < old(repo).tokens@.len() ==> #[trigger] final(repo).tokens@[i]
                            == if old(repo).tokens@[i].id == t.id {
                                ApiTokenInfo { last_used_at: Some(now), ..old(repo).tokens@[i] }
                            } else {
                                old(repo).tokens@[i]
                            },
                    Err(AuthError::UnknownToken) => forall|i: int| 0 <= i < old(repo).tokens@.len()
                        ==> (#[trigger] old(repo).tokens@[i]).token_hash@ != h,
                    Err(AuthError::Disabled) => exists|t: ApiTokenInfo| old(repo).tokens@.contains(t) && !t.is_active
                        && t.token_hash@ == h,
                    Err(AuthError::Expired) => exists|t: ApiTokenInfo| old(repo).tokens@.contains(t) && t.is_active
                        && expired(t, now) && t.token_hash@ == h,
                    Err(AuthError::EmptyToken) => true,
                    Err(AuthError::MissingToken) => false,
                }
            }),
    {
        let t = trim(token);
        if t.is_empty() {
            return Err(AuthError::EmptyToken);
        }
        let h = Self::hash_token(t);
        let model = match repo.find_by_hash(h.as_str()) {
            Some(m) => m,
            None => { return Err(AuthError::UnknownToken); },
        };
        proof {
            let j = choose|j: int| 0 <= j < repo.tokens@.len() && repo.tokens@[j] == model;
            assert forall|i: int| 0 <= i < repo.tokens@.len() && (#[trigger] repo.tokens@[i]).token_hash@ == model.token_hash@
                implies i == j by {}
        }
        let ghost h = sha256_hex(encode_utf8(trim_of(token@)));
        if !model.is_active {
            assert(old(repo).tokens@.contains(model) && !model.is_active && model.token_hash@ == h);
            return Err(AuthError::Disabled);
        }
        match model.expires_at {
            Some(e) => {
                if e < now {
                    assert(old(repo).tokens@.contains(model) && model.is_active && expired(model, now) && model.token_hash@ == h);
                    return Err(AuthError::Expired);
                }
            },
            None => {},
        }
        repo.update_last_used(model.id, now);
        Ok(model)
    }
}

/// `t` is the only admin token.
pub open spec fn last_admin(tokens: Seq<ApiTokenInfo>, t: i32) -> bool {
    (exists|i: int| 0 <= i < tokens.len() && tokens[i].id == t && is_admin(tokens[i]))
        && tokens.filter(|x: ApiTokenInfo| is_admin(x)).len() <= 1
}

/// An upload charged to `t` is waiting for its blob write.
pub open spec fn has_upload_in_flight(s: Storage, t: i32) -> bool {
    exists|i: int| 0 <= i < s.reservations@.len() && s.reservations@[i].owner_token_id == Some(t)
}

/// Owners known under `a` stay known under `b`, which keeps every token of
/// `a` but `gone`, when no item is charged to `gone`.
pub open spec fn owners_known_after(c: Seq<crate::accounting::Charge>, a: Seq<ApiTokenInfo>, b: Seq<ApiTokenInfo>, gone: i32) -> bool {
    (crate::store::owners_known(c, a)
        && (forall|k: int| 0 <= k < c.len() ==> (#[trigger] c[k]).0 != Some(gone))
        && (forall|x: int| 0 <= x < a.len() && a[x].id != gone ==> #[trigger] crate::quota::has_id(b, a[x].id)))
        ==> crate::store::owners_known(c, b)
}

} // verus!
