//! Tokens and the per-token storage ledger.
//!
//! A token is the tenant of the store: every object it uploads and every
//! derived artifact made from those objects is charged to its
//! `used_upload_size`, which never passes `max_upload_size` when that is set.
//! The id `0` stands for the default (unauthenticated) identity and is exempt
//! from accounting.
use vstd::prelude::*;

verus! {

/// The role a token grants.
#[derive(Clone, Copy, Debug, PartialEq, Eq, Structural)]
pub enum TokenRole {
    Admin,
    User,
}

pub open spec fn role_name(r: TokenRole) -> Seq<char> {
    match r {
        TokenRole::Admin => "admin"@,
        TokenRole::User => "user"@,
    }
}

impl TokenRole {
    pub fn as_str(&self) -> (r: &'static str)
        ensures
            r@ == role_name(*self),
    {
        match self {
            TokenRole::Admin => "admin",
            TokenRole::User => "user",
        }
    }

    /// Reads a role name: `admin` is the admin role, anything else a user.
    pub fn from_name(name: &str) -> (r: TokenRole)
        ensures
            r == (if name@ == "admin"@ { TokenRole::Admin } else { TokenRole::User }),
    {
        if crate::text::same_text(name, "admin") {
            TokenRole::Admin
        } else {
            TokenRole::User
        }
    }
}

/// A token record, which doubles as the tenant's quota account.
#[derive(Clone, Debug)]
pub struct ApiTokenInfo {
    pub id: i32,
    pub name: String,
    pub token_hash: String,
    pub role: TokenRole,
    /// `None` is unlimited.
    pub max_upload_size: Option<u64>,
    pub used_upload_size: u64,
    /// Seconds since the epoch.
    pub expires_at: Option<i64>,
    pub is_active: bool,
    pub created_at: i64,
    pub last_used_at: Option<i64>,
}

impl ApiTokenInfo {
    pub fn duplicate(&self) -> (r: ApiTokenInfo)
        ensures
            r == *self,
    {
        ApiTokenInfo {
            id: self.id,
            name: self.name.clone(),
            token_hash: self.token_hash.clone(),
            role: self.role,
            max_upload_size: self.max_upload_size,
            used_upload_size: self.used_upload_size,
            expires_at: self.expires_at,
            is_active: self.is_active,
            created_at: self.created_at,
            last_used_at: self.last_used_at,
        }
    }
}

pub open spec fn is_admin(t: ApiTokenInfo) -> bool {
    t.role == TokenRole::Admin
}

/// Why a ledger operation was refused.
#[derive(Clone, Copy, Debug, PartialEq, Eq, Structural)]
pub enum QuotaError {
    /// No token has the id.
    NotFound,
    /// The charge would pass the token's limit.
    QuotaExceeded,
}

/// The largest usage that a token may reach: its limit, or what the counter holds.
pub open spec fn usage_cap(t: ApiTokenInfo) -> int {
    match t.max_upload_size {
        Some(l) => l as int,
        None => u64::MAX as int,
    }
}

pub open spec fn within_limit(t: ApiTokenInfo) -> bool {
    t.used_upload_size <= usage_cap(t)
}

/// The token with its usage set to `used`.
pub open spec fn with_usage(t: ApiTokenInfo, used: u64) -> ApiTokenInfo {
    ApiTokenInfo { used_upload_size: used, ..t }
}

/// Usage after adding `delta`, floored at zero.
pub open spec fn clamped_usage(used: u64, delta: int) -> int {
    if used + delta < 0 { 0 } else { used + delta }
}

/// Whether an adjustment by `delta` is refused for going over the limit.
/// Only a positive `delta` is ever checked against the limit.
pub open spec fn adjustment_exceeds(t: ApiTokenInfo, delta: int) -> bool {
    delta > 0 && t.used_upload_size + delta > usage_cap(t)
}

pub open spec fn ids_unique(s: Seq<ApiTokenInfo>) -> bool {
    forall|i: int, j: int| 0 <= i < s.len() && 0 <= j < s.len() && i != j ==> s[i].id != s[j].id
}

pub open spec fn digests_unique(s: Seq<ApiTokenInfo>) -> bool {
    forall|i: int, j: int| 0 <= i < s.len() && 0 <= j < s.len() && i != j ==> s[i].token_hash@ != s[j].token_hash@
}

pub open spec fn has_digest(s: Seq<ApiTokenInfo>, h: Seq<char>) -> bool {
    exists|i: int| 0 <= i < s.len() && s[i].token_hash@ == h
}

pub open spec fn has_id(s: Seq<ApiTokenInfo>, id: i32) -> bool {
    exists|i: int| 0 <= i < s.len() && s[i].id == id
}

/// No token pays for items of this owner.
pub open spec fn exempt(owner: Option<i32>) -> bool {
    owner is None || owner == Some(0i32)
}

/// `new` is `old` with the usage of `owner`'s token moved by `d` (floored at
/// zero), every other token and field kept.
pub open spec fn usage_moved(old: Seq<ApiTokenInfo>, new: Seq<ApiTokenInfo>, owner: Option<i32>, d: int) -> bool {
    &&& new.len() == old.len()
    &&& forall|i: int| 0 <= i < old.len() ==> #[trigger] new[i] == if Some(old[i].id) == owner {
        with_usage(old[i], clamped_usage(old[i].used_upload_size, d) as u64)
    } else {
        old[i]
    }
}

/// The token table.
pub struct TokenRepository {
    pub tokens: Vec<ApiTokenInfo>,
    pub next_id: i32,
}

impl TokenRepository {
    /// Ids and digests are unique, ids are positive, `next_id` is above all
    /// of them, and no token is over its limit.
    pub open spec fn wf(&self) -> bool {
        &&& ids_unique(self.tokens@)
        &&& digests_unique(self.tokens@)
        &&& self.next_id > 0
        &&& forall|i: int| 0 <= i < self.tokens@.len() ==> 0 < #[trigger] self.tokens@[i].id < self.next_id
        &&& forall|i: int| 0 <= i < self.tokens@.len() ==> within_limit(#[trigger] self.tokens@[i])
    }

    pub open spec fn contains_id(&self, id: i32) -> bool {
        has_id(self.tokens@, id)
    }

    pub fn new() -> (r: Self)
        ensures
            r.wf(),
            r.tokens@.len() == 0,
    {
        TokenRepository { tokens: Vec::new(), next_id: 1 }
    }

    /// Position of the token with the given id.
    pub fn position(&self, id: i32) -> (r: Option<usize>)
        ensures
            match r {
                Some(i) => i < self.tokens@.len() && self.tokens@[i as int].id == id,
                None => !has_id(self.tokens@, id),
            },
    {
        let mut i: usize = 0;
        while i < self.tokens.len()
            invariant
                i <= self.tokens@.len(),
                forall|k: int| 0 <= k < i ==> self.tokens@[k].id != id,
            decreases self.tokens@.len() - i,
        {
            if self.tokens[i].id == id {
                return Some(i);
            }
            i = i + 1;
        }
        None
    }

    /// The token with the given id.
    pub fn find_by_id(&self, id: i32) -> (r: Option<ApiTokenInfo>)
        ensures
            match r {
                Some(t) => t.id == id && self.tokens@.contains(t),
                None => !self.contains_id(id),
            },
    {
        match self.position(id) {
            Some(i) => {
                let t = self.tokens[i].duplicate();
                assert(self.tokens@[i as int] == t);
                Some(t)
            },
            None => None,
        }
    }

    /// The first token whose stored hash is `token_hash`.
    pub fn find_by_hash(&self, token_hash: &str) -> (r: Option<ApiTokenInfo>)
        ensures
            match r {
                Some(t) => t.token_hash@ == token_hash@ && self.tokens@.contains(t),
                None => forall|i: int| 0 <= i < self.tokens@.len() ==> (#[trigger] self.tokens@[i]).token_hash@ != token_hash@,
            },
    {
        let mut i: usize = 0;
        while i < self.tokens.len()
            invariant
                i <= self.tokens@.len(),
                forall|k: int| 0 <= k < i ==> (#[trigger] self.tokens@[k]).token_hash@ != token_hash@,
            decreases self.tokens@.len() - i,
        {
            if crate::text::same_text(self.tokens[i].token_hash.as_str(), token_hash) {
                let t = self.tokens[i].duplicate();
                assert(self.tokens@[i as int] == t);
                return Some(t);
            }
            i = i + 1;
        }
        None
    }

    /// Adds a token under the next id, with nothing used yet. `None` when the
    /// ids are used up or a token with the same digest exists.
    pub fn insert(
        &mut self,
        name: String,
        token_hash: String,
        role: TokenRole,
        max_upload_size: Option<u64>,
        expires_at: Option<i64>,
        now: i64,
    ) -> (r: Option<ApiTokenInfo>)
        requires
            old(self).wf(),
        ensures
            final(self).wf(),
            r is None ==> *final(self) == *old(self),
            old(self).next_id == i32::MAX ==> r is None,
            has_digest(old(self).tokens@, token_hash@) ==> r is None,
            old(self).next_id < i32::MAX && !has_digest(old(self).tokens@, token_hash@) ==> (r matches Some(t) && t == (ApiTokenInfo {
                id: old(self).next_id,
                name,
                token_hash,
                role,
                max_upload_size,
                used_upload_size: 0,
                expires_at,
                is_active: true,
                created_at: now,
                last_used_at: None,
            }) && final(self).tokens@ == old(self).tokens@.push(t) && final(self).next_id == old(self).next_id + 1),
    {
        if self.next_id == i32::MAX {
            return None;
        }
        if self.find_by_hash(token_hash.as_str()).is_some() {
            return None;
        }
        let t = ApiTokenInfo {
            id: self.next_id,
            name,
            token_hash,
            role,
            max_upload_size,
            used_upload_size: 0,
            expires_at,
            is_active: true,
            created_at: now,
            last_used_at: None,
        };
        let out = t.duplicate();
        self.tokens.push(t);
        self.next_id = self.next_id + 1;
        Some(out)
    }

    /// Removes the token with the given id; returns how many were removed.
    pub fn delete_by_id(&mut self, id: i32) -> (r: u64)
        requires
            old(self).wf(),
        ensures
            final(self).wf(),
            final(self).next_id == old(self).next_id,
            !old(self).contains_id(id) ==> r == 0 && *final(self) == *old(self),
            old(self).contains_id(id) ==> r == 1 && exists|i: int| 0 <= i < old(self).tokens@.len()
                && old(self).tokens@[i].id == id && final(self).tokens@ == old(self).tokens@.remove(i),
    {
        match self.position(id) {
            Some(i) => {
                self.tokens.remove(i);
                assert forall|a: int, b: int| 0 <= a < self.tokens@.len() && 0 <= b < self.tokens@.len() && a != b
                    implies self.tokens@[a].id != self.tokens@[b].id by {
                    let a0 = if a < i { a } else { a + 1 };
                    let b0 = if b < i { b } else { b + 1 };
                    assert(self.tokens@[a] == old(self).tokens@[a0]);
                    assert(self.tokens@[b] == old(self).tokens@[b0]);
                }
                assert forall|a: int| 0 <= a < self.tokens@.len() implies
                    0 < #[trigger] self.tokens@[a].id < self.next_id && within_limit(self.tokens@[a]) by {
                    let a0 = if a < i { a } else { a + 1 };
                    assert(self.tokens@[a] == old(self).tokens@[a0]);
                }
                1
            },
            None => 0,
        }
    }

    /// How many tokens have the admin role.
    pub fn count_admins(&self) -> (r: u64)
        ensures
            r == self.tokens@.filter(|t: ApiTokenInfo| is_admin(t)).len(),
    {
        let ghost all = self.tokens@;
        let ghost pred = |t: ApiTokenInfo| is_admin(t);
        let mut n: u64 = 0;
        let mut i: usize = 0;
        while i < self.tokens.len()
            invariant
                i <= all.len(),
                all == self.tokens@,
                pred == (|t: ApiTokenInfo| is_admin(t)),
                n == all.subrange(0, i as int).filter(pred).len(),
                n <= i,
            decreases all.len() - i,
        {
            let ghost before = all.subrange(0, i as int);
            assert(all.subrange(0, i + 1) =~= before.push(all[i as int]));
            assert(before.push(all[i as int]).drop_last() =~= before);
            proof {
                reveal(Seq::filter);
            }
            if self.tokens[i].role == TokenRole::Admin {
                n = n + 1;
            }
            i = i + 1;
        }
        assert(all.subrange(0, all.len() as int) =~= all);
        n
    }

    pub fn count_all(&self) -> (r: usize)
        ensures
            r == self.tokens@.len(),
    {
        self.tokens.len()
    }

    /// Stamps the token's last use.
    pub fn update_last_used(&mut self, id: i32, now: i64)
        requires
            old(self).wf(),
        ensures
            final(self).wf(),
            final(self).next_id == old(self).next_id,
            final(self).tokens@.len() == old(self).tokens@.len(),
            forall|i: int| 0 <= i < old(self).tokens@.len() ==> #[trigger] final(self).tokens@[i] == if old(self).tokens@[i].id == id {
                ApiTokenInfo { last_used_at: Some(now), ..old(self).tokens@[i] }
            } else {
                old(self).tokens@[i]
            },
    {
        match self.position(id) {
            Some(i) => {
                self.tokens[i].last_used_at = Some(now);
                assert forall|j: int| 0 <= j < old(self).tokens@.len() && old(self).tokens@[j].id == id implies j == i by {}
            },
            None => {},
        }
    }

    /// Charges `amount` bytes to `owner`'s token, refusing (and changing
    /// nothing) when that would pass its limit. Exempt owners are not charged.
    pub fn charge(&mut self, owner: Option<i32>, amount: u64) -> (r: Result<(), QuotaError>)
        requires
            old(self).wf(),
        ensures
            final(self).wf(),
            final(self).next_id == old(self).next_id,
            exempt(owner) ==> r is Ok && *final(self) == *old(self),
            !exempt(owner) && !old(self).contains_id(owner->0) ==> r == Err::<(), QuotaError>(QuotaError::NotFound),
            r is Err ==> *final(self) == *old(self),
            r is Ok ==> usage_moved(old(self).tokens@, final(self).tokens@, owner, amount as int),
            r is Ok && !exempt(owner) ==> old(self).contains_id(owner->0),
            forall|i: int|
                0 <= i < old(self).tokens@.len() && Some(old(self).tokens@[i].id) == owner ==>
                    (r == Err::<(), QuotaError>(QuotaError::QuotaExceeded)
                        <==> old(self).tokens@[i].used_upload_size + amount > usage_cap(old(self).tokens@[i])),
            forall|i: int|
                0 <= i < old(self).tokens@.len() && Some(old(self).tokens@[i].id) == owner ==>
                    (r is Ok <==> old(self).tokens@[i].used_upload_size + amount <= usage_cap(old(self).tokens@[i])),
    {
        let t = match owner {
            None => { return Ok(()); },
            Some(t) => t,
        };
        if t == 0 {
            return Ok(());
        }
        let i = match self.position(t) {
            None => { return Err(QuotaError::NotFound); },
            Some(i) => i,
        };
        let used = self.tokens[i].used_upload_size;
        let cap: u64 = match self.tokens[i].max_upload_size {
            Some(l) => l,
            None => u64::MAX,
        };
        if amount > cap - used {
            return Err(QuotaError::QuotaExceeded);
        }
        self.tokens[i].used_upload_size = used + amount;
        assert forall|j: int| 0 <= j < old(self).tokens@.len() && Some(old(self).tokens@[j].id) == owner implies j == i by {}
        Ok(())
    }

    /// Gives back `amount` bytes to `owner`'s token, never going below zero.
    /// Exempt or unknown owners change nothing.
    pub fn refund(&mut self, owner: Option<i32>, amount: u64)
        requires
            old(self).wf(),
        ensures
            final(self).wf(),
            final(self).next_id == old(self).next_id,
            usage_moved(old(self).tokens@, final(self).tokens@, owner, -(amount as int)),
    {
        let t = match owner {
            None => { return; },
            Some(t) => t,
        };
        if t == 0 {
            return;
        }
        let i = match self.position(t) {
            None => { return; },
            Some(i) => i,
        };
        let used = self.tokens[i].used_upload_size;
        let new_used: u64 = if amount >= used { 0 } else { used - amount };
        self.tokens[i].used_upload_size = new_used;
        assert forall|j: int| 0 <= j < old(self).tokens@.len() && Some(old(self).tokens@[j].id) == owner implies j == i by {}
    }

    /// The atomic read-check-write on a token's usage: a positive `delta` that
    /// would pass the limit is refused and nothing changes; otherwise usage
    /// moves by `delta`, never below zero. Id `0` is exempt and untouched.
    pub fn adjust_usage(&mut self, token_id: i32, delta: i64) -> (r: Result<(), QuotaError>)
        requires
            old(self).wf(),
        ensures
            final(self).wf(),
            final(self).next_id == old(self).next_id,
            final(self).tokens@.len() == old(self).tokens@.len(),
            token_id == 0 ==> r is Ok && *final(self) == *old(self),
            token_id != 0 && !old(self).contains_id(token_id) ==> r == Err::<(), QuotaError>(QuotaError::NotFound) && *final(self) == *old(self),
            forall|i: int|
                0 <= i < old(self).tokens@.len() && old(self).tokens@[i].id == token_id && token_id != 0 ==> {
                    let t = old(self).tokens@[i];
                    if adjustment_exceeds(t, delta as int) {
                        r == Err::<(), QuotaError>(QuotaError::QuotaExceeded) && *final(self) == *old(self)
                    } else {
                        &&& r is Ok
                        &&& final(self).tokens@ == old(self).tokens@.update(
                            i,
                            with_usage(t, clamped_usage(t.used_upload_size, delta as int) as u64),
                        )
                    }
                },
    {
        if token_id == 0 {
            return Ok(());
        }
        let pos = self.position(token_id);
        let i = match pos {
            None => { return Err(QuotaError::NotFound); },
            Some(i) => i,
        };
        let used = self.tokens[i].used_upload_size;
        let cap: u64 = match self.tokens[i].max_upload_size {
            Some(l) => l,
            None => u64::MAX,
        };
        if delta > 0 {
            let d = delta as u64;
            if d > cap - used {
                return Err(QuotaError::QuotaExceeded);
            }
            self.tokens[i].used_upload_size = used + d;
        } else {
            let d = (0 - (delta as i128)) as u128;
            let new_used: u64 = if d >= used as u128 { 0 } else { used - (d as u64) };
            self.tokens[i].used_upload_size = new_used;
        }
        assert forall|j: int| 0 <= j < old(self).tokens@.len() && old(self).tokens@[j].id == token_id implies j == i by {}
        Ok(())
    }
}

} // verus!
