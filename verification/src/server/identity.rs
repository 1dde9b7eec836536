//! The registry of global player identities: a player uid and its secret.
//! A registered uid must come with its own secret; an unknown uid is
//! registered by whoever names it first; a request without an identity gets a
//! fresh one.

use std::collections::HashMap;
use vstd::prelude::*;
use crate::error::ApiError as CommonError;
use crate::server::error::ApiError;
use crate::rng::{os_random_bytes, uuid_from_random_bytes, uuid_v4_of};

verus! {

broadcast use vstd::std_specs::hash::group_hash_axioms;

/// Player uid → secret, for the lifetime of the server.
pub struct Identities {
    map: HashMap<u128, u128>,
}

impl View for Identities {
    type V = Map<u128, u128>;

    closed spec fn view(&self) -> Map<u128, u128> {
        self.map@
    }
}

/// What a request with identity `(uid, secret)` is answered in a registry
/// `reg`, where `fresh` is the identity handed out to a request without one:
/// the identity that is used, or the refusal.
pub open spec fn identity_outcome(reg: Map<u128, u128>, uid: Option<u128>, secret: Option<u128>, fresh: (u128, u128)) -> Option<(u128, u128)> {
    match (uid, secret) {
        (Some(u), Some(s)) => if reg.contains_key(u) && reg[u] != s { None } else { Some((u, s)) },
        _ => Some(fresh),
    }
}

/// The registry after such a request: the identity is recorded unless refused.
pub open spec fn identity_registry(reg: Map<u128, u128>, uid: Option<u128>, secret: Option<u128>, fresh: (u128, u128)) -> Map<u128, u128> {
    match identity_outcome(reg, uid, secret, fresh) {
        Some((u, s)) => reg.insert(u, s),
        None => reg,
    }
}

impl Identities {
    /// An empty registry.
    pub fn new() -> (r: Self)
        ensures
            r@ == Map::<u128, u128>::empty(),
    {
        Identities { map: HashMap::new() }
    }

    /// Answers a request with identity `(uid, secret)`, handing out `fresh`
    /// to a request that names no full identity; see [`identity_outcome`].
    pub fn resolve_with(&mut self, uid: Option<u128>, secret: Option<u128>, fresh: (u128, u128)) -> (r: Result<(u128, u128), ApiError>)
        ensures
            final(self)@ == identity_registry(old(self)@, uid, secret, fresh),
            match identity_outcome(old(self)@, uid, secret, fresh) {
                Some(id) => r == Ok::<(u128, u128), ApiError>(id),
                None => r matches Err(e) && e.inner() matches CommonError::Forbidden(m) && m@ == "身份码校验失败"@,
            },
    {
        match (uid, secret) {
            (Some(u), Some(s)) => {
                match self.map.get(&u) {
                    Some(registered) => {
                        if *registered != s {
                            return Err(ApiError::forbidden("身份码校验失败"));
                        }
                        self.map.insert(u, s);
                        proof { assert(final(self)@ =~= old(self)@.insert(u, s)); }
                        Ok((u, s))
                    },
                    None => {
                        self.map.insert(u, s);
                        Ok((u, s))
                    },
                }
            },
            _ => {
                self.map.insert(fresh.0, fresh.1);
                Ok(fresh)
            },
        }
    }

    /// Answers a request with identity `(uid, secret)`; a request that names
    /// no full identity gets a fresh identity made of two random version-4
    /// UUIDs, which is registered, or an internal error (and no change) when
    /// the operating system gives no randomness.
    pub fn resolve_identity(&mut self, uid: Option<u128>, secret: Option<u128>) -> (r: Result<(u128, u128), ApiError>)
        ensures
            uid is Some && secret is Some ==> final(self)@ == identity_registry(old(self)@, uid, secret, (0, 0))
                && match identity_outcome(old(self)@, uid, secret, (0, 0)) {
                    Some(id) => r == Ok::<(u128, u128), ApiError>(id),
                    None => r matches Err(e) && e.inner() matches CommonError::Forbidden(m) && m@ == "身份码校验失败"@,
                },
            !(uid is Some && secret is Some) ==> (
                (r matches Err(e) && e.inner() matches CommonError::Internal(m) && m@ == "无法生成随机身份"@
                    && final(self)@ == old(self)@)
                || exists|b1: Seq<u8>, b2: Seq<u8>|
                    final(self)@ == old(self)@.insert(uuid_v4_of(b1), uuid_v4_of(b2))
                    && r == Ok::<(u128, u128), ApiError>((uuid_v4_of(b1), uuid_v4_of(b2)))),
    {
        match (uid, secret) {
            (Some(_), Some(_)) => self.resolve_with(uid, secret, (0, 0)),
            _ => {
                let b1 = match os_random_bytes() {
                    Some(b) => b,
                    None => return Err(ApiError::internal("无法生成随机身份")),
                };
                let b2 = match os_random_bytes() {
                    Some(b) => b,
                    None => return Err(ApiError::internal("无法生成随机身份")),
                };
                let fresh = (uuid_from_random_bytes(b1), uuid_from_random_bytes(b2));
                self.resolve_with(uid, secret, fresh)
            },
        }
    }
}

} // verus!
