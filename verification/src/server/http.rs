//! Request and response bodies of the room API, and the readiness checks of
//! the health probe.

use vstd::prelude::*;
use crate::room::RoomSettings;

verus! {

/// Request to create a room: optional settings and an optional room name.
#[derive(Debug)]
pub struct CreateRoomReq {
    pub settings: Option<RoomSettings>,
    /// Room name (optional, at most 30 characters).
    pub name: Option<String>,
}

/// A created room: its eight-digit code and the owner's token.
#[derive(Debug)]
pub struct CreateRoomRes {
    pub room_code: u32,
    pub owner_token: String,
}

/// A request that only the room owner may make.
#[derive(Debug)]
pub struct OwnerReq {
    pub owner_token: String,
}

/// Answer to starting a game.
#[derive(Debug)]
pub struct StartRes {
    pub ok: bool,
}

/// One readiness check.
#[derive(Debug)]
pub struct Check {
    pub name: &'static str,
    pub ok: bool,
}

/// Answer of the health probe.
#[derive(Debug)]
pub struct HealthRes {
    /// ready / not_ready.
    pub status: &'static str,
    pub service: &'static str,
    pub version: &'static str,
    pub uptime_secs: u64,
    pub rooms: usize,
    pub checks: Vec<Check>,
}

/// Checks of outside dependencies; there are none yet.
pub fn readiness_checks() -> (r: Vec<Check>)
    ensures
        r@.len() == 0,
{
    Vec::new()
}

/// The service is ready when every check passed.
pub fn all_ready(checks: &Vec<Check>) -> (r: bool)
    ensures
        r == forall|i: int| 0 <= i < checks@.len() ==> (#[trigger] checks@[i]).ok,
{
    let mut i: usize = 0;
    while i < checks.len()
        invariant
            i <= checks@.len(),
            forall|k: int| 0 <= k < i ==> (#[trigger] checks@[k]).ok,
        decreases checks@.len() - i,
    {
        if !checks[i].ok {
            return false;
        }
        i = i + 1;
    }
    true
}

/// The status of the health probe: "ready" or "not_ready".
pub fn health_status(ready: bool) -> (r: &'static str)
    ensures
        r@ == (if ready { "ready"@ } else { "not_ready"@ }),
{
    if ready { "ready" } else { "not_ready" }
}

/// The longest room name, in characters.
pub const ROOM_NAME_MAX: usize = 30;

/// Whether a room name (already trimmed) has at most [`ROOM_NAME_MAX`] characters.
pub fn room_name_fits(name: &str) -> (r: bool)
    ensures
        r == (name@.len() <= ROOM_NAME_MAX),
{
    broadcast use vstd::string::axiom_spec_iter;
    let mut n: usize = 0;
    for c in it: name.chars()
        invariant
            n == it.index(),
            n <= ROOM_NAME_MAX,
            it.seq() == name@,
    {
        if n == ROOM_NAME_MAX {
            return false;
        }
        n = n + 1;
    }
    true
}

} // verus!
