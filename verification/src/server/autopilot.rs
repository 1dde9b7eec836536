//! Autopilot for players without a live connection: which player the room
//! plays for next, and with what command. A player with no connection is
//! autopiloted: it rolls and moves, passes on purchases (which starts a bank
//! auction) and passes in auctions. With nobody connected the room waits.

use vstd::prelude::*;
use crate::command::Command;
use crate::engine::{EngineView, GameEngine, Phase};

verus! {

/// A session: a player's, by id, or the room owner's.
#[derive(Debug, Clone, Copy, PartialEq, Eq, Structural)]
pub enum Session {
    Player(u128),
    Owner,
}

/// The count in the first entry for `id` at or after `k`; 0 when there is none.
pub open spec fn count_from(entries: Seq<(u128, usize)>, id: u128, k: int) -> nat
    decreases entries.len() - k,
{
    if k < 0 || k >= entries.len() {
        0
    } else if entries[k].0 == id {
        entries[k].1 as nat
    } else {
        count_from(entries, id, k + 1)
    }
}

/// Live connections per player.
pub struct Presence {
    entries: Vec<(u128, usize)>,
}

impl Presence {
    /// Number of live connections of player `id`.
    pub closed spec fn count(&self, id: u128) -> nat {
        count_from(self.entries@, id, 0)
    }

    /// Every entry counts at least one connection, one entry per player.
    pub closed spec fn wf(&self) -> bool {
        &&& forall|k: int| 0 <= k < self.entries@.len() ==> (#[trigger] self.entries@[k]).1 > 0
        &&& forall|i: int, j: int| 0 <= i < j < self.entries@.len() ==>
            (#[trigger] self.entries@[i]).0 != (#[trigger] self.entries@[j]).0
    }

    /// Nobody connected.
    pub fn new() -> (p: Self)
        ensures
            p.wf(),
            forall|id: u128| p.count(id) == 0,
    {
        Presence { entries: Vec::new() }
    }

    fn index_of(&self, id: u128) -> (r: Option<usize>)
        ensures
            r matches Some(k) ==> k < self.entries@.len() && self.entries@[k as int].0 == id
                && self.count(id) == self.entries@[k as int].1,
            r is None ==> self.count(id) == 0 && forall|k: int| 0 <= k < self.entries@.len() ==> (#[trigger] self.entries@[k]).0 != id,
    {
        let mut k: usize = 0;
        while k < self.entries.len()
            invariant
                k <= self.entries@.len(),
                forall|q: int| 0 <= q < k ==> (#[trigger] self.entries@[q]).0 != id,
                count_from(self.entries@, id, 0) == count_from(self.entries@, id, k as int),
            decreases self.entries@.len() - k,
        {
            if self.entries[k].0 == id {
                return Some(k);
            }
            k = k + 1;
        }
        None
    }

    /// The session connected: one more connection for a player.
    pub fn on_connected(&mut self, session: Session)
        requires
            old(self).wf(),
            session matches Session::Player(id) ==> old(self).count(id) < usize::MAX,
        ensures
            final(self).wf(),
            forall|x: u128| #[trigger] final(self).count(x) == if session == Session::Player(x) {
                old(self).count(x) + 1
            } else {
                old(self).count(x)
            },
    {
        if let Session::Player(id) = session {
            match self.index_of(id) {
                Some(k) => {
                    let c = self.entries[k].1;
                    let ghost before = self.entries@;
                    self.entries.set(k, (id, c + 1));
                    proof { lemma_count_set(before, k as int, (id, (c + 1) as usize)); }
                },
                None => {
                    let ghost before = self.entries@;
                    self.entries.push((id, 1));
                    proof { lemma_count_push(before, (id, 1usize)); }
                },
            }
        }
    }

    /// The session disconnected: one connection less for a player (never below none).
    pub fn on_disconnected(&mut self, session: Session)
        requires
            old(self).wf(),
        ensures
            final(self).wf(),
            forall|x: u128| #[trigger] final(self).count(x) == if session == Session::Player(x) && old(self).count(x) > 0 {
                (old(self).count(x) - 1) as nat
            } else {
                old(self).count(x)
            },
    {
        if let Session::Player(id) = session {
            match self.index_of(id) {
                Some(k) => {
                    let c = self.entries[k].1;
                    let ghost before = self.entries@;
                    if c > 1 {
                        self.entries.set(k, (id, c - 1));
                        proof { lemma_count_set(before, k as int, (id, (c - 1) as usize)); }
                    } else {
                        self.entries.remove(k);
                        proof { lemma_count_remove(before, k as int); }
                    }
                },
                None => {},
            }
        }
    }

    /// Whether player `id` has no live connection (and is autopiloted).
    pub fn is_bot(&self, id: u128) -> (r: bool)
        requires
            self.wf(),
        ensures
            r == (self.count(id) == 0),
    {
        self.index_of(id).is_none()
    }

    /// Whether nobody is connected.
    pub fn nobody_online(&self) -> (r: bool)
        requires
            self.wf(),
        ensures
            r == forall|x: u128| self.count(x) == 0,
    {
        if self.entries.len() == 0 {
            return true;
        }
        let ghost e = self.entries@;
        proof {
            lemma_count_first(e, e[0].0);
            assert(self.count(e[0].0) > 0);
        }
        false
    }
}

/// The first entry for an id gives its count.
proof fn lemma_count_first(e: Seq<(u128, usize)>, id: u128)
    requires
        e.len() > 0,
        e[0].0 == id,
    ensures
        count_from(e, id, 0) == e[0].1,
{
}

/// Counts found from `k` on, when no entry before `k` has the id.
proof fn lemma_count_from(e: Seq<(u128, usize)>, id: u128, k: int)
    requires
        0 <= k <= e.len(),
        forall|q: int| 0 <= q < k ==> (#[trigger] e[q]).0 != id,
    ensures
        count_from(e, id, 0) == count_from(e, id, k),
    decreases k,
{
    if k > 0 {
        lemma_count_from(e, id, k - 1);
    }
}

/// The count of an id in a list where it occurs once, at `k`, or not at all.
proof fn lemma_count_unique(e: Seq<(u128, usize)>, id: u128)
    requires
        forall|i: int, j: int| 0 <= i < j < e.len() ==> (#[trigger] e[i]).0 != (#[trigger] e[j]).0,
    ensures
        forall|k: int| 0 <= k < e.len() && (#[trigger] e[k]).0 == id ==> count_from(e, id, 0) == e[k].1,
        (forall|k: int| 0 <= k < e.len() ==> (#[trigger] e[k]).0 != id) ==> count_from(e, id, 0) == 0,
{
    assert forall|k: int| 0 <= k < e.len() && (#[trigger] e[k]).0 == id implies count_from(e, id, 0) == e[k].1 by {
        assert forall|q: int| 0 <= q < k implies (#[trigger] e[q]).0 != id by {
            assert(e[q].0 != e[k].0);
        }
        lemma_count_from(e, id, k);
    }
    if forall|k: int| 0 <= k < e.len() ==> (#[trigger] e[k]).0 != id {
        lemma_count_from(e, id, e.len() as int);
    }
}

/// Setting the entry of an id changes only that id's count.
proof fn lemma_count_set(e: Seq<(u128, usize)>, k: int, v: (u128, usize))
    requires
        0 <= k < e.len(),
        e[k].0 == v.0,
        forall|i: int, j: int| 0 <= i < j < e.len() ==> (#[trigger] e[i]).0 != (#[trigger] e[j]).0,
    ensures
        forall|x: u128| #[trigger] count_from(e.update(k, v), x, 0) == if x == v.0 { v.1 as nat } else { count_from(e, x, 0) },
{
    let f = e.update(k, v);
    assert forall|x: u128| #[trigger] count_from(f, x, 0) == if x == v.0 { v.1 as nat } else { count_from(e, x, 0) } by {
        assert forall|i: int, j: int| 0 <= i < j < f.len() implies (#[trigger] f[i]).0 != (#[trigger] f[j]).0 by {
            assert(f[i].0 == e[i].0 && f[j].0 == e[j].0);
        }
        lemma_count_unique(e, x);
        lemma_count_unique(f, x);
        if x != v.0 {
            if exists|q: int| 0 <= q < e.len() && (#[trigger] e[q]).0 == x {
                let q = choose|q: int| 0 <= q < e.len() && (#[trigger] e[q]).0 == x;
                assert(f[q] == e[q]);
            } else {
                assert forall|q: int| 0 <= q < f.len() implies (#[trigger] f[q]).0 != x by {
                    assert(f[q].0 == e[q].0);
                }
            }
        } else {
            assert(f[k] == v);
        }
    }
}

/// Adding an entry for a new id gives it its count and changes no other.
proof fn lemma_count_push(e: Seq<(u128, usize)>, v: (u128, usize))
    requires
        forall|q: int| 0 <= q < e.len() ==> (#[trigger] e[q]).0 != v.0,
        forall|i: int, j: int| 0 <= i < j < e.len() ==> (#[trigger] e[i]).0 != (#[trigger] e[j]).0,
    ensures
        forall|x: u128| #[trigger] count_from(e.push(v), x, 0) == if x == v.0 { v.1 as nat } else { count_from(e, x, 0) },
{
    let f = e.push(v);
    assert forall|x: u128| #[trigger] count_from(f, x, 0) == if x == v.0 { v.1 as nat } else { count_from(e, x, 0) } by {
        assert forall|i: int, j: int| 0 <= i < j < f.len() implies (#[trigger] f[i]).0 != (#[trigger] f[j]).0 by {
            if j == e.len() {
                assert(f[i] == e[i]);
            } else {
                assert(f[i] == e[i] && f[j] == e[j]);
            }
        }
        lemma_count_unique(e, x);
        lemma_count_unique(f, x);
        if x != v.0 {
            if exists|q: int| 0 <= q < e.len() && (#[trigger] e[q]).0 == x {
                let q = choose|q: int| 0 <= q < e.len() && (#[trigger] e[q]).0 == x;
                assert(f[q] == e[q]);
            } else {
                assert forall|q: int| 0 <= q < f.len() implies (#[trigger] f[q]).0 != x by {
                    if q < e.len() {
                        assert(f[q] == e[q]);
                    }
                }
            }
        } else {
            assert(f[e.len() as int] == v);
        }
    }
}

/// Removing the entry of an id leaves it no count and changes no other.
proof fn lemma_count_remove(e: Seq<(u128, usize)>, k: int)
    requires
        0 <= k < e.len(),
        forall|i: int, j: int| 0 <= i < j < e.len() ==> (#[trigger] e[i]).0 != (#[trigger] e[j]).0,
    ensures
        forall|x: u128| #[trigger] count_from(e.remove(k), x, 0) == if x == e[k].0 { 0 } else { count_from(e, x, 0) },
{
    let f = e.remove(k);
    assert forall|x: u128| #[trigger] count_from(f, x, 0) == if x == e[k].0 { 0 } else { count_from(e, x, 0) } by {
        assert forall|i: int, j: int| 0 <= i < j < f.len() implies (#[trigger] f[i]).0 != (#[trigger] f[j]).0 by {
            let i2 = if i < k { i } else { i + 1 };
            let j2 = if j < k { j } else { j + 1 };
            assert(f[i] == e[i2] && f[j] == e[j2]);
        }
        lemma_count_unique(e, x);
        lemma_count_unique(f, x);
        if x != e[k].0 {
            if exists|q: int| 0 <= q < e.len() && (#[trigger] e[q]).0 == x {
                let q = choose|q: int| 0 <= q < e.len() && (#[trigger] e[q]).0 == x;
                if q < k {
                    assert(f[q] == e[q]);
                } else {
                    assert(f[q - 1] == e[q]);
                }
            } else {
                assert forall|q: int| 0 <= q < f.len() implies (#[trigger] f[q]).0 != x by {
                    if q < k { assert(f[q] == e[q]); } else { assert(f[q] == e[q + 1]); }
                }
            }
        } else {
            assert forall|q: int| 0 <= q < f.len() implies (#[trigger] f[q]).0 != x by {
                if q < k { assert(f[q] == e[q]); } else { assert(f[q] == e[q + 1]); }
            }
        }
    }
}

/// The session that a token opens: the owner's token opens the owner's
/// session; otherwise the player that the room's registry gives for the token
/// (`registered`), if any.
pub fn session_for(token: &String, owner_token: &String, registered: Option<u128>) -> (r: Option<Session>)
    ensures
        token@ == owner_token@ ==> r == Some(Session::Owner),
        token@ != owner_token@ ==> r == match registered { Some(id) => Some(Session::Player(id)), None => None },
{
    if *token == *owner_token {
        Some(Session::Owner)
    } else {
        match registered {
            Some(id) => Some(Session::Player(id)),
            None => None,
        }
    }
}

/// What the room does with a command from a session.
#[derive(Debug)]
pub enum Route {
    /// The owner starts the game.
    StartGame,
    /// The owner may not play for a player: the command is refused.
    Refuse(Command),
    /// A player's command goes to the engine.
    Play(u128, Command),
}

/// The owner may only start the game; a player's commands go to the engine.
pub fn route(session: Session, cmd: Command) -> (r: Route)
    ensures
        match session {
            Session::Owner => if cmd is StartGame { r is StartGame } else { r == Route::Refuse(cmd) },
            Session::Player(pid) => r == Route::Play(pid, cmd),
        },
{
    match session {
        Session::Owner => match cmd {
            Command::StartGame => Route::StartGame,
            other => Route::Refuse(other),
        },
        Session::Player(pid) => Route::Play(pid, cmd),
    }
}

/// What the autopilot does next in a game `e` with the players `online`
/// connected: nothing when nobody is connected; in an auction, an offline
/// bidder passes; otherwise an offline current player rolls, or passes on a
/// purchase; nothing while an online player is to act.
pub open spec fn autopilot_step(e: EngineView, online: spec_fn(u128) -> bool, anyone: bool) -> Option<(u128, Command)> {
    if !anyone {
        None
    } else if e.phase == Phase::InAuction {
        match e.auction {
            Some(a) => match a.current() {
                Some(b) => if !online(b) { Some((b, Command::AuctionPass)) } else { None },
                None => None,
            },
            None => None,
        }
    } else {
        match e.current_id() {
            None => None,
            Some(cur) => if online(cur) {
                None
            } else if e.phase == Phase::AwaitRoll {
                Some((cur, Command::RollDice))
            } else if e.phase == Phase::AwaitDecision {
                Some((cur, Command::PassProperty))
            } else {
                None
            },
        }
    }
}

/// The next autopilot move (see [`autopilot_step`]).
pub fn autopilot_move(engine: &GameEngine, presence: &Presence) -> (r: Option<(u128, Command)>)
    requires
        engine@.wf(),
        presence.wf(),
    ensures
        r == autopilot_step(engine@, |x: u128| presence.count(x) > 0, !(forall|x: u128| presence.count(x) == 0)),
{
    if presence.nobody_online() {
        return None;
    }
    if engine.phase() == Phase::InAuction {
        return match engine.auction_current_bidder() {
            Some(b) => if presence.is_bot(b) { Some((b, Command::AuctionPass)) } else { None },
            None => None,
        };
    }
    let cur = match engine.current_player_id() {
        Some(c) => c,
        None => return None,
    };
    if !presence.is_bot(cur) {
        return None;
    }
    match engine.phase() {
        Phase::AwaitRoll => Some((cur, Command::RollDice)),
        Phase::AwaitDecision => Some((cur, Command::PassProperty)),
        _ => None,
    }
}

} // verus!
