//! Solvency: a player out of the game holds no cash, a player still in it
//! holds none below zero, and every owned tile belongs to a player still in
//! the game. A lobby holds it, and seating players, starting the game and
//! every command keep it.

use vstd::prelude::*;
use crate::board::TileKind;
use crate::cards::{Card, CardEffect};
use crate::command::Command;
use crate::engine::{find, lemma_find, lemma_find_same_ids, alive_upto, EngineView, Phase};
use crate::engine_actions::trade_index;
use crate::engine_resolve::others_upto;
use crate::player::Player;

verus! {

/// The cash of a player fits its standing.
pub open spec fn cash_fits(p: Player) -> bool {
    if p.bankrupt { p.cash == 0 } else { p.cash >= 0 }
}

/// No two players share an id.
pub open spec fn distinct_ids(ps: Seq<Player>) -> bool {
    forall|i: int, j: int| 0 <= i < j < ps.len() ==> (#[trigger] ps[i]).id != (#[trigger] ps[j]).id
}

/// Every player's cash is at most `b`.
pub open spec fn cash_le(ps: Seq<Player>, b: int) -> bool {
    forall|i: int| 0 <= i < ps.len() ==> (#[trigger] ps[i]).cash <= b
}

/// One step's worth of cash: more than any single amount the rules move.
pub open spec fn step() -> int {
    0x1_0000_0000
}

impl EngineView {
    /// `id` is a player still in the game.
    pub open spec fn standing(self, id: u128) -> bool {
        !self.broke_or_unknown(id)
    }

    /// Players are told apart by id, each player's cash fits its standing, and
    /// every owned tile belongs to a player still in the game.
    pub open spec fn solvent(self) -> bool {
        &&& distinct_ids(self.players)
        &&& forall|i: int| 0 <= i < self.players.len() ==> cash_fits(#[trigger] self.players[i])
        &&& forall|t: int| 0 <= t < self.deeds.owner.len() ==>
            (#[trigger] self.deeds.owner[t] matches Some(o) ==> self.standing(o))
    }
}

/// The same players in the same seats, with the same standing.
pub open spec fn same_seats(a: Seq<Player>, b: Seq<Player>) -> bool {
    &&& a.len() == b.len()
    &&& forall|i: int| 0 <= i < a.len() ==> (#[trigger] b[i]).id == a[i].id && b[i].bankrupt == a[i].bankrupt
}

/// Seats and standing unchanged: lookups and standing agree.
proof fn lemma_same_seats(s: EngineView, t: EngineView, id: u128)
    requires
        same_seats(s.players, t.players),
    ensures
        s.pidx(id) == t.pidx(id),
        s.standing(id) == t.standing(id),
{
    lemma_find_same_ids(s.players, t.players, id);
    lemma_find(s.players, id);
}

/// With seats, standing and owners unchanged and every cash fitting its
/// standing, solvency carries over.
proof fn lemma_frame(s: EngineView, t: EngineView)
    requires
        s.solvent(),
        same_seats(s.players, t.players),
        t.deeds.owner == s.deeds.owner,
        forall|i: int| 0 <= i < t.players.len() ==> cash_fits(#[trigger] t.players[i]),
    ensures
        t.solvent(),
{
    assert forall|i: int, j: int| 0 <= i < j < t.players.len() implies (#[trigger] t.players[i]).id != (#[trigger] t.players[j]).id by {
        assert(s.players[i].id != s.players[j].id);
    }
    assert forall|k: int| 0 <= k < t.deeds.owner.len() implies
        (#[trigger] t.deeds.owner[k] matches Some(o) ==> t.standing(o)) by {
        if let Some(o) = t.deeds.owner[k] {
            assert(s.deeds.owner[k] == Some(o));
            lemma_same_seats(s, t, o);
        }
    }
}

/// In a solvent state, a player of the list that is not bankrupt is standing.
proof fn lemma_seat_standing(s: EngineView, i: int)
    requires
        distinct_ids(s.players),
        0 <= i < s.players.len(),
    ensures
        s.pidx(s.players[i].id) == Some(i),
{
    lemma_find(s.players, s.players[i].id);
    let f = find(s.players, s.players[i].id);
    if let Some(k) = f {
        if k != i {
            if k < i {
                assert(s.players[k].id != s.players[i].id);
            } else {
                assert(s.players[i].id != s.players[k].id);
            }
        }
    }
}

/// A change of cash of `id` by `delta` that leaves it at or above zero keeps
/// solvency for a player still in the game (and changes nothing for an unknown one).
proof fn lemma_change_cash_solvent(s: EngineView, id: u128, delta: i64, b: int)
    requires
        s.solvent(),
        cash_le(s.players, b),
        0 <= b,
        -step() < delta < step(),
        b + step() <= i64::MAX,
        s.pidx(id) is Some ==> (s.standing(id) && s.cash_of(id) + delta >= 0) || delta == 0,
    ensures
        same_shape(s, s.change_cash(id, delta).0),
        s.change_cash(id, delta).0.solvent(),
        cash_le(s.change_cash(id, delta).0.players, b + step()),
        same_seats(s.players, s.change_cash(id, delta).0.players),
        s.change_cash(id, delta).0.deeds == s.deeds,
        forall|x: u128| x != id ==> s.change_cash(id, delta).0.cash_of(x) == s.cash_of(x),
        s.pidx(id) is Some ==> s.change_cash(id, delta).0.cash_of(id) == s.cash_of(id) + delta,
        s.change_cash(id, delta).0 == (EngineView { players: s.change_cash(id, delta).0.players, ..s }),
        forall|x: u128| s.change_cash(id, delta).0.pidx(x) == s.pidx(x),
{
    let t = s.change_cash(id, delta).0;
    lemma_find(s.players, id);
    if let Some(i) = s.pidx(id) {
        assert(cash_fits(s.players[i]));
        assert(same_seats(s.players, t.players));
        lemma_same_seats(s, t, id);
        assert forall|k: int| 0 <= k < t.players.len() implies cash_fits(#[trigger] t.players[k]) by {
            if k != i {
                assert(t.players[k] == s.players[k]);
                assert(cash_fits(s.players[k]));
            }
        }
        lemma_frame(s, t);
        assert forall|x: u128| x != id implies t.cash_of(x) == s.cash_of(x) by {
            lemma_same_seats(s, t, x);
            lemma_find(s.players, x);
        }
        assert forall|x: u128| t.pidx(x) == s.pidx(x) by {
            lemma_same_seats(s, t, x);
        }
    } else {
        assert(t == s);
    }
}


/// As many players and as many tiles.
pub open spec fn same_shape(a: EngineView, b: EngineView) -> bool {
    &&& a.players.len() == b.players.len()
    &&& a.deeds.owner.len() == b.deeds.owner.len()
}

/// The same players in the same seats (standing may differ).
pub open spec fn same_ids(a: Seq<Player>, b: Seq<Player>) -> bool {
    &&& a.len() == b.len()
    &&& forall|i: int| 0 <= i < a.len() ==> (#[trigger] b[i]).id == a[i].id
}

/// Moving the turn on changes neither players nor register.
pub(crate) proof fn lemma_advance_turn_frame(s: EngineView)
    ensures
        s.advance_turn().0.players == s.players,
        s.advance_turn().0.deeds == s.deeds,
        s.advance_turn().0.board == s.board,
{
    reveal(EngineView::advance_turn);
}

/// Ending an action changes neither players nor register.
proof fn lemma_finish_turn_frame(s: EngineView)
    ensures
        s.finish_turn().0.players == s.players,
        s.finish_turn().0.deeds == s.deeds,
        s.finish_turn().0.board == s.board,
{
    reveal(EngineView::finish_turn);
    lemma_advance_turn_frame(s);
}

/// A transfer of `pay` that the payer can afford, to a player still in the
/// game or the bank, keeps solvency; only the payer's cash goes down.
proof fn lemma_transfer_solvent(s: EngineView, from: u128, to: Option<u128>, pay: i64, b: int)
    requires
        s.solvent(),
        cash_le(s.players, b),
        0 <= b,
        0 <= pay < step(),
        b + 2 * step() <= i64::MAX,
        s.pidx(from) is Some ==> (s.standing(from) && s.cash_of(from) >= pay) || pay == 0,
        to matches Some(t) ==> s.standing(t),
    ensures
        same_shape(s, s.transfer(from, to, pay).0),
        s.transfer(from, to, pay).0.solvent(),
        cash_le(s.transfer(from, to, pay).0.players, b + 2 * step()),
        same_seats(s.players, s.transfer(from, to, pay).0.players),
        s.transfer(from, to, pay).0 == (EngineView { players: s.transfer(from, to, pay).0.players, ..s }),
        forall|x: u128| x != from ==> s.transfer(from, to, pay).0.cash_of(x) >= s.cash_of(x),
        to != Some(from) && s.pidx(from) is Some ==> s.transfer(from, to, pay).0.cash_of(from) == s.cash_of(from) - pay,
        to == Some(from) ==> s.transfer(from, to, pay).0.cash_of(from) == s.cash_of(from),
{
    let a = s.change_cash(from, (-pay) as i64);
    lemma_change_cash_solvent(s, from, (-pay) as i64, b);
    if let Some(t) = to {
        lemma_same_seats(s, a.0, t);
        lemma_find(s.players, t);
        lemma_change_cash_solvent(a.0, t, pay, b + step());
        let c = a.0.change_cash(t, pay).0;
        assert forall|i: int| 0 <= i < s.players.len() implies
            (#[trigger] c.players[i]).id == s.players[i].id && c.players[i].bankrupt == s.players[i].bankrupt by {
            assert(a.0.players[i].id == s.players[i].id);
        }
        assert forall|x: u128| x != from implies c.cash_of(x) >= s.cash_of(x) by {
            if x != t {
                assert(c.cash_of(x) == a.0.cash_of(x));
            }
            lemma_same_seats(s, a.0, x);
        }
        if t != from {
            assert(c.cash_of(from) == a.0.cash_of(from));
        }
    } else {
        if s.pidx(from) is None {
            assert(a.0 == s);
        }
    }
}

/// The owners after a bankruptcy's hand-over: tiles of `pid` go to the creditor
/// or back to the market; the rest stay.
pub(crate) proof fn lemma_bankrupt_assets(s: EngineView, pid: u128, creditor: Option<u128>)
    ensures
        same_seats(s.players, s.bankrupt_assets(pid, creditor).players),
        forall|i: int| 0 <= i < s.players.len() ==> (#[trigger] s.bankrupt_assets(pid, creditor).players[i]).cash == s.players[i].cash,
        s.bankrupt_assets(pid, creditor).deeds.owner.len() == s.deeds.owner.len(),
        forall|t: int| 0 <= t < s.deeds.owner.len() ==> (#[trigger] s.bankrupt_assets(pid, creditor).deeds.owner[t]) ==
            if s.deeds.owner[t] == Some(pid) { creditor } else { s.deeds.owner[t] },
{
    lemma_find(s.players, pid);
    if let Some(c) = creditor {
        lemma_find(s.players, c);
    }
}

/// A bankruptcy of a player without cash, to a creditor still in the game
/// (or the bank), keeps solvency: only `pid` leaves the game and no cash moves.
proof fn lemma_bankrupt_solvent(s: EngineView, pid: u128, creditor: Option<u128>)
    requires
        s.solvent(),
        s.cash_of(pid) == 0,
        creditor matches Some(c) ==> s.standing(c) && c != pid,
    ensures
        same_shape(s, s.bankrupt(pid, creditor).0),
        s.bankrupt(pid, creditor).0.solvent(),
        same_ids(s.players, s.bankrupt(pid, creditor).0.players),
        forall|i: int| 0 <= i < s.players.len() ==> (#[trigger] s.bankrupt(pid, creditor).0.players[i]).cash == s.players[i].cash,
        forall|x: u128| x != pid ==> s.bankrupt(pid, creditor).0.standing(x) == s.standing(x),
        forall|x: u128| s.bankrupt(pid, creditor).0.pidx(x) == s.pidx(x),
        forall|x: u128| s.bankrupt(pid, creditor).0.cash_of(x) == s.cash_of(x),
        s.bankrupt(pid, creditor).0.board == s.board,
{
    reveal(EngineView::bankrupt);
    let s1 = s.bankrupt_assets(pid, creditor);
    lemma_bankrupt_assets(s, pid, creditor);
    let s2 = s1.mark_bankrupt(pid);
    lemma_find(s.players, pid);
    lemma_same_seats(s, s1, pid);
    assert(s2.players.len() == s.players.len());
    assert forall|x: u128| #![trigger s2.pidx(x)] s2.pidx(x) == s.pidx(x) && (x != pid ==> s2.standing(x) == s.standing(x)) by {
        lemma_same_seats(s, s1, x);
        lemma_find(s1.players, x);
        lemma_find(s1.players, pid);
        lemma_find_same_ids(s1.players, s2.players, x);
    }
    let t = s2.after_bankruptcy(pid);
    lemma_advance_turn_frame(EngineView { turn_ended: true, ..s2 });
    assert(t.0.players == s2.players && t.0.deeds == s2.deeds);
    assert(s.bankrupt(pid, creditor).0 == t.0);
    let f = s.bankrupt(pid, creditor).0;
    assert forall|x: u128| f.pidx(x) == s.pidx(x) && (x != pid ==> f.standing(x) == s.standing(x)) by {
        assert(s2.pidx(x) == s.pidx(x));
    }
    assert forall|i: int, j: int| 0 <= i < j < s2.players.len() implies (#[trigger] s2.players[i]).id != (#[trigger] s2.players[j]).id by {
        assert(s.players[i].id != s.players[j].id);
    }
    assert forall|i: int| 0 <= i < s2.players.len() implies cash_fits(#[trigger] s2.players[i]) by {
        assert(cash_fits(s.players[i]));
        assert(s1.players[i].cash == s.players[i].cash);
    }
    assert forall|k: int| 0 <= k < s2.deeds.owner.len() implies
        (#[trigger] s2.deeds.owner[k] matches Some(o) ==> s2.standing(o)) by {
        if let Some(o) = s2.deeds.owner[k] {
            assert(s1.deeds.owner[k] == Some(o));
            assert(s2.pidx(o) == s.pidx(o));
            if s.deeds.owner[k] == Some(pid) {
                assert(creditor == Some(o));
            } else {
                assert(s.deeds.owner[k] == Some(o));
            }
        }
    }
    assert forall|x: u128| s2.cash_of(x) == s.cash_of(x) by {
        assert(s2.pidx(x) == s.pidx(x));
        lemma_find(s.players, x);
        if let Some(k) = s.pidx(x) {
            assert(s2.players[k].cash == s1.players[k].cash);
        }
    }
}


/// A payment of `amount` to a player still in the game other than the payer
/// (or to the bank) keeps solvency, whether or not it bankrupts the payer. No
/// one but the payer leaves the game or loses cash, and a payer still in the
/// game that can afford it stays in with `amount` less.
proof fn lemma_pay_to_solvent(s: EngineView, from: u128, to: Option<u128>, amount: u32, b: int)
    requires
        s.solvent(),
        cash_le(s.players, b),
        0 <= b,
        b + 2 * step() <= i64::MAX,
        to matches Some(t) ==> s.standing(t) && (t != from || (s.standing(from) && s.cash_of(from) >= amount)),
    ensures
        same_shape(s, s.pay_to(from, to, amount).0),
        s.pay_to(from, to, amount).0.solvent(),
        cash_le(s.pay_to(from, to, amount).0.players, b + 2 * step()),
        same_ids(s.players, s.pay_to(from, to, amount).0.players),
        forall|x: u128| s.pay_to(from, to, amount).0.pidx(x) == s.pidx(x),
        s.pay_to(from, to, amount).0.board == s.board,
        forall|x: u128| x != from ==> s.pay_to(from, to, amount).0.standing(x) == s.standing(x),
        forall|x: u128| x != from ==> s.pay_to(from, to, amount).0.cash_of(x) >= s.cash_of(x),
        s.standing(from) && s.cash_of(from) >= amount ==> s.pay_to(from, to, amount).0.standing(from)
            && (to != Some(from) ==> s.pay_to(from, to, amount).0.cash_of(from) == s.cash_of(from) - amount)
            && (to == Some(from) ==> s.pay_to(from, to, amount).0.cash_of(from) == s.cash_of(from)),
{
    reveal(EngineView::pay_to);
    lemma_find(s.players, from);
    let cash = s.cash_of(from);
    if let Some(i) = s.pidx(from) {
        assert(cash_fits(s.players[i]));
    }
    if amount == 0 {
    } else if cash >= amount {
        lemma_transfer_solvent(s, from, to, amount as i64, b);
        let t = s.transfer(from, to, amount as i64).0;
        assert forall|x: u128| t.pidx(x) == s.pidx(x) && t.standing(x) == s.standing(x) by {
            lemma_same_seats(s, t, x);
        }
    } else {
        let paid = if cash > 0 { s.transfer(from, to, cash as i64) } else { (s, Seq::empty()) };
        if cash > 0 {
            lemma_transfer_solvent(s, from, to, cash as i64, b);
        }
        assert forall|x: u128| paid.0.pidx(x) == s.pidx(x) && paid.0.standing(x) == s.standing(x) by {
            lemma_same_seats(s, paid.0, x);
        }
        assert(paid.0.cash_of(from) == 0);
        if let Some(t) = to {
            assert(paid.0.standing(t));
        }
        lemma_bankrupt_solvent(paid.0, from, to);
        let c = paid.0.bankrupt(from, to).0;
        assert forall|i: int| 0 <= i < c.players.len() implies (#[trigger] c.players[i]).cash <= b + 2 * step() by {
            assert(paid.0.players[i].cash <= b + 2 * step());
        }
        assert forall|i: int| 0 <= i < s.players.len() implies (#[trigger] c.players[i]).id == s.players[i].id by {
            assert(paid.0.players[i].id == s.players[i].id);
        }
    }
}


/// The players not bankrupt, by id, are players still in the game.
proof fn lemma_alive_standing(s: EngineView, k: int)
    requires
        distinct_ids(s.players),
        0 <= k <= s.players.len(),
    ensures
        forall|j: int| 0 <= j < alive_upto(s.players, k).len() ==> s.standing(#[trigger] alive_upto(s.players, k)[j]),
    decreases k,
{
    if k > 0 {
        lemma_alive_standing(s, k - 1);
        let prev = alive_upto(s.players, k - 1);
        if s.players[k - 1].bankrupt {
            assert(alive_upto(s.players, k) == prev);
        } else {
            assert(alive_upto(s.players, k) == prev.push(s.players[k - 1].id));
            lemma_seat_standing(s, k - 1);
            assert forall|j: int| 0 <= j < alive_upto(s.players, k).len() implies s.standing(#[trigger] alive_upto(s.players, k)[j]) by {
                if j < prev.len() {
                    assert(alive_upto(s.players, k)[j] == prev[j]);
                }
            }
        }
    }
}

/// The others of `pid` are ids of `ids` other than `pid`.
proof fn lemma_others_from(ids: Seq<u128>, pid: u128, k: int)
    requires
        0 <= k <= ids.len(),
    ensures
        forall|j: int| 0 <= j < others_upto(ids, pid, k).len() ==>
            (#[trigger] others_upto(ids, pid, k)[j]) != pid && ids.contains(others_upto(ids, pid, k)[j]),
    decreases k,
{
    if k > 0 {
        lemma_others_from(ids, pid, k - 1);
        let prev = others_upto(ids, pid, k - 1);
        assert forall|j: int| 0 <= j < others_upto(ids, pid, k).len() implies
            (#[trigger] others_upto(ids, pid, k)[j]) != pid && ids.contains(others_upto(ids, pid, k)[j]) by {
            if j < prev.len() {
                assert(others_upto(ids, pid, k)[j] == prev[j]);
            } else {
                assert(ids[k - 1] == others_upto(ids, pid, k)[j]);
            }
        }
    }
}

/// The others of `pid` are players still in the game other than `pid`, at most eight.
proof fn lemma_others_standing(s: EngineView, pid: u128)
    requires
        distinct_ids(s.players),
        s.players.len() <= 8,
    ensures
        forall|j: int| 0 <= j < s.others(pid).len() ==> (#[trigger] s.others(pid)[j]) != pid && s.standing(s.others(pid)[j]),
        s.others(pid).len() <= 8,
{
    crate::engine::lemma_alive_len(s.players, s.players.len() as int);
    lemma_alive_standing(s, s.players.len() as int);
    lemma_others_from(s.alive(), pid, s.alive().len() as int);
    crate::engine_resolve::lemma_others_len(s.alive(), pid, s.alive().len() as int);
    assert forall|j: int| 0 <= j < s.others(pid).len() implies (#[trigger] s.others(pid)[j]) != pid && s.standing(s.others(pid)[j]) by {
        let x = s.others(pid)[j];
        assert(s.alive().contains(x));
        let q = choose|q: int| 0 <= q < s.alive().len() && s.alive()[q] == x;
        assert(s.standing(s.alive()[q]));
    }
}

/// Each of the first `k` others pays `amt` to `pid`, a player still in the game:
/// solvency stays, and `pid` stays in the game.
proof fn lemma_collect_from_solvent(s: EngineView, pid: u128, others: Seq<u128>, amt: u32, k: int, b: int)
    requires
        s.solvent(),
        cash_le(s.players, b),
        0 <= b,
        0 <= k <= others.len(),
        b + 2 * (k + 1) * step() <= i64::MAX,
        s.standing(pid),
        forall|j: int| 0 <= j < others.len() ==> (#[trigger] others[j]) != pid,
    ensures
        same_shape(s, s.collect_from(pid, others, amt, k).0),
        s.collect_from(pid, others, amt, k).0.solvent(),
        cash_le(s.collect_from(pid, others, amt, k).0.players, b + 2 * k * step()),
        forall|x: u128| s.collect_from(pid, others, amt, k).0.pidx(x) == s.pidx(x),
        s.collect_from(pid, others, amt, k).0.standing(pid),
    decreases k,
{
    reveal(EngineView::collect_from);
    if k > 0 {
        lemma_collect_from_solvent(s, pid, others, amt, k - 1, b);
        let a = s.collect_from(pid, others, amt, k - 1).0;
        assert(others[k - 1] != pid);
        lemma_pay_to_solvent(a, others[k - 1], Some(pid), amt, b + 2 * (k - 1) * step());
    }
}

/// `pid` pays `amt` to each of the first `k` others, all players still in the
/// game other than `pid`: solvency stays; nobody but `pid` leaves the game.
proof fn lemma_pay_each_solvent(s: EngineView, pid: u128, others: Seq<u128>, amt: u32, k: int, b: int)
    requires
        s.solvent(),
        cash_le(s.players, b),
        0 <= b,
        0 <= k <= others.len(),
        b + 2 * (k + 1) * step() <= i64::MAX,
        forall|j: int| 0 <= j < others.len() ==> (#[trigger] others[j]) != pid && s.standing(others[j]),
    ensures
        same_shape(s, s.pay_each(pid, others, amt, k).0),
        s.pay_each(pid, others, amt, k).0.solvent(),
        cash_le(s.pay_each(pid, others, amt, k).0.players, b + 2 * k * step()),
        forall|x: u128| s.pay_each(pid, others, amt, k).0.pidx(x) == s.pidx(x),
        forall|x: u128| x != pid ==> s.pay_each(pid, others, amt, k).0.standing(x) == s.standing(x),
    decreases k,
{
    reveal(EngineView::pay_each);
    if k > 0 {
        lemma_pay_each_solvent(s, pid, others, amt, k - 1, b);
        let a = s.pay_each(pid, others, amt, k - 1).0;
        assert(others[k - 1] != pid && s.standing(others[k - 1]));
        assert(a.standing(others[k - 1]));
        lemma_pay_to_solvent(a, pid, Some(others[k - 1]), amt, b + 2 * (k - 1) * step());
    }
}


/// Changes that keep seats, standing, cash and owners keep solvency and the bound.
proof fn lemma_keeps(s: EngineView, t: EngineView, b: int)
    requires
        s.solvent(),
        cash_le(s.players, b),
        same_seats(s.players, t.players),
        t.deeds.owner == s.deeds.owner,
        forall|i: int| 0 <= i < s.players.len() ==> (#[trigger] t.players[i]).cash == s.players[i].cash,
    ensures
        t.solvent(),
        cash_le(t.players, b),
        forall|x: u128| t.pidx(x) == s.pidx(x) && t.standing(x) == s.standing(x) && t.cash_of(x) == s.cash_of(x),
{
    assert forall|i: int| 0 <= i < t.players.len() implies cash_fits(#[trigger] t.players[i]) by {
        assert(cash_fits(s.players[i]));
    }
    lemma_frame(s, t);
    assert forall|i: int| 0 <= i < t.players.len() implies (#[trigger] t.players[i]).cash <= b by {
        assert(s.players[i].cash <= b);
    }
    assert forall|x: u128| t.pidx(x) == s.pidx(x) && t.standing(x) == s.standing(x) && t.cash_of(x) == s.cash_of(x) by {
        lemma_same_seats(s, t, x);
        lemma_find(s.players, x);
    }
}

/// Replacing a player by one with the same id, standing and cash.
proof fn lemma_with_player_keeps(s: EngineView, i: int, p: Player, b: int)
    requires
        s.solvent(),
        cash_le(s.players, b),
        0 <= i < s.players.len(),
        p.id == s.players[i].id,
        p.bankrupt == s.players[i].bankrupt,
        p.cash == s.players[i].cash,
    ensures
        s.with_player(i, p).solvent(),
        cash_le(s.with_player(i, p).players, b),
        forall|x: u128| s.with_player(i, p).pidx(x) == s.pidx(x) && s.with_player(i, p).standing(x) == s.standing(x)
            && s.with_player(i, p).cash_of(x) == s.cash_of(x),
{
    let t = s.with_player(i, p);
    assert forall|k: int| 0 <= k < s.players.len() implies
        (#[trigger] t.players[k]).id == s.players[k].id && t.players[k].bankrupt == s.players[k].bankrupt
        && t.players[k].cash == s.players[k].cash by {
    }
    lemma_keeps(s, t, b);
}

/// Standing on another tile, or in jail, changes nothing that solvency reads.
proof fn lemma_placed_keeps(s: EngineView, pid: u128, to: int, b: int)
    requires
        s.solvent(),
        cash_le(s.players, b),
    ensures
        same_shape(s, s.placed(pid, to)),
        same_shape(s, s.send_to_jail(pid).0),
        s.pidx(pid) is Some ==> same_shape(s, s.released(pid)),
        s.placed(pid, to).solvent(),
        cash_le(s.placed(pid, to).players, b),
        forall|x: u128| s.placed(pid, to).pidx(x) == s.pidx(x) && s.placed(pid, to).standing(x) == s.standing(x)
            && s.placed(pid, to).cash_of(x) == s.cash_of(x),
        s.send_to_jail(pid).0.solvent(),
        cash_le(s.send_to_jail(pid).0.players, b),
        forall|x: u128| s.send_to_jail(pid).0.pidx(x) == s.pidx(x) && s.send_to_jail(pid).0.standing(x) == s.standing(x)
            && s.send_to_jail(pid).0.cash_of(x) == s.cash_of(x),
        s.pidx(pid) is Some ==> s.released(pid).solvent() && cash_le(s.released(pid).players, b)
            && forall|x: u128| s.released(pid).pidx(x) == s.pidx(x) && s.released(pid).standing(x) == s.standing(x)
                && s.released(pid).cash_of(x) == s.cash_of(x),
{
    lemma_find(s.players, pid);
    if let Some(i) = s.pidx(pid) {
        lemma_with_player_keeps(s, i, Player { position: to as usize, ..s.players[i] }, b);
        let t = EngineView { pending_doubles: false, ..s };
        assert(t.solvent() && cash_le(t.players, b));
        lemma_with_player_keeps(t, i, Player {
            position: crate::board::jail_index_in(s.board) as usize, in_jail: true, jail_turns: 0, ..s.players[i] }, b);
        lemma_with_player_keeps(s, i, Player { in_jail: false, jail_turns: 0, ..s.players[i] }, b);
    }
    let t = EngineView { pending_doubles: false, ..s };
    let j = s.send_to_jail(pid).0;
    assert forall|x: u128| j.pidx(x) == s.pidx(x) && j.standing(x) == s.standing(x) && j.cash_of(x) == s.cash_of(x) by {
        assert(t.pidx(x) == s.pidx(x) && t.standing(x) == s.standing(x) && t.cash_of(x) == s.cash_of(x));
    }
}

/// The salary past GO goes to a player still in the game (or to nobody).
proof fn lemma_passing_go_solvent(s: EngineView, pid: u128, from: int, to: int, b: int)
    requires
        s.solvent(),
        cash_le(s.players, b),
        0 <= b,
        b + 2 * step() <= i64::MAX,
        s.pidx(pid) is Some ==> s.standing(pid),
    ensures
        same_shape(s, s.passing_go(pid, from, to).0),
        s.passing_go(pid, from, to).0.solvent(),
        cash_le(s.passing_go(pid, from, to).0.players, b + step()),
        forall|x: u128| s.passing_go(pid, from, to).0.pidx(x) == s.pidx(x) && s.passing_go(pid, from, to).0.standing(x) == s.standing(x),
{
    reveal(EngineView::passing_go);
    lemma_find(s.players, pid);
    if to < from {
        if let Some(i) = s.pidx(pid) {
            assert(cash_fits(s.players[i]));
        }
        lemma_change_cash_solvent(s, pid, s.settings.go_salary as i64, b);
        let t = s.change_cash(pid, s.settings.go_salary as i64).0;
        assert forall|x: u128| t.pidx(x) == s.pidx(x) && t.standing(x) == s.standing(x) by {
            lemma_same_seats(s, t, x);
        }
    } else {
        assert forall|i: int| 0 <= i < s.players.len() implies (#[trigger] s.players[i]).cash <= b + step() by {}
    }
}

/// A card's move: standing elsewhere, with the salary past GO.
proof fn lemma_move_player_solvent(s: EngineView, pid: u128, to: int, b: int)
    requires
        s.solvent(),
        cash_le(s.players, b),
        0 <= b,
        b + 2 * step() <= i64::MAX,
        s.pidx(pid) is Some ==> s.standing(pid),
    ensures
        same_shape(s, s.move_player(pid, to).0),
        s.move_player(pid, to).0.solvent(),
        cash_le(s.move_player(pid, to).0.players, b + step()),
        s.move_player(pid, to).0.deeds == s.deeds,
        s.move_player(pid, to).0.board == s.board,
        forall|x: u128| s.move_player(pid, to).0.pidx(x) == s.pidx(x) && s.move_player(pid, to).0.standing(x) == s.standing(x),
{
    reveal(EngineView::move_player);
    reveal(EngineView::passing_go);
    lemma_placed_keeps(s, pid, to, b);
    let p = s.placed(pid, to);
    lemma_passing_go_solvent(p, pid, s.position_of(pid), to, b);
}

/// Rent on `tile` goes from `pid` to its owner, a player still in the game.
proof fn lemma_rent_due_solvent(s: EngineView, pid: u128, tile: int, sum: int, b: int)
    requires
        s.solvent(),
        cash_le(s.players, b),
        0 <= b,
        b + 2 * step() <= i64::MAX,
        s.deeds.owner.len() > 0,
    ensures
        same_shape(s, s.rent_due(pid, tile, sum).0),
        s.rent_due(pid, tile, sum).0.solvent(),
        cash_le(s.rent_due(pid, tile, sum).0.players, b + 2 * step()),
        s.rent_due(pid, tile, sum).0.board == s.board,
        forall|x: u128| s.rent_due(pid, tile, sum).0.pidx(x) == s.pidx(x),
        forall|x: u128| x != pid ==> s.rent_due(pid, tile, sum).0.standing(x) == s.standing(x),
{
    reveal(EngineView::rent_due);
    reveal(EngineView::pay_to);
    let i = s.deeds.idx(tile);
    if let Some(o) = s.deeds.owner[i] {
        if o != pid && !s.deeds.mortgaged[i] {
            let rent = s.deeds.spec_rent(s.board, tile, sum);
            if rent > 0 {
                assert(s.standing(o));
                lemma_pay_to_solvent(s, pid, Some(o), rent as u32, b);
            }
        }
    }
    assert forall|k: int| 0 <= k < s.players.len() implies (#[trigger] s.players[k]).cash <= b + 2 * step() by {}
}


/// A card drawn by `pid`, a player still in the game, keeps solvency.
proof fn lemma_apply_card_solvent(s: EngineView, pid: u128, card: Card, b: int)
    requires
        s.solvent(),
        cash_le(s.players, b),
        0 <= b,
        b + 24 * step() <= i64::MAX,
        s.standing(pid),
        s.players.len() <= 8,
        s.deeds.owner.len() > 0,
    ensures
        same_shape(s, s.apply_card(pid, card).0),
        s.apply_card(pid, card).0.solvent(),
        cash_le(s.apply_card(pid, card).0.players, b + 20 * step()),
        forall|x: u128| s.apply_card(pid, card).0.pidx(x) == s.pidx(x),
{
    reveal(EngineView::apply_card);
    lemma_find(s.players, pid);
    let i = s.pidx(pid).unwrap();
    assert(cash_fits(s.players[i]));
    match card.effect {
        CardEffect::Collect(a) => {
            lemma_change_cash_solvent(s, pid, a as i64, b);
        },
        CardEffect::Pay(a) => {
            lemma_pay_to_solvent(s, pid, None, a, b);
        },
        CardEffect::CollectFromEach(a) => {
            lemma_others_standing(s, pid);
            lemma_collect_from_solvent(s, pid, s.others(pid), a, s.others(pid).len() as int, b);
        },
        CardEffect::PayEach(a) => {
            lemma_others_standing(s, pid);
            lemma_pay_each_solvent(s, pid, s.others(pid), a, s.others(pid).len() as int, b);
        },
        CardEffect::MoveTo(p) => {
            lemma_move_player_solvent(s, pid, p as int, b);
        },
        CardEffect::MoveBy(d) => {
            lemma_move_player_solvent(s, pid, (s.position_of(pid) + d) % (s.board.len() as int), b);
            lemma_placed_keeps(s, pid, (s.position_of(pid) + d) % (s.board.len() as int), b);
        },
        CardEffect::GoToJail => {
            lemma_placed_keeps(s, pid, 0, b);
        },
        CardEffect::GetOutOfJail => {
            lemma_with_player_keeps(s, i, Player {
                out_of_jail_cards: crate::engine_resolve::sat_inc(s.players[i].out_of_jail_cards), ..s.players[i] }, b);
        },
        CardEffect::HouseRepair { per_house, per_hotel } => {
            let amt = s.houses_of(pid) * per_house + s.hotels_of(pid) * per_hotel;
            lemma_pay_to_solvent(s, pid, None, amt as u32, b);
        },
        CardEffect::NearestRailroad => {
            lemma_move_player_solvent(s, pid, crate::board::first_ahead(s.board, s.position_of(pid), TileKind::Railroad), b);
        },
        CardEffect::NearestUtility => {
            lemma_move_player_solvent(s, pid, crate::board::first_ahead(s.board, s.position_of(pid), TileKind::Utility), b);
        },
    }
    let r = s.apply_card(pid, card).0;
    assert forall|k: int| 0 <= k < r.players.len() implies (#[trigger] r.players[k]).cash <= b + 20 * step() by {}
}


/// Room for the steps of one command: at most eight players, a board with
/// tiles, solvency and cash at most `b` with room above it.
pub open spec fn ready(s: EngineView, b: int) -> bool {
    &&& s.solvent()
    &&& cash_le(s.players, b)
    &&& 0 <= b
    &&& s.players.len() <= 8
    &&& s.deeds.owner.len() > 0
}

/// Fields that solvency does not read may change freely.
proof fn lemma_same_people(s: EngineView, t: EngineView, b: int)
    requires
        ready(s, b),
        t.players == s.players,
        t.deeds == s.deeds,
    ensures
        ready(t, b),
        same_shape(s, t),
        forall|x: u128| t.pidx(x) == s.pidx(x) && t.standing(x) == s.standing(x),
{
}

/// Landing on a tile, for a player still in the game, keeps solvency.
proof fn lemma_land_solvent(s: EngineView, pid: u128, sum: int, b: int)
    requires
        ready(s, b),
        b + 30 * step() <= i64::MAX,
        s.standing(pid),
    ensures
        ready(s.land(pid, sum).0, b + 20 * step()),
        same_shape(s, s.land(pid, sum).0),
        forall|x: u128| s.land(pid, sum).0.pidx(x) == s.pidx(x),
{
    reveal(EngineView::land);
    let pos = s.position_of(pid);
    let t = s.board[pos % (s.board.len() as int)];
    match t.kind {
        TileKind::GoToJail => {
            lemma_placed_keeps(s, pid, 0, b);
        },
        TileKind::Tax => {
            lemma_pay_to_solvent(s, pid, None, s.tax_due(pid, t), b);
        },
        TileKind::Chance => {
            if s.chance.order.len() != 0 {
                let s1 = EngineView { chance: s.chance.after_draw(), ..s };
                lemma_same_people(s, s1, b);
                lemma_apply_card_solvent(s1, pid, s.chance.next_card(), b);
            }
        },
        TileKind::Fate => {
            if s.fate.order.len() != 0 {
                let s1 = EngineView { fate: s.fate.after_draw(), ..s };
                lemma_same_people(s, s1, b);
                lemma_apply_card_solvent(s1, pid, s.fate.next_card(), b);
            }
        },
        TileKind::Property | TileKind::Railroad | TileKind::Utility => {
            if t.price != 0 && s.deeds.owner[s.deeds.idx(pos)] is Some {
                lemma_rent_due_solvent(s, pid, pos, sum, b);
            }
        },
        _ => {},
    }
    let r = s.land(pid, sum).0;
    assert forall|k: int| 0 <= k < r.players.len() implies (#[trigger] r.players[k]).cash <= b + 20 * step() by {}
}

/// Walking onto a tile after a roll: salary, landing, end of the action.
proof fn lemma_walk_on_solvent(s: EngineView, pid: u128, from: int, to: int, sum: int, b: int)
    requires
        ready(s, b),
        b + 32 * step() <= i64::MAX,
        s.standing(pid),
    ensures
        ready(s.walk_on(pid, from, to, sum).0, b + 21 * step()),
        same_shape(s, s.walk_on(pid, from, to, sum).0),
        forall|x: u128| s.walk_on(pid, from, to, sum).0.pidx(x) == s.pidx(x),
{
    reveal(EngineView::walk_on);
    lemma_passing_go_solvent(s, pid, from, to, b);
    let g = s.passing_go(pid, from, to).0;
    lemma_land_solvent(g, pid, sum, b + step());
    let l = g.land(pid, sum).0;
    lemma_finish_turn_frame(l);
    lemma_same_people(l, l.finish_turn().0, b + 21 * step());
}

/// Leaving jail on bail, or going bankrupt over it.
proof fn lemma_bail_out_solvent(s: EngineView, pid: u128, b: int)
    requires
        ready(s, b),
        b + 4 * step() <= i64::MAX,
    ensures
        ready(s.bail_out(pid).0, b + 2 * step()),
        same_shape(s, s.bail_out(pid).0),
        forall|x: u128| s.bail_out(pid).0.pidx(x) == s.pidx(x),
        forall|x: u128| x != pid ==> s.bail_out(pid).0.standing(x) == s.standing(x),
{
    lemma_pay_to_solvent(s, pid, None, crate::engine_actions::BAIL, b);
    let p = s.pay_to(pid, None, crate::engine_actions::BAIL).0;
    if !p.broke_or_unknown(pid) {
        lemma_placed_keeps(p, pid, 0, b + 2 * step());
    }
}

/// A turn in jail without a double.
proof fn lemma_jail_wait_solvent(s: EngineView, pid: u128, b: int)
    requires
        ready(s, b),
        b + 4 * step() <= i64::MAX,
        s.standing(pid),
    ensures
        ready(s.jail_wait(pid).0, b + 2 * step()),
        same_shape(s, s.jail_wait(pid).0),
        forall|x: u128| s.jail_wait(pid).0.pidx(x) == s.pidx(x),
{
    reveal(EngineView::jail_wait);
    lemma_find(s.players, pid);
    let i = s.pidx(pid).unwrap();
    let turns = crate::engine_resolve::sat_inc(s.players[i].jail_turns);
    lemma_with_player_keeps(s, i, Player { jail_turns: turns, ..s.players[i] }, b);
    let s2 = s.with_player(i, Player { jail_turns: turns, ..s.players[i] });
    if turns >= 3 {
        lemma_bail_out_solvent(s2, pid, b);
        let r = s2.bail_out(pid).0;
        lemma_finish_turn_frame(r);
        lemma_same_people(r, r.finish_turn().0, b + 2 * step());
    } else {
        lemma_finish_turn_frame(s2);
        lemma_same_people(s2, s2.finish_turn().0, b);
        let f = s2.finish_turn().0;
        assert forall|k: int| 0 <= k < f.players.len() implies (#[trigger] f.players[k]).cash <= b + 2 * step() by {}
    }
}

/// A roll by a free player still in the game.
proof fn lemma_roll_free_solvent(s: EngineView, pid: u128, dice: Seq<u8>, b: int)
    requires
        ready(s, b),
        b + 32 * step() <= i64::MAX,
        s.standing(pid),
    ensures
        ready(s.roll_free(pid, dice).0, b + 21 * step()),
{
    reveal(EngineView::roll_free);
    let sum = crate::engine::spec_dice_sum(dice);
    let double = crate::engine::spec_is_double(dice);
    let from = s.position_of(pid);
    let dc = if double { crate::engine_resolve::sat_inc(s.doubles_count) } else { 0u8 };
    let s1 = EngineView { dice, doubles_count: dc, ..s };
    lemma_same_people(s, s1, b);
    if double && dc >= 3 {
        lemma_placed_keeps(s1, pid, 0, b);
        let j = s1.send_to_jail(pid).0;
        lemma_advance_turn_frame(j);
        lemma_same_people(j, j.advance_turn().0, b);
        let a = j.advance_turn().0;
        assert forall|k: int| 0 <= k < a.players.len() implies (#[trigger] a.players[k]).cash <= b + 21 * step() by {}
    } else {
        let to = (from + sum) % (s.board.len() as int);
        lemma_placed_keeps(s1, pid, to, b);
        let s2 = EngineView { pending_doubles: double, ..s1.placed(pid, to) };
        lemma_same_people(s1.placed(pid, to), s2, b);
        lemma_walk_on_solvent(s2, pid, from, to, sum, b);
    }
}

/// A roll by a jailed player still in the game.
proof fn lemma_roll_in_jail_solvent(s: EngineView, pid: u128, dice: Seq<u8>, b: int)
    requires
        ready(s, b),
        b + 32 * step() <= i64::MAX,
        s.standing(pid),
    ensures
        ready(s.roll_in_jail(pid, dice).0, b + 21 * step()),
{
    reveal(EngineView::roll_in_jail);
    let double = crate::engine::spec_is_double(dice);
    let from = s.position_of(pid);
    let s1 = EngineView { dice, ..s };
    lemma_same_people(s, s1, b);
    lemma_find(s.players, pid);
    if double {
        let sum = crate::engine::spec_dice_sum(dice);
        let to = (from + sum) % (s.board.len() as int);
        lemma_placed_keeps(s1, pid, to, b);
        let r = s1.released(pid);
        lemma_placed_keeps(r, pid, to, b);
        lemma_walk_on_solvent(r.placed(pid, to), pid, from, to, sum, b);
    } else {
        lemma_jail_wait_solvent(s1, pid, b);
        let w = s1.jail_wait(pid).0;
        assert forall|k: int| 0 <= k < w.players.len() implies (#[trigger] w.players[k]).cash <= b + 21 * step() by {}
    }
}


/// A positive `i64` cast to `u32` is no larger.
proof fn lemma_cash_as_u32(x: i64)
    requires
        x > 0,
    ensures
        (x as u32) as int <= x as int,
{
    assert((x as u32) as i64 <= x) by (bit_vector)
        requires
            x > 0i64,
    ;
}

/// Handing tile `tile` to a player still in the game keeps solvency.
proof fn lemma_assigned_solvent(s: EngineView, tile: int, p: u128, b: int)
    requires
        ready(s, b),
        s.standing(p),
    ensures
        ready(EngineView { deeds: s.deeds.assigned(tile, p), ..s }, b),
        same_shape(s, EngineView { deeds: s.deeds.assigned(tile, p), ..s }),
{
    let t = EngineView { deeds: s.deeds.assigned(tile, p), ..s };
    assert forall|k: int| 0 <= k < t.deeds.owner.len() implies
        (#[trigger] t.deeds.owner[k] matches Some(o) ==> t.standing(o)) by {
        if k != s.deeds.idx(tile) {
            assert(t.deeds.owner[k] == s.deeds.owner[k]);
        }
    }
}

/// Handing several tiles to a player still in the game keeps solvency.
proof fn lemma_assigned_all_solvent(s: EngineView, tiles: Seq<usize>, p: u128, b: int)
    requires
        ready(s, b),
        s.standing(p),
    ensures
        ready(EngineView { deeds: s.deeds.assigned_all(tiles, p), ..s }, b),
        same_shape(s, EngineView { deeds: s.deeds.assigned_all(tiles, p), ..s }),
    decreases tiles.len(),
{
    if tiles.len() > 0 {
        lemma_assigned_all_solvent(s, tiles.drop_last(), p, b);
        let t = EngineView { deeds: s.deeds.assigned_all(tiles.drop_last(), p), ..s };
        lemma_assigned_solvent(t, tiles.last() as int, p, b);
        assert(EngineView { deeds: t.deeds.assigned(tiles.last() as int, p), ..t }
            == EngineView { deeds: s.deeds.assigned_all(tiles, p), ..s });
    }
}

/// `from` gives `a` to `to`, a player still in the game: solvency stays; only
/// `from` may leave the game, and not when it can afford the cash.
proof fn lemma_give_solvent(s: EngineView, from: u128, to: u128, a: crate::command::AssetView, b: int)
    requires
        ready(s, b),
        b + 4 * step() <= i64::MAX,
        s.standing(to),
        to != from || s.cash_of(from) >= a.cash,
    ensures
        ready(s.give(from, to, a).0, b + 2 * step()),
        same_shape(s, s.give(from, to, a).0),
        forall|x: u128| s.give(from, to, a).0.pidx(x) == s.pidx(x),
        forall|x: u128| x != from ==> s.give(from, to, a).0.standing(x) == s.standing(x)
            && s.give(from, to, a).0.cash_of(x) >= s.cash_of(x),
        s.standing(from) && s.cash_of(from) >= a.cash ==> s.give(from, to, a).0.standing(from),
        to == from && s.cash_of(from) >= a.cash ==> s.give(from, to, a).0.cash_of(from) == s.cash_of(from),
{
    let p = if a.cash > 0 { s.pay_to(from, Some(to), a.cash as u32) } else { (s, Seq::empty()) };
    if a.cash > 0 {
        lemma_cash_as_u32(a.cash);
        lemma_find(s.players, from);
        if to == from {
            if let Some(i) = s.pidx(from) {
                assert(cash_fits(s.players[i]));
            }
            assert(s.standing(from));
        }
        lemma_pay_to_solvent(s, from, Some(to), a.cash as u32, b);
    } else {
        assert forall|k: int| 0 <= k < s.players.len() implies (#[trigger] s.players[k]).cash <= b + 2 * step() by {}
    }
    assert(p.0.standing(to));
    lemma_assigned_all_solvent(p.0, a.tiles, to, b + 2 * step());
    let s1 = EngineView { deeds: p.0.deeds.assigned_all(a.tiles, to), ..p.0 };
    if a.out_of_jail_cards > 0 {
        let n = a.out_of_jail_cards;
        lemma_find(s1.players, from);
        let m1 = match s1.pidx(from) {
            Some(i) => s1.with_player(i, Player {
                out_of_jail_cards: (s1.players[i].out_of_jail_cards - n) as u8, ..s1.players[i] }),
            None => s1,
        };
        if let Some(i) = s1.pidx(from) {
            lemma_with_player_keeps(s1, i, Player {
                out_of_jail_cards: (s1.players[i].out_of_jail_cards - n) as u8, ..s1.players[i] }, b + 2 * step());
        }
        lemma_find(m1.players, to);
        if let Some(j) = m1.pidx(to) {
            lemma_with_player_keeps(m1, j, Player {
                out_of_jail_cards: (m1.players[j].out_of_jail_cards + n) as u8, ..m1.players[j] }, b + 2 * step());
        }
        assert(s1.move_cards(from, to, n) == match m1.pidx(to) {
            Some(j) => m1.with_player(j, Player { out_of_jail_cards: (m1.players[j].out_of_jail_cards + n) as u8, ..m1.players[j] }),
            None => m1,
        });
        let g = s1.move_cards(from, to, n);
        assert forall|x: u128| g.pidx(x) == s1.pidx(x) && g.standing(x) == s1.standing(x) && g.cash_of(x) == s1.cash_of(x) by {
            assert(m1.pidx(x) == s1.pidx(x) && m1.standing(x) == s1.standing(x) && m1.cash_of(x) == s1.cash_of(x));
        }
    }
    let g = s.give(from, to, a).0;
    assert forall|x: u128| g.pidx(x) == s.pidx(x) && (x != from ==> g.standing(x) == s.standing(x) && g.cash_of(x) >= s.cash_of(x)) by {
        assert(s1.pidx(x) == p.0.pidx(x) && s1.standing(x) == p.0.standing(x) && s1.cash_of(x) == p.0.cash_of(x));
        assert(g.pidx(x) == s1.pidx(x) && g.standing(x) == s1.standing(x) && g.cash_of(x) == s1.cash_of(x));
    }
    assert(g.standing(from) == s1.standing(from) && g.cash_of(from) == s1.cash_of(from));
}


/// Closing a finished auction keeps solvency.
proof fn lemma_finish_auction_solvent(s: EngineView, b: int)
    requires
        ready(s, b),
        b + 4 * step() <= i64::MAX,
    ensures
        ready(s.finish_auction().0, b + 2 * step()),
{
    reveal(EngineView::finish_auction);
    match s.auction {
        None => {
            assert forall|k: int| 0 <= k < s.players.len() implies (#[trigger] s.players[k]).cash <= b + 2 * step() by {}
        },
        Some(a) => if !a.finished() {
            assert forall|k: int| 0 <= k < s.players.len() implies (#[trigger] s.players[k]).cash <= b + 2 * step() by {}
        } else {
            let s0 = EngineView { auction: None, ..s };
            lemma_same_people(s, s0, b);
            let t1 = match a.highest_bidder {
                Some(w) => {
                    let p = s0.pay_to(w, None, a.highest_bid);
                    if !p.0.broke_or_unknown(w) {
                        (EngineView { deeds: p.0.deeds.assigned(a.tile_id as int, w), ..p.0 },
                            p.1.push(crate::event::EventView::AuctionEnded { tile_id: a.tile_id, winner: Some(w), amount: a.highest_bid }))
                    } else {
                        (p.0, p.1.push(crate::event::EventView::AuctionEnded { tile_id: a.tile_id, winner: None, amount: a.highest_bid }))
                    }
                },
                None => (s0, seq![crate::event::EventView::AuctionEnded { tile_id: a.tile_id, winner: None, amount: 0 }]),
            };
            match a.highest_bidder {
                Some(w) => {
                    lemma_pay_to_solvent(s0, w, None, a.highest_bid, b);
                    let p = s0.pay_to(w, None, a.highest_bid).0;
                    if !p.broke_or_unknown(w) {
                        lemma_assigned_solvent(p, a.tile_id as int, w, b + 2 * step());
                    }
                },
                None => {
                    assert forall|k: int| 0 <= k < s.players.len() implies (#[trigger] s.players[k]).cash <= b + 2 * step() by {}
                },
            }
            assert(ready(t1.0, b + 2 * step()));
            if t1.0.phase != Phase::Over {
                let f0 = EngineView { phase: Phase::AwaitRoll, ..t1.0 };
                lemma_same_people(t1.0, f0, b + 2 * step());
                lemma_finish_turn_frame(f0);
                lemma_same_people(f0, f0.finish_turn().0, b + 2 * step());
            }
        },
    }
}

/// Buying, passing, building, mortgages and leaving jail keep solvency.
proof fn lemma_actions_solvent(s: EngineView, pid: u128, tile: int, b: int)
    requires
        ready(s, b),
        b + 4 * step() <= i64::MAX,
        s.standing(pid),
        s.board.len() == s.deeds.owner.len(),
    ensures
        ready(s.buy(pid).state, b + 2 * step()),
        ready(s.pass(pid).state, b + 2 * step()),
        ready(s.build_house(pid, tile).state, b + 2 * step()),
        ready(s.sell_house(pid, tile).state, b + 2 * step()),
        ready(s.mortgage(pid, tile).state, b + 2 * step()),
        ready(s.unmortgage(pid, tile).state, b + 2 * step()),
        ready(s.pay_bail(pid).state, b + 2 * step()),
        ready(s.use_card(pid).state, b + 2 * step()),
{
    assert(cash_le(s.players, b + 2 * step())) by {
        assert forall|k: int| 0 <= k < s.players.len() implies (#[trigger] s.players[k]).cash <= b + 2 * step() by {}
    }
    lemma_find(s.players, pid);
    let i = s.pidx(pid).unwrap();
    assert(cash_fits(s.players[i]));
    // buy
    let pos = s.position_of(pid);
    let price = s.tile_under(pid).price;
    if s.unowned_error(pid, "当前无法购买"@) is None && s.cash_of(pid) >= price {
        lemma_change_cash_solvent(s, pid, (-(price as int)) as i64, b);
        let a = s.change_cash(pid, (-(price as int)) as i64).0;
        assert(a.standing(pid));
        lemma_assigned_solvent(a, pos, pid, b + step());
        let bb = EngineView { deeds: a.deeds.assigned(pos, pid), phase: Phase::AwaitRoll, ..a };
        lemma_same_people(EngineView { deeds: a.deeds.assigned(pos, pid), ..a }, bb, b + step());
        lemma_finish_turn_frame(bb);
        lemma_same_people(bb, bb.finish_turn().0, b + 2 * step());
    }
    // pass
    if s.unowned_error(pid, "当前无需放弃购买"@) is None {
        let o = s.pass(pid).state;
        lemma_same_people(s, o, b + 2 * step());
    }
    // buildings and mortgages
    if let Ok(x) = s.deeds.build_outcome(s.board, tile) {
        let t = EngineView { deeds: x.0, ..s };
        assert(x.0.owner == s.deeds.owner);
        lemma_keeps(s, t, b);
        if s.cash_of(pid) >= s.board[tile % (s.board.len() as int)].building_cost {
            lemma_change_cash_solvent(t, pid, (-(x.1 as int)) as i64, b);
        }
    }
    if let Ok(x) = s.deeds.sell_outcome(s.board, tile) {
        let t = EngineView { deeds: x.0, ..s };
        assert(x.0.owner == s.deeds.owner);
        lemma_keeps(s, t, b);
        lemma_change_cash_solvent(t, pid, x.1 as i64, b);
    }
    if let Ok(x) = s.deeds.mortgage_outcome(s.board, tile) {
        let t = EngineView { deeds: x.0, ..s };
        assert(x.0.owner == s.deeds.owner);
        lemma_keeps(s, t, b);
        lemma_change_cash_solvent(t, pid, x.1 as i64, b);
    }
    if let Ok(x) = s.deeds.unmortgage_outcome(s.board, tile) {
        let t = EngineView { deeds: x.0, ..s };
        assert(x.0.owner == s.deeds.owner);
        lemma_keeps(s, t, b);
        if s.cash_of(pid) >= x.1 {
            lemma_change_cash_solvent(t, pid, (-(x.1 as int)) as i64, b);
        }
    }
    // jail
    if s.jailed(pid) {
        lemma_bail_out_solvent(s, pid, b);
    }
    if s.players[i].in_jail && s.players[i].out_of_jail_cards > 0 {
        lemma_with_player_keeps(s, i, Player {
            out_of_jail_cards: (s.players[i].out_of_jail_cards - 1) as u8, in_jail: false, jail_turns: 0, ..s.players[i] }, b);
    }
}


/// Bidding and passing in an auction keep solvency.
proof fn lemma_auction_solvent(s: EngineView, pid: u128, amount: u32, b: int)
    requires
        ready(s, b),
        b + 4 * step() <= i64::MAX,
    ensures
        ready(s.bid(pid, amount).state, b + 2 * step()),
        ready(s.auction_pass(pid).state, b + 2 * step()),
{
    assert(cash_le(s.players, b + 2 * step())) by {
        assert forall|k: int| 0 <= k < s.players.len() implies (#[trigger] s.players[k]).cash <= b + 2 * step() by {}
    }
    if s.phase == Phase::InAuction && s.auction is Some {
        let a = s.auction.unwrap();
        let b1 = crate::auction::AuctionView { highest_bid: amount, highest_bidder: Some(pid), ..a };
        let s1 = EngineView { auction: Some(crate::auction::AuctionView { turn: b1.next_turn(), ..b1 }), ..s };
        lemma_same_people(s, s1, b);
        lemma_finish_auction_solvent(s1, b);
        let b2 = crate::auction::AuctionView { passed: a.passed.push(pid), ..a };
        let s2 = EngineView { auction: Some(crate::auction::AuctionView { turn: b2.next_turn(), ..b2 }), ..s };
        lemma_same_people(s, s2, b);
        lemma_finish_auction_solvent(s2, b);
    }
}

/// Trades keep solvency: proposals and refusals move nothing, and an accepted
/// trade moves only what both sides can give.
proof fn lemma_trades_solvent(s: EngineView, pid: u128, target: u128, offer: crate::command::AssetView,
    demand: crate::command::AssetView, id: u128, trade_id: u128, b: int)
    requires
        ready(s, b),
        b + 8 * step() <= i64::MAX,
    ensures
        ready(s.propose_trade(pid, target, offer, demand, id).state, b + 4 * step()),
        ready(s.decline_trade(pid, trade_id).state, b + 4 * step()),
        ready(s.accept_trade(pid, trade_id).state, b + 4 * step()),
{
    assert(cash_le(s.players, b + 4 * step())) by {
        assert forall|k: int| 0 <= k < s.players.len() implies (#[trigger] s.players[k]).cash <= b + 4 * step() by {}
    }
    lemma_same_people(s, s.propose_trade(pid, target, offer, demand, id).state, b + 4 * step());
    lemma_same_people(s, s.decline_trade(pid, trade_id).state, b + 4 * step());
    if let Some(k) = trade_index(s.pending_trades, trade_id, pid, 0) {
        let t = s.pending_trades[k];
        if s.trade_error(t) is None {
            let s1 = EngineView { pending_trades: s.pending_trades.remove(k), ..s };
            lemma_same_people(s, s1, b);
            lemma_give_solvent(s1, t.from, t.to, t.offer, b);
            let a = s1.give(t.from, t.to, t.offer).0;
            assert(a.standing(t.from));
            assert(a.cash_of(t.to) >= t.demand.cash);
            lemma_give_solvent(a, t.to, t.from, t.demand, b + 2 * step());
        }
    }
}

/// A roll by the current player, still in the game, keeps solvency.
proof fn lemma_roll_solvent(s: EngineView, dice: Seq<u8>, b: int)
    requires
        ready(s, b),
        b + 32 * step() <= i64::MAX,
        s.current < s.players.len(),
        !s.players[s.current as int].bankrupt,
    ensures
        ready(s.roll(dice).state, b + 21 * step()),
{
    lemma_seat_standing(s, s.current as int);
    let pid = s.players[s.current as int].id;
    if s.jailed(pid) {
        lemma_roll_in_jail_solvent(s, pid, dice, b);
    } else {
        lemma_roll_free_solvent(s, pid, dice, b);
    }
}

/// Every command keeps solvency: a player out of the game holds no cash, a
/// player in it holds none below zero, and every owned tile belongs to a player
/// still in the game (with players told apart by id), whatever command comes,
/// with any dice and any new trade id.
pub proof fn lemma_command_keeps_solvency(s: EngineView, player: u128, cmd: Command, dice: Seq<u8>, id: u128)
    requires
        s.wf(),
        s.within_limits(),
        s.solvent(),
    ensures
        s.command(player, cmd, dice, id).state.solvent(),
{
    let b: int = 0x4_0000_0000_0000;
    assert(cash_le(s.players, b)) by {
        assert forall|k: int| 0 <= k < s.players.len() implies (#[trigger] s.players[k]).cash <= b by {}
    }
    assert(ready(s, b));
    let o = s.command(player, cmd, dice, id);
    if s.phase != Phase::Over {
        match cmd {
            Command::RollDice => {
                if s.turn_error(player) is None {
                    lemma_roll_solvent(s, dice, b);
                }
            },
            Command::AuctionBid { amount } => {
                lemma_auction_solvent(s, player, amount, b);
            },
            Command::AuctionPass => {
                lemma_auction_solvent(s, player, 0, b);
            },
            Command::ProposeTrade { target, offer, demand } => {
                lemma_trades_solvent(s, player, target, offer@, demand@, id, 0, b);
            },
            Command::AcceptTrade { trade_id } => {
                lemma_trades_solvent(s, player, player, crate::command::AssetView { cash: 0, tiles: Seq::empty(), out_of_jail_cards: 0 },
                    crate::command::AssetView { cash: 0, tiles: Seq::empty(), out_of_jail_cards: 0 }, id, trade_id, b);
            },
            Command::DeclineTrade { trade_id } => {
                lemma_trades_solvent(s, player, player, crate::command::AssetView { cash: 0, tiles: Seq::empty(), out_of_jail_cards: 0 },
                    crate::command::AssetView { cash: 0, tiles: Seq::empty(), out_of_jail_cards: 0 }, id, trade_id, b);
            },
            Command::BuildHouse { tile_id } => {
                if s.require_error(player) is None {
                    lemma_actions_solvent(s, player, tile_id as int, b);
                }
            },
            Command::SellHouse { tile_id } => {
                if s.require_error(player) is None {
                    lemma_actions_solvent(s, player, tile_id as int, b);
                }
            },
            Command::Mortgage { tile_id } => {
                if s.require_error(player) is None {
                    lemma_actions_solvent(s, player, tile_id as int, b);
                }
            },
            Command::Unmortgage { tile_id } => {
                if s.require_error(player) is None {
                    lemma_actions_solvent(s, player, tile_id as int, b);
                }
            },
            _ => {
                if s.require_error(player) is None {
                    lemma_actions_solvent(s, player, 0, b);
                }
            },
        }
    }
}


/// Seating a new player, with an id not yet seated, cash of at least zero and
/// not bankrupt, keeps solvency; a lobby without players or owners is solvent.
pub proof fn lemma_seating_keeps_solvency(s: EngineView, p: Player)
    requires
        s.solvent(),
        s.pidx(p.id) is None,
        !p.bankrupt,
        p.cash >= 0,
    ensures
        (EngineView { players: s.players.push(p), ..s }).solvent(),
        s.players.len() == 0 && (forall|t: int| 0 <= t < s.deeds.owner.len() ==> s.deeds.owner[t] is None)
            ==> s.solvent(),
{
    let t = EngineView { players: s.players.push(p), ..s };
    lemma_find(s.players, p.id);
    assert forall|i: int, j: int| 0 <= i < j < t.players.len() implies (#[trigger] t.players[i]).id != (#[trigger] t.players[j]).id by {
        if j < s.players.len() {
            assert(s.players[i].id != s.players[j].id);
        } else {
            assert(s.players[i].id != p.id);
        }
    }
    assert forall|i: int| 0 <= i < t.players.len() implies cash_fits(#[trigger] t.players[i]) by {
        if i < s.players.len() {
            assert(cash_fits(s.players[i]));
        }
    }
    assert forall|k: int| 0 <= k < t.deeds.owner.len() implies
        (#[trigger] t.deeds.owner[k] matches Some(o) ==> t.standing(o)) by {
        if let Some(o) = t.deeds.owner[k] {
            assert(s.standing(o));
            lemma_find(s.players, o);
            lemma_find(t.players, o);
            let q = s.pidx(o).unwrap();
            assert(t.players[q].id == o);
            let q2 = t.pidx(o).unwrap();
            if q2 < q {
                assert(s.players[q2].id != o);
            }
        }
    }
}


/// Reseating the same players in another order (as the start of a game does),
/// with the register unchanged, keeps solvency.
pub proof fn lemma_reseating_keeps_solvency(s: EngineView, t: EngineView)
    requires
        s.solvent(),
        t.players.to_multiset() == s.players.to_multiset(),
        t.deeds == s.deeds,
    ensures
        t.solvent(),
{
    broadcast use vstd::seq_lib::group_to_multiset_ensures;
    assert(s.players.no_duplicates()) by {
        assert forall|i: int, j: int| 0 <= i < s.players.len() && 0 <= j < s.players.len() && i != j
            implies s.players[i] != s.players[j] by {
            if i < j {
                assert(s.players[i].id != s.players[j].id);
            } else {
                assert(s.players[j].id != s.players[i].id);
            }
        }
    }
    s.players.lemma_multiset_has_no_duplicates();
    t.players.lemma_multiset_has_no_duplicates_conv();
    assert forall|i: int, j: int| 0 <= i < j < t.players.len() implies (#[trigger] t.players[i]).id != (#[trigger] t.players[j]).id by {
        assert(t.players.to_multiset().count(t.players[i]) > 0);
        assert(t.players.to_multiset().count(t.players[j]) > 0);
        assert(s.players.contains(t.players[i]));
        assert(s.players.contains(t.players[j]));
        let a = choose|a: int| 0 <= a < s.players.len() && s.players[a] == t.players[i];
        let c = choose|c: int| 0 <= c < s.players.len() && s.players[c] == t.players[j];
        assert(t.players[i] != t.players[j]);
        if a < c {
            assert(s.players[a].id != s.players[c].id);
        } else if c < a {
            assert(s.players[c].id != s.players[a].id);
        }
    }
    assert forall|i: int| 0 <= i < t.players.len() implies cash_fits(#[trigger] t.players[i]) by {
        assert(t.players.to_multiset().count(t.players[i]) > 0);
        assert(s.players.contains(t.players[i]));
        let a = choose|a: int| 0 <= a < s.players.len() && s.players[a] == t.players[i];
        assert(cash_fits(s.players[a]));
    }
    assert forall|k: int| 0 <= k < t.deeds.owner.len() implies
        (#[trigger] t.deeds.owner[k] matches Some(o) ==> t.standing(o)) by {
        if let Some(o) = t.deeds.owner[k] {
            assert(s.deeds.owner[k] == Some(o));
            assert(s.standing(o));
            lemma_find(s.players, o);
            let q = s.pidx(o).unwrap();
            assert(s.players.to_multiset().count(s.players[q]) > 0);
            assert(t.players.contains(s.players[q]));
            let r = choose|r: int| 0 <= r < t.players.len() && t.players[r] == s.players[q];
            lemma_seat_standing(t, r);
        }
    }
}

} // verus!
