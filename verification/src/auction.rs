//! The bank auction: players bid in a fixed order, each may bid higher than the
//! current best or pass for good; when nobody but the best bidder may still bid,
//! the auction ends and the best bidder wins (nobody, when there was no bid).

use vstd::prelude::*;
use crate::archive::AuctionDto;

verus! {

/// State of an auction.
#[derive(Debug)]
pub struct Auction {
    pub tile_id: usize,
    order: Vec<u128>,
    turn: usize,
    pub highest_bid: u32,
    pub highest_bidder: Option<u128>,
    passed: Vec<u128>,
}

/// The abstract state of an auction.
#[verifier::ext_equal]
pub struct AuctionView {
    pub tile_id: usize,
    pub order: Seq<u128>,
    pub turn: usize,
    pub highest_bid: u32,
    pub highest_bidder: Option<u128>,
    pub passed: Seq<u128>,
}

impl View for Auction {
    type V = AuctionView;

    closed spec fn view(&self) -> AuctionView {
        AuctionView {
            tile_id: self.tile_id,
            order: self.order@,
            turn: self.turn,
            highest_bid: self.highest_bid,
            highest_bidder: self.highest_bidder,
            passed: self.passed@,
        }
    }
}

impl AuctionView {
    /// The turn points into the bidding order (or is 0 for an empty order).
    pub open spec fn wf(self) -> bool {
        &&& self.order.len() <= 1_000_000
        &&& (self.order.len() == 0 ==> self.turn == 0)
        &&& (self.order.len() > 0 ==> self.turn < self.order.len())
    }

    /// `pid` may still bid: has not passed and is not the best bidder.
    pub open spec fn eligible(self, pid: u128) -> bool {
        !self.passed.contains(pid) && self.highest_bidder != Some(pid)
    }

    /// The player `step` places after the turn in the bidding order.
    pub open spec fn at(self, step: int) -> u128 {
        self.order[(self.turn + step) % (self.order.len() as int)]
    }

    /// The first `step` in `lo..=hi` whose player is eligible.
    pub open spec fn first_eligible(self, lo: int, hi: int) -> Option<int>
        decreases hi - lo + 1,
    {
        if lo > hi {
            None
        } else if self.eligible(self.at(lo)) {
            Some(lo)
        } else {
            self.first_eligible(lo + 1, hi)
        }
    }

    /// The player whose turn it is: the first eligible player from the turn on.
    pub open spec fn current(self) -> Option<u128> {
        match self.first_eligible(0, self.order.len() - 1) {
            Some(step) => Some(self.at(step)),
            None => None,
        }
    }

    /// The turn after moving on: the next eligible player after the turn, or the
    /// turn unchanged when there is none.
    pub open spec fn next_turn(self) -> usize {
        match self.first_eligible(1, self.order.len() as int) {
            Some(step) => ((self.turn + step) % (self.order.len() as int)) as usize,
            None => self.turn,
        }
    }

    /// The auction is over: nobody may bid.
    pub open spec fn finished(self) -> bool {
        self.current() is None
    }
}

/// A step found by `first_eligible` lies in range and names an eligible player.
pub proof fn lemma_first_eligible(a: AuctionView, lo: int, hi: int)
    ensures
        a.first_eligible(lo, hi) matches Some(s) ==> lo <= s <= hi && a.eligible(a.at(s))
            && forall|k: int| lo <= k < s ==> !a.eligible(#[trigger] a.at(k)),
        a.first_eligible(lo, hi) is None ==> forall|k: int| lo <= k <= hi ==> !a.eligible(#[trigger] a.at(k)),
    decreases hi - lo + 1,
{
    if lo <= hi {
        lemma_first_eligible(a, lo + 1, hi);
    }
}

/// The player to bid is in the bidding order, has not passed and does not
/// hold the best bid: a player who passed never bids again, and nobody can
/// outbid themselves.
pub proof fn lemma_current_is_eligible(a: AuctionView)
    requires
        a.wf(),
    ensures
        a.current() matches Some(p) ==> a.eligible(p) && a.order.contains(p),
        forall|p: u128| a.passed.contains(p) ==> a.current() != Some(p),
        a.highest_bidder matches Some(b) ==> a.current() != Some(b),
{
    lemma_first_eligible(a, 0, a.order.len() - 1);
    if let Some(step) = a.first_eligible(0, a.order.len() - 1) {
        let idx = (a.turn + step) % (a.order.len() as int);
        vstd::arithmetic::div_mod::lemma_mod_pos_bound(a.turn + step, a.order.len() as int);
        assert(a.order[idx] == a.at(step));
    }
}

impl Auction {
    /// An auction for `tile_id` among `order`, starting with `starter` (or the
    /// first in order when `starter` is not in it).
    pub fn new(tile_id: usize, order: Vec<u128>, starter: u128) -> (a: Self)
        ensures
            order@.len() <= 1_000_000 ==> a@.wf(),
            a@.order.len() == 0 ==> a@.turn == 0,
            a@.order.len() > 0 ==> a@.turn < a@.order.len(),
            a@.tile_id == tile_id,
            a@.order == order@,
            a@.turn == (match order@.index_of_first(starter) { Some(i) => i, None => 0 }),
            a@.highest_bid == 0,
            a@.highest_bidder is None,
            a@.passed.len() == 0,
    {
        let mut turn: usize = 0;
        let mut i: usize = 0;
        let mut found = false;
        while i < order.len()
            invariant
                i <= order@.len(),
                !found ==> forall|k: int| 0 <= k < i ==> order@[k] != starter,
                !found ==> turn == 0,
                found ==> turn < order@.len() && order@[turn as int] == starter
                    && forall|k: int| 0 <= k < turn ==> order@[k] != starter,
            decreases order@.len() - i,
        {
            if !found && order[i] == starter {
                turn = i;
                found = true;
            }
            i = i + 1;
        }
        proof {
            order@.index_of_first_ensures(starter);
            if order@.contains(starter) {
                let j = choose|j: int| 0 <= j < order@.len() && order@[j] == starter;
                assert(found);
                let f = order@.index_of_first(starter).unwrap();
                if f < turn { assert(order@[f] != starter); }
                if turn < f { assert(order@[turn as int] != starter); }
            }
        }
        Auction { tile_id, order, turn, highest_bid: 0, highest_bidder: None, passed: Vec::new() }
    }

    fn contains(v: &Vec<u128>, x: u128) -> (r: bool)
        ensures
            r == v@.contains(x),
    {
        let mut i: usize = 0;
        while i < v.len()
            invariant
                i <= v@.len(),
                forall|k: int| 0 <= k < i ==> v@[k] != x,
            decreases v@.len() - i,
        {
            if v[i] == x {
                return true;
            }
            i = i + 1;
        }
        false
    }

    fn is_eligible(&self, pid: u128) -> (r: bool)
        ensures
            r == self@.eligible(pid),
    {
        !Self::contains(&self.passed, pid) && self.highest_bidder != Some(pid)
    }

    /// The player to bid or pass now: the first one, from the turn on, who has
    /// not passed and is not the best bidder.
    fn current(&self) -> (r: Option<u128>)
        requires
            self@.wf(),
        ensures
            r == self@.current(),
    {
        let n = self.order.len();
        let mut step: usize = 0;
        while step < n
            invariant
                step <= n,
                n == self@.order.len(),
                self@.wf(),
                self@.first_eligible(0, n - 1) == self@.first_eligible(step as int, n - 1),
            decreases n - step,
        {
            let idx = (self.turn + step) % n;
            let pid = self.order[idx];
            if self.is_eligible(pid) {
                return Some(pid);
            }
            step = step + 1;
        }
        None
    }

    /// Moves the turn to the next eligible player after the current turn.
    fn advance_turn(&mut self)
        requires
            old(self)@.wf(),
        ensures
            final(self)@ == (AuctionView { turn: old(self)@.next_turn(), ..old(self)@ }),
            final(self)@.wf(),
    {
        let n = self.order.len();
        let mut step: usize = 1;
        while step <= n
            invariant
                1 <= step <= n + 1,
                n == self@.order.len(),
                self@ == old(self)@,
                self@.wf(),
                self@.first_eligible(1, n as int) == self@.first_eligible(step as int, n as int),
            decreases n + 1 - step,
        {
            let idx = (self.turn + step) % n;
            let pid = self.order[idx];
            if self.is_eligible(pid) {
                self.turn = idx;
                return;
            }
            step = step + 1;
        }
    }

    /// Bids `amount` for `pid`: it must be `pid`'s turn and the amount must be
    /// positive and above the best bid. Then `pid` is the best bidder and the
    /// turn moves on.
    pub fn bid(&mut self, pid: u128, amount: u32) -> (r: Result<(), String>)
        requires
            old(self)@.wf(),
        ensures
            final(self)@.wf(),
            r is Ok <==> (old(self)@.current() == Some(pid) && amount > 0 && amount > old(self)@.highest_bid),
            r matches Err(m) ==> final(self)@ == old(self)@ && m@ == (
                if old(self)@.current() != Some(pid) { "还没轮到你出价"@ }
                else if amount == 0 { "出价必须大于 0"@ }
                else { "出价需高于当前最高价"@ }),
            r is Ok ==> final(self)@ == ({
                let b = AuctionView { highest_bid: amount, highest_bidder: Some(pid), ..old(self)@ };
                AuctionView { turn: b.next_turn(), ..b }
            }),
    {
        if self.current() != Some(pid) {
            return Err(String::from_str("还没轮到你出价"));
        }
        if amount == 0 {
            return Err(String::from_str("出价必须大于 0"));
        }
        if amount <= self.highest_bid {
            return Err(String::from_str("出价需高于当前最高价"));
        }
        self.highest_bid = amount;
        self.highest_bidder = Some(pid);
        self.advance_turn();
        Ok(())
    }

    /// Passes for `pid`, for good: it must be `pid`'s turn. Then the turn moves on.
    pub fn pass(&mut self, pid: u128) -> (r: Result<(), String>)
        requires
            old(self)@.wf(),
        ensures
            final(self)@.wf(),
            r is Ok <==> old(self)@.current() == Some(pid),
            r matches Err(m) ==> final(self)@ == old(self)@ && m@ == "还没轮到你"@,
            r is Ok ==> final(self)@ == ({
                let b = AuctionView { passed: old(self)@.passed.push(pid), ..old(self)@ };
                AuctionView { turn: b.next_turn(), ..b }
            }),
    {
        if self.current() != Some(pid) {
            return Err(String::from_str("还没轮到你"));
        }
        self.passed.push(pid);
        self.advance_turn();
        Ok(())
    }

    /// Nobody may bid any more.
    pub fn is_finished(&self) -> (r: bool)
        requires
            self@.wf(),
        ensures
            r == self@.finished(),
    {
        self.current().is_none()
    }

    /// The auction as saved in a game archive.
    pub fn to_dto(&self) -> (d: AuctionDto)
        ensures
            d@ == self@,
    {
        let order = self.order.clone();
        let passed = self.passed.clone();
        proof {
            assert(order@ =~= self.order@);
            assert(passed@ =~= self.passed@);
        }
        AuctionDto {
            tile_id: self.tile_id,
            order,
            turn: self.turn,
            highest_bid: self.highest_bid,
            highest_bidder: self.highest_bidder,
            passed,
        }
    }

    /// The auction that a saved entry describes.
    pub fn restore(dto: &AuctionDto) -> (a: Self)
        ensures
            a@ == dto@,
    {
        let order = dto.order.clone();
        let passed = dto.passed.clone();
        proof {
            assert(order@ =~= dto.order@);
            assert(passed@ =~= dto.passed@);
        }
        Auction {
            tile_id: dto.tile_id,
            order,
            turn: dto.turn,
            highest_bid: dto.highest_bid,
            highest_bidder: dto.highest_bidder,
            passed,
        }
    }

    /// The tile for sale.
    pub fn tile(&self) -> (r: usize)
        ensures
            r == self@.tile_id,
    {
        self.tile_id
    }

    /// The best bid so far (0 before any bid).
    pub fn best_bid(&self) -> (r: u32)
        ensures
            r == self@.highest_bid,
    {
        self.highest_bid
    }

    /// The best bidder so far; the winner once the auction is finished.
    pub fn winner(&self) -> (r: Option<u128>)
        ensures
            r == self@.highest_bidder,
    {
        self.highest_bidder
    }

    /// The player to bid or pass now (for the server's autopilot).
    pub fn current_bidder(&self) -> (r: Option<u128>)
        requires
            self@.wf(),
        ensures
            r == self@.current(),
    {
        self.current()
    }
}

} // verus!
