//! Payments, bankruptcy, jail release, buying, auctions, building, mortgages
//! and trades.

use vstd::prelude::*;
use crate::auction::{Auction, AuctionView};
use crate::command::{AssetList, AssetView};
use crate::board::Tile;
use crate::deeds::DeedsView;
use crate::engine::{cash_in, cards_upto, total_cards, lemma_find, lemma_find_same_ids, EngineView, GameEngine, Phase};
use crate::engine::trade_id_of;
use crate::rng::{RngSource, drawn_since, extends};
use crate::event::{emit, evs, Event, EventView};
use crate::player::Player;
use crate::trade::{Trade, TradeView};

verus! {

/// The bail that frees a player from jail.
pub const BAIL: u32 = 500_000;

/// Changing one player changes the total of cards by the difference.
pub proof fn lemma_cards_update(ps: Seq<Player>, i: int, p: Player, k: int)
    requires
        0 <= i < ps.len(),
        0 <= k <= ps.len(),
    ensures
        cards_upto(ps.update(i, p), k) == cards_upto(ps, k)
            - (if i < k { ps[i].out_of_jail_cards as int } else { 0 })
            + (if i < k { p.out_of_jail_cards as int } else { 0 }),
    decreases k,
{
    if k > 0 {
        lemma_cards_update(ps, i, p, k - 1);
    }
}

/// Each player's cards are at most the total; two players' cards at most the total.
pub proof fn lemma_cards_le_total(ps: Seq<Player>, i: int, j: int, k: int)
    requires
        0 <= i < ps.len(),
        0 <= j < ps.len(),
        0 <= k <= ps.len(),
    ensures
        cards_upto(ps, k) >= 0,
        i < k ==> ps[i].out_of_jail_cards <= cards_upto(ps, k),
        i < k && j < k && i != j ==> ps[i].out_of_jail_cards + ps[j].out_of_jail_cards <= cards_upto(ps, k),
    decreases k,
{
    if k > 0 {
        lemma_cards_le_total(ps, i, j, k - 1);
        lemma_cards_le_total(ps, j, i, k - 1);
    }
}

impl EngineView {
    /// The assets of `pid` after its bankruptcy: to a creditor go its tiles (with
    /// buildings and mortgages) and its get-out-of-jail cards; to the bank, its
    /// tiles return to the market.
    pub open spec fn bankrupt_assets(self, pid: u128, creditor: Option<u128>) -> EngineView {
        match creditor {
            Some(cred) => {
                let d = EngineView { deeds: self.deeds.transferred(pid, cred), ..self };
                let cards = match self.pidx(pid) { Some(i) => self.players[i].out_of_jail_cards, None => 0u8 };
                let d2 = match self.pidx(pid) {
                    Some(i) => d.with_player(i, Player { out_of_jail_cards: 0, ..d.players[i] }),
                    None => d,
                };
                match self.pidx(cred) {
                    Some(j) => d2.with_player(j, Player {
                        out_of_jail_cards: (d2.players[j].out_of_jail_cards + cards) as u8,
                        ..d2.players[j]
                    }),
                    None => d2,
                }
            },
            None => EngineView { deeds: self.deeds.cleared(pid), ..self },
        }
    }

    /// The state with `pid` marked bankrupt.
    pub open spec fn mark_bankrupt(self, pid: u128) -> EngineView {
        match self.pidx(pid) {
            Some(i) => self.with_player(i, Player { bankrupt: true, ..self.players[i] }),
            None => self,
        }
    }

    /// After a bankruptcy of `pid`: with nobody left the game is over; with one
    /// left, that player wins; when `pid` had the turn, the turn moves on.
    pub open spec fn after_bankruptcy(self, pid: u128) -> (EngineView, Seq<EventView>) {
        let alive = self.alive();
        if alive.len() == 0 {
            (EngineView { phase: Phase::Over, ..self }, Seq::empty())
        } else if alive.len() == 1 {
            let s3 = EngineView { phase: Phase::Over, winner: Some(alive[0]), ..self };
            (s3, seq![EventView::GameEnded { winner: alive[0], rank: s3.ranking() }])
        } else if self.current_id() == Some(pid) {
            EngineView { turn_ended: true, ..self }.advance_turn()
        } else {
            (self, Seq::empty())
        }
    }

    /// Bankruptcy of `pid` to `creditor` (the bank when `None`): assets handed
    /// over, player marked bankrupt, then the game goes on, ends or moves the turn.
    #[verifier::opaque]
    pub open spec fn bankrupt(self, pid: u128, creditor: Option<u128>) -> (EngineView, Seq<EventView>) {
        let s2 = self.bankrupt_assets(pid, creditor).mark_bankrupt(pid);
        let t = s2.after_bankruptcy(pid);
        (t.0, seq![EventView::PlayerBroke { player_id: pid, creditor }] + t.1)
    }

    /// `from` hands `pay` of its cash to `to` (to the bank when `None`).
    pub open spec fn transfer(self, from: u128, to: Option<u128>, pay: i64) -> (EngineView, Seq<EventView>) {
        let a = self.change_cash(from, (-pay) as i64);
        match to {
            Some(t) => {
                let b = a.0.change_cash(t, pay);
                (b.0, a.1 + b.1)
            },
            None => a,
        }
    }

    /// `from` pays `amount` to `to` (the bank when `None`). Short of money, it pays
    /// what cash it has and goes bankrupt to `to`.
    #[verifier::opaque]
    pub open spec fn pay_to(self, from: u128, to: Option<u128>, amount: u32) -> (EngineView, Seq<EventView>) {
        let cash = self.cash_of(from);
        if amount == 0 {
            (self, Seq::empty())
        } else if cash >= amount {
            self.transfer(from, to, amount as i64)
        } else {
            let paid = if cash > 0 { self.transfer(from, to, cash as i64) } else { (self, Seq::empty()) };
            let c = paid.0.bankrupt(from, to);
            (c.0, paid.1 + c.1)
        }
    }
}

/// What a command does: its answer, the state after it and the events it sends.
#[verifier::ext_equal]
pub struct Outcome {
    pub answer: Result<(), Seq<char>>,
    pub state: EngineView,
    pub events: Seq<EventView>,
}

/// A command refused with message `m`: nothing changes, nothing is sent.
pub open spec fn refused(s: EngineView, m: Seq<char>) -> Outcome {
    Outcome { answer: Err(m), state: s, events: Seq::empty() }
}

/// A command carried out, with the state and events `t`.
pub open spec fn accepted(t: (EngineView, Seq<EventView>)) -> Outcome {
    Outcome { answer: Ok(()), state: t.0, events: t.1 }
}

/// `r` is the answer of `o`, messages taken by their text.
pub open spec fn answers(r: Result<(), String>, o: Outcome) -> bool {
    match r {
        Ok(()) => o.answer is Ok,
        Err(m) => o.answer == Err::<(), Seq<char>>(m@),
    }
}

impl EngineView {
    /// Whether `pid` is a known player in jail.
    pub open spec fn jailed(self, pid: u128) -> bool {
        match self.pidx(pid) {
            Some(i) => self.players[i].in_jail,
            None => false,
        }
    }

    /// The state with `pid` (a known player) out of jail.
    pub open spec fn released(self, pid: u128) -> EngineView {
        let i = self.pidx(pid).unwrap();
        self.with_player(i, Player { in_jail: false, jail_turns: 0, ..self.players[i] })
    }

    /// `pid` pays the bail of 500,000 to the bank and leaves jail, unless the payment bankrupts it.
    pub open spec fn bail_out(self, pid: u128) -> (EngineView, Seq<EventView>) {
        let p = self.pay_to(pid, None, BAIL);
        if !p.0.broke_or_unknown(pid) {
            (p.0.released(pid), p.1.push(EventView::JailReleased { player_id: pid }))
        } else {
            p
        }
    }

    /// Paying the bail: only in jail; released unless the payment bankrupts.
    pub open spec fn pay_bail(self, pid: u128) -> Outcome {
        if !self.jailed(pid) {
            refused(self, "你不在狱中"@)
        } else {
            accepted(self.bail_out(pid))
        }
    }

    /// Using a get-out-of-jail card: only for a known player in jail with a card.
    pub open spec fn use_card(self, pid: u128) -> Outcome {
        match self.pidx(pid) {
            None => refused(self, "玩家不存在"@),
            Some(i) => if !self.players[i].in_jail {
                refused(self, "你不在狱中"@)
            } else if self.players[i].out_of_jail_cards == 0 {
                refused(self, "你没有出狱卡"@)
            } else {
                let q = Player {
                    out_of_jail_cards: (self.players[i].out_of_jail_cards - 1) as u8,
                    in_jail: false,
                    jail_turns: 0,
                    ..self.players[i]
                };
                accepted((self.with_player(i, q), seq![EventView::JailReleased { player_id: pid }]))
            },
        }
    }

    /// The tile under `pid`.
    pub open spec fn tile_under(self, pid: u128) -> Tile {
        self.board[self.position_of(pid) % (self.board.len() as int)]
    }

    /// Why the tile under `pid` cannot be bought or passed on, if it cannot.
    pub open spec fn unowned_error(self, pid: u128, phase_msg: Seq<char>) -> Option<Seq<char>> {
        let pos = self.position_of(pid);
        if self.phase != Phase::AwaitDecision {
            Some(phase_msg)
        } else if self.tile_under(pid).price == 0 {
            Some("该地块不可购买"@)
        } else if self.deeds.owner[self.deeds.idx(pos)] is Some {
            Some("该地块已被拥有"@)
        } else {
            None
        }
    }

    /// Buying the tile under `pid` at its price; then the turn ends as usual.
    pub open spec fn buy(self, pid: u128) -> Outcome {
        let pos = self.position_of(pid);
        let price = self.tile_under(pid).price;
        if self.unowned_error(pid, "当前无法购买"@) is Some {
            refused(self, self.unowned_error(pid, "当前无法购买"@).unwrap())
        } else if self.cash_of(pid) < price {
            refused(self, "资金不足，可先出售/抵押资产，或放弃购买触发拍卖"@)
        } else {
            let a = self.change_cash(pid, (-(price as int)) as i64);
            let b = EngineView { deeds: a.0.deeds.assigned(pos, pid), phase: Phase::AwaitRoll, ..a.0 };
            let c = b.finish_turn();
            accepted((c.0, a.1.push(EventView::PropertyBought { player_id: pid, tile_id: pos as usize, price }) + c.1))
        }
    }

    /// Passing on the tile under `pid`: a bank auction among the players not
    /// bankrupt starts, `pid` first.
    pub open spec fn pass(self, pid: u128) -> Outcome {
        let pos = self.position_of(pid);
        if self.unowned_error(pid, "当前无需放弃购买"@) is Some {
            refused(self, self.unowned_error(pid, "当前无需放弃购买"@).unwrap())
        } else {
            let order = self.alive();
            let a = AuctionView {
                tile_id: pos as usize,
                order,
                turn: match order.index_of_first(pid) { Some(i) => i as usize, None => 0 },
                highest_bid: 0,
                highest_bidder: None,
                passed: Seq::empty(),
            };
            accepted((EngineView { auction: Some(a), phase: Phase::InAuction, ..self },
                seq![EventView::AuctionStarted { tile_id: pos as usize }]))
        }
    }

    /// Closing a finished auction: the best bidder pays its bid to the bank and
    /// gets the tile unless that bankrupts it; then, unless the game ended, the
    /// turn ends as usual. Nothing happens while the auction runs.
    #[verifier::opaque]
    pub open spec fn finish_auction(self) -> (EngineView, Seq<EventView>) {
        match self.auction {
            None => (self, Seq::empty()),
            Some(a) => if !a.finished() {
                (self, Seq::empty())
            } else {
                let s0 = EngineView { auction: None, ..self };
                let tile = a.tile_id;
                let t1 = match a.highest_bidder {
                    Some(w) => {
                        let p = s0.pay_to(w, None, a.highest_bid);
                        if !p.0.broke_or_unknown(w) {
                            (EngineView { deeds: p.0.deeds.assigned(tile as int, w), ..p.0 },
                                p.1.push(EventView::AuctionEnded { tile_id: tile, winner: Some(w), amount: a.highest_bid }))
                        } else {
                            (p.0, p.1.push(EventView::AuctionEnded { tile_id: tile, winner: None, amount: a.highest_bid }))
                        }
                    },
                    None => (s0, seq![EventView::AuctionEnded { tile_id: tile, winner: None, amount: 0 }]),
                };
                if t1.0.phase != Phase::Over {
                    let f = EngineView { phase: Phase::AwaitRoll, ..t1.0 }.finish_turn();
                    (f.0, t1.1 + f.1)
                } else {
                    t1
                }
            },
        }
    }

    /// A bid of `amount` by `pid` in the running auction, which then may end.
    pub open spec fn bid(self, pid: u128, amount: u32) -> Outcome {
        if self.phase != Phase::InAuction || self.auction is None {
            refused(self, "当前没有拍卖"@)
        } else {
            let a = self.auction.unwrap();
            if a.current() != Some(pid) {
                refused(self, "还没轮到你出价"@)
            } else if amount == 0 {
                refused(self, "出价必须大于 0"@)
            } else if amount <= a.highest_bid {
                refused(self, "出价需高于当前最高价"@)
            } else {
                let b = AuctionView { highest_bid: amount, highest_bidder: Some(pid), ..a };
                let s1 = EngineView { auction: Some(AuctionView { turn: b.next_turn(), ..b }), ..self };
                let f = s1.finish_auction();
                accepted((f.0, seq![EventView::AuctionBid { player_id: pid, amount }] + f.1))
            }
        }
    }

    /// `pid` passes in the running auction, which then may end.
    pub open spec fn auction_pass(self, pid: u128) -> Outcome {
        if self.phase != Phase::InAuction || self.auction is None {
            refused(self, "当前没有拍卖"@)
        } else {
            let a = self.auction.unwrap();
            if a.current() != Some(pid) {
                refused(self, "还没轮到你"@)
            } else {
                let b = AuctionView { passed: a.passed.push(pid), ..a };
                let s1 = EngineView { auction: Some(AuctionView { turn: b.next_turn(), ..b }), ..self };
                let f = s1.finish_auction();
                accepted((f.0, seq![EventView::AuctionPassed { player_id: pid }] + f.1))
            }
        }
    }
}

impl EngineView {
    /// Why `pid` may not act: unknown or bankrupt.
    pub open spec fn require_error(self, pid: u128) -> Option<Seq<char>> {
        match self.pidx(pid) {
            None => Some("玩家不在本房间"@),
            Some(i) => if self.players[i].bankrupt { Some("玩家已破产"@) } else { None },
        }
    }

    /// Why `pid` may not handle `tile` as its own, if it may not.
    pub open spec fn own_tile_error(self, pid: u128, tile: int, msg: Seq<char>) -> Option<Seq<char>> {
        if self.require_error(pid) is Some {
            self.require_error(pid)
        } else if self.deeds.owner[self.deeds.idx(tile)] != Some(pid) {
            Some(msg)
        } else {
            None
        }
    }

    /// Building a house (or hotel) on a tile of `pid`, paying its building cost.
    pub open spec fn build_house(self, pid: u128, tile: int) -> Outcome {
        if self.own_tile_error(pid, tile, "只能在自己的地块建房"@) is Some {
            refused(self, self.own_tile_error(pid, tile, "只能在自己的地块建房"@).unwrap())
        } else if self.cash_of(pid) < self.board[tile % (self.board.len() as int)].building_cost {
            refused(self, "资金不足"@)
        } else {
            match self.deeds.build_outcome(self.board, tile) {
                Err(m) => refused(self, m),
                Ok(x) => {
                    let a = EngineView { deeds: x.0, ..self }.change_cash(pid, (-(x.1 as int)) as i64);
                    accepted((a.0, a.1.push(EventView::BuildHouse {
                        player_id: pid, tile_id: tile as usize, houses: x.0.houses[x.0.idx(tile)] })))
                },
            }
        }
    }

    /// Selling one building from a tile of `pid` for half its building cost.
    pub open spec fn sell_house(self, pid: u128, tile: int) -> Outcome {
        if self.own_tile_error(pid, tile, "只能出售自己地块上的房屋"@) is Some {
            refused(self, self.own_tile_error(pid, tile, "只能出售自己地块上的房屋"@).unwrap())
        } else {
            match self.deeds.sell_outcome(self.board, tile) {
                Err(m) => refused(self, m),
                Ok(x) => {
                    let a = EngineView { deeds: x.0, ..self }.change_cash(pid, x.1 as i64);
                    accepted((a.0, a.1.push(EventView::SoldHouse {
                        player_id: pid, tile_id: tile as usize, houses: x.0.houses[x.0.idx(tile)] })))
                },
            }
        }
    }

    /// Mortgaging a tile of `pid` for its mortgage value.
    pub open spec fn mortgage(self, pid: u128, tile: int) -> Outcome {
        if self.own_tile_error(pid, tile, "只能抵押自己的地块"@) is Some {
            refused(self, self.own_tile_error(pid, tile, "只能抵押自己的地块"@).unwrap())
        } else {
            match self.deeds.mortgage_outcome(self.board, tile) {
                Err(m) => refused(self, m),
                Ok(x) => {
                    let a = EngineView { deeds: x.0, ..self }.change_cash(pid, x.1 as i64);
                    accepted((a.0, a.1.push(EventView::Mortgaged { player_id: pid, tile_id: tile as usize, amount: x.1 })))
                },
            }
        }
    }

    /// Lifting the mortgage on a tile of `pid` for the mortgage value plus 10%.
    /// Short of cash, the answer is an error, yet the mortgage stays lifted.
    pub open spec fn unmortgage(self, pid: u128, tile: int) -> Outcome {
        if self.own_tile_error(pid, tile, "只能赎回自己的地块"@) is Some {
            refused(self, self.own_tile_error(pid, tile, "只能赎回自己的地块"@).unwrap())
        } else {
            match self.deeds.unmortgage_outcome(self.board, tile) {
                Err(m) => refused(self, m),
                Ok(x) => {
                    let s1 = EngineView { deeds: x.0, ..self };
                    if self.cash_of(pid) < x.1 {
                        Outcome { answer: Err("资金不足，无法赎回"@), state: s1, events: Seq::empty() }
                    } else {
                        let a = s1.change_cash(pid, (-(x.1 as int)) as i64);
                        accepted((a.0, a.1.push(EventView::Unmortgaged { player_id: pid, tile_id: tile as usize, cost: x.1 })))
                    }
                },
            }
        }
    }
}

/// The first index at or after `k` of a trade with id `id` addressed to `to`.
pub open spec fn trade_index(ts: Seq<TradeView>, id: u128, to: u128, k: int) -> Option<int>
    decreases ts.len() - k,
{
    if k < 0 || k >= ts.len() {
        None
    } else if ts[k].id == id && ts[k].to == to {
        Some(k)
    } else {
        trade_index(ts, id, to, k + 1)
    }
}

impl EngineView {
    /// Why `tiles[k..]` cannot be traded by `player`: one it does not own, or
    /// one with buildings or a mortgage.
    pub open spec fn tiles_error(self, player: u128, tiles: Seq<usize>, k: int) -> Option<Seq<char>>
        decreases tiles.len() - k,
    {
        if k < 0 || k >= tiles.len() {
            None
        } else {
            let i = self.deeds.idx(tiles[k] as int);
            if self.deeds.owner[i] != Some(player) {
                Some("筹码中的地块不属于该玩家"@)
            } else if self.deeds.houses[i] > 0 || self.deeds.mortgaged[i] {
                Some("含房屋或抵押的地块需先处理后再交易"@)
            } else {
                self.tiles_error(player, tiles, k + 1)
            }
        }
    }

    /// Why `player` cannot give `a`: more cards than it holds, or a tile it cannot trade.
    pub open spec fn assets_error(self, player: u128, a: AssetView) -> Option<Seq<char>> {
        let max_cards = match self.pidx(player) { Some(i) => self.players[i].out_of_jail_cards, None => 0u8 };
        if a.out_of_jail_cards > max_cards {
            Some("出狱卡数量不足"@)
        } else {
            self.tiles_error(player, a.tiles, 0)
        }
    }

    /// Moves `n` get-out-of-jail cards from `from` to `to`.
    pub open spec fn move_cards(self, from: u128, to: u128, n: u8) -> EngineView {
        let s1 = match self.pidx(from) {
            Some(i) => self.with_player(i, Player {
                out_of_jail_cards: (self.players[i].out_of_jail_cards - n) as u8, ..self.players[i] }),
            None => self,
        };
        match s1.pidx(to) {
            Some(j) => s1.with_player(j, Player {
                out_of_jail_cards: (s1.players[j].out_of_jail_cards + n) as u8, ..s1.players[j] }),
            None => s1,
        }
    }

    /// `from` gives `a` to `to`: the cash (as a payment), then the tiles, then the cards.
    pub open spec fn give(self, from: u128, to: u128, a: AssetView) -> (EngineView, Seq<EventView>) {
        let p = if a.cash > 0 { self.pay_to(from, Some(to), a.cash as u32) } else { (self, Seq::empty()) };
        let s1 = EngineView { deeds: p.0.deeds.assigned_all(a.tiles, to), ..p.0 };
        let s2 = if a.out_of_jail_cards > 0 { s1.move_cards(from, to, a.out_of_jail_cards) } else { s1 };
        (s2, p.1)
    }

    /// Proposing a trade with id `id`: `pid` offers `offer` to `target` for
    /// `demand`; both must be players still in the game, the cash must not be
    /// negative, and each side must hold what it would give.
    pub open spec fn propose_trade(self, pid: u128, target: u128, offer: AssetView, demand: AssetView, id: u128) -> Outcome {
        if self.require_error(pid) is Some {
            refused(self, self.require_error(pid).unwrap())
        } else if self.require_error(target) is Some {
            refused(self, self.require_error(target).unwrap())
        } else if target == pid {
            refused(self, "不能和自己交易"@)
        } else if offer.cash < 0 || demand.cash < 0 {
            refused(self, "交易金额不能为负"@)
        } else if self.cash_of(pid) < offer.cash {
            refused(self, "出价现金超出你的余额"@)
        } else if self.assets_error(pid, offer) is Some {
            refused(self, self.assets_error(pid, offer).unwrap())
        } else if self.assets_error(target, demand) is Some {
            refused(self, self.assets_error(target, demand).unwrap())
        } else {
            let t = TradeView { id, from: pid, to: target, offer, demand };
            accepted((EngineView { pending_trades: self.pending_trades.push(t), ..self },
                seq![EventView::TradeProposed { trade_id: id, from: pid, to: target, offer, demand }]))
        }
    }

    /// Why the pending trade `t` cannot be carried out now.
    pub open spec fn trade_error(self, t: TradeView) -> Option<Seq<char>> {
        if self.require_error(t.from) is Some {
            self.require_error(t.from)
        } else if self.require_error(t.to) is Some {
            self.require_error(t.to)
        } else if self.cash_of(t.to) < t.demand.cash {
            Some("你现金不足，无法接受该交易"@)
        } else if self.cash_of(t.from) < t.offer.cash {
            Some("对方现金不足以完成该交易"@)
        } else if self.assets_error(t.from, t.offer) is Some {
            self.assets_error(t.from, t.offer)
        } else if self.assets_error(t.to, t.demand) is Some {
            self.assets_error(t.to, t.demand)
        } else {
            None
        }
    }

    /// `pid` accepts the pending trade `trade_id` addressed to it: checked again
    /// in full (on failure it stays pending), then removed and carried out,
    /// offer first.
    pub open spec fn accept_trade(self, pid: u128, trade_id: u128) -> Outcome {
        match trade_index(self.pending_trades, trade_id, pid, 0) {
            None => refused(self, "交易不存在或不属于你"@),
            Some(k) => {
                let t = self.pending_trades[k];
                if self.trade_error(t) is Some {
                    refused(self, self.trade_error(t).unwrap())
                } else {
                    let s1 = EngineView { pending_trades: self.pending_trades.remove(k), ..self };
                    let a = s1.give(t.from, t.to, t.offer);
                    let b = a.0.give(t.to, t.from, t.demand);
                    accepted((b.0, a.1 + b.1 + seq![EventView::TradeAccepted { trade_id }]))
                }
            },
        }
    }

    /// `pid` declines the pending trade `trade_id` addressed to it.
    pub open spec fn decline_trade(self, pid: u128, trade_id: u128) -> Outcome {
        match trade_index(self.pending_trades, trade_id, pid, 0) {
            None => refused(self, "交易不存在或不属于你"@),
            Some(k) => accepted((EngineView { pending_trades: self.pending_trades.remove(k), ..self },
                seq![EventView::TradeDeclined { trade_id }])),
        }
    }
}

/// A transfer changes nothing but cash: the payer's goes down, everyone else's
/// does not; a transfer to oneself changes nothing.
pub proof fn lemma_transfer_players(s: EngineView, from: u128, to: Option<u128>, pay: i64)
    requires
        s.wf(),
        room(s, 1),
        0 <= pay <= u32::MAX,
    ensures
        s.transfer(from, to, pay).0 == (EngineView { players: s.transfer(from, to, pay).0.players, ..s }),
        s.transfer(from, to, pay).0.players.len() == s.players.len(),
        forall|i: int| 0 <= i < s.players.len() ==> (#[trigger] s.transfer(from, to, pay).0.players[i])
            == (Player { cash: s.transfer(from, to, pay).0.players[i].cash, ..s.players[i] }),
        forall|i: int| 0 <= i < s.players.len() && Some(i) != s.pidx(from) ==>
            (#[trigger] s.transfer(from, to, pay).0.players[i]).cash >= s.players[i].cash,
        to == Some(from) ==> s.transfer(from, to, pay).0.players == s.players,
{
    let a = s.change_cash(from, (-pay) as i64);
    lemma_find(s.players, from);
    lemma_change_cash(s, from, (-pay) as i64);
    lemma_find_same_ids(s.players, a.0.players, from);
    if let Some(t) = to {
        lemma_find(a.0.players, t);
        lemma_find_same_ids(s.players, a.0.players, t);
        if t == from {
            if let Some(i) = s.pidx(from) {
                assert(s.transfer(from, to, pay).0.players =~= s.players);
            }
        }
    }
}

/// Replacing a player by one with the same id and cash, a position on the
/// board and no more cards keeps the state consistent and drifts by nothing.
pub proof fn lemma_with_player(s: EngineView, i: int, p: Player)
    requires
        s.wf(),
        0 <= i < s.players.len(),
        p.id == s.players[i].id,
        p.cash == s.players[i].cash,
        p.position < s.board.len(),
        p.out_of_jail_cards <= s.players[i].out_of_jail_cards,
    ensures
        s.with_player(i, p).wf(),
        drift(s, s.with_player(i, p), 0, 0, 0, 0),
{
    lemma_cards_update(s.players, i, p, s.players.len() as int);
}

/// Moving the turn on keeps players and register: at most one round passes.
pub proof fn lemma_advance_turn_drift(s: EngineView)
    requires
        s.wf(),
        s.players.len() > 0,
    ensures
        drift(s, s.advance_turn().0, 0, 0, 0, 1),
        s.advance_turn().0.players == s.players,
        s.advance_turn().0.deeds == s.deeds,
{
    reveal(EngineView::advance_turn);
}

/// The end of a turn only moves the turn on: players and register stay, at most one round passes.
pub proof fn lemma_finish_turn_drift(s: EngineView)
    requires
        s.wf(),
        s.players.len() > 0,
    ensures
        drift(s, s.finish_turn().0, 0, 0, 0, 1),
        s.finish_turn().0.players == s.players,
        s.finish_turn().0.deeds == s.deeds,
{
    reveal(EngineView::finish_turn);
    lemma_advance_turn_drift(s);
    lemma_advance_turn_drift(EngineView { turn_ended: true, ..s });
}

/// `b` is `a` after at most `cash` change of any player's cash, `cards` more cards
/// in all, `houses` more house potential, `rounds` more rounds, the same hotel
/// stock, the same players in the same seats.
pub open spec fn drift(a: EngineView, b: EngineView, cash: int, cards: int, houses: int, rounds: int) -> bool {
    &&& b.players.len() == a.players.len()
    &&& forall|i: int| 0 <= i < a.players.len() ==> (#[trigger] b.players[i]).id == a.players[i].id
    &&& forall|i: int| 0 <= i < a.players.len() ==>
        a.players[i].cash - cash <= #[trigger] b.players[i].cash <= a.players[i].cash + cash
    &&& total_cards(b.players) <= total_cards(a.players) + cards
    &&& b.deeds.house_potential() <= a.deeds.house_potential() + houses
    &&& b.deeds.hotel_stock() == a.deeds.hotel_stock()
    &&& b.round <= a.round + rounds
    &&& b.settings == a.settings
    &&& b.board == a.board
}

/// Drifts add up.
pub proof fn lemma_drift_trans(a: EngineView, b: EngineView, c: EngineView,
    c1: int, k1: int, h1: int, r1: int, c2: int, k2: int, h2: int, r2: int)
    requires
        drift(a, b, c1, k1, h1, r1),
        drift(b, c, c2, k2, h2, r2),
    ensures
        drift(a, c, c1 + c2, k1 + k2, h1 + h2, r1 + r2),
{
    assert forall|i: int| 0 <= i < a.players.len() implies
        a.players[i].cash - (c1 + c2) <= #[trigger] c.players[i].cash <= a.players[i].cash + (c1 + c2) by {
        assert(b.players[i].cash == b.players[i].cash);
    }
}

/// A state drifts from itself by nothing.
pub proof fn lemma_drift_refl(a: EngineView)
    ensures
        drift(a, a, 0, 0, 0, 0),
{
}

/// Room for `k` more steps of the engine's arithmetic, where a step moves any
/// player's cash by at most 2^40, adds at most one card, four to the house
/// potential and one round: cash within `[-(2^60 - k*2^40), 2^60 - k*2^40]`, at
/// most `250 - k` cards in all, house potential and hotel stock within `u16`,
/// rounds well below the `u32` limit.
pub open spec fn room(s: EngineView, k: int) -> bool {
    &&& 0 <= k
    &&& cash_in(s.players, 0x1000_0000_0000_0000 - k * 0x100_0000_0000)
    &&& total_cards(s.players) <= 250 - k
    &&& s.deeds.house_potential() <= u16::MAX - 4 * k
    &&& s.deeds.hotel_stock() <= u16::MAX
    &&& s.round <= u32::MAX - 8 - k
}

/// A drift of `j` steps uses up `j` of the room.
pub proof fn lemma_room_drift(a: EngineView, b: EngineView, k: int, j: int, c: int, cards: int, h: int, r: int)
    requires
        room(a, k),
        0 <= j <= k,
        drift(a, b, c, cards, h, r),
        0 <= c <= j * 0x100_0000_0000,
        cards <= j,
        h <= 4 * j,
        r <= j,
    ensures
        room(b, k - j),
{
    assert forall|i: int| 0 <= i < b.players.len() implies
        -(0x1000_0000_0000_0000 - (k - j) * 0x100_0000_0000) <= #[trigger] b.players[i].cash
            <= 0x1000_0000_0000_0000 - (k - j) * 0x100_0000_0000 by {
        assert(-(0x1000_0000_0000_0000 - k * 0x100_0000_0000) <= a.players[i].cash <= 0x1000_0000_0000_0000 - k * 0x100_0000_0000);
    }
}

/// Less room is implied by more.
pub proof fn lemma_room_less(a: EngineView, k: int, j: int)
    requires
        room(a, k),
        0 <= j <= k,
    ensures
        room(a, j),
{
    assert forall|i: int| 0 <= i < a.players.len() implies
        -(0x1000_0000_0000_0000 - j * 0x100_0000_0000) <= #[trigger] a.players[i].cash
            <= 0x1000_0000_0000_0000 - j * 0x100_0000_0000 by {
        assert(-(0x1000_0000_0000_0000 - k * 0x100_0000_0000) <= a.players[i].cash <= 0x1000_0000_0000_0000 - k * 0x100_0000_0000);
    }
}

/// Players keep their seats across a drift, so lookups by id agree.
pub proof fn lemma_drift_pidx(a: EngineView, b: EngineView, c: int, cards: int, h: int, r: int, id: u128)
    requires
        drift(a, b, c, cards, h, r),
    ensures
        a.pidx(id) == b.pidx(id),
{
    crate::engine::lemma_find_same_ids(a.players, b.players, id);
}

/// A change of cash keeps the state consistent and drifts by the change.
pub proof fn lemma_change_cash(s: EngineView, id: u128, delta: i64)
    requires
        s.wf(),
        s.pidx(id) matches Some(i) ==> i64::MIN <= s.players[i].cash + delta <= i64::MAX,
    ensures
        s.change_cash(id, delta).0.wf(),
        drift(s, s.change_cash(id, delta).0, if delta < 0 { -delta } else { delta as int }, 0, 0, 0),
{
    lemma_find(s.players, id);
    if let Some(i) = s.pidx(id) {
        let t = s.change_cash(id, delta).0;
        lemma_cards_update(s.players, i, t.players[i], s.players.len() as int);
        assert(t.players =~= s.players.update(i, t.players[i]));
    }
}

impl GameEngine {
    fn bankrupt_assets(&mut self, pid: u128, creditor: Option<u128>)
        requires
            old(self)@.wf(),
            room(old(self)@, 0),
        ensures
            final(self)@ == old(self)@.bankrupt_assets(pid, creditor),
            final(self)@.wf(),
            drift(old(self)@, final(self)@, 0, 0, 0, 0),
    {
        let ghost s0 = self@;
        match creditor {
            Some(cred) => {
                self.deeds.transfer_player(pid, cred);
                let cards: u8 = match self.player_index(pid) {
                    Some(i) => self.players[i].out_of_jail_cards,
                    None => 0,
                };
                match self.player_index(pid) {
                    Some(i) => {
                        self.players[i].out_of_jail_cards = 0;
                        proof { lemma_cards_update(s0.players, i as int, self@.players[i as int], s0.players.len() as int); }
                    },
                    None => {},
                }
                let ghost d2 = self@;
                proof {
                    lemma_find_same_ids(s0.players, d2.players, cred);
                    lemma_find(s0.players, pid);
                    lemma_find(s0.players, cred);
                }
                match self.player_index(cred) {
                    Some(j) => {
                        proof {
                            lemma_cards_le_total(s0.players, j as int, j as int, s0.players.len() as int);
                            if s0.pidx(pid) is Some && s0.pidx(pid).unwrap() != j as int {
                                lemma_cards_le_total(s0.players, j as int, s0.pidx(pid).unwrap(), s0.players.len() as int);
                            }
                        }
                        self.players[j].out_of_jail_cards = self.players[j].out_of_jail_cards + cards;
                        proof { lemma_cards_update(d2.players, j as int, self@.players[j as int], d2.players.len() as int); }
                    },
                    None => {},
                }
                proof { assert(self@ =~= s0.bankrupt_assets(pid, creditor)); }
            },
            None => {
                self.deeds.clear_player(&self.board, pid);
                proof { assert(self@ =~= s0.bankrupt_assets(pid, creditor)); }
            },
        }
    }

    fn mark_bankrupt(&mut self, pid: u128)
        requires
            old(self)@.wf(),
        ensures
            final(self)@ == old(self)@.mark_bankrupt(pid),
            final(self)@.wf(),
            drift(old(self)@, final(self)@, 0, 0, 0, 0),
    {
        let ghost s0 = self@;
        match self.player_index(pid) {
            Some(i) => {
                self.players[i].bankrupt = true;
                proof {
                    lemma_cards_update(s0.players, i as int, self@.players[i as int], s0.players.len() as int);
                    assert(self@ =~= s0.mark_bankrupt(pid));
                }
            },
            None => {},
        }
    }

    fn after_bankruptcy(&mut self, pid: u128, events: &mut Vec<Event>)
        requires
            old(self)@.wf(),
            old(self)@.players.len() > 0,
            room(old(self)@, 0),
        ensures
            final(self)@ == old(self)@.after_bankruptcy(pid).0,
            evs(final(events)@) == evs(old(events)@) + old(self)@.after_bankruptcy(pid).1,
            final(self)@.wf(),
            drift(old(self)@, final(self)@, 0, 0, 0, 1),
    {
        let alive = self.alive_players();
        if alive.len() == 0 {
            self.phase = Phase::Over;
            proof { assert(evs(old(events)@) + Seq::<EventView>::empty() =~= evs(old(events)@)); }
        } else if alive.len() == 1 {
            self.phase = Phase::Over;
            let winner = alive[0];
            self.winner = Some(winner);
            let rank = self.ranking();
            emit(events, Event::GameEnded { winner, rank });
            proof { assert(evs(events@) =~= evs(old(events)@) + old(self)@.after_bankruptcy(pid).1); }
        } else if self.current_player_id() == Some(pid) {
            self.turn_ended = true;
            proof { lemma_advance_turn_drift(self@); }
            self.advance_turn(events);
        } else {
            proof { assert(evs(old(events)@) + Seq::<EventView>::empty() =~= evs(old(events)@)); }
        }
    }

    /// Bankruptcy of `pid` (see [`EngineView::bankrupt`]).
    pub(crate) fn bankrupt(&mut self, pid: u128, creditor: Option<u128>, events: &mut Vec<Event>)
        requires
            old(self)@.wf(),
            old(self)@.players.len() > 0,
            room(old(self)@, 0),
        ensures
            final(self)@ == old(self)@.bankrupt(pid, creditor).0,
            evs(final(events)@) == evs(old(events)@) + old(self)@.bankrupt(pid, creditor).1,
            final(self)@.wf(),
            drift(old(self)@, final(self)@, 0, 0, 0, 1),
    {
        let ghost s0 = self@;
        proof { reveal(EngineView::bankrupt); }
        self.bankrupt_assets(pid, creditor);
        let ghost s1 = self@;
        self.mark_bankrupt(pid);
        let ghost s2 = self@;
        proof {
            lemma_find_same_ids(s0.players, s1.players, pid);
            lemma_drift_trans(s0, s1, s2, 0, 0, 0, 0, 0, 0, 0, 0);
        }
        emit(events, Event::PlayerBroke { player_id: pid, creditor });
        let ghost e1 = events@;
        self.after_bankruptcy(pid, events);
        proof {
            lemma_drift_trans(s0, s2, self@, 0, 0, 0, 0, 0, 0, 0, 1);
            assert(evs(events@) =~= evs(old(events)@) + s0.bankrupt(pid, creditor).1);
        }
    }
}


impl GameEngine {
    /// `from` hands `pay` to `to` (see [`EngineView::transfer`]).
    fn transfer(&mut self, from: u128, to: Option<u128>, pay: i64, events: &mut Vec<Event>)
        requires
            old(self)@.wf(),
            room(old(self)@, 1),
            0 <= pay <= u32::MAX,
        ensures
            final(self)@ == old(self)@.transfer(from, to, pay).0,
            evs(final(events)@) == evs(old(events)@) + old(self)@.transfer(from, to, pay).1,
            final(self)@.wf(),
            drift(old(self)@, final(self)@, 2 * pay, 0, 0, 0),
    {
        let ghost s0 = self@;
        let ghost e0 = evs(events@);
        proof {
            lemma_find(s0.players, from);
            lemma_change_cash(s0, from, (-pay) as i64);
        }
        self.change_cash(from, -pay, events);
        let ghost s1 = self@;
        match to {
            Some(t) => {
                proof {
                    lemma_find(s1.players, t);
                    lemma_change_cash(s1, t, pay);
                }
                self.change_cash(t, pay, events);
                proof {
                    lemma_drift_trans(s0, s1, self@, pay as int, 0, 0, 0, pay as int, 0, 0, 0);
                    assert(evs(events@) =~= e0 + (s0.change_cash(from, (-pay) as i64).1 + s1.change_cash(t, pay).1));
                }
            },
            None => {},
        }
    }
}

impl GameEngine {
    /// `from` pays `amount` (see [`EngineView::pay_to`]).
    pub(crate) fn pay_to(&mut self, from: u128, to: Option<u128>, amount: u32, events: &mut Vec<Event>)
        requires
            old(self)@.wf(),
            old(self)@.players.len() > 0,
            room(old(self)@, 1),
        ensures
            final(self)@ == old(self)@.pay_to(from, to, amount).0,
            evs(final(events)@) == evs(old(events)@) + old(self)@.pay_to(from, to, amount).1,
            final(self)@.wf(),
            drift(old(self)@, final(self)@, 2 * amount, 0, 0, 1),
    {
        let ghost s0 = self@;
        let ghost e0 = evs(events@);
        proof { reveal(EngineView::pay_to); }
        if amount == 0 {
            proof {
                assert(e0 + Seq::<EventView>::empty() =~= e0);
                lemma_drift_refl(s0);
            }
            return;
        }
        let cash = self.player_cash(from);
        if cash >= amount as i64 {
            self.transfer(from, to, amount as i64, events);
            return;
        }
        if cash > 0 {
            self.transfer(from, to, cash, events);
        } else {
            proof {
                lemma_drift_refl(s0);
                assert(e0 + Seq::<EventView>::empty() =~= e0);
            }
        }
        let ghost s2 = self@;
        let ghost e2 = evs(events@);
        proof {
            lemma_room_drift(s0, s2, 1, 1, 2 * amount, 0, 0, 0);
            lemma_drift_pidx(s0, s2, 2 * amount, 0, 0, 0, from);
        }
        self.bankrupt(from, to, events);
        proof {
            lemma_drift_trans(s0, s2, self@, 2 * amount, 0, 0, 0, 0, 0, 0, 1);
            assert(evs(events@) =~= e0 + (s0.pay_to(from, to, amount).1));
        }
    }
}


impl GameEngine {
    /// Pays the bail (see [`EngineView::pay_bail`]).
    pub(crate) fn do_pay_bail(&mut self, pid: u128, events: &mut Vec<Event>) -> (r: Result<(), String>)
        requires
            old(self)@.wf(),
            room(old(self)@, 1),
        ensures
            answers(r, old(self)@.pay_bail(pid)),
            final(self)@ == old(self)@.pay_bail(pid).state,
            evs(final(events)@) == evs(old(events)@) + old(self)@.pay_bail(pid).events,
            final(self)@.wf(),
            drift(old(self)@, final(self)@, 0x10_0000, 0, 0, 1),
    {
        let ghost s0 = self@;
        let ghost e0 = evs(events@);
        let in_jail = match self.player_index(pid) {
            Some(i) => self.players[i].in_jail,
            None => false,
        };
        if !in_jail {
            proof {
                lemma_drift_refl(s0);
                assert(e0 + Seq::<EventView>::empty() =~= e0);
            }
            return Err(String::from_str("你不在狱中"));
        }
        self.bail_out(pid, events);
        Ok(())
    }

    /// Pays the bail to leave jail (see [`EngineView::bail_out`]).
    pub(crate) fn bail_out(&mut self, pid: u128, events: &mut Vec<Event>)
        requires
            old(self)@.wf(),
            old(self)@.players.len() > 0,
            room(old(self)@, 1),
        ensures
            final(self)@ == old(self)@.bail_out(pid).0,
            evs(final(events)@) == evs(old(events)@) + old(self)@.bail_out(pid).1,
            final(self)@.wf(),
            drift(old(self)@, final(self)@, 0x10_0000, 0, 0, 1),
    {
        let ghost s0 = self@;
        let ghost e0 = evs(events@);
        self.pay_to(pid, None, BAIL, events);
        let ghost s1 = self@;
        let ghost e1 = evs(events@);
        proof { lemma_find(s1.players, pid); }
        match self.player_index(pid) {
            Some(i) => {
                if !self.players[i].bankrupt {
                    proof {
                        lemma_with_player(s1, i as int, Player { in_jail: false, jail_turns: 0, ..s1.players[i as int] });
                    }
                    self.players[i].in_jail = false;
                    self.players[i].jail_turns = 0;
                    emit(events, Event::JailReleased { player_id: pid });
                    proof {
                        assert(self@ =~= s1.released(pid));
                        lemma_drift_trans(s0, s1, self@, 0x10_0000, 0, 0, 1, 0, 0, 0, 0);
                        assert(evs(events@) =~= e0 + s0.bail_out(pid).1) by {
                            assert(evs(events@) =~= e1.push(EventView::JailReleased { player_id: pid }));
                        }
                    }
                }
            },
            None => {},
        }
    }

    /// Uses a get-out-of-jail card (see [`EngineView::use_card`]).
    pub(crate) fn do_use_card(&mut self, pid: u128, events: &mut Vec<Event>) -> (r: Result<(), String>)
        requires
            old(self)@.wf(),
        ensures
            answers(r, old(self)@.use_card(pid)),
            final(self)@ == old(self)@.use_card(pid).state,
            evs(final(events)@) == evs(old(events)@) + old(self)@.use_card(pid).events,
            final(self)@.wf(),
            drift(old(self)@, final(self)@, 0, 0, 0, 0),
    {
        let ghost s0 = self@;
        let ghost e0 = evs(events@);
        proof {
            lemma_drift_refl(s0);
            assert(e0 + Seq::<EventView>::empty() =~= e0);
        }
        let i = match self.player_index(pid) {
            Some(i) => i,
            None => return Err(String::from_str("玩家不存在")),
        };
        if !self.players[i].in_jail {
            return Err(String::from_str("你不在狱中"));
        }
        if self.players[i].out_of_jail_cards == 0 {
            return Err(String::from_str("你没有出狱卡"));
        }
        let ghost q = Player {
            out_of_jail_cards: (s0.players[i as int].out_of_jail_cards - 1) as u8,
            in_jail: false,
            jail_turns: 0,
            ..s0.players[i as int]
        };
        proof { lemma_with_player(s0, i as int, q); }
        self.players[i].out_of_jail_cards = self.players[i].out_of_jail_cards - 1;
        self.players[i].in_jail = false;
        self.players[i].jail_turns = 0;
        emit(events, Event::JailReleased { player_id: pid });
        proof {
            assert(self@ =~= s0.with_player(i as int, q));
            assert(evs(events@) =~= e0 + s0.use_card(pid).events);
        }
        Ok(())
    }

    /// Checks the tile under `pid` for a purchase or a pass (see [`EngineView::unowned_error`]).
    fn check_unowned(&self, pid: u128, phase_msg: &str) -> (r: Result<(usize, u32), String>)
        requires
            self@.wf(),
        ensures
            r matches Ok(x) ==> self@.unowned_error(pid, phase_msg@) is None
                && x.0 == self@.position_of(pid) && x.1 == self@.tile_under(pid).price,
            r matches Err(m) ==> self@.unowned_error(pid, phase_msg@) == Some(m@),
    {
        if self.phase != Phase::AwaitDecision {
            return Err(phase_msg.to_string());
        }
        let pos = self.player_position(pid);
        let price = self.board.tile(pos).price;
        if price == 0 {
            return Err(String::from_str("该地块不可购买"));
        }
        if self.deeds.owner(pos).is_some() {
            return Err(String::from_str("该地块已被拥有"));
        }
        Ok((pos, price))
    }

    /// Buys the tile under `pid` (see [`EngineView::buy`]).
    pub(crate) fn do_buy(&mut self, pid: u128, events: &mut Vec<Event>) -> (r: Result<(), String>)
        requires
            old(self)@.wf(),
            room(old(self)@, 1),
        ensures
            answers(r, old(self)@.buy(pid)),
            final(self)@ == old(self)@.buy(pid).state,
            evs(final(events)@) == evs(old(events)@) + old(self)@.buy(pid).events,
            final(self)@.wf(),
            drift(old(self)@, final(self)@, 100_000_000, 0, 0, 1),
    {
        let ghost s0 = self@;
        let ghost e0 = evs(events@);
        proof {
            lemma_drift_refl(s0);
            assert(e0 + Seq::<EventView>::empty() =~= e0);
        }
        let (pos, price) = match self.check_unowned(pid, "当前无法购买") {
            Ok(x) => x,
            Err(e) => return Err(e),
        };
        if self.player_cash(pid) < price as i64 {
            return Err(String::from_str("资金不足，可先出售/抵押资产，或放弃购买触发拍卖"));
        }
        proof {
            lemma_find(s0.players, pid);
            assert(s0.board[(pos as int) % (s0.board.len() as int)].amounts_bounded());
            lemma_change_cash(s0, pid, (-(price as int)) as i64);
        }
        self.change_cash(pid, -(price as i64), events);
        self.deeds.assign(pos, pid);
        emit(events, Event::PropertyBought { player_id: pid, tile_id: pos, price });
        self.phase = Phase::AwaitRoll;
        let ghost s1 = self@;
        let ghost e1 = evs(events@);
        proof {
            lemma_room_drift(s0, s1, 1, 1, 100_000_000, 0, 0, 0);
            lemma_finish_turn_drift(s1);
        }
        self.finish_turn_if_needed(events);
        proof {
            lemma_drift_trans(s0, s1, self@, 100_000_000, 0, 0, 0, 0, 0, 0, 1);
            assert(evs(events@) =~= e0 + s0.buy(pid).events);
        }
        Ok(())
    }

    /// Passes on the tile under `pid` (see [`EngineView::pass`]).
    pub(crate) fn do_pass(&mut self, pid: u128, events: &mut Vec<Event>) -> (r: Result<(), String>)
        requires
            old(self)@.wf(),
        ensures
            answers(r, old(self)@.pass(pid)),
            final(self)@ == old(self)@.pass(pid).state,
            evs(final(events)@) == evs(old(events)@) + old(self)@.pass(pid).events,
            final(self)@.wf(),
            drift(old(self)@, final(self)@, 0, 0, 0, 0),
    {
        let ghost s0 = self@;
        let ghost e0 = evs(events@);
        proof {
            lemma_drift_refl(s0);
            assert(e0 + Seq::<EventView>::empty() =~= e0);
        }
        let (pos, _price) = match self.check_unowned(pid, "当前无需放弃购买") {
            Ok(x) => x,
            Err(e) => return Err(e),
        };
        let order = self.alive_players();
        proof { crate::engine::lemma_alive_len(s0.players, s0.players.len() as int); }
        let a = Auction::new(pos, order, pid);
        self.auction = Some(a);
        self.phase = Phase::InAuction;
        emit(events, Event::AuctionStarted { tile_id: pos });
        proof {
            assert(self@ =~= s0.pass(pid).state);
            assert(evs(events@) =~= e0 + s0.pass(pid).events);
        }
        Ok(())
    }
}


impl GameEngine {
    /// Closes the auction when it is finished (see [`EngineView::finish_auction`]).
    fn try_finish_auction(&mut self, events: &mut Vec<Event>)
        requires
            old(self)@.wf(),
            old(self)@.players.len() > 0,
            room(old(self)@, 1),
        ensures
            final(self)@ == old(self)@.finish_auction().0,
            evs(final(events)@) == evs(old(events)@) + old(self)@.finish_auction().1,
            final(self)@.wf(),
            drift(old(self)@, final(self)@, 0x2_0000_0000, 0, 0, 2),
    {
        let ghost s0 = self@;
        let ghost e0 = evs(events@);
        proof {
            reveal(EngineView::finish_auction);
            lemma_drift_refl(s0);
            assert(e0 + Seq::<EventView>::empty() =~= e0);
        }
        let finished = match &self.auction {
            Some(a) => a.is_finished(),
            None => false,
        };
        if !finished {
            return;
        }
        let auction = match self.auction.take() {
            Some(a) => a,
            None => return,
        };
        let ghost av = auction@;
        let tile = auction.tile();
        let ghost sa = self@;
        proof { lemma_drift_refl(sa); }
        match auction.winner() {
            Some(w) => {
                let amount = auction.best_bid();
                self.pay_to(w, None, amount, events);
                let ghost s1 = self@;
                proof { lemma_find(s1.players, w); }
                let still = match self.player_index(w) {
                    Some(i) => !self.players[i].bankrupt,
                    None => false,
                };
                if still {
                    self.deeds.assign(tile, w);
                    emit(events, Event::AuctionEnded { tile_id: tile, winner: Some(w), amount });
                } else {
                    emit(events, Event::AuctionEnded { tile_id: tile, winner: None, amount });
                }
                proof {
                    assert(self@.players == s1.players);
                    lemma_drift_trans(sa, s1, self@, 2 * amount, 0, 0, 1, 0, 0, 0, 0);
                }
            },
            None => {
                emit(events, Event::AuctionEnded { tile_id: tile, winner: None, amount: 0 });
            },
        }
        let ghost s2 = self@;
        let ghost e2 = evs(events@);
        proof {
            let t1 = match av.highest_bidder {
                Some(w) => {
                    let p = sa.pay_to(w, None, av.highest_bid);
                    if !p.0.broke_or_unknown(w) {
                        (EngineView { deeds: p.0.deeds.assigned(tile as int, w), ..p.0 },
                            p.1.push(EventView::AuctionEnded { tile_id: tile, winner: Some(w), amount: av.highest_bid }))
                    } else {
                        (p.0, p.1.push(EventView::AuctionEnded { tile_id: tile, winner: None, amount: av.highest_bid }))
                    }
                },
                None => (sa, seq![EventView::AuctionEnded { tile_id: tile, winner: None, amount: 0 }]),
            };
            assert(s2 =~= t1.0);
            assert(e2 =~= e0 + t1.1);
        }
        if self.phase != Phase::Over {
            self.phase = Phase::AwaitRoll;
            let ghost s3 = self@;
            proof {
                lemma_room_drift(s0, s3, 1, 1, 0x2_0000_0000, 0, 0, 1);
                lemma_finish_turn_drift(s3);
            }
            self.finish_turn_if_needed(events);
            proof {
                lemma_drift_trans(s0, s3, self@, 0x2_0000_0000, 0, 0, 1, 0, 0, 0, 1);
                assert(evs(events@) =~= e0 + s0.finish_auction().1);
            }
        }
    }

    /// A bid in the running auction (see [`EngineView::bid`]).
    pub(crate) fn do_bid(&mut self, pid: u128, amount: u32, events: &mut Vec<Event>) -> (r: Result<(), String>)
        requires
            old(self)@.wf(),
            room(old(self)@, 1),
        ensures
            answers(r, old(self)@.bid(pid, amount)),
            final(self)@ == old(self)@.bid(pid, amount).state,
            evs(final(events)@) == evs(old(events)@) + old(self)@.bid(pid, amount).events,
            final(self)@.wf(),
            drift(old(self)@, final(self)@, 0x2_0000_0000, 0, 0, 2),
    {
        let ghost s0 = self@;
        let ghost e0 = evs(events@);
        proof {
            lemma_drift_refl(s0);
            assert(e0 + Seq::<EventView>::empty() =~= e0);
        }
        if self.phase != Phase::InAuction {
            return Err(String::from_str("当前没有拍卖"));
        }
        let res = match &mut self.auction {
            Some(a) => a.bid(pid, amount),
            None => return Err(String::from_str("当前没有拍卖")),
        };
        match res {
            Ok(()) => {},
            Err(e) => return Err(e),
        }
        emit(events, Event::AuctionBid { player_id: pid, amount });
        let ghost s1 = self@;
        let ghost e1 = evs(events@);
        self.try_finish_auction(events);
        proof {
            lemma_drift_trans(s0, s1, self@, 0, 0, 0, 0, 0x2_0000_0000, 0, 0, 2);
            assert(evs(events@) =~= e0 + s0.bid(pid, amount).events);
        }
        Ok(())
    }

    /// A pass in the running auction (see [`EngineView::auction_pass`]).
    pub(crate) fn do_auction_pass(&mut self, pid: u128, events: &mut Vec<Event>) -> (r: Result<(), String>)
        requires
            old(self)@.wf(),
            room(old(self)@, 1),
        ensures
            answers(r, old(self)@.auction_pass(pid)),
            final(self)@ == old(self)@.auction_pass(pid).state,
            evs(final(events)@) == evs(old(events)@) + old(self)@.auction_pass(pid).events,
            final(self)@.wf(),
            drift(old(self)@, final(self)@, 0x2_0000_0000, 0, 0, 2),
    {
        let ghost s0 = self@;
        let ghost e0 = evs(events@);
        proof {
            lemma_drift_refl(s0);
            assert(e0 + Seq::<EventView>::empty() =~= e0);
        }
        if self.phase != Phase::InAuction {
            return Err(String::from_str("当前没有拍卖"));
        }
        let res = match &mut self.auction {
            Some(a) => a.pass(pid),
            None => return Err(String::from_str("当前没有拍卖")),
        };
        match res {
            Ok(()) => {},
            Err(e) => return Err(e),
        }
        emit(events, Event::AuctionPassed { player_id: pid });
        let ghost s1 = self@;
        self.try_finish_auction(events);
        proof {
            lemma_drift_trans(s0, s1, self@, 0, 0, 0, 0, 0x2_0000_0000, 0, 0, 2);
            assert(evs(events@) =~= e0 + s0.auction_pass(pid).events);
        }
        Ok(())
    }
}


impl GameEngine {
    /// Checks that `pid` may handle `tile` as its own (see [`EngineView::own_tile_error`]).
    fn check_own_tile(&self, pid: u128, tile: usize, msg: &str) -> (r: Result<(), String>)
        requires
            self@.wf(),
        ensures
            r is Ok <==> self@.own_tile_error(pid, tile as int, msg@) is None,
            r matches Err(m) ==> self@.own_tile_error(pid, tile as int, msg@) == Some(m@),
    {
        match self.require_player(pid) {
            Ok(()) => {},
            Err(e) => return Err(e),
        }
        if self.deeds.owner(tile) != Some(pid) {
            return Err(msg.to_string());
        }
        Ok(())
    }

    /// Builds on a tile of `pid` (see [`EngineView::build_house`]).
    pub(crate) fn do_build(&mut self, pid: u128, tile_id: usize, events: &mut Vec<Event>) -> (r: Result<(), String>)
        requires
            old(self)@.wf(),
            room(old(self)@, 1),
        ensures
            answers(r, old(self)@.build_house(pid, tile_id as int)),
            final(self)@ == old(self)@.build_house(pid, tile_id as int).state,
            evs(final(events)@) == evs(old(events)@) + old(self)@.build_house(pid, tile_id as int).events,
            final(self)@.wf(),
            drift(old(self)@, final(self)@, 100_000_000, 0, 4, 0),
    {
        let ghost s0 = self@;
        let ghost e0 = evs(events@);
        proof {
            lemma_drift_refl(s0);
            assert(e0 + Seq::<EventView>::empty() =~= e0);
        }
        match self.check_own_tile(pid, tile_id, "只能在自己的地块建房") {
            Ok(()) => {},
            Err(e) => return Err(e),
        }
        let cost = self.board.tile(tile_id).building_cost;
        if self.player_cash(pid) < cost as i64 {
            return Err(String::from_str("资金不足"));
        }
        proof {
            let i = s0.deeds.idx(tile_id as int);
            if s0.deeds.houses[i] > 0 {
                crate::deeds::lemma_built_tile(s0.deeds, i);
            }
        }
        let cost = match self.deeds.build(&self.board, tile_id) {
            Ok(c) => c,
            Err(e) => return Err(e),
        };
        let ghost s1 = self@;
        proof {
            lemma_find(s0.players, pid);
            assert(s0.board[(tile_id as int) % (s0.board.len() as int)].amounts_bounded());
            lemma_change_cash(s1, pid, (-(cost as int)) as i64);
        }
        self.change_cash(pid, -(cost as i64), events);
        let houses = self.deeds.houses(tile_id);
        emit(events, Event::BuildHouse { player_id: pid, tile_id, houses });
        proof {
            assert(evs(events@) =~= e0 + s0.build_house(pid, tile_id as int).events);
        }
        Ok(())
    }

    /// Sells a building from a tile of `pid` (see [`EngineView::sell_house`]).
    pub(crate) fn do_sell_house(&mut self, pid: u128, tile_id: usize, events: &mut Vec<Event>) -> (r: Result<(), String>)
        requires
            old(self)@.wf(),
            room(old(self)@, 1),
        ensures
            answers(r, old(self)@.sell_house(pid, tile_id as int)),
            final(self)@ == old(self)@.sell_house(pid, tile_id as int).state,
            evs(final(events)@) == evs(old(events)@) + old(self)@.sell_house(pid, tile_id as int).events,
            final(self)@.wf(),
            drift(old(self)@, final(self)@, 100_000_000, 0, 4, 0),
    {
        let ghost s0 = self@;
        let ghost e0 = evs(events@);
        proof {
            lemma_drift_refl(s0);
            assert(e0 + Seq::<EventView>::empty() =~= e0);
        }
        match self.check_own_tile(pid, tile_id, "只能出售自己地块上的房屋") {
            Ok(()) => {},
            Err(e) => return Err(e),
        }
        proof {
            let i = s0.deeds.idx(tile_id as int);
            if s0.deeds.houses[i] > 0 {
                crate::deeds::lemma_built_tile(s0.deeds, i);
            }
        }
        let value = match self.deeds.sell_house(&self.board, tile_id) {
            Ok(v) => v,
            Err(e) => return Err(e),
        };
        let ghost s1 = self@;
        proof {
            lemma_find(s0.players, pid);
            assert(s0.board[(tile_id as int) % (s0.board.len() as int)].amounts_bounded());
            lemma_change_cash(s1, pid, value as i64);
        }
        self.change_cash(pid, value as i64, events);
        let houses = self.deeds.houses(tile_id);
        emit(events, Event::SoldHouse { player_id: pid, tile_id, houses });
        proof {
            assert(evs(events@) =~= e0 + s0.sell_house(pid, tile_id as int).events);
        }
        Ok(())
    }

    /// Mortgages a tile of `pid` (see [`EngineView::mortgage`]).
    pub(crate) fn do_mortgage(&mut self, pid: u128, tile_id: usize, events: &mut Vec<Event>) -> (r: Result<(), String>)
        requires
            old(self)@.wf(),
            room(old(self)@, 1),
        ensures
            answers(r, old(self)@.mortgage(pid, tile_id as int)),
            final(self)@ == old(self)@.mortgage(pid, tile_id as int).state,
            evs(final(events)@) == evs(old(events)@) + old(self)@.mortgage(pid, tile_id as int).events,
            final(self)@.wf(),
            drift(old(self)@, final(self)@, 100_000_000, 0, 0, 0),
    {
        let ghost s0 = self@;
        let ghost e0 = evs(events@);
        proof {
            lemma_drift_refl(s0);
            assert(e0 + Seq::<EventView>::empty() =~= e0);
        }
        match self.check_own_tile(pid, tile_id, "只能抵押自己的地块") {
            Ok(()) => {},
            Err(e) => return Err(e),
        }
        let amount = match self.deeds.mortgage(&self.board, tile_id) {
            Ok(v) => v,
            Err(e) => return Err(e),
        };
        let ghost s1 = self@;
        proof {
            lemma_find(s0.players, pid);
            assert(s0.board[(tile_id as int) % (s0.board.len() as int)].amounts_bounded());
            lemma_change_cash(s1, pid, amount as i64);
        }
        self.change_cash(pid, amount as i64, events);
        emit(events, Event::Mortgaged { player_id: pid, tile_id, amount });
        proof {
            assert(evs(events@) =~= e0 + s0.mortgage(pid, tile_id as int).events);
        }
        Ok(())
    }

    /// Lifts the mortgage on a tile of `pid` (see [`EngineView::unmortgage`]).
    pub(crate) fn do_unmortgage(&mut self, pid: u128, tile_id: usize, events: &mut Vec<Event>) -> (r: Result<(), String>)
        requires
            old(self)@.wf(),
            room(old(self)@, 1),
        ensures
            answers(r, old(self)@.unmortgage(pid, tile_id as int)),
            final(self)@ == old(self)@.unmortgage(pid, tile_id as int).state,
            evs(final(events)@) == evs(old(events)@) + old(self)@.unmortgage(pid, tile_id as int).events,
            final(self)@.wf(),
            drift(old(self)@, final(self)@, 200_000_000, 0, 0, 0),
    {
        let ghost s0 = self@;
        let ghost e0 = evs(events@);
        proof {
            lemma_drift_refl(s0);
            assert(e0 + Seq::<EventView>::empty() =~= e0);
        }
        match self.check_own_tile(pid, tile_id, "只能赎回自己的地块") {
            Ok(()) => {},
            Err(e) => return Err(e),
        }
        let cost = match self.deeds.unmortgage(&self.board, tile_id) {
            Ok(v) => v,
            Err(e) => return Err(e),
        };
        let ghost s1 = self@;
        proof { lemma_drift_refl(s1); }
        if self.player_cash(pid) < cost as i64 {
            return Err(String::from_str("资金不足，无法赎回"));
        }
        proof {
            lemma_find(s0.players, pid);
            assert(s0.board[(tile_id as int) % (s0.board.len() as int)].amounts_bounded());
            lemma_change_cash(s1, pid, (-(cost as int)) as i64);
        }
        self.change_cash(pid, -(cost as i64), events);
        emit(events, Event::Unmortgaged { player_id: pid, tile_id, cost });
        proof {
            assert(evs(events@) =~= e0 + s0.unmortgage(pid, tile_id as int).events);
        }
        Ok(())
    }
}



impl GameEngine {
    /// Checks that `player` can give `assets` (see [`EngineView::assets_error`]).
    fn validate_assets(&self, player: u128, assets: &AssetList) -> (r: Result<(), String>)
        requires
            self@.wf(),
        ensures
            r is Ok <==> self@.assets_error(player, assets@) is None,
            r matches Err(m) ==> self@.assets_error(player, assets@) == Some(m@),
    {
        let max_cards: u8 = match self.player_index(player) {
            Some(i) => self.players[i].out_of_jail_cards,
            None => 0,
        };
        if assets.out_of_jail_cards > max_cards {
            return Err(String::from_str("出狱卡数量不足"));
        }
        let mut k: usize = 0;
        while k < assets.tiles.len()
            invariant
                k <= assets.tiles@.len(),
                self@.wf(),
                self@.assets_error(player, assets@) == self@.tiles_error(player, assets.tiles@, 0),
                self@.tiles_error(player, assets.tiles@, 0) == self@.tiles_error(player, assets.tiles@, k as int),
            decreases assets.tiles@.len() - k,
        {
            let t = assets.tiles[k];
            if self.deeds.owner(t) != Some(player) {
                return Err(String::from_str("筹码中的地块不属于该玩家"));
            }
            if self.deeds.houses(t) > 0 || self.deeds.is_mortgaged(t) {
                return Err(String::from_str("含房屋或抵押的地块需先处理后再交易"));
            }
            k = k + 1;
        }
        Ok(())
    }

    /// `from` gives `a` to `to` (see [`EngineView::give`]); `from` has the cash
    /// and the cards, so the payment does not bankrupt it.
    #[verifier::rlimit(40)]
    #[verifier::spinoff_prover]
    fn give(&mut self, from: u128, to: u128, a: &AssetList, events: &mut Vec<Event>)
        requires
            old(self)@.wf(),
            room(old(self)@, 1),
            old(self)@.cash_of(from) >= a.cash,
            old(self)@.pidx(from) is Some,
            old(self)@.pidx(to) is Some,
            a.out_of_jail_cards <= old(self)@.players[old(self)@.pidx(from).unwrap()].out_of_jail_cards,
        ensures
            final(self)@ == old(self)@.give(from, to, a@).0,
            evs(final(events)@) == evs(old(events)@) + old(self)@.give(from, to, a@).1,
            final(self)@.wf(),
            drift(old(self)@, final(self)@, 0x2_0000_0000, 0, 0, 1),
            forall|i: int| 0 <= i < old(self)@.players.len() && Some(i) != old(self)@.pidx(from) ==>
                (#[trigger] final(self)@.players[i]).cash >= old(self)@.players[i].cash
                && final(self)@.players[i].out_of_jail_cards >= old(self)@.players[i].out_of_jail_cards,
            from == to ==> final(self)@.players == old(self)@.players,
    {
        let ghost s0 = self@;
        let ghost e0 = evs(events@);
        proof {
            lemma_find(s0.players, from);
            lemma_find(s0.players, to);
            lemma_drift_refl(s0);
            assert(e0 + Seq::<EventView>::empty() =~= e0);
        }
        if a.cash > 0 {
            let amount = a.cash as u32;
            proof {
                let c = a.cash;
                assert(c > 0 ==> (c as u32) <= c) by (bit_vector);
                reveal(EngineView::pay_to);
                lemma_transfer_players(s0, from, Some(to), amount as i64);
            }
            self.pay_to(from, Some(to), amount, events);
        }
        let ghost s1 = self@;
        proof {
            lemma_find_same_ids(s0.players, s1.players, from);
            lemma_find_same_ids(s0.players, s1.players, to);
        }
        let mut k: usize = 0;
        while k < a.tiles.len()
            invariant
                k <= a.tiles@.len(),
                s1.wf(),
                self@ == (EngineView { deeds: s1.deeds.assigned_all(a.tiles@.take(k as int), to), ..s1 }),
                self@.deeds.fits_tiles(self@.board),
                self@.deeds.house_potential() == s1.deeds.house_potential(),
                self@.deeds.hotel_stock() == s1.deeds.hotel_stock(),
            decreases a.tiles@.len() - k,
        {
            let t = a.tiles[k];
            self.deeds.assign(t, to);
            proof {
                assert(a.tiles@.take(k + 1).drop_last() =~= a.tiles@.take(k as int));
            }
            k = k + 1;
        }
        proof { assert(a.tiles@.take(a.tiles@.len() as int) =~= a.tiles@); }
        let ghost s2 = self@;
        let n = a.out_of_jail_cards;
        if n > 0 {
            let i = match self.player_index(from) { Some(i) => i, None => return };
            let ghost q = Player { out_of_jail_cards: (s2.players[i as int].out_of_jail_cards - n) as u8, ..s2.players[i as int] };
            proof { lemma_cards_update(s2.players, i as int, q, s2.players.len() as int); }
            self.players[i].out_of_jail_cards = self.players[i].out_of_jail_cards - n;
            let ghost s3 = self@;
            proof {
                lemma_find_same_ids(s2.players, s3.players, to);
                lemma_cards_le_total(s2.players, i as int, s2.pidx(to).unwrap(), s2.players.len() as int);
            }
            let j = match self.player_index(to) { Some(j) => j, None => return };
            let ghost q2 = Player { out_of_jail_cards: (s3.players[j as int].out_of_jail_cards + n) as u8, ..s3.players[j as int] };
            proof { lemma_cards_update(s3.players, j as int, q2, s3.players.len() as int); }
            self.players[j].out_of_jail_cards = self.players[j].out_of_jail_cards + n;
            proof {
                assert(self@ =~= s2.move_cards(from, to, n));
                if from == to {
                    assert(self@.players =~= s2.players);
                }
            }
        }
        proof {
            assert(self@ =~= s0.give(from, to, a@).0);
        }
    }

    /// Index of the pending trade `id` addressed to `to`.
    fn find_trade(&self, id: u128, to: u128) -> (r: Option<usize>)
        ensures
            r matches Some(k) ==> trade_index(self@.pending_trades, id, to, 0) == Some(k as int)
                && k < self@.pending_trades.len(),
            r is None ==> trade_index(self@.pending_trades, id, to, 0) is None,
    {
        let mut k: usize = 0;
        while k < self.pending_trades.len()
            invariant
                k <= self.pending_trades@.len(),
                trade_index(self@.pending_trades, id, to, 0) == trade_index(self@.pending_trades, id, to, k as int),
            decreases self.pending_trades@.len() - k,
        {
            if self.pending_trades[k].id == id && self.pending_trades[k].to == to {
                return Some(k);
            }
            k = k + 1;
        }
        None
    }

    /// Proposes a trade with the id `id` (see [`EngineView::propose_trade`]).
    pub(crate) fn propose_trade_with_id(&mut self, pid: u128, target: u128, offer: AssetList, demand: AssetList,
        id: u128, events: &mut Vec<Event>) -> (r: Result<(), String>)
        requires
            old(self)@.wf(),
        ensures
            answers(r, old(self)@.propose_trade(pid, target, offer@, demand@, id)),
            final(self)@ == old(self)@.propose_trade(pid, target, offer@, demand@, id).state,
            evs(final(events)@) == evs(old(events)@) + old(self)@.propose_trade(pid, target, offer@, demand@, id).events,
            final(self)@.wf(),
            drift(old(self)@, final(self)@, 0, 0, 0, 0),
    {
        let ghost s0 = self@;
        let ghost e0 = evs(events@);
        proof {
            lemma_drift_refl(s0);
            assert(e0 + Seq::<EventView>::empty() =~= e0);
        }
        match self.require_player(pid) {
            Ok(()) => {},
            Err(e) => return Err(e),
        }
        match self.require_player(target) {
            Ok(()) => {},
            Err(e) => return Err(e),
        }
        if target == pid {
            return Err(String::from_str("不能和自己交易"));
        }
        if offer.cash < 0 || demand.cash < 0 {
            return Err(String::from_str("交易金额不能为负"));
        }
        if self.player_cash(pid) < offer.cash {
            return Err(String::from_str("出价现金超出你的余额"));
        }
        match self.validate_assets(pid, &offer) {
            Ok(()) => {},
            Err(e) => return Err(e),
        }
        match self.validate_assets(target, &demand) {
            Ok(()) => {},
            Err(e) => return Err(e),
        }
        let t = Trade { id, from: pid, to: target, offer: offer.clone(), demand: demand.clone() };
        self.pending_trades.push(t);
        emit(events, Event::TradeProposed { trade_id: id, from: pid, to: target, offer, demand });
        proof {
            assert(self@ =~= s0.propose_trade(pid, target, offer@, demand@, id).state);
            assert(evs(events@) =~= e0 + s0.propose_trade(pid, target, offer@, demand@, id).events);
        }
        Ok(())
    }

    /// Proposes a trade under a trade id drawn from `rng` (see
    /// [`crate::engine::draw_trade_id`] and [`EngineView::propose_trade`]).
    pub(crate) fn do_propose_trade<R: RngSource>(&mut self, pid: u128, target: u128, offer: AssetList, demand: AssetList,
        rng: &mut R, events: &mut Vec<Event>) -> (r: Result<(), String>)
        requires
            old(self)@.wf(),
        ensures
            extends(old(rng).draws(), final(rng).draws()),
            drawn_since(old(rng).draws(), final(rng).draws()).len() == 4,
            answers(r, old(self)@.propose_trade(pid, target, offer@, demand@,
                trade_id_of(drawn_since(old(rng).draws(), final(rng).draws())))),
            final(self)@ == old(self)@.propose_trade(pid, target, offer@, demand@,
                trade_id_of(drawn_since(old(rng).draws(), final(rng).draws()))).state,
            evs(final(events)@) == evs(old(events)@) + old(self)@.propose_trade(pid, target, offer@, demand@,
                trade_id_of(drawn_since(old(rng).draws(), final(rng).draws()))).events,
            final(self)@.wf(),
            drift(old(self)@, final(self)@, 0, 0, 0, 0),
    {
        let id = crate::engine::draw_trade_id(rng);
        self.propose_trade_with_id(pid, target, offer, demand, id, events)
    }

    /// Accepts a pending trade (see [`EngineView::accept_trade`]).
    pub(crate) fn do_accept_trade(&mut self, pid: u128, trade_id: u128, events: &mut Vec<Event>) -> (r: Result<(), String>)
        requires
            old(self)@.wf(),
            room(old(self)@, 2),
        ensures
            answers(r, old(self)@.accept_trade(pid, trade_id)),
            final(self)@ == old(self)@.accept_trade(pid, trade_id).state,
            evs(final(events)@) == evs(old(events)@) + old(self)@.accept_trade(pid, trade_id).events,
            final(self)@.wf(),
            drift(old(self)@, final(self)@, 0x4_0000_0000, 0, 0, 2),
    {
        let ghost s0 = self@;
        let ghost e0 = evs(events@);
        proof {
            lemma_drift_refl(s0);
            assert(e0 + Seq::<EventView>::empty() =~= e0);
        }
        let idx = match self.find_trade(trade_id, pid) {
            Some(k) => k,
            None => return Err(String::from_str("交易不存在或不属于你")),
        };
        let trade = self.pending_trades[idx].clone();
        match self.require_player(trade.from) {
            Ok(()) => {},
            Err(e) => return Err(e),
        }
        match self.require_player(trade.to) {
            Ok(()) => {},
            Err(e) => return Err(e),
        }
        if self.player_cash(trade.to) < trade.demand.cash {
            return Err(String::from_str("你现金不足，无法接受该交易"));
        }
        if self.player_cash(trade.from) < trade.offer.cash {
            return Err(String::from_str("对方现金不足以完成该交易"));
        }
        match self.validate_assets(trade.from, &trade.offer) {
            Ok(()) => {},
            Err(e) => return Err(e),
        }
        match self.validate_assets(trade.to, &trade.demand) {
            Ok(()) => {},
            Err(e) => return Err(e),
        }
        self.pending_trades.remove(idx);
        let ghost s1 = self@;
        proof {
            assert(s1 =~= (EngineView { pending_trades: s0.pending_trades.remove(idx as int), ..s0 }));
            lemma_find(s0.players, trade.from);
            lemma_find(s0.players, trade.to);
        }
        self.give(trade.from, trade.to, &trade.offer, events);
        let ghost s2 = self@;
        proof {
            lemma_room_drift(s1, s2, 2, 1, 0x2_0000_0000, 0, 0, 1);
            lemma_find_same_ids(s1.players, s2.players, trade.from);
            lemma_find_same_ids(s1.players, s2.players, trade.to);
        }
        self.give(trade.to, trade.from, &trade.demand, events);
        emit(events, Event::TradeAccepted { trade_id });
        proof {
            lemma_drift_trans(s1, s2, self@, 0x2_0000_0000, 0, 0, 1, 0x2_0000_0000, 0, 0, 1);
            assert(self@ =~= s0.accept_trade(pid, trade_id).state);
            assert(evs(events@) =~= e0 + s0.accept_trade(pid, trade_id).events);
        }
        Ok(())
    }

    /// Declines a pending trade (see [`EngineView::decline_trade`]).
    pub(crate) fn do_decline_trade(&mut self, pid: u128, trade_id: u128, events: &mut Vec<Event>) -> (r: Result<(), String>)
        requires
            old(self)@.wf(),
        ensures
            answers(r, old(self)@.decline_trade(pid, trade_id)),
            final(self)@ == old(self)@.decline_trade(pid, trade_id).state,
            evs(final(events)@) == evs(old(events)@) + old(self)@.decline_trade(pid, trade_id).events,
            final(self)@.wf(),
            drift(old(self)@, final(self)@, 0, 0, 0, 0),
    {
        let ghost s0 = self@;
        let ghost e0 = evs(events@);
        proof {
            lemma_drift_refl(s0);
            assert(e0 + Seq::<EventView>::empty() =~= e0);
        }
        let idx = match self.find_trade(trade_id, pid) {
            Some(k) => k,
            None => return Err(String::from_str("交易不存在或不属于你")),
        };
        self.pending_trades.remove(idx);
        emit(events, Event::TradeDeclined { trade_id });
        proof {
            assert(self@ =~= s0.decline_trade(pid, trade_id).state);
            assert(evs(events@) =~= e0 + s0.decline_trade(pid, trade_id).events);
        }
        Ok(())
    }
}

} // verus!
