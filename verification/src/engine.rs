//! The game engine: authoritative state, command execution and the events it
//! produces. Randomness comes in through [`RngSource`]; the engine knows nothing
//! of networks or identities.

use vstd::prelude::*;
use crate::auction::{Auction, AuctionView};
use crate::avatar::{Avatar, Color};
use crate::board::{Board, Tile, tiles_wf};
use crate::cards::{Deck, DeckView};
use crate::deeds::{Deeds, DeedsView, DEFAULT_HOTELS, DEFAULT_HOUSES, value_upto};
use crate::event::{emit, evs, Event, EventView, PlayerRank, RankView};
use crate::player::Player;
use crate::rng::{RngSource, drawn_since, extends};
use crate::cards::{shuffle_draws, swapped};
use crate::room::RoomSettings;
use crate::trade::{Trade, TradeView};
use crate::cards::lemma_swap_multiset;
use crate::snapshot::{GameStateDto, PlayerDto, PlayerView, StateView, TileDto, TileView};
use crate::command::Command;
use crate::engine_actions::{room, drift, refused, Outcome, lemma_room_drift};

verus! {

/// Phase of the engine's state machine.
#[derive(Debug, Clone, Copy, PartialEq, Eq, Structural)]
pub enum Phase {
    /// Waiting for the game to start; players may join.
    Lobby,
    /// Waiting for the current player to roll.
    AwaitRoll,
    /// On an unowned tile, waiting for buy or pass.
    AwaitDecision,
    /// Bank auction running.
    InAuction,
    /// Game over.
    Over,
}

/// The game engine.
pub struct GameEngine {
    pub settings: RoomSettings,
    pub board: Board,
    pub players: Vec<Player>,
    pub deeds: Deeds,
    pub chance: Deck,
    pub fate: Deck,
    pub current: usize,
    pub phase: Phase,
    pub dice: Vec<u8>,
    pub doubles_count: u8,
    pub pending_doubles: bool,
    pub turn_ended: bool,
    pub auction: Option<Auction>,
    pub pending_trades: Vec<Trade>,
    pub round: u32,
    pub winner: Option<u128>,
}

/// The abstract state of the engine.
#[verifier::ext_equal]
pub struct EngineView {
    pub settings: RoomSettings,
    pub board: Seq<Tile>,
    pub players: Seq<Player>,
    pub deeds: DeedsView,
    pub chance: DeckView,
    pub fate: DeckView,
    pub current: usize,
    pub phase: Phase,
    pub dice: Seq<u8>,
    pub doubles_count: u8,
    pub pending_doubles: bool,
    pub turn_ended: bool,
    pub auction: Option<AuctionView>,
    pub pending_trades: Seq<TradeView>,
    pub round: u32,
    pub winner: Option<u128>,
}

/// The view of an optional auction.
pub open spec fn auction_view(a: Option<Auction>) -> Option<AuctionView> {
    match a {
        Some(x) => Some(x@),
        None => None,
    }
}

/// The views of a list of trades.
pub open spec fn trades_view(t: Seq<Trade>) -> Seq<TradeView> {
    t.map_values(|x: Trade| x@)
}

impl View for GameEngine {
    type V = EngineView;

    open spec fn view(&self) -> EngineView {
        EngineView {
            settings: self.settings,
            board: self.board.tiles@,
            players: self.players@,
            deeds: self.deeds@,
            chance: self.chance@,
            fate: self.fate@,
            current: self.current,
            phase: self.phase,
            dice: self.dice@,
            doubles_count: self.doubles_count,
            pending_doubles: self.pending_doubles,
            turn_ended: self.turn_ended,
            auction: auction_view(self.auction),
            pending_trades: trades_view(self.pending_trades@),
            round: self.round,
            winner: self.winner,
        }
    }
}

/// The first index at or after `k` of a player with id `id`.
pub open spec fn find_from(ps: Seq<Player>, id: u128, k: int) -> Option<int>
    decreases ps.len() - k,
{
    if k < 0 || k >= ps.len() {
        None
    } else if ps[k].id == id {
        Some(k)
    } else {
        find_from(ps, id, k + 1)
    }
}

/// The index of the first player with id `id`.
pub open spec fn find(ps: Seq<Player>, id: u128) -> Option<int> {
    find_from(ps, id, 0)
}

/// What `find_from` finds is the first match at or after `k`.
pub proof fn lemma_find_from(ps: Seq<Player>, id: u128, k: int)
    requires
        0 <= k,
    ensures
        find_from(ps, id, k) matches Some(i) ==> k <= i < ps.len() && ps[i].id == id
            && forall|j: int| k <= j < i ==> #[trigger] ps[j].id != id,
        find_from(ps, id, k) is None ==> forall|j: int| k <= j < ps.len() ==> #[trigger] ps[j].id != id,
    decreases ps.len() - k,
{
    if k < ps.len() {
        lemma_find_from(ps, id, k + 1);
    }
}

/// `find` gives the first index of a player with that id, or `None` when there is none.
pub proof fn lemma_find(ps: Seq<Player>, id: u128)
    ensures
        find(ps, id) matches Some(i) ==> 0 <= i < ps.len() && ps[i].id == id
            && forall|j: int| 0 <= j < i ==> #[trigger] ps[j].id != id,
        find(ps, id) is None ==> forall|j: int| 0 <= j < ps.len() ==> #[trigger] ps[j].id != id,
{
    lemma_find_from(ps, id, 0);
}

/// Lookups by id only depend on the ids of the players.
pub proof fn lemma_find_same_ids(a: Seq<Player>, b: Seq<Player>, id: u128)
    requires
        a.len() == b.len(),
        forall|j: int| 0 <= j < a.len() ==> #[trigger] a[j].id == b[j].id,
    ensures
        find(a, id) == find(b, id),
{
    lemma_find(a, id);
    lemma_find(b, id);
    if find(a, id) is Some {
        let i = find(a, id).unwrap();
        if find(b, id) is Some {
            let k = find(b, id).unwrap();
            if i < k { assert(b[i].id == a[i].id); }
            if k < i { assert(a[k].id == b[k].id); }
        } else {
            assert(b[i].id == a[i].id);
        }
    } else if find(b, id) is Some {
        let k = find(b, id).unwrap();
        assert(a[k].id == b[k].id);
    }
}

/// Every player's cash is within `[-b, b]`.
pub open spec fn cash_in(ps: Seq<Player>, b: int) -> bool {
    forall|i: int| 0 <= i < ps.len() ==> -b <= #[trigger] ps[i].cash <= b
}

/// Sum of the get-out-of-jail cards of the first `k` players.
pub open spec fn cards_upto(ps: Seq<Player>, k: int) -> int
    decreases k,
{
    if k <= 0 || k > ps.len() {
        0
    } else {
        cards_upto(ps, k - 1) + ps[k - 1].out_of_jail_cards
    }
}

/// Get-out-of-jail cards held by all players together.
pub open spec fn total_cards(ps: Seq<Player>) -> int {
    cards_upto(ps, ps.len() as int)
}

/// Ids of the players not bankrupt among the first `k`, in seat order.
pub open spec fn alive_upto(ps: Seq<Player>, k: int) -> Seq<u128>
    decreases k,
{
    if k <= 0 || k > ps.len() {
        Seq::empty()
    } else if !ps[k - 1].bankrupt {
        alive_upto(ps, k - 1).push(ps[k - 1].id)
    } else {
        alive_upto(ps, k - 1)
    }
}

/// At most `k` players stand among the first `k`.
pub proof fn lemma_alive_len(ps: Seq<Player>, k: int)
    requires
        0 <= k <= ps.len(),
    ensures
        alive_upto(ps, k).len() <= k,
    decreases k,
{
    if k > 0 {
        lemma_alive_len(ps, k - 1);
    }
}

/// A stable, descending insertion position: after every entry worth at least `nw`.
pub open spec fn insert_pos(sorted: Seq<RankView>, nw: i64, k: int) -> int
    decreases sorted.len() - k,
{
    if k < 0 || k >= sorted.len() {
        sorted.len() as int
    } else if sorted[k].net_worth < nw {
        k
    } else {
        insert_pos(sorted, nw, k + 1)
    }
}

/// The first `k` entries sorted by net worth, highest first, ties in their order in the list.
pub open spec fn sort_upto(entries: Seq<RankView>, k: int) -> Seq<RankView>
    decreases k,
{
    if k <= 0 || k > entries.len() {
        Seq::empty()
    } else {
        let s = sort_upto(entries, k - 1);
        s.insert(insert_pos(s, entries[k - 1].net_worth, 0), entries[k - 1])
    }
}

impl EngineView {
    /// Some seated player has piece `a` in colour `c`.
    pub open spec fn pair_taken(self, a: Avatar, c: Color) -> bool {
        exists|i: int| 0 <= i < self.players.len() && (#[trigger] self.players[i]).avatar == a && self.players[i].color == c
    }

    /// The `j`-th pair of piece and colour is taken.
    pub open spec fn combo_taken(self, j: int) -> bool {
        self.pair_taken(crate::avatar::combo_nth(j).0, crate::avatar::combo_nth(j).1)
    }

    /// Consistency of the state: valid settings, a well-formed board with a
    /// matching register, well-formed decks whose cards fit the board, at most eight players standing on
    /// the board, a current seat that exists once players sit, and a well-formed
    /// auction when one runs.
    pub open spec fn wf(self) -> bool {
        &&& self.settings.is_valid()
        &&& tiles_wf(self.board)
        &&& self.deeds.fits_tiles(self.board)
        &&& self.chance.wf()
        &&& self.fate.wf()
        &&& self.chance.order.len() <= 10
        &&& self.fate.order.len() <= 10
        &&& self.chance.fits(self.board.len() as int)
        &&& self.fate.fits(self.board.len() as int)
        &&& self.players.len() <= 8
        &&& forall|i: int| 0 <= i < self.players.len() ==> (#[trigger] self.players[i]).position < self.board.len()
        &&& (self.players.len() == 0 ==> self.current == 0)
        &&& (self.players.len() > 0 ==> self.current < self.players.len())
        &&& (self.phase != Phase::Lobby ==> self.players.len() > 0)
        &&& (self.auction matches Some(a) ==> a.wf())
        &&& self.dice.len() <= 255
    }

    /// Room for the arithmetic of one command: cash within `[-2^50, 2^50]`, at most
    /// 200 get-out-of-jail cards in all, a bank stock of houses and hotels well
    /// below the `u16` limit, and a round counter well below the `u32` limit.
    pub open spec fn within_limits(self) -> bool {
        &&& cash_in(self.players, 0x4_0000_0000_0000)
        &&& total_cards(self.players) <= 200
        &&& self.deeds.house_potential() <= u16::MAX - 64
        &&& self.deeds.hotel_stock() <= u16::MAX
        &&& self.round <= u32::MAX - 32
    }

    /// Index of the player with id `id`.
    pub open spec fn pidx(self, id: u128) -> Option<int> {
        find(self.players, id)
    }

    /// Cash of `id` (0 for an unknown player).
    pub open spec fn cash_of(self, id: u128) -> int {
        match self.pidx(id) {
            Some(i) => self.players[i].cash as int,
            None => 0,
        }
    }

    /// Position of `id` (0 for an unknown player).
    pub open spec fn position_of(self, id: u128) -> int {
        match self.pidx(id) {
            Some(i) => self.players[i].position as int,
            None => 0,
        }
    }

    /// `id` is a known player who is bankrupt; `true` for an unknown player.
    pub open spec fn broke_or_unknown(self, id: u128) -> bool {
        match self.pidx(id) {
            Some(i) => self.players[i].bankrupt,
            None => true,
        }
    }

    /// The state with player `i` replaced by `p`.
    pub open spec fn with_player(self, i: int, p: Player) -> EngineView {
        EngineView { players: self.players.update(i, p), ..self }
    }

    /// Id of the current player, when there is one.
    pub open spec fn current_id(self) -> Option<u128> {
        if self.current < self.players.len() {
            Some(self.players[self.current as int].id)
        } else {
            None
        }
    }

    /// Ids of the players not bankrupt, in seat order.
    pub open spec fn alive(self) -> Seq<u128> {
        alive_upto(self.players, self.players.len() as int)
    }

    /// Net worth of `id`: cash plus the worth of its tiles.
    pub open spec fn net_worth(self, id: u128) -> int {
        self.cash_of(id) + value_upto(self.deeds, self.board, id, self.deeds.len() as int)
    }

    /// Adds `delta` to the cash of `id`, with a money event; nothing for an unknown player.
    pub open spec fn change_cash(self, id: u128, delta: i64) -> (EngineView, Seq<EventView>) {
        match self.pidx(id) {
            Some(i) => (
                self.with_player(i, Player { cash: (self.players[i].cash + delta) as i64, ..self.players[i] }),
                seq![EventView::MoneyChanged { player_id: id, delta }],
            ),
            None => (self, Seq::empty()),
        }
    }

    /// Sends `id` to jail: onto the jail tile, in jail, no jail turns yet; going
    /// to jail ends the turn, so a pending double gives no further roll.
    pub open spec fn send_to_jail(self, id: u128) -> (EngineView, Seq<EventView>) {
        let t = EngineView { pending_doubles: false, ..self };
        let s = match t.pidx(id) {
            Some(i) => t.with_player(i, Player {
                position: crate::board::jail_index_in(t.board) as usize,
                in_jail: true,
                jail_turns: 0,
                ..t.players[i]
            }),
            None => t,
        };
        (s, seq![EventView::WentToJail { player_id: id }])
    }

    /// Ranking entries, one per player in seat order.
    pub open spec fn rank_entries(self) -> Seq<RankView> {
        Seq::new(self.players.len(), |i: int| RankView {
            player_id: self.players[i].id,
            name: self.players[i].name@,
            net_worth: self.net_worth(self.players[i].id) as i64,
        })
    }

    /// The final ranking: players by net worth, highest first, ties in seat order.
    pub open spec fn ranking(self) -> Seq<RankView> {
        sort_upto(self.rank_entries(), self.players.len() as int)
    }

    /// The first step in `lo..=hi` after the current seat whose player is not bankrupt.
    pub open spec fn first_alive_step(self, lo: int, hi: int) -> Option<int>
        decreases hi - lo + 1,
    {
        if lo > hi {
            None
        } else if !self.players[(self.current + lo) % (self.players.len() as int)].bankrupt {
            Some(lo)
        } else {
            self.first_alive_step(lo + 1, hi)
        }
    }

    /// The seat that the turn moves to: the next one, going round, whose player is
    /// not bankrupt; the current seat when every other player is bankrupt.
    pub open spec fn next_seat(self) -> int {
        let n = self.players.len() as int;
        match self.first_alive_step(1, n) {
            Some(step) => (self.current + step) % n,
            None => self.current as int,
        }
    }

    /// Among the first `k` ranking entries, the first whose player is known and not bankrupt.
    pub open spec fn first_standing(self, rank: Seq<RankView>, k: int) -> Option<u128>
        decreases rank.len() - k,
    {
        if k < 0 || k >= rank.len() {
            None
        } else if !self.broke_or_unknown(rank[k].player_id) {
            Some(rank[k].player_id)
        } else {
            self.first_standing(rank, k + 1)
        }
    }

    /// Ends the game on the round limit: the highest net worth among players not
    /// bankrupt wins (ties to the earlier seat); failing that the top of the ranking.
    pub open spec fn end_by_rounds(self) -> (EngineView, Seq<EventView>) {
        let s = EngineView { phase: Phase::Over, ..self };
        let rank = self.ranking();
        let w = match self.first_standing(rank, 0) {
            Some(w) => Some(w),
            None => if rank.len() > 0 { Some(rank[0].player_id) } else { None },
        };
        match w {
            Some(w) => (EngineView { winner: Some(w), ..s }, seq![EventView::GameEnded { winner: w, rank }]),
            None => (s, Seq::empty()),
        }
    }

    /// Moves the turn to the next player not bankrupt: resets doubles, counts a
    /// round when the turn wraps, ends the game when nobody is left or the round
    /// limit is reached, and otherwise starts that player's turn.
    #[verifier::opaque]
    pub open spec fn advance_turn(self) -> (EngineView, Seq<EventView>) {
        if self.phase == Phase::Over {
            (self, Seq::empty())
        } else {
            let s = EngineView { pending_doubles: false, doubles_count: 0, ..self };
            let idx = self.next_seat();
            if self.players[idx].bankrupt {
                (EngineView { phase: Phase::Over, ..s }, Seq::empty())
            } else {
                let round = if idx < self.current { (self.round + 1) as u32 } else { self.round };
                let s2 = EngineView { round, current: idx as usize, ..s };
                if self.settings.max_rounds matches Some(max) && round >= max {
                    s2.end_by_rounds()
                } else {
                    (EngineView { phase: Phase::AwaitRoll, ..s2 },
                        seq![EventView::TurnStarted { player_id: self.players[idx].id }])
                }
            }
        }
    }

    /// End of an action: while waiting to roll, a turn that already moved on is
    /// left as it is, a pending double lets the player roll again, and otherwise
    /// the turn moves on.
    #[verifier::opaque]
    pub open spec fn finish_turn(self) -> (EngineView, Seq<EventView>) {
        if self.phase != Phase::AwaitRoll {
            (self, Seq::empty())
        } else if self.turn_ended {
            (EngineView { turn_ended: false, ..self }, Seq::empty())
        } else if self.pending_doubles {
            (EngineView { pending_doubles: false, ..self }, Seq::empty())
        } else {
            self.advance_turn()
        }
    }
}


/// Dice: `count` numbers in `1..=6`.
pub open spec fn dice_ok(dice: Seq<u8>, count: int) -> bool {
    &&& dice.len() == count
    &&& forall|i: int| 0 <= i < dice.len() ==> 1 <= #[trigger] dice[i] <= 6
}

/// At least two dice, all showing the same number.
pub open spec fn spec_is_double(dice: Seq<u8>) -> bool {
    dice.len() >= 2 && forall|i: int| 0 <= i < dice.len() ==> #[trigger] dice[i] == dice[0]
}

/// Sum of the first `k` dice.
pub open spec fn sum_upto(dice: Seq<u8>, k: int) -> int
    decreases k,
{
    if k <= 0 || k > dice.len() {
        0
    } else {
        sum_upto(dice, k - 1) + dice[k - 1]
    }
}

/// Sum of the dice.
pub open spec fn spec_dice_sum(dice: Seq<u8>) -> int {
    sum_upto(dice, dice.len() as int)
}

/// The sum of `k` numbers of at most `m` is at most `k * m`.
pub proof fn lemma_sum_upto_bound(dice: Seq<u8>, k: int)
    requires
        0 <= k <= dice.len(),
    ensures
        0 <= sum_upto(dice, k) <= 255 * k,
    decreases k,
{
    if k > 0 {
        lemma_sum_upto_bound(dice, k - 1);
    }
}

/// Dice of at most six pips sum to at most six per die.
pub proof fn lemma_dice_sum_bound(dice: Seq<u8>, k: int)
    requires
        0 <= k <= dice.len(),
        forall|i: int| 0 <= i < dice.len() ==> #[trigger] dice[i] <= 6,
    ensures
        0 <= sum_upto(dice, k) <= 6 * k,
    decreases k,
{
    if k > 0 {
        lemma_dice_sum_bound(dice, k - 1);
    }
}

/// The dice that draws give: one die per draw, 1 plus the value drawn.
pub open spec fn dice_of(ds: Seq<(u32, u32)>) -> Seq<u8> {
    ds.map_values(|d: (u32, u32)| (1 + d.1) as u8)
}

/// Rolls `count` dice: `count` draws below 6, each die 1 plus its draw.
pub fn roll_dice<R: RngSource>(count: u8, rng: &mut R) -> (dice: Vec<u8>)
    ensures
        dice_ok(dice@, count as int),
        extends(old(rng).draws(), final(rng).draws()),
        drawn_since(old(rng).draws(), final(rng).draws()).len() == count,
        forall|k: int| 0 <= k < count ==> (#[trigger] drawn_since(old(rng).draws(), final(rng).draws())[k]).0 == 6,
        dice@ == dice_of(drawn_since(old(rng).draws(), final(rng).draws())),
{
    let ghost d0 = rng.draws();
    let mut dice: Vec<u8> = Vec::new();
    let mut i: u8 = 0;
    while i < count
        invariant
            i <= count,
            dice_ok(dice@, i as int),
            d0.len() <= rng.draws().len(),
            rng.draws().take(d0.len() as int) == d0,
            rng.draws().len() == d0.len() + i,
            forall|k: int| 0 <= k < i ==> (#[trigger] rng.draws()[d0.len() + k]).0 == 6 && rng.draws()[d0.len() + k].1 < 6,
            dice@ == dice_of(rng.draws().skip(d0.len() as int)),
        decreases count - i,
    {
        let ghost before = rng.draws();
        let v = rng.next_below(6);
        dice.push(1 + v as u8);
        proof {
            assert(rng.draws().take(d0.len() as int) =~= before.take(d0.len() as int));
            assert(rng.draws().skip(d0.len() as int) =~= before.skip(d0.len() as int).push((6u32, v)));
            assert(dice@ =~= dice_of(rng.draws().skip(d0.len() as int)));
            assert forall|k: int| 0 <= k < i + 1 implies (#[trigger] rng.draws()[d0.len() + k]).0 == 6
                && rng.draws()[d0.len() + k].1 < 6 by {
                if k < i {
                    assert(rng.draws()[d0.len() + k] == before[d0.len() + k]);
                }
            }
        }
        i = i + 1;
    }
    proof {
        assert forall|k: int| 0 <= k < count implies (#[trigger] drawn_since(d0, rng.draws())[k]).0 == 6 by {
            assert(drawn_since(d0, rng.draws())[k] == rng.draws()[d0.len() + k]);
        }
    }
    dice
}

/// The trade id that four draws make: their values, lowest first, as the four
/// 32-bit parts of the id (0 for any other number of draws).
pub open spec fn trade_id_of(ds: Seq<(u32, u32)>) -> u128 {
    if ds.len() == 4 {
        (ds[0].1 + ds[1].1 * 0x1_0000_0000 + ds[2].1 * 0x1_0000_0000_0000_0000
            + ds[3].1 * 0x1_0000_0000_0000_0000_0000_0000) as u128
    } else {
        0
    }
}

/// A fresh trade id: four draws below `u32::MAX` (see [`trade_id_of`]).
pub fn draw_trade_id<R: RngSource>(rng: &mut R) -> (id: u128)
    ensures
        extends(old(rng).draws(), final(rng).draws()),
        drawn_since(old(rng).draws(), final(rng).draws()).len() == 4,
        forall|k: int| 0 <= k < 4 ==> (#[trigger] drawn_since(old(rng).draws(), final(rng).draws())[k]).0 == u32::MAX,
        id == trade_id_of(drawn_since(old(rng).draws(), final(rng).draws())),
{
    let ghost d0 = rng.draws();
    let a = rng.next_below(u32::MAX);
    let b = rng.next_below(u32::MAX);
    let c = rng.next_below(u32::MAX);
    let d = rng.next_below(u32::MAX);
    proof {
        let n = rng.draws();
        assert(n == d0.push((u32::MAX, a)).push((u32::MAX, b)).push((u32::MAX, c)).push((u32::MAX, d)));
        assert(drawn_since(d0, n) =~= seq![(u32::MAX, a), (u32::MAX, b), (u32::MAX, c), (u32::MAX, d)]);
        assert(n.take(d0.len() as int) =~= d0);
    }
    (a as u128) + (b as u128) * 0x1_0000_0000 + (c as u128) * 0x1_0000_0000_0000_0000
        + (d as u128) * 0x1_0000_0000_0000_0000_0000_0000
}

/// The dice are a double: at least two, all equal.
pub fn is_double(dice: &[u8]) -> (r: bool)
    ensures
        r == spec_is_double(dice@),
{
    if dice.len() < 2 {
        return false;
    }
    let first = dice[0];
    let mut i: usize = 0;
    while i < dice.len()
        invariant
            i <= dice@.len(),
            dice@.len() >= 2,
            first == dice@[0],
            forall|k: int| 0 <= k < i ==> #[trigger] dice@[k] == dice@[0],
        decreases dice@.len() - i,
    {
        if dice[i] != first {
            return false;
        }
        i = i + 1;
    }
    true
}

/// Sum of the dice.
pub fn dice_sum(dice: &[u8]) -> (r: u32)
    requires
        dice@.len() <= 255,
    ensures
        r == spec_dice_sum(dice@),
{
    let mut s: u32 = 0;
    let mut i: usize = 0;
    while i < dice.len()
        invariant
            i <= dice@.len(),
            dice@.len() <= 255,
            s == sum_upto(dice@, i as int),
            s <= 255 * i,
        decreases dice@.len() - i,
    {
        s = s + dice[i] as u32;
        i = i + 1;
    }
    s
}

/// The number of draws that a Fisher-Yates shuffle of `n` items makes.
pub open spec fn shuffle_len(n: int) -> int {
    if n > 1 { n - 1 } else { 0 }
}

/// `t` is `s` started with the draws `ds`: first the chance deck's shuffle,
/// then the fate deck's, then the seating's, each by its own draws.
pub open spec fn started_from(s: EngineView, t: EngineView, ds: Seq<(u32, u32)>) -> bool {
    let c = shuffle_len(s.chance.order.len() as int);
    let f = shuffle_len(s.fate.order.len() as int);
    &&& shuffle_draws(ds.take(c), s.chance.order.len() as int)
    &&& t.chance.order == swapped(s.chance.order, ds.take(c))
    &&& shuffle_draws(ds.subrange(c, c + f), s.fate.order.len() as int)
    &&& t.fate.order == swapped(s.fate.order, ds.subrange(c, c + f))
    &&& shuffle_draws(ds.skip(c + f), s.players.len() as int)
    &&& t.players == swapped(s.players, ds.skip(c + f))
}

impl GameEngine {
    /// A lobby on the board that the settings choose, with a fresh register,
    /// the standard decks and no players.
    pub fn new(settings: RoomSettings) -> (r: Result<Self, String>)
        ensures
            r is Ok <==> settings.is_valid(),
            r matches Err(m) ==> m@ == settings.validation_error(),
            r matches Ok(e) ==> e@.wf() && e@ == (EngineView {
                settings,
                board: e@.board,
                players: Seq::empty(),
                deeds: e@.deeds,
                chance: e@.chance,
                fate: e@.fate,
                current: 0,
                phase: Phase::Lobby,
                dice: Seq::empty(),
                doubles_count: 0,
                pending_doubles: false,
                turn_ended: false,
                auction: None,
                pending_trades: Seq::empty(),
                round: 0,
                winner: None,
            }),
            r matches Ok(e) ==> e@.board.len() == 40
                && (forall|i: int| 0 <= i < 40 ==> crate::board::world_tile(#[trigger] e@.board[i], i)),
            r matches Ok(e) ==> e@.deeds == (DeedsView {
                owner: Seq::new(40, |i: int| None::<u128>),
                houses: Seq::new(40, |i: int| 0u8),
                mortgaged: Seq::new(40, |i: int| false),
                houses_available: DEFAULT_HOUSES,
                hotels_available: DEFAULT_HOTELS,
            }),
            r matches Ok(e) ==> e@.chance.draw_index == 0 && e@.chance.order == Seq::new(10, |i: int| i as usize)
                && e@.chance.cards.len() == 10
                && (forall|i: int| 0 <= i < 10 ==> (#[trigger] e@.chance.cards[i]).effect == crate::cards::chance_effect(i)),
            r matches Ok(e) ==> e@.fate.draw_index == 0 && e@.fate.order == Seq::new(10, |i: int| i as usize)
                && e@.fate.cards.len() == 10
                && (forall|i: int| 0 <= i < 10 ==> (#[trigger] e@.fate.cards[i]).effect == crate::cards::fate_effect(i)),
    {
        match settings.validate() {
            Ok(()) => {},
            Err(e) => return Err(e),
        }
        let board = match crate::board::build_board(settings.board_size as usize) {
            Ok(b) => b,
            Err(e) => return Err(e),
        };
        let deeds = Deeds::new(board.len(), DEFAULT_HOUSES, DEFAULT_HOTELS);
        let chance = Deck::chance();
        let fate = Deck::fate();
        proof {
            use_type_invariant(&chance);
            use_type_invariant(&fate);
        }
        let e = GameEngine {
            settings,
            board,
            players: Vec::new(),
            deeds,
            chance,
            fate,
            current: 0,
            phase: Phase::Lobby,
            dice: Vec::new(),
            doubles_count: 0,
            pending_doubles: false,
            turn_ended: false,
            auction: None,
            pending_trades: Vec::new(),
            round: 0,
            winner: None,
        };
        assert(trades_view(e.pending_trades@) =~= Seq::empty());
        Ok(e)
    }

    /// Whether the state is within the limits that [`GameEngine::handle`] needs.
    pub fn within_limits(&self) -> (r: bool)
        requires
            self@.wf(),
        ensures
            r == self@.within_limits(),
    {
        let mut cards: u64 = 0;
        let mut i: usize = 0;
        while i < self.players.len()
            invariant
                i <= self@.players.len(),
                self@.players.len() <= 8,
                cards == cards_upto(self@.players, i as int),
                cards <= 255 * i,
                cash_in(self@.players.take(i as int), 0x4_0000_0000_0000),
            decreases self@.players.len() - i,
        {
            let c = self.players[i].cash;
            if c < -0x4_0000_0000_0000 || c > 0x4_0000_0000_0000 {
                proof { assert(self@.players[i as int].cash == c); }
                return false;
            }
            cards = cards + self.players[i].out_of_jail_cards as u64;
            proof {
                assert forall|k: int| 0 <= k < i + 1 implies
                    -0x4_0000_0000_0000 <= #[trigger] self@.players.take(i + 1)[k].cash <= 0x4_0000_0000_0000 by {
                    if k < i {
                        assert(self@.players.take(i + 1)[k] == self@.players.take(i as int)[k]);
                    }
                }
            }
            i = i + 1;
        }
        proof { assert(self@.players.take(self@.players.len() as int) =~= self@.players); }
        let (potential, hotel_stock) = self.deeds.stock_counts();
        cards <= 200 && potential <= 65535 - 64 && hotel_stock <= 65535 && self.round <= 4294967295 - 32
    }

    /// Index of the first player with id `id`.
    pub fn player_index(&self, id: u128) -> (r: Option<usize>)
        ensures
            r matches Some(i) ==> self@.pidx(id) == Some(i as int) && i < self@.players.len()
                && self@.players[i as int].id == id,
            r is None ==> self@.pidx(id) is None,
    {
        let mut i: usize = 0;
        while i < self.players.len()
            invariant
                i <= self.players@.len(),
                forall|j: int| 0 <= j < i ==> #[trigger] self.players@[j].id != id,
            decreases self.players@.len() - i,
        {
            if self.players[i].id == id {
                proof {
                    lemma_find(self.players@, id);
                    let f = find(self.players@, id);
                    if f is None {
                        assert(self.players@[i as int].id != id);
                    } else if f.unwrap() < i {
                        assert(self.players@[f.unwrap()].id != id);
                    } else if f.unwrap() > i {
                        assert(self.players@[i as int].id != id);
                    }
                }
                return Some(i);
            }
            i = i + 1;
        }
        proof {
            lemma_find(self.players@, id);
            if find(self.players@, id) is Some {
                let f = find(self.players@, id).unwrap();
                assert(self.players@[f].id != id);
            }
        }
        None
    }

    /// The first pair of piece and colour that no seated player has, taking
    /// the pieces in order and, for each, the colours in order; `None` when
    /// all 25 pairs are taken.
    pub fn free_combo(&self) -> (r: Option<(Avatar, Color)>)
        ensures
            match r {
                Some(p) => exists|k: int| 0 <= k < 25 && #[trigger] crate::avatar::combo_nth(k) == p
                    && !self@.pair_taken(p.0, p.1)
                    && forall|j: int| 0 <= j < k ==> #[trigger] self@.combo_taken(j),
                None => forall|j: int| 0 <= j < 25 ==> #[trigger] self@.combo_taken(j),
            },
    {
        let mut k: usize = 0;
        while k < 25
            invariant
                k <= 25,
                forall|j: int| 0 <= j < k ==> #[trigger] self@.combo_taken(j),
            decreases 25 - k,
        {
            let a = crate::avatar::avatar_at(k / 5);
            let c = crate::avatar::color_at(k % 5);
            let mut i: usize = 0;
            let mut taken = false;
            while i < self.players.len()
                invariant
                    i <= self@.players.len(),
                    taken ==> self@.pair_taken(a, c),
                    !taken ==> forall|q: int| 0 <= q < i ==>
                        !((#[trigger] self@.players[q]).avatar == a && self@.players[q].color == c),
                decreases self@.players.len() - i,
            {
                if self.players[i].avatar == a && self.players[i].color == c {
                    taken = true;
                }
                i = i + 1;
            }
            if !taken {
                proof {
                    assert(crate::avatar::combo_nth(k as int) == (a, c));
                }
                return Some((a, c));
            }
            assert(self@.combo_taken(k as int));
            k = k + 1;
        }
        None
    }

    /// Seats a player in the lobby. The pair of piece and colour must be free in
    /// the room (the same piece in another colour is a different pair).
    pub fn add_player(&mut self, id: u128, name: String, avatar: Avatar, color: Color) -> (r: Result<(), String>)
        requires
            old(self)@.wf(),
        ensures
            final(self)@.wf(),
            r is Ok <==> (old(self)@.phase == Phase::Lobby
                && old(self)@.players.len() < old(self)@.settings.player_count_max
                && old(self)@.pidx(id) is None
                && !exists|i: int| 0 <= i < old(self)@.players.len()
                    && (#[trigger] old(self)@.players[i]).avatar == avatar && old(self)@.players[i].color == color),
            r matches Err(m) ==> final(self)@ == old(self)@ && m@ == (
                if old(self)@.phase != Phase::Lobby { "对局已开始，无法加入"@ }
                else if old(self)@.players.len() >= old(self)@.settings.player_count_max { "房间人数已满"@ }
                else if old(self)@.pidx(id) is Some { "该玩家已在房间中"@ }
                else { "该形象组合已被占用："@ + color.spec_label() + avatar.spec_label() }),
            r is Ok ==> final(self)@ == (EngineView {
                players: old(self)@.players.push(Player {
                    id, name, avatar, color,
                    cash: old(self)@.settings.initial_money as i64,
                    position: 0, in_jail: false, jail_turns: 0, out_of_jail_cards: 0, bankrupt: false,
                }),
                ..old(self)@
            }),
    {
        if self.phase != Phase::Lobby {
            return Err(String::from_str("对局已开始，无法加入"));
        }
        if self.players.len() as u8 >= self.settings.player_count_max {
            return Err(String::from_str("房间人数已满"));
        }
        if self.player_index(id).is_some() {
            return Err(String::from_str("该玩家已在房间中"));
        }
        let mut i: usize = 0;
        while i < self.players.len()
            invariant
                i <= self.players@.len(),
                self@ == old(self)@,
                self@.wf(),
                self@.phase == Phase::Lobby,
                self@.players.len() < self@.settings.player_count_max,
                self@.pidx(id) is None,
                forall|j: int| 0 <= j < i ==> !((#[trigger] self.players@[j]).avatar == avatar && self.players@[j].color == color),
            decreases self.players@.len() - i,
        {
            if self.players[i].avatar == avatar && self.players[i].color == color {
                let m = String::from_str("该形象组合已被占用：");
                let c = color.label();
                let a = avatar.label();
                let m = m.concat(c.as_str());
                return Err(m.concat(a.as_str()));
            }
            i = i + 1;
        }
        let cash = self.settings.initial_money as i64;
        self.players.push(Player::new(id, name, avatar, color, cash));
        Ok(())
    }

    fn shuffle_players<R: RngSource>(&mut self, rng: &mut R)
        requires
            old(self)@.players.len() <= 8,
        ensures
            final(self)@ == (EngineView { players: final(self)@.players, ..old(self)@ }),
            final(self)@.players.to_multiset() == old(self)@.players.to_multiset(),
            final(self)@.players.len() == old(self)@.players.len(),
            extends(old(rng).draws(), final(rng).draws()),
            shuffle_draws(drawn_since(old(rng).draws(), final(rng).draws()), old(self)@.players.len() as int),
            final(self)@.players == swapped(old(self)@.players, drawn_since(old(rng).draws(), final(rng).draws())),
    {
        let n = self.players.len();
        let ghost d0 = rng.draws();
        let ghost seg: Seq<(u32, u32)> = Seq::empty();
        let mut i: usize = n;
        while i > 1
            invariant
                i <= n,
                n == self.players@.len(),
                n <= 8,
                self.players@.to_multiset() == old(self)@.players.to_multiset(),
                self@ == (EngineView { players: self@.players, ..old(self)@ }),
                rng.draws() == d0 + seg,
                seg.len() == n - i,
                n > 1 ==> i >= 1,
                n <= 1 ==> i == n,
                forall|k: int| 0 <= k < seg.len() ==> (#[trigger] seg[k]).0 == n - k && seg[k].1 < seg[k].0,
                self.players@ == swapped(old(self)@.players, seg),
            decreases i,
        {
            i = i - 1;
            let j = rng.next_below((i + 1) as u32) as usize;
            let a = self.players[i].clone();
            let b = self.players[j].clone();
            let ghost before = self.players@;
            self.players.set(i, b);
            self.players.set(j, a);
            proof {
                lemma_swap_multiset(before, i as int, j as int);
                assert(self.players@ =~= before.update(i as int, before[j as int]).update(j as int, before[i as int]));
                let ghost old_seg = seg;
                seg = seg.push(((i + 1) as u32, j as u32));
                assert(seg.drop_last() =~= old_seg);
                assert(rng.draws() =~= d0 + seg);
            }
        }
        proof {
            assert(drawn_since(d0, rng.draws()) =~= seg);
            assert(rng.draws().take(d0.len() as int) =~= d0);
        }
    }

    /// Starts the game: shuffles both decks and the seating, the first seat
    /// rolls first. Needs at least two players, in the lobby.
    pub fn start<R: RngSource>(&mut self, rng: &mut R) -> (r: Result<Vec<Event>, String>)
        requires
            old(self)@.wf(),
        ensures
            final(self)@.wf(),
            r is Ok <==> (old(self)@.phase == Phase::Lobby && old(self)@.players.len() >= 2),
            r matches Err(m) ==> final(self)@ == old(self)@ && m@ == (
                if old(self)@.phase != Phase::Lobby { "对局已开始"@ } else { "至少需要 2 名玩家才能开局"@ }),
            r matches Ok(ev) ==> {
                let s = final(self)@;
                &&& s == (EngineView {
                    players: s.players,
                    chance: DeckView { order: s.chance.order, draw_index: 0, ..old(self)@.chance },
                    fate: DeckView { order: s.fate.order, draw_index: 0, ..old(self)@.fate },
                    current: 0,
                    phase: Phase::AwaitRoll,
                    ..old(self)@
                })
                &&& s.players.to_multiset() == old(self)@.players.to_multiset()
                &&& s.players.len() == old(self)@.players.len()
                &&& s.chance.order.to_multiset() == old(self)@.chance.order.to_multiset()
                &&& s.fate.order.to_multiset() == old(self)@.fate.order.to_multiset()
                &&& evs(ev@) == seq![
                    EventView::GameStarted { first_player: s.players[0].id },
                    EventView::TurnStarted { player_id: s.players[0].id }]
            },
            extends(old(rng).draws(), final(rng).draws()),
            r is Err ==> final(rng).draws() == old(rng).draws(),
            r is Ok ==> started_from(old(self)@, final(self)@, drawn_since(old(rng).draws(), final(rng).draws())),
    {
        let ghost d0 = rng.draws();
        proof { assert(d0.take(d0.len() as int) =~= d0); }
        if self.phase != Phase::Lobby {
            return Err(String::from_str("对局已开始"));
        }
        if self.players.len() < 2 {
            return Err(String::from_str("至少需要 2 名玩家才能开局"));
        }
        proof {
            use_type_invariant(&self.chance);
            use_type_invariant(&self.fate);
        }
        self.chance.shuffle(rng);
        let ghost d1 = rng.draws();
        self.fate.shuffle(rng);
        let ghost d2 = rng.draws();
        proof {
            use_type_invariant(&self.chance);
            use_type_invariant(&self.fate);
        }
        self.shuffle_players(rng);
        let ghost d3 = rng.draws();
        proof {
            let s1 = drawn_since(d0, d1);
            let s2 = drawn_since(d1, d2);
            let s3 = drawn_since(d2, d3);
            assert(d1 =~= d0 + s1);
            assert(d2 =~= d1 + s2);
            assert(d3 =~= d2 + s3);
            let all = drawn_since(d0, d3);
            assert(all =~= s1 + s2 + s3);
            assert(all.take(s1.len() as int) =~= s1);
            assert(all.subrange(s1.len() as int, (s1.len() + s2.len()) as int) =~= s2);
            assert(all.skip((s1.len() + s2.len()) as int) =~= s3);
            assert(d3.take(d0.len() as int) =~= d0);
        }
        self.current = 0;
        self.phase = Phase::AwaitRoll;
        let first = self.players[0].id;
        let mut events: Vec<Event> = Vec::new();
        emit(&mut events, Event::GameStarted { first_player: first });
        emit(&mut events, Event::TurnStarted { player_id: first });
        proof {
            broadcast use vstd::seq_lib::group_to_multiset_ensures;
            assert(evs(Seq::<Event>::empty()) =~= Seq::<EventView>::empty());
            assert forall|i: int| 0 <= i < self@.players.len() implies (#[trigger] self@.players[i]).position < self@.board.len() by {
                assert(self@.players.to_multiset().count(self@.players[i]) > 0);
                assert(old(self)@.players.to_multiset().count(self@.players[i]) > 0);
                assert(old(self)@.players.contains(self@.players[i]));
            }
        }
        Ok(events)
    }

    pub fn is_over(&self) -> (r: bool)
        ensures
            r == (self@.phase == Phase::Over),
    {
        self.phase == Phase::Over
    }

    pub fn winner(&self) -> (r: Option<u128>)
        ensures
            r == self@.winner,
    {
        self.winner
    }

    pub fn phase(&self) -> (r: Phase)
        ensures
            r == self@.phase,
    {
        self.phase
    }

    /// The player to bid now in a running auction; `None` without an auction.
    pub fn auction_current_bidder(&self) -> (r: Option<u128>)
        requires
            self@.wf(),
        ensures
            r == match self@.auction { Some(a) => a.current(), None => None },
    {
        match &self.auction {
            Some(a) => a.current_bidder(),
            None => None,
        }
    }

    /// The id of the current player, when there is one.
    pub fn current_player_id(&self) -> (r: Option<u128>)
        ensures
            r == self@.current_id(),
    {
        if self.current < self.players.len() {
            Some(self.players[self.current].id)
        } else {
            None
        }
    }

    /// The player with id `id`.
    pub fn player(&self, id: u128) -> (r: Option<&Player>)
        ensures
            r == match self@.pidx(id) { Some(i) => Some(&self@.players[i]), None => None },
    {
        match self.player_index(id) {
            Some(i) => Some(&self.players[i]),
            None => None,
        }
    }

    /// The player with id `id`, for changes.
    pub fn player_mut(&mut self, id: u128) -> (r: Option<&mut Player>)
        ensures
            old(self)@.pidx(id) is None ==> r is None && *final(self) == *old(self),
            old(self)@.pidx(id) matches Some(i) ==> r matches Some(p) && *p == old(self)@.players[i]
                && final(self)@ == old(self)@.with_player(i, *final(p)),
    {
        match self.player_index(id) {
            Some(i) => Some(&mut self.players[i]),
            None => None,
        }
    }

    /// Cash of `id`; 0 for an unknown player.
    pub fn player_cash(&self, id: u128) -> (r: i64)
        ensures
            r == self@.cash_of(id),
    {
        match self.player_index(id) {
            Some(i) => self.players[i].cash,
            None => 0,
        }
    }

    /// Position of `id`; 0 for an unknown player.
    pub fn player_position(&self, id: u128) -> (r: usize)
        ensures
            r == self@.position_of(id),
    {
        match self.player_index(id) {
            Some(i) => self.players[i].position,
            None => 0,
        }
    }

    /// Ids of the players not bankrupt, in seat order.
    pub fn alive_players(&self) -> (r: Vec<u128>)
        ensures
            r@ == self@.alive(),
    {
        let mut r: Vec<u128> = Vec::new();
        let mut i: usize = 0;
        while i < self.players.len()
            invariant
                i <= self.players@.len(),
                r@ == alive_upto(self.players@, i as int),
            decreases self.players@.len() - i,
        {
            if !self.players[i].bankrupt {
                r.push(self.players[i].id);
            }
            i = i + 1;
        }
        r
    }

    /// Accepts a known player who is not bankrupt.
    pub fn require_player(&self, player: u128) -> (r: Result<(), String>)
        ensures
            r is Ok <==> !self@.broke_or_unknown(player),
            r matches Err(m) ==> m@ == (if self@.pidx(player) is Some { "玩家已破产"@ } else { "玩家不在本房间"@ }),
    {
        match self.player_index(player) {
            Some(i) => if !self.players[i].bankrupt {
                Ok(())
            } else {
                Err(String::from_str("玩家已破产"))
            },
            None => Err(String::from_str("玩家不在本房间")),
        }
    }

    /// Adds `delta` to the cash of `player`, with a money event; returns the new
    /// cash (0, and nothing happens, for an unknown player).
    pub fn change_cash(&mut self, player: u128, delta: i64, events: &mut Vec<Event>) -> (r: i64)
        requires
            old(self)@.pidx(player) matches Some(i) ==>
                i64::MIN <= old(self)@.players[i].cash + delta <= i64::MAX,
        ensures
            final(self)@ == old(self)@.change_cash(player, delta).0,
            evs(final(events)@) == evs(old(events)@) + old(self)@.change_cash(player, delta).1,
            r == final(self)@.cash_of(player),
    {
        match self.player_index(player) {
            Some(i) => {
                let c = self.players[i].cash + delta;
                self.players[i].cash = c;
                emit(events, Event::MoneyChanged { player_id: player, delta });
                proof {
                    lemma_find_same_ids(old(self)@.players, self@.players, player);
                    assert(self@ =~= old(self)@.change_cash(player, delta).0);
                }
                c
            },
            None => {
                proof { assert(evs(old(events)@) + Seq::<EventView>::empty() =~= evs(old(events)@)); }
                0
            },
        }
    }

    /// Net worth of `player`: cash plus the worth of its tiles.
    pub fn net_worth(&self, player: u128) -> (r: i64)
        requires
            self@.wf(),
            cash_in(self@.players, 0x1000_0000_0000_0000),
        ensures
            r == self@.net_worth(player),
    {
        let c = self.player_cash(player);
        let v = self.deeds.total_value(&self.board, player);
        proof {
            lemma_find(self@.players, player);
            crate::deeds::lemma_value_upto_bounds(self@.deeds, self@.board, player, self@.deeds.len() as int);
        }
        c + v
    }

    /// Sends `player` to jail: onto the jail tile, in jail, no jail turns yet;
    /// a pending double is dropped.
    pub fn send_to_jail(&mut self, player: u128, events: &mut Vec<Event>)
        requires
            old(self)@.wf(),
        ensures
            final(self)@ == old(self)@.send_to_jail(player).0,
            evs(final(events)@) == evs(old(events)@) + old(self)@.send_to_jail(player).1,
            final(self)@.wf(),
    {
        let jail = self.board.jail_index();
        proof { crate::board::lemma_jail_index_in_range(self@.board); }
        self.pending_doubles = false;
        match self.player_index(player) {
            Some(i) => {
                self.players[i].position = jail;
                self.players[i].in_jail = true;
                self.players[i].jail_turns = 0;
                proof {
                    assert(self@ =~= old(self)@.send_to_jail(player).0);
                }
            },
            None => {
                proof { assert(self@ =~= old(self)@.send_to_jail(player).0); }
            },
        }
        emit(events, Event::WentToJail { player_id: player });
        proof {
            assert(evs(events@) =~= evs(old(events)@) + old(self)@.send_to_jail(player).1);
        }
    }
}

impl GameEngine {
    /// The ranking: players by net worth, highest first, ties in seat order.
    pub fn ranking(&self) -> (r: Vec<PlayerRank>)
        requires
            self@.wf(),
            cash_in(self@.players, 0x1000_0000_0000_0000),
        ensures
            r@.map_values(|x: PlayerRank| x@) == self@.ranking(),
    {
        let ghost entries = self@.rank_entries();
        let mut rank: Vec<PlayerRank> = Vec::new();
        let mut i: usize = 0;
        while i < self.players.len()
            invariant
                i <= self@.players.len(),
                self@.wf(),
                cash_in(self@.players, 0x1000_0000_0000_0000),
                entries == self@.rank_entries(),
                rank@.map_values(|x: PlayerRank| x@) == sort_upto(entries, i as int),
                rank@.len() == i,
            decreases self@.players.len() - i,
        {
            let id = self.players[i].id;
            let nw = self.net_worth(id);
            let e = PlayerRank { player_id: id, name: self.players[i].name.clone(), net_worth: nw };
            assert(e@ == entries[i as int]);
            let ghost sorted = sort_upto(entries, i as int);
            let mut j: usize = 0;
            while j < rank.len() && rank[j].net_worth >= nw
                invariant
                    j <= rank@.len(),
                    rank@.map_values(|x: PlayerRank| x@) == sorted,
                    insert_pos(sorted, nw, 0) == insert_pos(sorted, nw, j as int),
                decreases rank@.len() - j,
            {
                j = j + 1;
            }
            let ghost old_rank = rank@;
            rank.insert(j, e);
            proof {
                assert(insert_pos(sorted, nw, j as int) == j as int);
                assert(rank@.map_values(|x: PlayerRank| x@) =~= sorted.insert(j as int, entries[i as int]));
            }
            i = i + 1;
        }
        rank
    }

    /// Ends the game on the round limit (see [`EngineView::end_by_rounds`]).
    fn end_by_rounds(&mut self, events: &mut Vec<Event>)
        requires
            old(self)@.wf(),
            cash_in(old(self)@.players, 0x1000_0000_0000_0000),
        ensures
            final(self)@ == old(self)@.end_by_rounds().0,
            evs(final(events)@) == evs(old(events)@) + old(self)@.end_by_rounds().1,
    {
        let rank = self.ranking();
        self.phase = Phase::Over;
        let ghost s0 = old(self)@;
        let ghost rv = rank@.map_values(|x: PlayerRank| x@);
        let mut w: Option<u128> = None;
        let mut k: usize = 0;
        while k < rank.len()
            invariant
                k <= rank@.len(),
                rv == rank@.map_values(|x: PlayerRank| x@),
                s0.players == self@.players,
                w is None ==> s0.first_standing(rv, 0) == s0.first_standing(rv, k as int),
                w is Some ==> w == s0.first_standing(rv, 0),
            decreases rank@.len() - k,
        {
            if w.is_none() {
                let pid = rank[k].player_id;
                assert(rv[k as int].player_id == pid);
                match self.player_index(pid) {
                    Some(i) => if !self.players[i].bankrupt {
                        w = Some(pid);
                    },
                    None => {},
                }
            }
            k = k + 1;
        }
        if w.is_none() && rank.len() > 0 {
            w = Some(rank[0].player_id);
        }
        match w {
            Some(winner) => {
                self.winner = Some(winner);
                emit(events, Event::GameEnded { winner, rank });
            },
            None => {
                proof { assert(evs(old(events)@) + Seq::<EventView>::empty() =~= evs(old(events)@)); }
            },
        }
    }

    /// Moves the turn on (see [`EngineView::advance_turn`]).
    pub fn advance_turn(&mut self, events: &mut Vec<Event>)
        requires
            old(self)@.wf(),
            old(self)@.players.len() > 0,
            old(self)@.round < u32::MAX,
            cash_in(old(self)@.players, 0x1000_0000_0000_0000),
        ensures
            final(self)@ == old(self)@.advance_turn().0,
            evs(final(events)@) == evs(old(events)@) + old(self)@.advance_turn().1,
            final(self)@.wf(),
    {
        proof { reveal(EngineView::advance_turn); }
        if self.phase == Phase::Over {
            proof { assert(evs(old(events)@) + Seq::<EventView>::empty() =~= evs(old(events)@)); }
            return;
        }
        let ghost s0 = old(self)@;
        self.pending_doubles = false;
        self.doubles_count = 0;
        let n = self.players.len();
        let mut idx = self.current;
        let mut found = false;
        let mut step: usize = 1;
        while step <= n && !found
            invariant
                1 <= step <= n + 1,
                n == s0.players.len(),
                n <= 8,
                s0.current < n,
                self.current == s0.current,
                self@.players == s0.players,
                !found ==> idx == s0.current && s0.first_alive_step(1, n as int) == s0.first_alive_step(step as int, n as int),
                found ==> idx == s0.next_seat() && !s0.players[idx as int].bankrupt,
            decreases n + 1 - step + (if found { 0int } else { 1int }),
        {
            let cand = (self.current + step) % n;
            if !self.players[cand].bankrupt {
                idx = cand;
                found = true;
            } else {
                step = step + 1;
            }
        }
        assert(idx == s0.next_seat());
        if self.players[idx].bankrupt {
            self.phase = Phase::Over;
            proof { assert(evs(old(events)@) + Seq::<EventView>::empty() =~= evs(old(events)@)); }
            return;
        }
        if idx < self.current {
            self.round = self.round + 1;
        }
        self.current = idx;
        match self.settings.max_rounds {
            Some(max) => {
                if self.round >= max {
                    self.end_by_rounds(events);
                    return;
                }
            },
            None => {},
        }
        self.phase = Phase::AwaitRoll;
        let next = self.players[idx].id;
        emit(events, Event::TurnStarted { player_id: next });
    }

    /// End of an action (see [`EngineView::finish_turn`]).
    pub fn finish_turn_if_needed(&mut self, events: &mut Vec<Event>)
        requires
            old(self)@.wf(),
            old(self)@.players.len() > 0,
            old(self)@.round < u32::MAX,
            cash_in(old(self)@.players, 0x1000_0000_0000_0000),
        ensures
            final(self)@ == old(self)@.finish_turn().0,
            evs(final(events)@) == evs(old(events)@) + old(self)@.finish_turn().1,
            final(self)@.wf(),
    {
        proof { reveal(EngineView::finish_turn); }
        if self.phase != Phase::AwaitRoll {
            proof { assert(evs(old(events)@) + Seq::<EventView>::empty() =~= evs(old(events)@)); }
            return;
        }
        if self.turn_ended {
            self.turn_ended = false;
            proof { assert(evs(old(events)@) + Seq::<EventView>::empty() =~= evs(old(events)@)); }
            return;
        }
        if self.pending_doubles {
            self.pending_doubles = false;
            proof { assert(evs(old(events)@) + Seq::<EventView>::empty() =~= evs(old(events)@)); }
        } else {
            self.advance_turn(events);
        }
    }
}

/// Status string of a phase: lobby, ended or playing.
pub open spec fn status_name(p: Phase) -> Seq<char> {
    match p {
        Phase::Lobby => "lobby"@,
        Phase::Over => "ended"@,
        _ => "playing"@,
    }
}

/// Name of a phase for clients.
pub open spec fn phase_name(p: Phase) -> Seq<char> {
    match p {
        Phase::Lobby => "lobby"@,
        Phase::Over => "over"@,
        Phase::AwaitRoll => "await_roll"@,
        Phase::AwaitDecision => "decision"@,
        Phase::InAuction => "auction"@,
    }
}

/// Tile `t` as shown with its entry in the register.
pub open spec fn tile_shown(t: Tile, deeds: DeedsView) -> TileView {
    TileView {
        id: t.id,
        name: t.name@,
        kind: t.kind.spec_name(),
        group: match t.group { Some(g) => Some(g.spec_name()), None => None },
        price: t.price,
        owner: deeds.owner[deeds.idx(t.id as int)],
        houses: deeds.houses[deeds.idx(t.id as int)],
        mortgaged: deeds.mortgaged[deeds.idx(t.id as int)],
    }
}

/// Player `p` as shown with net worth `nw`.
pub open spec fn player_shown(p: Player, nw: int) -> PlayerView {
    PlayerView {
        id: p.id,
        name: p.name@,
        avatar: p.avatar,
        color: p.color,
        cash: p.cash,
        position: p.position,
        in_jail: p.in_jail,
        jail_turns: p.jail_turns,
        out_of_jail_cards: p.out_of_jail_cards,
        bankrupt: p.bankrupt,
        net_worth: nw as i64,
    }
}

impl EngineView {
    /// The snapshot of the game: status and phase names, the current player,
    /// settings shown to clients, the bank stock, every tile with its entry in
    /// the register, every player with its net worth, the winner and the round.
    pub open spec fn shown(self) -> StateView {
        StateView {
            status: status_name(self.phase),
            current_player: self.current_id(),
            phase: phase_name(self.phase),
            dice_count: self.settings.dice_count,
            board_size: self.board.len() as usize,
            go_salary: self.settings.go_salary,
            houses_available: self.deeds.houses_available,
            hotels_available: self.deeds.hotels_available,
            tiles: Seq::new(self.board.len(), |i: int| tile_shown(self.board[i], self.deeds)),
            players: Seq::new(self.players.len(), |i: int| player_shown(self.players[i], self.net_worth(self.players[i].id))),
            winner: self.winner,
            round: self.round,
        }
    }
}

impl GameEngine {
    /// A snapshot of the whole game for clients.
    pub fn snapshot(&self) -> (r: GameStateDto)
        requires
            self@.wf(),
            cash_in(self@.players, 0x1000_0000_0000_0000),
        ensures
            r@ == self@.shown(),
    {
        let mut tiles: Vec<TileDto> = Vec::new();
        let mut i: usize = 0;
        while i < self.board.tiles.len()
            invariant
                i <= self@.board.len(),
                self@.wf(),
                tiles@.len() == i,
                forall|k: int| 0 <= k < i ==> (#[trigger] tiles@[k])@ == tile_shown(self@.board[k], self@.deeds),
            decreases self@.board.len() - i,
        {
            let t = &self.board.tiles[i];
            let group = match &t.group {
                Some(g) => Some(g.name()),
                None => None,
            };
            tiles.push(TileDto {
                id: t.id,
                name: t.name.clone(),
                kind: t.kind.name(),
                group,
                price: t.price,
                owner: self.deeds.owner(t.id),
                houses: self.deeds.houses(t.id),
                mortgaged: self.deeds.is_mortgaged(t.id),
            });
            i = i + 1;
        }
        let mut players: Vec<PlayerDto> = Vec::new();
        let mut j: usize = 0;
        while j < self.players.len()
            invariant
                j <= self@.players.len(),
                self@.wf(),
                cash_in(self@.players, 0x1000_0000_0000_0000),
                players@.len() == j,
                forall|k: int| 0 <= k < j ==>
                    (#[trigger] players@[k])@ == player_shown(self@.players[k], self@.net_worth(self@.players[k].id)),
            decreases self@.players.len() - j,
        {
            let p = &self.players[j];
            let nw = self.net_worth(p.id);
            players.push(PlayerDto {
                id: p.id,
                name: p.name.clone(),
                avatar: p.avatar,
                color: p.color,
                cash: p.cash,
                position: p.position,
                in_jail: p.in_jail,
                jail_turns: p.jail_turns,
                out_of_jail_cards: p.out_of_jail_cards,
                bankrupt: p.bankrupt,
                net_worth: nw,
            });
            j = j + 1;
        }
        proof {
            assert(tiles@.map_values(|t: TileDto| t@) =~= self@.shown().tiles);
            assert(players@.map_values(|p: PlayerDto| p@) =~= self@.shown().players);
        }
        let (status, phase) = match self.phase {
            Phase::Lobby => (String::from_str("lobby"), String::from_str("lobby")),
            Phase::Over => (String::from_str("ended"), String::from_str("over")),
            Phase::AwaitRoll => (String::from_str("playing"), String::from_str("await_roll")),
            Phase::AwaitDecision => (String::from_str("playing"), String::from_str("decision")),
            Phase::InAuction => (String::from_str("playing"), String::from_str("auction")),
        };
        GameStateDto {
            status,
            current_player: self.current_player_id(),
            phase,
            dice_count: self.settings.dice_count,
            board_size: self.board.len(),
            go_salary: self.settings.go_salary,
            houses_available: self.deeds.houses_available(),
            hotels_available: self.deeds.hotels_available(),
            tiles,
            players,
            winner: self.winner,
            round: self.round,
        }
    }
}


/// `r` is the reply to `o`: the events of an accepted command, the message of a refused one.
pub open spec fn replies(r: Result<Vec<Event>, String>, o: Outcome) -> bool {
    match r {
        Ok(ev) => o.answer is Ok && evs(ev@) == o.events,
        Err(m) => o.answer == Err::<(), Seq<char>>(m@),
    }
}

impl EngineView {
    /// Why `player` may not roll now.
    pub open spec fn turn_error(self, player: u128) -> Option<Seq<char>> {
        if self.phase == Phase::Lobby {
            Some("对局尚未开始"@)
        } else if self.players[self.current as int].bankrupt {
            Some("当前玩家已破产，对局应已结束"@)
        } else if self.current_id() != Some(player) {
            Some("还没轮到你"@)
        } else if self.phase != Phase::AwaitRoll {
            Some("当前阶段无法掷骰"@)
        } else {
            None
        }
    }

    /// `o`, for a known player not bankrupt; refused otherwise.
    pub open spec fn for_player(self, player: u128, o: Outcome) -> Outcome {
        if self.require_error(player) is Some {
            refused(self, self.require_error(player).unwrap())
        } else {
            o
        }
    }

    /// What command `cmd` from `player` does, with `dice` for a roll and `id`
    /// for a new trade. Nothing is accepted once the game is over; the room,
    /// not the engine, starts games and handles profiles, readiness and chat.
    pub open spec fn command(self, player: u128, cmd: Command, dice: Seq<u8>, id: u128) -> Outcome {
        if self.phase == Phase::Over {
            refused(self, "对局已结束"@)
        } else {
            match cmd {
                Command::RollDice => if self.turn_error(player) is Some {
                    refused(self, self.turn_error(player).unwrap())
                } else {
                    self.roll(dice)
                },
                Command::PayBail => self.for_player(player, self.pay_bail(player)),
                Command::UseOutOfJailCard => self.for_player(player, self.use_card(player)),
                Command::BuyProperty => self.for_player(player, self.buy(player)),
                Command::PassProperty => self.for_player(player, self.pass(player)),
                Command::AuctionBid { amount } => self.bid(player, amount),
                Command::AuctionPass => self.auction_pass(player),
                Command::BuildHouse { tile_id } => self.for_player(player, self.build_house(player, tile_id as int)),
                Command::SellHouse { tile_id } => self.for_player(player, self.sell_house(player, tile_id as int)),
                Command::Mortgage { tile_id } => self.for_player(player, self.mortgage(player, tile_id as int)),
                Command::Unmortgage { tile_id } => self.for_player(player, self.unmortgage(player, tile_id as int)),
                Command::ProposeTrade { target, offer, demand } => self.propose_trade(player, target, offer@, demand@, id),
                Command::AcceptTrade { trade_id } => self.accept_trade(player, trade_id),
                Command::DeclineTrade { trade_id } => self.decline_trade(player, trade_id),
                Command::StartGame => refused(self, "开局请由房主在房间层发起"@),
                _ => refused(self, "该指令由房间层处理"@),
            }
        }
    }
}

impl EngineView {
    /// The draws that running `cmd` from `player` makes: a roll that is
    /// allowed draws one value below 6 per die, a proposal four values below
    /// `u32::MAX` for its trade id, anything else nothing.
    pub open spec fn handle_draws(self, player: u128, cmd: Command, ds: Seq<(u32, u32)>) -> bool {
        if cmd is RollDice && self.phase != Phase::Over && self.turn_error(player) is None {
            &&& ds.len() == self.settings.dice_count
            &&& forall|k: int| 0 <= k < ds.len() ==> (#[trigger] ds[k]).0 == 6
        } else if cmd is ProposeTrade {
            &&& ds.len() == 4
            &&& forall|k: int| 0 <= k < ds.len() ==> (#[trigger] ds[k]).0 == u32::MAX
        } else {
            ds.len() == 0
        }
    }

    /// The outcome of `cmd` from `player` with the draws `ds`: the dice and the
    /// trade id that they give.
    pub open spec fn handled(self, player: u128, cmd: Command, ds: Seq<(u32, u32)>) -> Outcome {
        self.command(player, cmd, dice_of(ds), trade_id_of(ds))
    }
}

/// Within the limits there is room for the steps of any command.
pub proof fn lemma_limits_room(s: EngineView)
    requires
        s.within_limits(),
    ensures
        room(s, 16),
{
}

impl GameEngine {
    /// Accepts a roll from `player`: the game runs, the current player is
    /// not bankrupt, it is `player`'s turn and the dice are awaited.
    fn require_turn(&self, player: u128) -> (r: Result<(), String>)
        requires
            self@.wf(),
        ensures
            r is Ok <==> self@.turn_error(player) is None,
            r matches Err(m) ==> self@.turn_error(player) == Some(m@),
    {
        if self.phase == Phase::Lobby {
            return Err(String::from_str("对局尚未开始"));
        }
        if self.players[self.current].bankrupt {
            return Err(String::from_str("当前玩家已破产，对局应已结束"));
        }
        if self.current_player_id() != Some(player) {
            return Err(String::from_str("还没轮到你"));
        }
        if self.phase != Phase::AwaitRoll {
            return Err(String::from_str("当前阶段无法掷骰"));
        }
        Ok(())
    }

    /// Runs command `cmd` from `player` with the given `dice` (used by a roll)
    /// and trade id (used by a proposal); see [`EngineView::command`].
    #[verifier::rlimit(60)]
    #[verifier::spinoff_prover]
    pub fn handle_with(&mut self, player: u128, cmd: Command, dice: Vec<u8>, trade_id: u128) -> (r: Result<Vec<Event>, String>)
        requires
            old(self)@.wf(),
            old(self)@.within_limits(),
            cmd is RollDice && old(self)@.phase != Phase::Over && old(self)@.turn_error(player) is None
                ==> dice_ok(dice@, old(self)@.settings.dice_count as int),
        ensures
            replies(r, old(self)@.command(player, cmd, dice@, trade_id)),
            final(self)@ == old(self)@.command(player, cmd, dice@, trade_id).state,
            final(self)@.wf(),
            drift(old(self)@, final(self)@, 0x20_0000_0000, 1, 4, 10),
    {
        let ghost s0 = self@;
        proof {
            lemma_limits_room(s0);
            crate::engine_actions::lemma_drift_refl(s0);
            crate::engine_actions::lemma_room_less(s0, 16, 10);
        }
        if self.phase == Phase::Over {
            return Err(String::from_str("对局已结束"));
        }
        let mut events: Vec<Event> = Vec::new();
        proof { assert(evs(events@) =~= Seq::<EventView>::empty()); }
        let res: Result<(), String> = match cmd {
            Command::RollDice => {
                match self.require_turn(player) {
                    Ok(()) => self.roll_with(dice, &mut events),
                    Err(e) => Err(e),
                }
            },
            Command::PayBail => match self.require_player(player) {
                Ok(()) => self.do_pay_bail(player, &mut events),
                Err(e) => Err(e),
            },
            Command::UseOutOfJailCard => match self.require_player(player) {
                Ok(()) => self.do_use_card(player, &mut events),
                Err(e) => Err(e),
            },
            Command::BuyProperty => match self.require_player(player) {
                Ok(()) => self.do_buy(player, &mut events),
                Err(e) => Err(e),
            },
            Command::PassProperty => match self.require_player(player) {
                Ok(()) => self.do_pass(player, &mut events),
                Err(e) => Err(e),
            },
            Command::AuctionBid { amount } => self.do_bid(player, amount, &mut events),
            Command::AuctionPass => self.do_auction_pass(player, &mut events),
            Command::BuildHouse { tile_id } => match self.require_player(player) {
                Ok(()) => self.do_build(player, tile_id, &mut events),
                Err(e) => Err(e),
            },
            Command::SellHouse { tile_id } => match self.require_player(player) {
                Ok(()) => self.do_sell_house(player, tile_id, &mut events),
                Err(e) => Err(e),
            },
            Command::Mortgage { tile_id } => match self.require_player(player) {
                Ok(()) => self.do_mortgage(player, tile_id, &mut events),
                Err(e) => Err(e),
            },
            Command::Unmortgage { tile_id } => match self.require_player(player) {
                Ok(()) => self.do_unmortgage(player, tile_id, &mut events),
                Err(e) => Err(e),
            },
            Command::ProposeTrade { target, offer, demand } =>
                self.propose_trade_with_id(player, target, offer, demand, trade_id, &mut events),
            Command::AcceptTrade { trade_id } => self.do_accept_trade(player, trade_id, &mut events),
            Command::DeclineTrade { trade_id } => self.do_decline_trade(player, trade_id, &mut events),
            Command::StartGame => Err(String::from_str("开局请由房主在房间层发起")),
            _ => Err(String::from_str("该指令由房间层处理")),
        };
        match res {
            Ok(()) => Ok(events),
            Err(e) => Err(e),
        }
    }

    /// Runs command `cmd` from `player`. A roll, once allowed, draws its dice
    /// from `rng`, and a proposal draws its trade id from `rng`; nothing else
    /// draws. The outcome is that of [`EngineView::command`] for the dice and
    /// the id that the new draws give.
    pub fn handle<R: RngSource>(&mut self, player: u128, cmd: Command, rng: &mut R) -> (r: Result<Vec<Event>, String>)
        requires
            old(self)@.wf(),
            old(self)@.within_limits(),
        ensures
            extends(old(rng).draws(), final(rng).draws()),
            old(self)@.handle_draws(player, cmd, drawn_since(old(rng).draws(), final(rng).draws())),
            replies(r, old(self)@.handled(player, cmd, drawn_since(old(rng).draws(), final(rng).draws()))),
            final(self)@ == old(self)@.handled(player, cmd, drawn_since(old(rng).draws(), final(rng).draws())).state,
            final(self)@.wf(),
            drift(old(self)@, final(self)@, 0x20_0000_0000, 1, 4, 10),
    {
        let ghost d0 = rng.draws();
        let rolling = match &cmd { Command::RollDice => true, _ => false };
        if rolling && self.phase != Phase::Over && self.require_turn(player).is_ok() {
            let dice = roll_dice(self.settings.dice_count, rng);
            let ghost new = drawn_since(d0, rng.draws());
            proof {
                assert(old(self)@.command(player, cmd, dice_of(new), 0) == old(self)@.command(player, cmd, dice_of(new), trade_id_of(new)));
            }
            return self.handle_with(player, cmd, dice, 0);
        }
        let proposing = match &cmd { Command::ProposeTrade { .. } => true, _ => false };
        let id: u128 = if proposing { draw_trade_id(rng) } else { 0 };
        let ghost new = drawn_since(d0, rng.draws());
        proof {
            if !proposing {
                assert(rng.draws() == d0);
                assert(new =~= Seq::<(u32, u32)>::empty());
                assert(dice_of(new) =~= Seq::<u8>::empty());
                assert(rng.draws().take(d0.len() as int) =~= d0);
            }
            assert(old(self)@.command(player, cmd, Seq::<u8>::empty(), id) == old(self)@.command(player, cmd, dice_of(new), trade_id_of(new)));
        }
        self.handle_with(player, cmd, Vec::new(), id)
    }
}

/// The outcome of a command does not depend on the bounds of its draws, only
/// on the values drawn: two runs that draw the same values agree.
pub proof fn lemma_replay(s: EngineView, player: u128, cmd: Command, d1: Seq<(u32, u32)>, d2: Seq<(u32, u32)>)
    requires
        d1.len() == d2.len(),
        forall|k: int| 0 <= k < d1.len() ==> (#[trigger] d1[k]).1 == d2[k].1,
    ensures
        s.handled(player, cmd, d1) == s.handled(player, cmd, d2),
{
    assert(dice_of(d1) =~= dice_of(d2));
}

/// A refused command changes nothing and sends nothing; the one exception is
/// lifting a mortgage, which on the cash check fails after the mortgage is
/// already lifted.
pub proof fn lemma_refusal_changes_nothing(s: EngineView, player: u128, cmd: Command, dice: Seq<u8>, id: u128)
    requires
        s.command(player, cmd, dice, id).answer is Err,
        !(cmd is Unmortgage),
    ensures
        s.command(player, cmd, dice, id).state == s,
        s.command(player, cmd, dice, id).events == Seq::<EventView>::empty(),
{
}

/// A refused mortgage lift changes nothing unless the refusal is for want of
/// cash: then only the mortgage on that tile is lifted, and nothing is sent.
pub proof fn lemma_refused_unmortgage(s: EngineView, player: u128, tile_id: usize, dice: Seq<u8>, id: u128)
    requires
        s.command(player, Command::Unmortgage { tile_id }, dice, id).answer is Err,
    ensures
        ({
            let o = s.command(player, Command::Unmortgage { tile_id }, dice, id);
            &&& o.events == Seq::<EventView>::empty()
            &&& (o.answer != Err::<(), Seq<char>>("资金不足，无法赎回"@) ==> o.state == s)
            &&& o.state == (EngineView {
                    deeds: DeedsView {
                        mortgaged: if o.state == s { s.deeds.mortgaged }
                            else { s.deeds.mortgaged.update(s.deeds.idx(tile_id as int), false) },
                        ..s.deeds
                    },
                    ..s
                })
        }),
{
    reveal_strlit("资金不足，无法赎回");
    reveal_strlit("该地块未抵押");
    reveal_strlit("玩家已破产");
    reveal_strlit("玩家不在本房间");
    reveal_strlit("只能赎回自己的地块");
    reveal_strlit("对局已结束");
    let o = s.command(player, Command::Unmortgage { tile_id }, dice, id);
    assert(s.deeds =~= (DeedsView { mortgaged: s.deeds.mortgaged, ..s.deeds }));
}

/// Where a descending list admits `nw`: after every entry worth at least `nw`
/// from `k` on, before the first worth less.
proof fn lemma_insert_pos(sorted: Seq<RankView>, nw: i64, k: int)
    requires
        0 <= k <= sorted.len(),
        forall|i: int| 0 <= i < k ==> (#[trigger] sorted[i]).net_worth >= nw,
    ensures
        k <= insert_pos(sorted, nw, k) <= sorted.len(),
        forall|i: int| 0 <= i < insert_pos(sorted, nw, k) ==> (#[trigger] sorted[i]).net_worth >= nw,
        insert_pos(sorted, nw, k) < sorted.len() ==> sorted[insert_pos(sorted, nw, k)].net_worth < nw,
    decreases sorted.len() - k,
{
    if k < sorted.len() && sorted[k].net_worth >= nw {
        lemma_insert_pos(sorted, nw, k + 1);
    }
}

/// The first `k` ranking entries, sorted: as many as entries, highest net worth first.
proof fn lemma_sort_upto(entries: Seq<RankView>, k: int)
    requires
        0 <= k <= entries.len(),
    ensures
        sort_upto(entries, k).len() == k,
        forall|i: int, j: int| 0 <= i < j < k ==>
            (#[trigger] sort_upto(entries, k)[i]).net_worth >= (#[trigger] sort_upto(entries, k)[j]).net_worth,
    decreases k,
{
    if k > 0 {
        lemma_sort_upto(entries, k - 1);
        let s = sort_upto(entries, k - 1);
        let e = entries[k - 1];
        lemma_insert_pos(s, e.net_worth, 0);
        let p = insert_pos(s, e.net_worth, 0);
        let r = s.insert(p, e);
        assert(sort_upto(entries, k) == r);
        assert forall|i: int, j: int| 0 <= i < j < k implies
            (#[trigger] r[i]).net_worth >= (#[trigger] r[j]).net_worth by {
            if j < p {
                assert(r[i] == s[i] && r[j] == s[j]);
            } else if j == p {
                assert(r[i] == s[i]);
            } else if i < p {
                assert(r[i] == s[i] && r[j] == s[j - 1]);
                if p < s.len() {
                    assert(s[p].net_worth >= s[j - 1].net_worth);
                }
            } else if i == p {
                assert(r[j] == s[j - 1]);
                assert(s[p].net_worth >= s[j - 1].net_worth);
            } else {
                assert(r[i] == s[i - 1] && r[j] == s[j - 1]);
            }
        }
    }
}

/// The final ranking has one entry per player, highest net worth first.
pub proof fn lemma_ranking_sorted(s: EngineView)
    ensures
        s.ranking().len() == s.players.len(),
        forall|i: int, j: int| 0 <= i < j < s.players.len() ==>
            (#[trigger] s.ranking()[i]).net_worth >= (#[trigger] s.ranking()[j]).net_worth,
{
    lemma_sort_upto(s.rank_entries(), s.players.len() as int);
}

} // verus!
