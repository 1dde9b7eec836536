//! Saving a game to a [`GameArchive`] and rebuilding it exactly: the board,
//! rent tables and deck contents come back from the settings, then owners,
//! buildings, mortgages, players and the turn's inner state (auction, trades,
//! deck order) are written over them.

use vstd::prelude::*;
use crate::archive::{ArchiveExtra, ArchiveView, ExtraView, GameArchive, TradeDto};
use crate::auction::Auction;
use crate::board::{world_tile, Tile};
use crate::cards::DeckView;
use crate::deeds::{restore_upto, value_upto, DeedsView, DEFAULT_HOTELS, DEFAULT_HOUSES};
use crate::engine::{find, lemma_find, phase_name, status_name, tile_shown, EngineView, GameEngine, Phase, cash_in};
use crate::player::Player;
use crate::snapshot::{PlayerView, TileView};
use crate::trade::Trade;

verus! {

impl EngineView {
    /// The saved form of the game: settings, snapshot, and the inner state
    /// that the snapshot leaves out.
    pub open spec fn archived(self) -> ArchiveView {
        ArchiveView {
            settings: self.settings,
            state: self.shown(),
            extra: ExtraView {
                dice: self.dice,
                doubles_count: self.doubles_count,
                pending_doubles: self.pending_doubles,
                turn_ended: self.turn_ended,
                auction: self.auction,
                auction_queue: Seq::empty(),
                pending_trades: self.pending_trades,
                chance_order: self.chance.order,
                chance_draw_index: self.chance.draw_index,
                fate_order: self.fate.order,
                fate_draw_index: self.fate.draw_index,
            },
        }
    }

    /// The board and decks that the settings build: the 40 tiles of the world
    /// board, ten cards in each deck.
    pub open spec fn standard(self) -> bool {
        &&& self.board.len() == 40
        &&& forall|i: int| 0 <= i < 40 ==> world_tile(#[trigger] self.board[i], i)
        &&& self.chance.cards.len() == 10
        &&& self.fate.cards.len() == 10
    }
}

/// The phase that a saved phase name stands for; an unknown name waits for a roll.
pub open spec fn phase_of(name: Seq<char>) -> Phase {
    if name == "lobby"@ {
        Phase::Lobby
    } else if name == "decision"@ {
        Phase::AwaitDecision
    } else if name == "auction"@ {
        Phase::InAuction
    } else if name == "over"@ {
        Phase::Over
    } else {
        Phase::AwaitRoll
    }
}

/// The seat of the saved current player among `ps`; 0 when there is none.
pub open spec fn restored_current(ps: Seq<Player>, cur: Option<u128>) -> usize {
    match cur {
        Some(id) => match find(ps, id) {
            Some(i) => i as usize,
            None => 0,
        },
        None => 0,
    }
}

/// `p` is the player that entry `d` describes.
pub open spec fn player_restored(p: Player, d: PlayerView) -> bool {
    &&& p.id == d.id
    &&& p.name@ == d.name
    &&& p.avatar == d.avatar
    &&& p.color == d.color
    &&& p.cash == d.cash
    &&& p.position == d.position
    &&& p.in_jail == d.in_jail
    &&& p.jail_turns == d.jail_turns
    &&& p.out_of_jail_cards == d.out_of_jail_cards
    &&& p.bankrupt == d.bankrupt
}

/// A register for `n` tiles with nothing owned and the bank's usual stock.
pub open spec fn fresh_deeds(n: nat) -> DeedsView {
    DeedsView {
        owner: Seq::new(n, |i: int| None::<u128>),
        houses: Seq::new(n, |i: int| 0u8),
        mortgaged: Seq::new(n, |i: int| false),
        houses_available: DEFAULT_HOUSES,
        hotels_available: DEFAULT_HOTELS,
    }
}

/// Deck `d` after restoring `order` and `idx`: taken when the order has one
/// entry per card; otherwise the deck stays in its first order.
pub open spec fn deck_restored(d: DeckView, order: Seq<usize>, idx: usize) -> bool {
    if order.len() == d.cards.len() {
        d.order == order && d.draw_index == idx
    } else {
        d.order == Seq::new(d.cards.len(), |i: int| i as usize) && d.draw_index == 0
    }
}

/// `e` is the game rebuilt from archive `a`.
pub open spec fn restores(e: EngineView, a: ArchiveView) -> bool {
    &&& e.settings == a.settings
    &&& e.players.len() == a.state.players.len()
    &&& forall|i: int| 0 <= i < e.players.len() ==> player_restored(#[trigger] e.players[i], a.state.players[i])
    &&& e.deeds == (DeedsView {
        houses_available: a.state.houses_available,
        hotels_available: a.state.hotels_available,
        ..restore_upto(fresh_deeds(e.board.len()), a.state.tiles, a.state.tiles.len() as int)
    })
    &&& deck_restored(e.chance, a.extra.chance_order, a.extra.chance_draw_index)
    &&& deck_restored(e.fate, a.extra.fate_order, a.extra.fate_draw_index)
    &&& e.current == restored_current(e.players, a.state.current_player)
    &&& e.phase == phase_of(a.state.phase)
    &&& e.dice == a.extra.dice
    &&& e.doubles_count == a.extra.doubles_count
    &&& e.pending_doubles == a.extra.pending_doubles
    &&& e.turn_ended == a.extra.turn_ended
    &&& e.auction == a.extra.auction
    &&& e.pending_trades == a.extra.pending_trades
    &&& e.round == a.state.round
    &&& e.winner == a.state.winner
}

impl ArchiveView {
    /// What rebuilding needs: buildings of at most a hotel, and saved deck
    /// orders of ten entries that name cards of a ten-card deck.
    pub open spec fn restorable(self) -> bool {
        &&& forall|k: int| 0 <= k < self.state.tiles.len() ==> (#[trigger] self.state.tiles[k]).houses <= 5
        &&& self.extra.chance_order.len() == 10 ==>
            (forall|i: int| 0 <= i < 10 ==> #[trigger] self.extra.chance_order[i] < 10)
            && self.extra.chance_draw_index < usize::MAX
        &&& self.extra.fate_order.len() == 10 ==>
            (forall|i: int| 0 <= i < 10 ==> #[trigger] self.extra.fate_order[i] < 10)
            && self.extra.fate_draw_index < usize::MAX
    }

    /// A restorable archive that also rebuilds a consistent game: at most eight
    /// players standing on the 40 tiles, players seated once the lobby is
    /// left, a well-formed auction, and at most 255 dice.
    pub open spec fn consistent(self) -> bool {
        &&& self.restorable()
        &&& self.state.players.len() <= 8
        &&& forall|i: int| 0 <= i < self.state.players.len() ==> (#[trigger] self.state.players[i]).position < 40
        &&& (phase_of(self.state.phase) != Phase::Lobby ==> self.state.players.len() > 0)
        &&& (self.extra.auction matches Some(x) ==> x.wf())
        &&& self.extra.dice.len() <= 255
    }
}

impl GameArchive {
    /// Whether the archive can be rebuilt (see [`ArchiveView::restorable`]).
    pub fn is_restorable(&self) -> (r: bool)
        ensures
            r == self@.restorable(),
    {
        let mut k: usize = 0;
        while k < self.state.tiles.len()
            invariant
                k <= self.state.tiles@.len(),
                forall|q: int| 0 <= q < k ==> (#[trigger] self.state.tiles@[q]).houses <= 5,
            decreases self.state.tiles@.len() - k,
        {
            if self.state.tiles[k].houses > 5 {
                proof { assert(self@.state.tiles[k as int].houses > 5); }
                return false;
            }
            k = k + 1;
        }
        proof { assert(forall|q: int| 0 <= q < self@.state.tiles.len() ==> #[trigger] self@.state.tiles[q] == self.state.tiles@[q]@); }
        Self::order_fits(&self.extra.chance_order, self.extra.chance_draw_index)
            && Self::order_fits(&self.extra.fate_order, self.extra.fate_draw_index)
    }

    fn order_fits(order: &Vec<usize>, idx: usize) -> (r: bool)
        ensures
            r == (order@.len() == 10 ==>
                (forall|i: int| 0 <= i < 10 ==> #[trigger] order@[i] < 10) && idx < usize::MAX),
    {
        if order.len() != 10 {
            return true;
        }
        let mut i: usize = 0;
        while i < 10
            invariant
                i <= 10,
                order@.len() == 10,
                forall|q: int| 0 <= q < i ==> #[trigger] order@[q] < 10,
            decreases 10 - i,
        {
            if order[i] >= 10 {
                return false;
            }
            i = i + 1;
        }
        idx < usize::MAX
    }
}

impl GameEngine {
    /// The saved form of the game (see [`EngineView::archived`]).
    pub fn archive(&self) -> (r: GameArchive)
        requires
            self@.wf(),
            cash_in(self@.players, 0x1000_0000_0000_0000),
        ensures
            r@ == self@.archived(),
    {
        let state = self.snapshot();
        let dice = self.dice.clone();
        proof { assert(dice@ =~= self.dice@); }
        let auction = match &self.auction {
            Some(a) => Some(a.to_dto()),
            None => None,
        };
        let mut trades: Vec<TradeDto> = Vec::new();
        let mut i: usize = 0;
        while i < self.pending_trades.len()
            invariant
                i <= self.pending_trades@.len(),
                trades@.len() == i,
                forall|k: int| 0 <= k < i ==> (#[trigger] trades@[k])@ == self.pending_trades@[k]@,
            decreases self.pending_trades@.len() - i,
        {
            trades.push(self.pending_trades[i].to_dto());
            i = i + 1;
        }
        proof {
            assert(trades@.map_values(|t: TradeDto| t@) =~= self@.pending_trades);
        }
        let extra = ArchiveExtra {
            dice,
            doubles_count: self.doubles_count,
            pending_doubles: self.pending_doubles,
            turn_ended: self.turn_ended,
            auction,
            auction_queue: Vec::new(),
            pending_trades: trades,
            chance_order: self.chance.order_clone(),
            chance_draw_index: self.chance.draw_index(),
            fate_order: self.fate.order_clone(),
            fate_draw_index: self.fate.draw_index(),
        };
        let r = GameArchive { settings: self.settings, state, extra };
        proof { assert(r@.extra =~= self@.archived().extra); }
        r
    }

    /// Rebuilds a saved game: refused when its settings are not valid; the
    /// board and decks come from the settings, the rest from the archive.
    pub fn restore(archive: &GameArchive) -> (r: Result<GameEngine, String>)
        requires
            archive@.restorable(),
        ensures
            r is Ok <==> archive@.settings.is_valid(),
            r matches Err(m) ==> m@ == archive@.settings.validation_error(),
            r matches Ok(e) ==> restores(e@, archive@) && e@.standard(),
            r matches Ok(e) ==> archive@.consistent() ==> e@.wf(),
    {
        match archive.settings.validate() {
            Ok(()) => {},
            Err(e) => return Err(e),
        }
        let mut engine = match GameEngine::new(archive.settings) {
            Ok(e) => e,
            Err(e) => return Err(e),
        };
        engine.restore_from(archive);
        Ok(engine)
    }

    fn restore_from(&mut self, archive: &GameArchive)
        requires
            old(self)@.wf(),
            old(self)@.standard(),
            old(self)@.settings == archive@.settings,
            old(self)@.deeds == fresh_deeds(40),
            old(self)@.chance.order == Seq::new(10, |i: int| i as usize),
            old(self)@.chance.draw_index == 0,
            old(self)@.fate.order == Seq::new(10, |i: int| i as usize),
            old(self)@.fate.draw_index == 0,
            archive@.restorable(),
        ensures
            restores(final(self)@, archive@),
            final(self)@.standard(),
            final(self)@.board == old(self)@.board,
            final(self)@.chance.cards == old(self)@.chance.cards,
            final(self)@.fate.cards == old(self)@.fate.cards,
            archive@.consistent() ==> final(self)@.wf(),
    {
        let ghost s0 = self@;
        let ghost a = archive@;
        let state = &archive.state;
        let extra = &archive.extra;
        let mut players: Vec<Player> = Vec::new();
        let mut i: usize = 0;
        while i < state.players.len()
            invariant
                i <= state.players@.len(),
                players@.len() == i,
                forall|k: int| 0 <= k < i ==> player_restored(#[trigger] players@[k], state.players@[k]@),
            decreases state.players@.len() - i,
        {
            players.push(Player::restore(&state.players[i]));
            i = i + 1;
        }
        self.players = players;
        proof {
            assert forall|k: int| 0 <= k < state.tiles@.len() implies (#[trigger] state.tiles@[k]).houses <= 5 by {
                assert(a.state.tiles[k] == state.tiles@[k]@);
            }
            assert(state.tiles@.map_values(|t: crate::snapshot::TileDto| t@) =~= a.state.tiles);
        }
        self.deeds.restore(state.tiles.as_slice(), state.houses_available, state.hotels_available);
        proof {
            use_type_invariant(&self.chance);
            use_type_invariant(&self.fate);
        }
        proof {
            assert(self@.chance.cards.len() == 10);
            assert(self@.fate.cards.len() == 10);
            assert(extra.chance_order@ == a.extra.chance_order);
            assert(extra.fate_order@ == a.extra.fate_order);
        }
        self.chance.restore(&extra.chance_order, extra.chance_draw_index);
        self.fate.restore(&extra.fate_order, extra.fate_draw_index);
        self.current = match state.current_player {
            Some(id) => match self.player_index(id) {
                Some(k) => k,
                None => 0,
            },
            None => 0,
        };
        self.round = state.round;
        self.winner = state.winner;
        self.phase = if state.phase == String::from_str("lobby") {
            Phase::Lobby
        } else if state.phase == String::from_str("decision") {
            Phase::AwaitDecision
        } else if state.phase == String::from_str("auction") {
            Phase::InAuction
        } else if state.phase == String::from_str("over") {
            Phase::Over
        } else {
            Phase::AwaitRoll
        };
        let dice = extra.dice.clone();
        proof { assert(dice@ =~= extra.dice@); }
        self.dice = dice;
        self.doubles_count = extra.doubles_count;
        self.pending_doubles = extra.pending_doubles;
        self.turn_ended = extra.turn_ended;
        self.auction = match &extra.auction {
            Some(x) => Some(Auction::restore(x)),
            None => None,
        };
        let mut trades: Vec<Trade> = Vec::new();
        let mut j: usize = 0;
        while j < extra.pending_trades.len()
            invariant
                j <= extra.pending_trades@.len(),
                trades@.len() == j,
                forall|k: int| 0 <= k < j ==> (#[trigger] trades@[k])@ == extra.pending_trades@[k]@,
            decreases extra.pending_trades@.len() - j,
        {
            trades.push(Trade::restore(&extra.pending_trades[j]));
            j = j + 1;
        }
        self.pending_trades = trades;
        proof {
            assert(crate::engine::trades_view(self.pending_trades@) =~= a.extra.pending_trades);
            assert(self@.deeds =~= (DeedsView {
                houses_available: a.state.houses_available,
                hotels_available: a.state.hotels_available,
                ..restore_upto(fresh_deeds(self@.board.len()), a.state.tiles, a.state.tiles.len() as int)
            }));
            lemma_find(self@.players, match a.state.current_player { Some(id) => id, None => 0 });
            if a.consistent() {
                use_type_invariant(&self.chance);
                use_type_invariant(&self.fate);
                assert forall|k: int| 0 <= k < self@.players.len() implies
                    (#[trigger] self@.players[k]).position < self@.board.len() by {
                    assert(player_restored(self@.players[k], a.state.players[k]));
                }
                assert(self@.wf());
            }
        }
    }
}


/// A phase survives being saved by name and read back.
pub proof fn lemma_phase_name_roundtrip(p: Phase)
    ensures
        phase_of(phase_name(p)) == p,
{
    reveal_strlit("lobby");
    reveal_strlit("decision");
    reveal_strlit("auction");
    reveal_strlit("over");
    reveal_strlit("await_roll");
    assert("lobby"@.len() == 5);
    assert("decision"@.len() == 8);
    assert("auction"@.len() == 7);
    assert("over"@.len() == 4);
    assert("await_roll"@.len() == 10);
}

/// Two tiles of the world board at the same index agree on everything shown or priced.
pub proof fn lemma_world_tiles_agree(t1: Tile, t2: Tile, i: int)
    requires
        0 <= i < 40,
        world_tile(t1, i),
        world_tile(t2, i),
    ensures
        t1.id == t2.id,
        t1.name@ == t2.name@,
        t1.kind == t2.kind,
        t1.group == t2.group,
        t1.price == t2.price,
        t1.building_cost == t2.building_cost,
{
}

/// Rebuilding the register from the snapshot of a 40-tile register puts back,
/// for the first `k` tiles, the owners, buildings and mortgages.
proof fn lemma_restore_register(s: EngineView, k: int)
    requires
        s.wf(),
        s.board.len() == 40,
        0 <= k <= 40,
    ensures
        ({
            let r = restore_upto(fresh_deeds(40), s.shown().tiles, k);
            &&& r.owner.len() == 40
            &&& r.houses.len() == 40
            &&& r.mortgaged.len() == 40
            &&& r.houses_available == DEFAULT_HOUSES
            &&& r.hotels_available == DEFAULT_HOTELS
            &&& forall|j: int| 0 <= j < 40 ==> #[trigger] r.owner[j] == (if j < k { s.deeds.owner[j] } else { None })
            &&& forall|j: int| 0 <= j < 40 ==> #[trigger] r.houses[j] == (if j < k { s.deeds.houses[j] } else { 0u8 })
            &&& forall|j: int| 0 <= j < 40 ==> #[trigger] r.mortgaged[j] == (if j < k { s.deeds.mortgaged[j] } else { false })
        }),
    decreases k,
{
    if k > 0 {
        lemma_restore_register(s, k - 1);
        let t = s.shown().tiles[k - 1];
        assert(s.board[k - 1].id == k - 1);
        assert(t == tile_shown(s.board[k - 1], s.deeds));
        assert(s.deeds.idx(k - 1) == k - 1);
    }
}

/// The worth of a player's tiles depends only on owners, buildings, prices and building costs.
proof fn lemma_value_agrees(d1: DeedsView, d2: DeedsView, t1: Seq<Tile>, t2: Seq<Tile>, p: u128, k: int)
    requires
        0 <= k,
        forall|j: int| 0 <= j < k ==> #[trigger] d1.owner[j] == d2.owner[j],
        forall|j: int| 0 <= j < k ==> #[trigger] d1.houses[j] == d2.houses[j],
        forall|j: int| 0 <= j < k ==> #[trigger] t1[j].price == t2[j].price,
        forall|j: int| 0 <= j < k ==> #[trigger] t1[j].building_cost == t2[j].building_cost,
    ensures
        value_upto(d1, t1, p, k) == value_upto(d2, t2, p, k),
    decreases k,
{
    if k > 0 {
        lemma_value_agrees(d1, d2, t1, t2, p, k - 1);
        assert(d1.owner[k - 1] == d2.owner[k - 1]);
        assert(d1.houses[k - 1] == d2.houses[k - 1]);
        assert(t1[k - 1].price == t2[k - 1].price);
        assert(t1[k - 1].building_cost == t2[k - 1].building_cost);
    }
}

/// Saving a game, rebuilding it from the archive and saving it again gives
/// the same archive: the rebuilt game continues exactly where the saved one
/// stood.
pub proof fn lemma_archive_roundtrip(s: EngineView, e: EngineView)
    requires
        s.wf(),
        s.standard(),
        e.standard(),
        restores(e, s.archived()),
    ensures
        e.archived() == s.archived(),
{
    let a = s.archived();
    lemma_phase_name_roundtrip(s.phase);
    lemma_restore_register(s, 40);
    assert(e.deeds.owner =~= s.deeds.owner);
    assert(e.deeds.houses =~= s.deeds.houses);
    assert(e.deeds.mortgaged =~= s.deeds.mortgaged);
    assert(e.deeds =~= s.deeds);
    assert forall|j: int| 0 <= j < 40 implies #[trigger] e.board[j].price == s.board[j].price
        && e.board[j].building_cost == s.board[j].building_cost by {
        lemma_world_tiles_agree(e.board[j], s.board[j], j);
    }
    // Players keep their seats and ids.
    assert forall|i: int| 0 <= i < e.players.len() implies #[trigger] e.players[i].id == s.players[i].id by {
        assert(player_restored(e.players[i], a.state.players[i]));
    }
    assert forall|i: int| 0 <= i < e.players.len() implies
        #[trigger] e.net_worth(e.players[i].id) == s.net_worth(s.players[i].id) by {
        let id = s.players[i].id;
        crate::engine::lemma_find_same_ids(s.players, e.players, id);
        lemma_find(s.players, id);
        if let Some(q) = s.pidx(id) {
            assert(player_restored(e.players[q], a.state.players[q]));
        }
        lemma_value_agrees(e.deeds, s.deeds, e.board, s.board, id, 40);
    }
    assert(e.shown().players =~= s.shown().players) by {
        assert forall|i: int| 0 <= i < e.players.len() implies #[trigger] e.shown().players[i] == s.shown().players[i] by {
            assert(player_restored(e.players[i], a.state.players[i]));
        }
    }
    assert(e.shown().tiles =~= s.shown().tiles) by {
        assert forall|i: int| 0 <= i < 40 implies #[trigger] e.shown().tiles[i] == s.shown().tiles[i] by {
            lemma_world_tiles_agree(e.board[i], s.board[i], i);
            assert(e.board[i].id == i);
        }
    }
    // The current player is found again by id.
    if s.players.len() > 0 {
        let id = s.players[s.current as int].id;
        crate::engine::lemma_find_same_ids(s.players, e.players, id);
        lemma_find(e.players, id);
        lemma_find(s.players, id);
    }
    assert(e.shown() =~= s.shown());
    assert(e.archived() =~= s.archived());
}

} // verus!
