//! Saved games: everything needed to rebuild an engine exactly.

use vstd::prelude::*;
use crate::auction::AuctionView;
use crate::command::AssetList;
use crate::room::RoomSettings;
use crate::snapshot::{GameStateDto, StateView};
use crate::trade::TradeView;

verus! {

/// A bank auction in progress (not part of the snapshot).
#[derive(Debug, PartialEq)]
pub struct AuctionDto {
    pub tile_id: usize,
    pub order: Vec<u128>,
    pub turn: usize,
    pub highest_bid: u32,
    pub highest_bidder: Option<u128>,
    pub passed: Vec<u128>,
}

/// A pending trade.
#[derive(Debug, PartialEq)]
pub struct TradeDto {
    pub id: u128,
    pub from: u128,
    pub to: u128,
    pub offer: AssetList,
    pub demand: AssetList,
}

/// Engine state that the snapshot leaves out.
#[derive(Debug, PartialEq)]
pub struct ArchiveExtra {
    /// The last roll.
    pub dice: Vec<u8>,
    /// Doubles rolled in a row.
    pub doubles_count: u8,
    /// A double was rolled; the player rolls again.
    pub pending_doubles: bool,
    /// The turn already moved on during the action.
    pub turn_ended: bool,
    pub auction: Option<AuctionDto>,
    /// Tiles waiting for auction after a bankruptcy.
    pub auction_queue: Vec<usize>,
    pub pending_trades: Vec<TradeDto>,
    pub chance_order: Vec<usize>,
    pub chance_draw_index: usize,
    pub fate_order: Vec<usize>,
    pub fate_draw_index: usize,
}

/// A complete saved game: settings, snapshot and the rest of the engine state.
#[derive(Debug, PartialEq)]
pub struct GameArchive {
    pub settings: RoomSettings,
    pub state: GameStateDto,
    pub extra: ArchiveExtra,
}

impl View for AuctionDto {
    type V = AuctionView;

    open spec fn view(&self) -> AuctionView {
        AuctionView {
            tile_id: self.tile_id,
            order: self.order@,
            turn: self.turn,
            highest_bid: self.highest_bid,
            highest_bidder: self.highest_bidder,
            passed: self.passed@,
        }
    }
}

impl View for TradeDto {
    type V = TradeView;

    open spec fn view(&self) -> TradeView {
        TradeView { id: self.id, from: self.from, to: self.to, offer: self.offer@, demand: self.demand@ }
    }
}

/// The content of the extra engine state.
#[verifier::ext_equal]
pub struct ExtraView {
    pub dice: Seq<u8>,
    pub doubles_count: u8,
    pub pending_doubles: bool,
    pub turn_ended: bool,
    pub auction: Option<AuctionView>,
    pub auction_queue: Seq<usize>,
    pub pending_trades: Seq<TradeView>,
    pub chance_order: Seq<usize>,
    pub chance_draw_index: usize,
    pub fate_order: Seq<usize>,
    pub fate_draw_index: usize,
}

impl View for ArchiveExtra {
    type V = ExtraView;

    open spec fn view(&self) -> ExtraView {
        ExtraView {
            dice: self.dice@,
            doubles_count: self.doubles_count,
            pending_doubles: self.pending_doubles,
            turn_ended: self.turn_ended,
            auction: match self.auction { Some(a) => Some(a@), None => None },
            auction_queue: self.auction_queue@,
            pending_trades: self.pending_trades@.map_values(|t: TradeDto| t@),
            chance_order: self.chance_order@,
            chance_draw_index: self.chance_draw_index,
            fate_order: self.fate_order@,
            fate_draw_index: self.fate_draw_index,
        }
    }
}

/// The content of a saved game.
#[verifier::ext_equal]
pub struct ArchiveView {
    pub settings: RoomSettings,
    pub state: StateView,
    pub extra: ExtraView,
}

impl View for GameArchive {
    type V = ArchiveView;

    open spec fn view(&self) -> ArchiveView {
        ArchiveView { settings: self.settings, state: self.state@, extra: self.extra@ }
    }
}

} // verus!
