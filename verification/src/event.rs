//! Events that the server broadcasts to clients.

use vstd::prelude::*;
use crate::command::{AssetList, AssetView};
use crate::snapshot::GameStateDto;

verus! {

/// One entry of the final ranking.
#[derive(Debug)]
pub struct PlayerRank {
    pub player_id: u128,
    pub name: String,
    pub net_worth: i64,
}

impl Clone for PlayerRank {
    fn clone(&self) -> (r: Self)
        ensures
            r == *self,
    {
        PlayerRank { player_id: self.player_id, name: self.name.clone(), net_worth: self.net_worth }
    }
}

/// The abstract content of a ranking entry.
pub struct RankView {
    pub player_id: u128,
    pub name: Seq<char>,
    pub net_worth: i64,
}

impl View for PlayerRank {
    type V = RankView;

    open spec fn view(&self) -> RankView {
        RankView { player_id: self.player_id, name: self.name@, net_worth: self.net_worth }
    }
}

/// A chat message.
#[derive(Debug)]
pub struct ChatPayload {
    pub player_id: Option<u128>,
    pub name: String,
    pub text: String,
}

/// An event. Clients only display events; they never compute game state.
#[derive(Debug)]
#[allow(inconsistent_fields)]
pub enum Event {
    /// Full snapshot (on joining, reconnecting and after every change).
    RoomSnapshot(GameStateDto),
    /// An error shown to one player.
    Error { code: String, message: String },
    /// A system message in the room.
    Message { text: String },
    Chat(ChatPayload),
    PlayerJoined { player_id: u128, name: String },
    PlayerLeft { player_id: u128 },
    PlayerReady { player_id: u128, ready: bool },
    GameStarted { first_player: u128 },
    TurnStarted { player_id: u128 },
    DiceRolled { player_id: u128, dice: Vec<u8>, doubles: bool, doubles_count: u8, new_position: usize },
    PlayerMoved { player_id: u128, from: usize, to: usize },
    PassedGo { player_id: u128, salary: u32 },
    LandedOn { player_id: u128, tile_id: usize },
    PropertyBought { player_id: u128, tile_id: usize, price: u32 },
    RentPaid { from: u128, to: u128, amount: u32, tile_id: usize },
    CardDrawn { player_id: u128, card_text: String },
    CardApplied { player_id: u128, text: String },
    TaxPaid { player_id: u128, amount: u32, tile_id: usize },
    WentToJail { player_id: u128 },
    JailReleased { player_id: u128 },
    JailTurnSkipped { player_id: u128 },
    BuildHouse { player_id: u128, tile_id: usize, houses: u8 },
    SoldHouse { player_id: u128, tile_id: usize, houses: u8 },
    Mortgaged { player_id: u128, tile_id: usize, amount: u32 },
    Unmortgaged { player_id: u128, tile_id: usize, cost: u32 },
    AuctionStarted { tile_id: usize },
    AuctionBid { player_id: u128, amount: u32 },
    AuctionPassed { player_id: u128 },
    AuctionEnded { tile_id: usize, winner: Option<u128>, amount: u32 },
    TradeProposed { trade_id: u128, from: u128, to: u128, offer: AssetList, demand: AssetList },
    TradeAccepted { trade_id: u128 },
    TradeDeclined { trade_id: u128 },
    MoneyChanged { player_id: u128, delta: i64 },
    PlayerBroke { player_id: u128, creditor: Option<u128> },
    GameEnded { winner: u128, rank: Vec<PlayerRank> },
    RoomClosed,
}

/// The abstract content of an event, strings and lists taken by their views.
#[allow(inconsistent_fields)]
pub enum EventView {
    RoomSnapshot,
    Error { code: Seq<char>, message: Seq<char> },
    Message { text: Seq<char> },
    Chat,
    PlayerJoined { player_id: u128, name: Seq<char> },
    PlayerLeft { player_id: u128 },
    PlayerReady { player_id: u128, ready: bool },
    GameStarted { first_player: u128 },
    TurnStarted { player_id: u128 },
    DiceRolled { player_id: u128, dice: Seq<u8>, doubles: bool, doubles_count: u8, new_position: usize },
    PlayerMoved { player_id: u128, from: usize, to: usize },
    PassedGo { player_id: u128, salary: u32 },
    LandedOn { player_id: u128, tile_id: usize },
    PropertyBought { player_id: u128, tile_id: usize, price: u32 },
    RentPaid { from: u128, to: u128, amount: u32, tile_id: usize },
    CardDrawn { player_id: u128, card_text: Seq<char> },
    CardApplied { player_id: u128, text: Seq<char> },
    TaxPaid { player_id: u128, amount: u32, tile_id: usize },
    WentToJail { player_id: u128 },
    JailReleased { player_id: u128 },
    JailTurnSkipped { player_id: u128 },
    BuildHouse { player_id: u128, tile_id: usize, houses: u8 },
    SoldHouse { player_id: u128, tile_id: usize, houses: u8 },
    Mortgaged { player_id: u128, tile_id: usize, amount: u32 },
    Unmortgaged { player_id: u128, tile_id: usize, cost: u32 },
    AuctionStarted { tile_id: usize },
    AuctionBid { player_id: u128, amount: u32 },
    AuctionPassed { player_id: u128 },
    AuctionEnded { tile_id: usize, winner: Option<u128>, amount: u32 },
    TradeProposed { trade_id: u128, from: u128, to: u128, offer: AssetView, demand: AssetView },
    TradeAccepted { trade_id: u128 },
    TradeDeclined { trade_id: u128 },
    MoneyChanged { player_id: u128, delta: i64 },
    PlayerBroke { player_id: u128, creditor: Option<u128> },
    GameEnded { winner: u128, rank: Seq<RankView> },
    RoomClosed,
}

impl View for Event {
    type V = EventView;

    open spec fn view(&self) -> EventView {
        match self {
            Event::RoomSnapshot(_) => EventView::RoomSnapshot,
            Event::Error { code, message } => EventView::Error { code: code@, message: message@ },
            Event::Message { text } => EventView::Message { text: text@ },
            Event::Chat(_) => EventView::Chat,
            Event::PlayerJoined { player_id, name } => EventView::PlayerJoined { player_id: *player_id, name: name@ },
            Event::PlayerLeft { player_id } => EventView::PlayerLeft { player_id: *player_id },
            Event::PlayerReady { player_id, ready } => EventView::PlayerReady { player_id: *player_id, ready: *ready },
            Event::GameStarted { first_player } => EventView::GameStarted { first_player: *first_player },
            Event::TurnStarted { player_id } => EventView::TurnStarted { player_id: *player_id },
            Event::DiceRolled { player_id, dice, doubles, doubles_count, new_position } =>
                EventView::DiceRolled { player_id: *player_id, dice: dice@, doubles: *doubles,
                    doubles_count: *doubles_count, new_position: *new_position },
            Event::PlayerMoved { player_id, from, to } => EventView::PlayerMoved { player_id: *player_id, from: *from, to: *to },
            Event::PassedGo { player_id, salary } => EventView::PassedGo { player_id: *player_id, salary: *salary },
            Event::LandedOn { player_id, tile_id } => EventView::LandedOn { player_id: *player_id, tile_id: *tile_id },
            Event::PropertyBought { player_id, tile_id, price } =>
                EventView::PropertyBought { player_id: *player_id, tile_id: *tile_id, price: *price },
            Event::RentPaid { from, to, amount, tile_id } =>
                EventView::RentPaid { from: *from, to: *to, amount: *amount, tile_id: *tile_id },
            Event::CardDrawn { player_id, card_text } => EventView::CardDrawn { player_id: *player_id, card_text: card_text@ },
            Event::CardApplied { player_id, text } => EventView::CardApplied { player_id: *player_id, text: text@ },
            Event::TaxPaid { player_id, amount, tile_id } =>
                EventView::TaxPaid { player_id: *player_id, amount: *amount, tile_id: *tile_id },
            Event::WentToJail { player_id } => EventView::WentToJail { player_id: *player_id },
            Event::JailReleased { player_id } => EventView::JailReleased { player_id: *player_id },
            Event::JailTurnSkipped { player_id } => EventView::JailTurnSkipped { player_id: *player_id },
            Event::BuildHouse { player_id, tile_id, houses } =>
                EventView::BuildHouse { player_id: *player_id, tile_id: *tile_id, houses: *houses },
            Event::SoldHouse { player_id, tile_id, houses } =>
                EventView::SoldHouse { player_id: *player_id, tile_id: *tile_id, houses: *houses },
            Event::Mortgaged { player_id, tile_id, amount } =>
                EventView::Mortgaged { player_id: *player_id, tile_id: *tile_id, amount: *amount },
            Event::Unmortgaged { player_id, tile_id, cost } =>
                EventView::Unmortgaged { player_id: *player_id, tile_id: *tile_id, cost: *cost },
            Event::AuctionStarted { tile_id } => EventView::AuctionStarted { tile_id: *tile_id },
            Event::AuctionBid { player_id, amount } => EventView::AuctionBid { player_id: *player_id, amount: *amount },
            Event::AuctionPassed { player_id } => EventView::AuctionPassed { player_id: *player_id },
            Event::AuctionEnded { tile_id, winner, amount } =>
                EventView::AuctionEnded { tile_id: *tile_id, winner: *winner, amount: *amount },
            Event::TradeProposed { trade_id, from, to, offer, demand } =>
                EventView::TradeProposed { trade_id: *trade_id, from: *from, to: *to, offer: offer@, demand: demand@ },
            Event::TradeAccepted { trade_id } => EventView::TradeAccepted { trade_id: *trade_id },
            Event::TradeDeclined { trade_id } => EventView::TradeDeclined { trade_id: *trade_id },
            Event::MoneyChanged { player_id, delta } => EventView::MoneyChanged { player_id: *player_id, delta: *delta },
            Event::PlayerBroke { player_id, creditor } => EventView::PlayerBroke { player_id: *player_id, creditor: *creditor },
            Event::GameEnded { winner, rank } =>
                EventView::GameEnded { winner: *winner, rank: rank@.map_values(|r: PlayerRank| r@) },
            Event::RoomClosed => EventView::RoomClosed,
        }
    }
}

/// The views of a list of events.
pub open spec fn evs(s: Seq<Event>) -> Seq<EventView> {
    s.map_values(|e: Event| e@)
}

/// Pushes `e` onto `events`.
pub fn emit(events: &mut Vec<Event>, e: Event)
    ensures
        evs(final(events)@) == evs(old(events)@).push(e@),
{
    let ghost v = e@;
    events.push(e);
    proof {
        assert(evs(events@) =~= evs(old(events)@).push(v));
    }
}

} // verus!
