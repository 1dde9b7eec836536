//! Commands from clients to the server.

use vstd::prelude::*;
use crate::avatar::{Avatar, Color};

verus! {

/// What one side of a trade gives: cash, tiles and get-out-of-jail cards.
#[derive(Debug, Default, PartialEq)]
pub struct AssetList {
    pub cash: i64,
    pub tiles: Vec<usize>,
    pub out_of_jail_cards: u8,
}

/// The abstract content of an asset list.
#[verifier::ext_equal]
pub struct AssetView {
    pub cash: i64,
    pub tiles: Seq<usize>,
    pub out_of_jail_cards: u8,
}

impl View for AssetList {
    type V = AssetView;

    open spec fn view(&self) -> AssetView {
        AssetView { cash: self.cash, tiles: self.tiles@, out_of_jail_cards: self.out_of_jail_cards }
    }
}

impl Clone for AssetList {
    fn clone(&self) -> (r: Self)
        ensures
            r@ == self@,
    {
        let tiles = self.tiles.clone();
        assert(tiles@ =~= self.tiles@);
        AssetList { cash: self.cash, tiles, out_of_jail_cards: self.out_of_jail_cards }
    }
}

/// A command. It carries no identity: the server adds the player that sent it.
#[derive(Debug)]
pub enum Command {
    /// The room owner starts the game (handled by the room, not the engine).
    StartGame,
    RollDice,
    /// Pay 50 to leave jail.
    PayBail,
    UseOutOfJailCard,
    /// Buy the unowned tile the player stands on.
    BuyProperty,
    /// Decline to buy; the bank auctions the tile.
    PassProperty,
    AuctionBid { amount: u32 },
    AuctionPass,
    BuildHouse { tile_id: usize },
    SellHouse { tile_id: usize },
    Mortgage { tile_id: usize },
    /// Lift a mortgage (mortgage value plus 10%).
    Unmortgage { tile_id: usize },
    ProposeTrade { target: u128, offer: AssetList, demand: AssetList },
    AcceptTrade { trade_id: u128 },
    DeclineTrade { trade_id: u128 },
    /// Change name, piece or colour in the lobby (handled by the room).
    UpdateProfile { name: Option<String>, avatar: Option<Avatar>, color: Option<Color> },
    /// Mark or unmark ready in the lobby (handled by the room).
    SetReady { ready: bool },
    /// Chat message (handled by the room).
    Chat { text: String },
}

} // verus!
