//! Snapshots of a game, from which a client rebuilds its view.

use vstd::prelude::*;
use crate::avatar::{Avatar, Color};

verus! {

/// One tile as shown to clients.
#[derive(Debug, PartialEq)]
pub struct TileDto {
    pub id: usize,
    pub name: String,
    pub kind: String,
    pub group: Option<String>,
    pub price: u32,
    pub owner: Option<u128>,
    pub houses: u8,
    pub mortgaged: bool,
}

/// One player as shown to clients.
#[derive(Debug, PartialEq)]
pub struct PlayerDto {
    pub id: u128,
    pub name: String,
    pub avatar: Avatar,
    pub color: Color,
    pub cash: i64,
    pub position: usize,
    pub in_jail: bool,
    pub jail_turns: u8,
    pub out_of_jail_cards: u8,
    pub bankrupt: bool,
    pub net_worth: i64,
}

/// A whole game as shown to clients.
#[derive(Debug, PartialEq)]
pub struct GameStateDto {
    /// lobby / playing / ended.
    pub status: String,
    pub current_player: Option<u128>,
    /// lobby / await_roll / decision / auction / over.
    pub phase: String,
    pub dice_count: u8,
    pub board_size: usize,
    pub go_salary: u32,
    pub houses_available: u16,
    pub hotels_available: u16,
    pub tiles: Vec<TileDto>,
    pub players: Vec<PlayerDto>,
    pub winner: Option<u128>,
    pub round: u32,
}

/// The content of a tile entry, strings taken by their views.
#[verifier::ext_equal]
pub struct TileView {
    pub id: usize,
    pub name: Seq<char>,
    pub kind: Seq<char>,
    pub group: Option<Seq<char>>,
    pub price: u32,
    pub owner: Option<u128>,
    pub houses: u8,
    pub mortgaged: bool,
}

impl View for TileDto {
    type V = TileView;

    open spec fn view(&self) -> TileView {
        TileView {
            id: self.id,
            name: self.name@,
            kind: self.kind@,
            group: match self.group { Some(g) => Some(g@), None => None },
            price: self.price,
            owner: self.owner,
            houses: self.houses,
            mortgaged: self.mortgaged,
        }
    }
}

/// The content of a player entry, the name taken by its view.
#[verifier::ext_equal]
pub struct PlayerView {
    pub id: u128,
    pub name: Seq<char>,
    pub avatar: Avatar,
    pub color: Color,
    pub cash: i64,
    pub position: usize,
    pub in_jail: bool,
    pub jail_turns: u8,
    pub out_of_jail_cards: u8,
    pub bankrupt: bool,
    pub net_worth: i64,
}

impl View for PlayerDto {
    type V = PlayerView;

    open spec fn view(&self) -> PlayerView {
        PlayerView {
            id: self.id,
            name: self.name@,
            avatar: self.avatar,
            color: self.color,
            cash: self.cash,
            position: self.position,
            in_jail: self.in_jail,
            jail_turns: self.jail_turns,
            out_of_jail_cards: self.out_of_jail_cards,
            bankrupt: self.bankrupt,
            net_worth: self.net_worth,
        }
    }
}

/// The content of a snapshot.
#[verifier::ext_equal]
pub struct StateView {
    pub status: Seq<char>,
    pub current_player: Option<u128>,
    pub phase: Seq<char>,
    pub dice_count: u8,
    pub board_size: usize,
    pub go_salary: u32,
    pub houses_available: u16,
    pub hotels_available: u16,
    pub tiles: Seq<TileView>,
    pub players: Seq<PlayerView>,
    pub winner: Option<u128>,
    pub round: u32,
}

impl View for GameStateDto {
    type V = StateView;

    open spec fn view(&self) -> StateView {
        StateView {
            status: self.status@,
            current_player: self.current_player,
            phase: self.phase@,
            dice_count: self.dice_count,
            board_size: self.board_size,
            go_salary: self.go_salary,
            houses_available: self.houses_available,
            hotels_available: self.hotels_available,
            tiles: self.tiles@.map_values(|t: TileDto| t@),
            players: self.players@.map_values(|p: PlayerDto| p@),
            winner: self.winner,
            round: self.round,
        }
    }
}

} // verus!
