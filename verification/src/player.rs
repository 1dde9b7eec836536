//! Runtime state of a player.

use vstd::prelude::*;
use crate::avatar::{Avatar, Color};
use crate::snapshot::PlayerDto;

verus! {

/// A player in a game.
#[derive(Debug)]
pub struct Player {
    pub id: u128,
    pub name: String,
    /// Chosen piece.
    pub avatar: Avatar,
    /// Chosen colour.
    pub color: Color,
    pub cash: i64,
    pub position: usize,
    pub in_jail: bool,
    /// Turns spent in jail so far.
    pub jail_turns: u8,
    pub out_of_jail_cards: u8,
    pub bankrupt: bool,
}

impl Clone for Player {
    fn clone(&self) -> (r: Self)
        ensures
            r == *self,
    {
        Player {
            id: self.id,
            name: self.name.clone(),
            avatar: self.avatar,
            color: self.color,
            cash: self.cash,
            position: self.position,
            in_jail: self.in_jail,
            jail_turns: self.jail_turns,
            out_of_jail_cards: self.out_of_jail_cards,
            bankrupt: self.bankrupt,
        }
    }
}

impl Player {
    /// A player on GO, out of jail, with `cash` and no cards.
    pub fn new(id: u128, name: String, avatar: Avatar, color: Color, cash: i64) -> (p: Self)
        ensures
            p == (Player {
                id, name, avatar, color, cash,
                position: 0, in_jail: false, jail_turns: 0, out_of_jail_cards: 0, bankrupt: false,
            }),
    {
        Player {
            id,
            name,
            avatar,
            color,
            cash,
            position: 0,
            in_jail: false,
            jail_turns: 0,
            out_of_jail_cards: 0,
            bankrupt: false,
        }
    }

    /// The player that a snapshot entry describes (restoring a saved game).
    pub fn restore(dto: &PlayerDto) -> (p: Self)
        ensures
            p.id == dto.id,
            p.name@ == dto.name@,
            p.avatar == dto.avatar,
            p.color == dto.color,
            p.cash == dto.cash,
            p.position == dto.position,
            p.in_jail == dto.in_jail,
            p.jail_turns == dto.jail_turns,
            p.out_of_jail_cards == dto.out_of_jail_cards,
            p.bankrupt == dto.bankrupt,
    {
        Player {
            id: dto.id,
            name: dto.name.clone(),
            avatar: dto.avatar,
            color: dto.color,
            cash: dto.cash,
            position: dto.position,
            in_jail: dto.in_jail,
            jail_turns: dto.jail_turns,
            out_of_jail_cards: dto.out_of_jail_cards,
            bankrupt: dto.bankrupt,
        }
    }
}

} // verus!
