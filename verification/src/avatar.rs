//! Player pieces and colours; each seat in a room picks a distinct pair.

use vstd::prelude::*;

verus! {

/// Playing piece.
#[derive(Debug, Clone, Copy, PartialEq, Eq, Structural, Hash)]
pub enum Avatar {
    Dog,
    Car,
    Bicycle,
    Tree,
    Bed,
}

impl Avatar {
    /// Every piece, in order.
    pub const ALL: [Avatar; 5] = [Avatar::Dog, Avatar::Car, Avatar::Bicycle, Avatar::Tree, Avatar::Bed];

    /// The piece's name as shown to players.
    pub open spec fn spec_label(self) -> Seq<char> {
        match self {
            Avatar::Dog => "狗"@,
            Avatar::Car => "轿车"@,
            Avatar::Bicycle => "单车"@,
            Avatar::Tree => "大树"@,
            Avatar::Bed => "床"@,
        }
    }

    /// The piece's name as shown to players.
    pub fn label(&self) -> (s: String)
        ensures
            s@ == self.spec_label(),
    {
        match self {
            Avatar::Dog => String::from_str("狗"),
            Avatar::Car => String::from_str("轿车"),
            Avatar::Bicycle => String::from_str("单车"),
            Avatar::Tree => String::from_str("大树"),
            Avatar::Bed => String::from_str("床"),
        }
    }
}

/// Piece colour.
#[derive(Debug, Clone, Copy, PartialEq, Eq, Structural, Hash)]
pub enum Color {
    Red,
    Yellow,
    Green,
    Blue,
    Pink,
}

impl Color {
    /// Every colour, in order.
    pub const ALL: [Color; 5] = [Color::Red, Color::Yellow, Color::Green, Color::Blue, Color::Pink];

    /// The colour's name as shown to players.
    pub open spec fn spec_label(self) -> Seq<char> {
        match self {
            Color::Red => "红色"@,
            Color::Yellow => "黄色"@,
            Color::Green => "绿色"@,
            Color::Blue => "蓝色"@,
            Color::Pink => "粉色"@,
        }
    }

    /// The colour's name as shown to players.
    pub fn label(&self) -> (s: String)
        ensures
            s@ == self.spec_label(),
    {
        match self {
            Color::Red => String::from_str("红色"),
            Color::Yellow => String::from_str("黄色"),
            Color::Green => String::from_str("绿色"),
            Color::Blue => String::from_str("蓝色"),
            Color::Pink => String::from_str("粉色"),
        }
    }
}

/// The `i`-th piece of [`Avatar::ALL`].
pub open spec fn avatar_nth(i: int) -> Avatar {
    if i == 0 { Avatar::Dog } else if i == 1 { Avatar::Car } else if i == 2 { Avatar::Bicycle }
    else if i == 3 { Avatar::Tree } else { Avatar::Bed }
}

/// The `i`-th colour of [`Color::ALL`].
pub open spec fn color_nth(i: int) -> Color {
    if i == 0 { Color::Red } else if i == 1 { Color::Yellow } else if i == 2 { Color::Green }
    else if i == 3 { Color::Blue } else { Color::Pink }
}

/// The `k`-th pair of piece and colour: pieces in order, for each the colours in order.
pub open spec fn combo_nth(k: int) -> (Avatar, Color) {
    (avatar_nth(k / 5), color_nth(k % 5))
}

/// The `i`-th piece, for `i < 5`.
pub fn avatar_at(i: usize) -> (a: Avatar)
    ensures
        a == avatar_nth(i as int),
{
    if i == 0 { Avatar::Dog } else if i == 1 { Avatar::Car } else if i == 2 { Avatar::Bicycle }
    else if i == 3 { Avatar::Tree } else { Avatar::Bed }
}

/// The `i`-th colour, for `i < 5`.
pub fn color_at(i: usize) -> (c: Color)
    ensures
        c == color_nth(i as int),
{
    if i == 0 { Color::Red } else if i == 1 { Color::Yellow } else if i == 2 { Color::Green }
    else if i == 3 { Color::Blue } else { Color::Pink }
}

} // verus!
