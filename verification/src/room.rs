//! Room codes and room settings.

use vstd::prelude::*;
use crate::text::{decimal, decimal_padded, decimal_string, decimal_string_padded};

verus! {

/// Eight-digit room number, stored as a `u32` in `10000000..=99999999`.
#[derive(Debug, Clone, Copy, PartialEq, Eq, Structural, Hash)]
pub struct RoomCode(u32);

impl RoomCode {
    pub const MIN: u32 = 10_000_000;
    pub const MAX: u32 = 99_999_999;

    /// The number that this code holds.
    pub closed spec fn value(self) -> u32 {
        self.0
    }

    /// Every room code is an eight-digit number.
    #[verifier::type_invariant]
    spec fn in_range(self) -> bool {
        Self::MIN <= self.0 <= Self::MAX
    }

    /// Accepts exactly the eight-digit numbers; the error names the rejected number.
    pub fn new(code: u32) -> (r: Result<Self, String>)
        ensures
            r is Ok <==> (Self::MIN <= code <= Self::MAX),
            r matches Ok(c) ==> c.value() == code,
            r matches Err(m) ==> m@ == "房间号必须是 8 位数字，收到: "@ + decimal(code as nat),
    {
        if Self::MIN <= code && code <= Self::MAX {
            Ok(RoomCode(code))
        } else {
            let msg = String::from_str("房间号必须是 8 位数字，收到: ");
            let num = decimal_string(code as u64);
            Err(msg.concat(num.as_str()))
        }
    }

    pub fn as_u32(self) -> (r: u32)
        ensures
            r == self.value(),
            Self::MIN <= r <= Self::MAX,
    {
        proof { use_type_invariant(&self); }
        self.0
    }

    /// The code as shown to players: eight digits, zero-padded.
    pub fn to_display_string(&self) -> (s: String)
        ensures
            s@ == decimal_padded(self.value() as nat, 8),
    {
        decimal_string_padded(self.0 as u64, 8)
    }
}

/// Settings chosen when a room is created.
#[derive(Debug, Clone, Copy, PartialEq, Eq, Structural)]
pub struct RoomSettings {
    /// Largest number of seats, `2..=8`.
    pub player_count_max: u8,
    /// Cash every player starts with.
    pub initial_money: u32,
    /// Number of dice rolled per turn.
    pub dice_count: u8,
    /// Number of tiles on the board.
    pub board_size: u16,
    /// Salary collected when passing GO.
    pub go_salary: u32,
    /// Round limit; `None` for no limit.
    pub max_rounds: Option<u32>,
}

impl Default for RoomSettings {
    fn default() -> (s: Self)
        ensures
            s == RoomSettings::spec_default(),
    {
        RoomSettings {
            player_count_max: 8,
            initial_money: 1500,
            dice_count: 2,
            board_size: 40,
            go_salary: 200,
            max_rounds: None,
        }
    }
}

impl RoomSettings {
    /// The default settings: eight seats, 1500 cash, two dice, 40 tiles, 200 salary, no round limit.
    pub open spec fn spec_default() -> RoomSettings {
        RoomSettings {
            player_count_max: 8,
            initial_money: 1500,
            dice_count: 2,
            board_size: 40,
            go_salary: 200,
            max_rounds: None,
        }
    }

    /// Settings that a room may be created with.
    pub open spec fn is_valid(self) -> bool {
        &&& 2 <= self.player_count_max <= 8
        &&& self.initial_money != 0
        &&& self.dice_count != 0
        &&& self.go_salary != 0
        &&& self.board_size == 40
    }

    /// The message of the first failing rule, in the order seats, money, dice,
    /// salary, board size.
    pub open spec fn validation_error(self) -> Seq<char> {
        if !(2 <= self.player_count_max <= 8) { "玩家人数需在 2..=8 之间"@ }
        else if self.initial_money == 0 { "初始资金不能为 0"@ }
        else if self.dice_count == 0 { "骰子数量不能为 0"@ }
        else if self.go_salary == 0 { "GO 薪水不能为 0"@ }
        else { "当前版本仅支持经典 40 格棋盘，自定义地图将在后续版本开放"@ }
    }

    /// Checks the settings; the first failing rule, in the order seats, money,
    /// dice, salary, board size, gives the error.
    pub fn validate(&self) -> (r: Result<(), String>)
        ensures
            r is Ok <==> self.is_valid(),
            r matches Err(m) ==> m@ == self.validation_error(),
    {
        if !(2 <= self.player_count_max && self.player_count_max <= 8) {
            return Err(String::from_str("玩家人数需在 2..=8 之间"));
        }
        if self.initial_money == 0 {
            return Err(String::from_str("初始资金不能为 0"));
        }
        if self.dice_count == 0 {
            return Err(String::from_str("骰子数量不能为 0"));
        }
        if self.go_salary == 0 {
            return Err(String::from_str("GO 薪水不能为 0"));
        }
        if self.board_size != 40 {
            return Err(String::from_str("当前版本仅支持经典 40 格棋盘，自定义地图将在后续版本开放"));
        }
        Ok(())
    }
}

} // verus!
