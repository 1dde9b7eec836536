use monopoly::room::{RoomCode, RoomSettings};

#[test]
fn room_code_accepts_8_digit_range() {
    assert!(RoomCode::new(10_000_000).is_ok());
    assert!(RoomCode::new(99_999_999).is_ok());
}

#[test]
fn room_code_rejects_out_of_range() {
    assert!(RoomCode::new(0).is_err());
    assert!(RoomCode::new(9_999_999).is_err());
    assert!(RoomCode::new(100_000_000).is_err());
}

#[test]
fn room_code_displays_zero_padded() {
    assert_eq!(RoomCode::new(12_345_678).unwrap().to_display_string(), "12345678");
    assert_eq!(RoomCode::new(10_000_000).unwrap().to_display_string(), "10000000");
    assert_eq!(RoomCode::new(10_000_000).unwrap().as_u32(), 10_000_000);
}

#[test]
fn settings_validation_rules() {
    let mut s = RoomSettings::default();
    assert!(s.validate().is_ok());

    s.player_count_max = 1;
    assert!(s.validate().is_err());
    s.player_count_max = 9;
    assert!(s.validate().is_err());
    s.player_count_max = 8;
    assert!(s.validate().is_ok());

    s.initial_money = 0;
    assert!(s.validate().is_err());
    s.initial_money = 1000;
    assert!(s.validate().is_ok());

    s.dice_count = 0;
    assert!(s.validate().is_err());
    s.dice_count = 3;
    assert!(s.validate().is_ok());

    s.go_salary = 0;
    assert!(s.validate().is_err());
    s.go_salary = 200;
    assert!(s.validate().is_ok());

    s.board_size = 80;
    assert!(s.validate().is_err());
    s.board_size = 40;
    assert!(s.validate().is_ok());
}

#[test]
fn room_code_error_names_the_number() {
    assert_eq!(RoomCode::new(42).unwrap_err(), "房间号必须是 8 位数字，收到: 42");
}

#[test]
fn settings_defaults_and_messages() {
    let s = RoomSettings::default();
    assert_eq!(s.initial_money, 1500);
    assert_eq!(s.board_size, 40);
    assert_eq!(s.dice_count, 2);
    let bad = RoomSettings { player_count_max: 1, ..RoomSettings::default() };
    assert_eq!(bad.validate().unwrap_err(), "玩家人数需在 2..=8 之间");
    let bad = RoomSettings { dice_count: 0, ..RoomSettings::default() };
    assert_eq!(bad.validate().unwrap_err(), "骰子数量不能为 0");
}
