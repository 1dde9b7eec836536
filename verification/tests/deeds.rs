use monopoly::board::world_board;
use monopoly::deeds::{Deeds, DEFAULT_HOTELS, DEFAULT_HOUSES};
use uuid::Uuid;

fn deeds() -> Deeds {
    Deeds::new(world_board().len(), DEFAULT_HOUSES, DEFAULT_HOTELS)
}

fn new_id() -> u128 {
    Uuid::new_v4().as_u128()
}

#[test]
fn even_build_rule() {
    let board = world_board();
    let mut d = deeds();
    let p = new_id();
    d.assign(1, p);
    d.assign(3, p);
    assert!(d.can_build(&board, 1).is_ok());
    assert_eq!(d.build(&board, 1).unwrap(), 500_000);
    assert!(d.can_build(&board, 1).is_err());
    d.build(&board, 3).unwrap();
    assert!(d.can_build(&board, 1).is_ok());
    assert_eq!(d.houses(1), 1);
}

#[test]
fn monopoly_doubles_rent() {
    let board = world_board();
    let mut d = deeds();
    let p = new_id();
    d.assign(1, p);
    assert_eq!(d.rent(&board, 1, 0), 20_000);
    d.assign(3, p);
    assert_eq!(d.rent(&board, 1, 0), 40_000);
    d.build(&board, 1).unwrap();
    assert_eq!(d.rent(&board, 1, 0), 100_000);
}

#[test]
fn hotel_full_flow() {
    let board = world_board();
    let mut d = deeds();
    let p = new_id();
    d.assign(1, p);
    d.assign(3, p);

    for _ in 0..4 {
        d.build(&board, 1).unwrap();
        d.build(&board, 3).unwrap();
    }
    assert_eq!(d.houses(1), 4);
    let rent_4 = d.rent(&board, 1, 0);

    d.build(&board, 1).unwrap();
    assert_eq!(d.houses(1), 5);
    assert_eq!(d.rent(&board, 1, 0), board.tile(1).hotel_rent);
    assert_ne!(rent_4, board.tile(1).hotel_rent);
    assert!(d.can_build(&board, 1).is_err());

    assert!(d.mortgage(&board, 1).is_err());

    let refund = d.sell_house(&board, 1).unwrap();
    assert_eq!(refund, board.tile(1).building_cost / 2);
    assert_eq!(d.houses(1), 4);
}

#[test]
fn mortgage_blocks_build() {
    let board = world_board();
    let mut d = deeds();
    let p = new_id();
    d.assign(1, p);
    d.assign(3, p);
    d.mortgage(&board, 1).unwrap();
    assert!(d.can_build(&board, 1).is_err());
}

#[test]
fn railroad_and_utility_rent() {
    let board = world_board();
    let mut d = deeds();
    let p = new_id();
    d.assign(5, p);
    assert_eq!(d.rent(&board, 5, 0), 250_000);
    d.assign(15, p);
    assert_eq!(d.rent(&board, 5, 0), 500_000);
    d.assign(12, p);
    assert_eq!(d.rent(&board, 12, 7), 7 * 40_000);
    d.assign(28, p);
    assert_eq!(d.rent(&board, 12, 7), 7 * 100_000);
}

#[test]
fn mortgage_flow() {
    let board = world_board();
    let mut d = deeds();
    let p = new_id();
    d.assign(1, p);
    assert_eq!(d.mortgage(&board, 1).unwrap(), 300_000);
    assert!(d.is_mortgaged(1));
    assert_eq!(d.unmortgage(&board, 1).unwrap(), 330_000);
    assert!(!d.is_mortgaged(1));
}

#[test]
fn build_errors_name_the_rule() {
    let board = world_board();
    let mut d = deeds();
    let p = new_id();
    assert_eq!(d.build(&board, 1).unwrap_err(), "该地块无人所有");
    d.assign(1, p);
    assert_eq!(d.build(&board, 1).unwrap_err(), "集齐整组地产才能建房（垄断）");
    assert_eq!(d.build(&board, 5).unwrap_err(), "该地块无人所有");
    d.assign(5, p);
    assert_eq!(d.build(&board, 5).unwrap_err(), "该地块不可建房");
    assert_eq!(d.houses_available(), DEFAULT_HOUSES);
}

#[test]
fn bank_stock_follows_buildings() {
    let board = world_board();
    let mut d = deeds();
    let p = new_id();
    d.assign(1, p);
    d.assign(3, p);
    for _ in 0..4 {
        d.build(&board, 1).unwrap();
        d.build(&board, 3).unwrap();
    }
    assert_eq!(d.houses_available(), 32 - 8);
    d.build(&board, 1).unwrap();
    assert_eq!(d.houses_available(), 32 - 8 + 4);
    assert_eq!(d.hotels_available(), 11);
    assert_eq!(d.total_houses(p), 4);
    assert_eq!(d.total_hotels(p), 1);
}

#[test]
fn transfer_and_clear_player() {
    let board = world_board();
    let mut d = deeds();
    let p = new_id();
    let q = new_id();
    d.assign(1, p);
    d.assign(3, p);
    d.assign(6, p);
    d.build(&board, 1).unwrap();
    d.build(&board, 3).unwrap();
    d.mortgage(&board, 6).unwrap();
    assert_eq!(d.owned_tiles(p), vec![1, 3, 6]);
    d.transfer_player(p, q);
    assert_eq!(d.owned_tiles(p), Vec::<usize>::new());
    assert_eq!(d.owned_tiles(q), vec![1, 3, 6]);
    let freed = d.clear_player(&board, q);
    assert_eq!(freed, vec![1, 3, 6]);
    assert_eq!(d.owner(1), None);
    assert_eq!(d.houses(1), 0);
    assert!(!d.is_mortgaged(6));
    assert_eq!(d.houses_available(), 32);
}

#[test]
fn total_value_counts_price_and_buildings() {
    let board = world_board();
    let mut d = deeds();
    let p = new_id();
    d.assign(1, p);
    d.assign(3, p);
    d.build(&board, 1).unwrap();
    assert_eq!(d.total_value(&board, p), 600_000 + 600_000 + 500_000);
    assert_eq!(d.railroad_count(&board, p), 0);
    assert_eq!(d.utility_count(&board, p), 0);
}
