use monopoly::avatar::{Avatar, Color};
use monopoly::cards::{Card, CardEffect, Deck};
use monopoly::command::Command;
use monopoly::engine::{GameEngine, Phase};
use monopoly::event::Event;
use monopoly::rng::RngSource;
use monopoly::room::RoomSettings;

struct SeqRng {
    vals: Vec<u32>,
    i: usize,
}

impl RngSource for SeqRng {
    fn next_below(&mut self, bound: u32) -> u32 {
        let v = self.vals[self.i % self.vals.len()];
        self.i += 1;
        v % bound
    }
}

fn rng(vals: Vec<u32>) -> SeqRng {
    SeqRng { vals, i: 0 }
}

const A: u128 = 11;
const B: u128 = 22;

/// Two players in a started game, `A` to move, standing on `pos`.
fn started(initial_money: u32, pos: usize) -> GameEngine {
    let settings = RoomSettings { player_count_max: 2, initial_money, ..Default::default() };
    let mut e = GameEngine::new(settings).unwrap();
    e.add_player(A, "A".to_string(), Avatar::Dog, Color::Red).unwrap();
    e.add_player(B, "B".to_string(), Avatar::Car, Color::Blue).unwrap();
    e.start(&mut rng(vec![0; 64])).unwrap();
    e.current = e.players.iter().position(|p| p.id == A).unwrap();
    e.player_mut(A).unwrap().position = pos;
    e
}

fn one_card(effect: CardEffect) -> Deck {
    Deck::new(vec![Card { id: 1, text: "测试".to_string(), effect }])
}

#[test]
fn go_to_jail_with_doubles_ends_turn_on_classic_board() {
    let mut e = started(1500, 18);
    let evs = e.handle(A, Command::RollDice, &mut rng(vec![5, 5])).unwrap();
    assert!(evs.iter().any(|x| matches!(x, Event::WentToJail { .. })));
    assert!(e.player(A).unwrap().in_jail);
    assert_eq!(e.player_position(A), e.board.jail_index());
    assert_eq!(e.current_player_id(), Some(B));
    assert_eq!(e.phase(), Phase::AwaitRoll);
}

#[test]
fn pay_bail_costs_500000() {
    let mut e = started(15_000_000, 0);
    e.send_to_jail(A, &mut Vec::new());
    let evs = e.handle(A, Command::PayBail, &mut rng(vec![0])).unwrap();
    assert!(evs.iter().any(|x| matches!(x, Event::JailReleased { .. })));
    assert!(!e.player(A).unwrap().in_jail);
    assert_eq!(e.player_cash(A), 14_500_000);
}

#[test]
fn forced_bail_on_third_failed_jail_roll() {
    let mut e = started(15_000_000, 0);
    e.send_to_jail(A, &mut Vec::new());
    e.player_mut(A).unwrap().jail_turns = 2;
    let evs = e.handle(A, Command::RollDice, &mut rng(vec![0, 1])).unwrap();
    assert!(evs.iter().any(|x| matches!(x, Event::JailReleased { player_id } if *player_id == A)));
    let p = e.player(A).unwrap();
    assert!(!p.in_jail);
    assert_eq!(p.jail_turns, 0);
    assert_eq!(e.player_cash(A), 14_500_000);
}

#[test]
fn moving_back_by_card_pays_no_salary() {
    let mut e = started(1500, 4);
    e.chance = one_card(CardEffect::MoveBy(-3));
    let evs = e.handle(A, Command::RollDice, &mut rng(vec![0, 1])).unwrap();
    assert!(evs.iter().any(|x| matches!(x, Event::PlayerMoved { from: 7, to: 4, .. })));
    assert!(!evs.iter().any(|x| matches!(x, Event::PassedGo { .. })));
    assert_eq!(e.player_position(A), 4);
    assert_eq!(e.player_cash(A), 1500);
}

#[test]
fn nearest_railroad_card_takes_no_rent() {
    let mut e = started(1500, 4);
    e.chance = one_card(CardEffect::NearestRailroad);
    e.deeds.assign(15, B);
    let evs = e.handle(A, Command::RollDice, &mut rng(vec![0, 1])).unwrap();
    assert!(!evs.iter().any(|x| matches!(x, Event::RentPaid { .. })));
    assert_eq!(e.player_position(A), 15);
    assert_eq!(e.player_cash(A), 1500);
    assert_eq!(e.player_cash(B), 1500);
}

#[test]
fn advancing_by_card_past_go_pays_salary() {
    let mut e = started(1500, 30);
    e.fate = one_card(CardEffect::MoveTo(0));
    let evs = e.handle(A, Command::RollDice, &mut rng(vec![0, 1])).unwrap();
    assert!(evs.iter().any(|x| matches!(x, Event::PassedGo { .. })));
    assert_eq!(e.player_position(A), 0);
    assert_eq!(e.player_cash(A), 1700);
}

#[test]
fn dice_are_one_plus_the_values_drawn() {
    let mut r = rng(vec![0, 5, 2, 4]);
    assert_eq!(monopoly::engine::roll_dice(2, &mut r), vec![1, 6]);
    assert_eq!(monopoly::engine::roll_dice(2, &mut r), vec![3, 5]);
}

#[test]
fn shuffle_swaps_each_top_position_with_the_drawn_one() {
    let cards = (1..=3u32)
        .map(|id| Card { id, text: format!("卡{id}"), effect: CardEffect::Collect(1) })
        .collect();
    let mut d = Deck::new(cards);
    // Bound 3 draws 0: swap 2 and 0 -> [2, 1, 0]; bound 2 draws 0: swap 1 and 0 -> [1, 2, 0].
    d.shuffle(&mut rng(vec![0, 0]));
    let ids: Vec<u32> = (0..3).map(|_| d.draw().unwrap().id).collect();
    assert_eq!(ids, vec![2, 3, 1]);
}

#[test]
fn identical_draws_replay_identically() {
    let run = || {
        let mut e = started(15_000_000, 0);
        let mut r = rng(vec![3, 1, 4, 1, 5, 9, 2, 6, 5, 3, 5, 8, 9, 7, 9]);
        let mut log = Vec::new();
        for _ in 0..40 {
            if e.is_over() {
                break;
            }
            let pid = if e.phase() == Phase::InAuction { e.auction_current_bidder() } else { e.current_player_id() };
            let Some(pid) = pid else { break };
            let cmd = match e.phase() {
                Phase::AwaitRoll => Command::RollDice,
                Phase::AwaitDecision => Command::BuyProperty,
                _ => Command::AuctionPass,
            };
            log.push(format!("{:?}", e.handle(pid, cmd, &mut r)));
        }
        (log, e.archive())
    };
    let (log1, a1) = run();
    let (log2, a2) = run();
    assert_eq!(log1, log2);
    assert_eq!(a1, a2);
}
