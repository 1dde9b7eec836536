use monopoly::avatar::{Avatar, Color};
use monopoly::command::{AssetList, Command};
use monopoly::engine::{is_double, roll_dice, GameEngine, Phase};
use monopoly::event::Event;
use monopoly::rng::{RngSource, StdRngSource};
use monopoly::room::RoomSettings;
use uuid::Uuid;

struct SeqRng {
    vals: Vec<u32>,
    i: usize,
}

impl SeqRng {
    fn new(vals: Vec<u32>) -> Self {
        Self { vals, i: 0 }
    }
}

impl RngSource for SeqRng {
    fn next_below(&mut self, bound: u32) -> u32 {
        let v = self.vals[self.i % self.vals.len()];
        self.i += 1;
        v % bound
    }
}

fn combo(i: usize) -> (Avatar, Color) {
    (Avatar::ALL[i % 5], Color::ALL[(i / 5) % 5])
}

fn new_id() -> u128 {
    Uuid::new_v4().as_u128()
}

fn two_player() -> (GameEngine, u128, u128) {
    let settings = RoomSettings { player_count_max: 2, ..Default::default() };
    let mut e = GameEngine::new(settings).unwrap();
    let a = new_id();
    let b = new_id();
    let (avatar_a, color_a) = combo(0);
    let (avatar_b, color_b) = combo(1);
    e.add_player(a, "Alice".to_string(), avatar_a, color_a).unwrap();
    e.add_player(b, "Bob".to_string(), avatar_b, color_b).unwrap();
    (e, a, b)
}

fn engine_with_players(n: usize, max_rounds: Option<u32>) -> (GameEngine, Vec<u128>) {
    let settings = RoomSettings { player_count_max: n as u8, max_rounds, ..Default::default() };
    let mut e = GameEngine::new(settings).expect("默认配置必须合法");
    let mut ids = Vec::new();
    for i in 0..n {
        let id = new_id();
        let (avatar, color) = combo(i);
        e.add_player(id, format!("P{i}"), avatar, color).unwrap();
        ids.push(id);
    }
    (e, ids)
}

fn start_rng() -> SeqRng {
    SeqRng::new(vec![0; 64])
}

fn force_current(e: &mut GameEngine, id: u128) {
    let idx = e.players.iter().position(|p| p.id == id).expect("玩家必须在场");
    e.current = idx;
}

fn extract_trade_id(evs: &[Event]) -> u128 {
    evs.iter()
        .find_map(|x| match x {
            Event::TradeProposed { trade_id, .. } => Some(*trade_id),
            _ => None,
        })
        .expect("应有 TradeProposed 事件")
}

#[test]
fn start_requires_at_least_two_players() {
    let mut e = GameEngine::new(RoomSettings::default()).unwrap();
    let (avatar, color) = combo(0);
    e.add_player(new_id(), "Alice".to_string(), avatar, color).unwrap();
    assert!(e.start(&mut SeqRng::new(vec![0])).is_err());
}

#[test]
fn avatar_color_combo_must_be_unique() {
    let mut e = GameEngine::new(RoomSettings::default()).unwrap();
    let (avatar, color) = combo(0);
    e.add_player(new_id(), "Alice".to_string(), avatar, color).unwrap();

    assert!(e.add_player(new_id(), "Bob".to_string(), avatar, color).is_err());

    let (_, other_color) = combo(5);
    assert!(other_color != color);
    assert!(e.add_player(new_id(), "Carol".to_string(), avatar, other_color).is_ok());

    let (other_avatar, _) = combo(1);
    assert!(other_avatar != avatar);
    assert!(e.add_player(new_id(), "Dave".to_string(), other_avatar, color).is_ok());
}

#[test]
fn auction_flow() {
    let (mut e, a, b) = two_player();
    let _ = e.start(&mut SeqRng::new(vec![0])).unwrap();
    let first = e.current_player_id().unwrap();
    let other = if first == a { b } else { a };

    let _ = e.handle(first, Command::RollDice, &mut SeqRng::new(vec![0, 3])).unwrap();
    let _ = e.handle(first, Command::PassProperty, &mut SeqRng::new(vec![])).unwrap();
    assert_eq!(e.phase, Phase::InAuction);

    let _ = e.handle(first, Command::AuctionBid { amount: 100 }, &mut SeqRng::new(vec![])).unwrap();
    let _ = e.handle(other, Command::AuctionBid { amount: 150 }, &mut SeqRng::new(vec![])).unwrap();
    let _ = e.handle(first, Command::AuctionBid { amount: 200 }, &mut SeqRng::new(vec![])).unwrap();
    let _ = e.handle(other, Command::AuctionPass, &mut SeqRng::new(vec![])).unwrap();

    assert_eq!(e.deeds.owner(5), Some(first));
    assert_eq!(e.player_cash(first), 1500 - 200);
    assert_ne!(e.phase, Phase::InAuction);
}

#[test]
fn rent_bankruptcy_ends_game() {
    let (mut e, a, b) = two_player();
    let _ = e.start(&mut SeqRng::new(vec![0])).unwrap();
    let first = e.current_player_id().unwrap();
    let other = if first == a { b } else { a };

    let mut ev = Vec::new();
    e.advance_turn(&mut ev);
    e.deeds.assign(5, first);
    e.change_cash(other, -1490, &mut ev);

    let events = e.handle(other, Command::RollDice, &mut SeqRng::new(vec![0, 3])).unwrap();
    assert!(events.iter().any(|x| matches!(x, Event::PlayerBroke { .. })));
    assert!(events.iter().any(|x| matches!(x, Event::GameEnded { .. })));
    assert_eq!(e.winner(), Some(first));
    assert!(e.is_over());
    assert!(e.player(other).unwrap().bankrupt);
}

#[test]
fn roll_dice_bounds_count_and_double_detection() {
    let mut rng = SeqRng::new(vec![0, 5, 2]);
    let dice = roll_dice(2, &mut rng);
    assert_eq!(dice.len(), 2);
    assert!(dice.iter().all(|&d| (1..=6).contains(&d)));

    let dice3 = roll_dice(3, &mut rng);
    assert_eq!(dice3.len(), 3);

    assert!(is_double(&[3, 3]));
    assert!(!is_double(&[3, 4]));
    assert!(!is_double(&[3]));
}

#[test]
fn use_out_of_jail_card_consumes_one_card() {
    let (mut e, ids) = engine_with_players(2, None);
    let a = ids[0];
    e.start(&mut start_rng()).unwrap();
    e.player_mut(a).unwrap().out_of_jail_cards = 1;
    e.send_to_jail(a, &mut Vec::new());
    let evs = e.handle(a, Command::UseOutOfJailCard, &mut SeqRng::new(vec![0])).unwrap();
    assert!(evs.iter().any(|x| matches!(x, Event::JailReleased { .. })));
    assert!(!e.player(a).unwrap().in_jail);
    assert_eq!(e.player(a).unwrap().out_of_jail_cards, 0);
}

#[test]
fn trade_cash_for_property_flow() {
    let (mut e, ids) = engine_with_players(2, None);
    let a = ids[0];
    let b = ids[1];
    e.deeds.assign(1, a);
    e.deeds.assign(3, b);
    let (a0, b0) = (e.player_cash(a), e.player_cash(b));

    let evs = e
        .handle(
            a,
            Command::ProposeTrade {
                target: b,
                offer: AssetList { cash: 100, tiles: vec![], out_of_jail_cards: 0 },
                demand: AssetList { cash: 0, tiles: vec![3], out_of_jail_cards: 0 },
            },
            &mut SeqRng::new(vec![0]),
        )
        .unwrap();
    let trade_id = extract_trade_id(&evs);

    assert!(e.handle(a, Command::AcceptTrade { trade_id }, &mut SeqRng::new(vec![0])).is_err());
    assert!(e
        .handle(b, Command::AcceptTrade { trade_id: new_id() }, &mut SeqRng::new(vec![0]))
        .is_err());

    let evs = e.handle(b, Command::AcceptTrade { trade_id }, &mut SeqRng::new(vec![0])).unwrap();
    assert!(evs.iter().any(|x| matches!(x, Event::TradeAccepted { .. })));
    assert_eq!(e.deeds.owner(3), Some(a));
    assert_eq!(e.player_cash(a), a0 - 100);
    assert_eq!(e.player_cash(b), b0 + 100);
}

#[test]
fn trade_rejected_when_cash_insufficient() {
    let (mut e, ids) = engine_with_players(2, None);
    let a = ids[0];
    let b = ids[1];
    let evs = e
        .handle(
            a,
            Command::ProposeTrade {
                target: b,
                offer: AssetList::default(),
                demand: AssetList { cash: 20_000_000, tiles: vec![], out_of_jail_cards: 0 },
            },
            &mut SeqRng::new(vec![0]),
        )
        .unwrap();
    let trade_id = extract_trade_id(&evs);
    assert!(e.handle(b, Command::AcceptTrade { trade_id }, &mut SeqRng::new(vec![0])).is_err());
    assert!(e.handle(b, Command::DeclineTrade { trade_id }, &mut SeqRng::new(vec![0])).is_ok());
}

#[test]
fn trade_with_house_rejected_before_execution() {
    let (mut e, ids) = engine_with_players(2, None);
    let a = ids[0];
    let b = ids[1];
    e.deeds.assign(1, b);
    e.deeds.assign(3, b);
    e.deeds.build(&e.board, 1).unwrap();
    assert_eq!(e.deeds.houses(1), 1);

    let res = e.handle(
        a,
        Command::ProposeTrade {
            target: b,
            offer: AssetList::default(),
            demand: AssetList { cash: 0, tiles: vec![1], out_of_jail_cards: 0 },
        },
        &mut SeqRng::new(vec![0]),
    );
    assert!(res.is_err());
}

#[test]
fn trade_can_be_declined_and_removed() {
    let (mut e, ids) = engine_with_players(2, None);
    let a = ids[0];
    let b = ids[1];
    let evs = e
        .handle(
            a,
            Command::ProposeTrade { target: b, offer: AssetList::default(), demand: AssetList::default() },
            &mut SeqRng::new(vec![0]),
        )
        .unwrap();
    let trade_id = extract_trade_id(&evs);

    let evs = e.handle(b, Command::DeclineTrade { trade_id }, &mut SeqRng::new(vec![0])).unwrap();
    assert!(evs.iter().any(|x| matches!(x, Event::TradeDeclined { .. })));
    assert!(e.handle(b, Command::AcceptTrade { trade_id }, &mut SeqRng::new(vec![0])).is_err());
}

#[test]
fn archive_restore_preserves_mid_auction() {
    let (mut e, ids) = engine_with_players(2, None);
    let (a, b) = (ids[0], ids[1]);
    let _ = e.start(&mut SeqRng::new(vec![0])).unwrap();
    let first = e.current_player_id().unwrap();
    let other = if first == a { b } else { a };

    let _ = e.handle(first, Command::RollDice, &mut SeqRng::new(vec![0, 3])).unwrap();
    let _ = e.handle(first, Command::PassProperty, &mut SeqRng::new(vec![])).unwrap();
    assert_eq!(e.phase(), Phase::InAuction);
    let _ = e.handle(first, Command::AuctionBid { amount: 100 }, &mut SeqRng::new(vec![])).unwrap();
    let _ = e.handle(other, Command::AuctionBid { amount: 150 }, &mut SeqRng::new(vec![])).unwrap();

    let archived = e.archive();
    let restored = GameEngine::restore(&archived).unwrap();
    assert_eq!(archived, restored.archive());
    assert_eq!(restored.phase(), Phase::InAuction);
    assert_eq!(restored.auction_current_bidder(), e.auction_current_bidder());
}

fn run_random_game(seed: u64, players: usize, max_rounds: u32) {
    let settings = RoomSettings { player_count_max: players as u8, max_rounds: Some(max_rounds), ..Default::default() };
    let mut e = GameEngine::new(settings).expect("配置必须合法");
    for i in 0..players {
        let (avatar, color) = combo(i);
        e.add_player(100 + i as u128 + seed as u128 * 32, format!("P{i}"), avatar, color).unwrap();
    }
    let mut rng = StdRngSource::from_seed(seed);
    e.start(&mut rng).unwrap();

    let mut steps = 0usize;
    let mut last_advance_round = 0u32;
    while !e.is_over() && steps < 8000 {
        steps += 1;
        let pid = if e.phase() == Phase::InAuction { e.auction_current_bidder() } else { e.current_player_id() };
        let Some(pid) = pid else {
            e.advance_turn(&mut Vec::new());
            continue;
        };

        let cmd = match e.phase() {
            Phase::AwaitRoll => Command::RollDice,
            Phase::AwaitDecision => {
                if rng.next_below(100) < 50 {
                    Command::BuyProperty
                } else {
                    Command::PassProperty
                }
            }
            Phase::InAuction => {
                if rng.next_below(100) < 40 {
                    Command::AuctionBid { amount: rng.next_below(500) + 1 }
                } else {
                    Command::AuctionPass
                }
            }
            _ => break,
        };
        let _ = e.handle(pid, cmd, &mut rng);

        for p in e.players.iter() {
            if p.bankrupt {
                assert_eq!(p.cash, 0, "seed {seed}: 破产玩家现金应为 0");
            } else {
                assert!(p.cash >= 0, "seed {seed}: 未破产玩家现金不能为负");
            }
        }
        if e.round > last_advance_round {
            last_advance_round = e.round;
        }
    }
    assert!(e.is_over(), "seed {seed}: 对局应在限时内结束 (steps={steps})");
    assert!(e.winner().is_some(), "seed {seed}: 应有胜者");
}

#[test]
fn random_long_games_terminate_with_invariants() {
    for seed in 0..15 {
        run_random_game(seed, 4, 30);
    }
}

#[test]
fn two_player_random_games_also_terminate() {
    for seed in 0..8 {
        run_random_game(100 + seed, 2, 20);
    }
}
