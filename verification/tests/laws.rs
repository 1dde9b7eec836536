use monopoly::avatar::{Avatar, Color};
use monopoly::command::Command;
use monopoly::engine::{GameEngine, Phase};
use monopoly::event::Event;
use monopoly::rng::RngSource;
use monopoly::room::RoomSettings;

struct SeqRng {
    vals: Vec<u32>,
    i: usize,
}

impl RngSource for SeqRng {
    fn next_below(&mut self, bound: u32) -> u32 {
        let v = self.vals[self.i % self.vals.len()];
        self.i += 1;
        v % bound
    }
}

fn rng(vals: Vec<u32>) -> SeqRng {
    SeqRng { vals, i: 0 }
}

fn two_players(max_rounds: Option<u32>) -> GameEngine {
    let settings = RoomSettings { player_count_max: 2, max_rounds, ..Default::default() };
    let mut e = GameEngine::new(settings).unwrap();
    e.add_player(11, "A".to_string(), Avatar::Dog, Color::Red).unwrap();
    e.add_player(22, "B".to_string(), Avatar::Car, Color::Red).unwrap();
    e
}

#[test]
fn refused_command_changes_nothing() {
    let mut e = two_players(None);
    e.start(&mut rng(vec![0])).unwrap();
    let cur = e.current_player_id().unwrap();
    let other = if cur == 11 { 22 } else { 11 };
    let before = e.archive();
    assert_eq!(e.handle(other, Command::RollDice, &mut rng(vec![0])).unwrap_err(), "还没轮到你");
    assert_eq!(e.handle(cur, Command::BuyProperty, &mut rng(vec![0])).unwrap_err(), "当前无法购买");
    assert_eq!(e.handle(cur, Command::PayBail, &mut rng(vec![0])).unwrap_err(), "你不在狱中");
    assert_eq!(e.handle(99, Command::BuildHouse { tile_id: 1 }, &mut rng(vec![0])).unwrap_err(), "玩家不在本房间");
    assert_eq!(e.handle(cur, Command::StartGame, &mut rng(vec![0])).unwrap_err(), "开局请由房主在房间层发起");
    assert_eq!(before, e.archive());
}

#[test]
fn archive_roundtrip_after_moves() {
    let mut e = two_players(None);
    e.start(&mut rng(vec![0])).unwrap();
    let cur = e.current_player_id().unwrap();
    e.handle(cur, Command::RollDice, &mut rng(vec![0, 3])).unwrap();
    e.handle(cur, Command::PassProperty, &mut rng(vec![0])).unwrap();
    let bidder = e.auction_current_bidder().unwrap();
    e.handle(bidder, Command::AuctionBid { amount: 10 }, &mut rng(vec![0])).unwrap();
    let a = e.archive();
    assert!(a.is_restorable());
    let restored = GameEngine::restore(&a).unwrap();
    assert_eq!(restored.archive(), a);
    assert_eq!(restored.phase(), Phase::InAuction);
}

#[test]
fn ranking_is_highest_net_worth_first() {
    let mut e = two_players(Some(1));
    e.start(&mut rng(vec![0])).unwrap();
    let a = e.current_player_id().unwrap();
    e.handle(a, Command::RollDice, &mut rng(vec![0, 1])).unwrap();
    e.handle(a, Command::PassProperty, &mut rng(vec![0])).unwrap();
    let bidder = e.auction_current_bidder().unwrap();
    e.handle(bidder, Command::AuctionBid { amount: 100 }, &mut rng(vec![0])).unwrap();
    let next = e.auction_current_bidder().unwrap();
    e.handle(next, Command::AuctionPass, &mut rng(vec![0])).unwrap();
    let b = e.current_player_id().unwrap();
    assert_ne!(a, b);
    e.handle(b, Command::RollDice, &mut rng(vec![1, 3])).unwrap();
    let mut evs = e.handle(b, Command::PassProperty, &mut rng(vec![0])).unwrap();
    while e.phase() == Phase::InAuction {
        let p = e.auction_current_bidder().unwrap();
        evs = e.handle(p, Command::AuctionPass, &mut rng(vec![0])).unwrap();
    }
    let rank = evs
        .iter()
        .find_map(|x| match x {
            Event::GameEnded { rank, .. } => Some(rank),
            _ => None,
        })
        .expect("round limit ends the game");
    assert_eq!(rank.len(), 2);
    assert!(rank[0].net_worth >= rank[1].net_worth);
    assert!(e.is_over());
}

#[test]
fn passed_bidder_cannot_bid_again() {
    let mut e = two_players(None);
    e.start(&mut rng(vec![0])).unwrap();
    let cur = e.current_player_id().unwrap();
    e.handle(cur, Command::RollDice, &mut rng(vec![0, 3])).unwrap();
    e.handle(cur, Command::PassProperty, &mut rng(vec![0])).unwrap();
    let first = e.auction_current_bidder().unwrap();
    e.handle(first, Command::AuctionBid { amount: 5 }, &mut rng(vec![0])).unwrap();
    assert_eq!(e.handle(first, Command::AuctionBid { amount: 6 }, &mut rng(vec![0])).unwrap_err(), "还没轮到你出价");
}

#[test]
fn within_limits_holds_for_a_new_game() {
    let mut e = two_players(None);
    assert!(e.within_limits());
    e.start(&mut rng(vec![0])).unwrap();
    assert!(e.within_limits());
}

fn assert_solvent(e: &GameEngine) {
    let snap = e.snapshot();
    for p in &snap.players {
        if p.bankrupt {
            assert_eq!(p.cash, 0, "a bankrupt player holds no cash");
        } else {
            assert!(p.cash >= 0, "a player in the game holds no debt");
        }
    }
    for t in &snap.tiles {
        if let Some(o) = t.owner {
            let owner = snap.players.iter().find(|p| p.id == o).expect("owner is a player");
            assert!(!owner.bankrupt, "tile {} belongs to a player still in the game", t.id);
        }
    }
}

#[test]
fn solvency_holds_through_every_kind_of_command() {
    for seed in 0..6u32 {
        let settings = RoomSettings { player_count_max: 3, initial_money: 400, max_rounds: Some(25), ..Default::default() };
        let mut e = GameEngine::new(settings).unwrap();
        e.add_player(1, "A".to_string(), Avatar::Dog, Color::Red).unwrap();
        e.add_player(2, "B".to_string(), Avatar::Car, Color::Blue).unwrap();
        e.add_player(3, "C".to_string(), Avatar::Bed, Color::Green).unwrap();
        let mut r = rng((0..97).map(|k| (k * 7919 + seed * 104_729) % 1000).collect());
        e.start(&mut r).unwrap();
        assert_solvent(&e);
        let mut steps = 0;
        while !e.is_over() && steps < 3000 {
            steps += 1;
            let actor = if e.phase() == Phase::InAuction { e.auction_current_bidder() } else { e.current_player_id() };
            let Some(pid) = actor else { break };
            let other = if pid == 1 { 2 } else { 1 };
            let tile = (r.next_below(40)) as usize;
            let cmd = match r.next_below(12) {
                0 => Command::BuildHouse { tile_id: tile },
                1 => Command::SellHouse { tile_id: tile },
                2 => Command::Mortgage { tile_id: tile },
                3 => Command::Unmortgage { tile_id: tile },
                4 => Command::PayBail,
                5 => Command::ProposeTrade {
                    target: other,
                    offer: monopoly::command::AssetList { cash: r.next_below(300) as i64, tiles: vec![], out_of_jail_cards: 0 },
                    demand: monopoly::command::AssetList { cash: 0, tiles: vec![tile], out_of_jail_cards: 0 },
                },
                _ => match e.phase() {
                    Phase::AwaitRoll => Command::RollDice,
                    Phase::AwaitDecision => if r.next_below(2) == 0 { Command::BuyProperty } else { Command::PassProperty },
                    Phase::InAuction => if r.next_below(2) == 0 {
                        Command::AuctionBid { amount: r.next_below(300) + 1 }
                    } else {
                        Command::AuctionPass
                    },
                    _ => break,
                },
            };
            if let Ok(events) = e.handle(pid, cmd, &mut r) {
                for ev in events {
                    if let Event::TradeProposed { trade_id, to, .. } = ev {
                        let _ = e.handle(to, Command::AcceptTrade { trade_id }, &mut r);
                        assert_solvent(&e);
                    }
                }
            }
            assert_solvent(&e);
        }
    }
}

#[test]
fn deck_cycles_with_period_of_its_length() {
    let mut d = monopoly::cards::Deck::chance();
    let n = d.len();
    let mut first_round = Vec::new();
    for _ in 0..n {
        first_round.push(d.draw().unwrap().id);
    }
    let mut sorted = first_round.clone();
    sorted.sort();
    sorted.dedup();
    assert_eq!(sorted.len(), n);
    for k in 0..3 * n {
        assert_eq!(d.remaining(), n - (k % n));
        assert_eq!(d.draw().unwrap().id, first_round[k % n]);
    }
}

#[test]
fn free_combo_takes_the_first_free_pair() {
    let settings = RoomSettings { player_count_max: 8, ..Default::default() };
    let mut e = GameEngine::new(settings).unwrap();
    assert_eq!(e.free_combo(), Some((Avatar::Dog, Color::Red)));
    e.add_player(1, "A".to_string(), Avatar::Dog, Color::Red).unwrap();
    assert_eq!(e.free_combo(), Some((Avatar::Dog, Color::Yellow)));
    e.add_player(2, "B".to_string(), Avatar::Dog, Color::Green).unwrap();
    assert_eq!(e.free_combo(), Some((Avatar::Dog, Color::Yellow)));
}

#[test]
fn jail_index_is_the_first_jail_tile() {
    assert_eq!(monopoly::board::world_board().jail_index(), 10);
    assert_eq!(monopoly::board::world_board_56().jail_index(), 14);
}
