use monopoly::avatar::{Avatar, Color};
use monopoly::engine::{GameEngine, Phase};
use monopoly::rng::StdRngSource;
use monopoly::room::RoomSettings;
use monopoly::server::autopilot::{autopilot_move, Presence, Session};

fn seeded_room() -> (GameEngine, Presence, StdRngSource) {
    let settings = RoomSettings { player_count_max: 2, max_rounds: None, ..Default::default() };
    let engine = GameEngine::new(settings).expect("valid settings");
    (engine, Presence::new(), StdRngSource::from_seed(7))
}

/// What the room actor does after every change: plays for offline players
/// until an online player is to act.
fn auto_drive(engine: &mut GameEngine, presence: &Presence, rng: &mut StdRngSource) {
    while let Some((pid, cmd)) = autopilot_move(engine, presence) {
        if engine.handle(pid, cmd, rng).is_err() {
            break;
        }
    }
}

fn pending_player(engine: &GameEngine) -> Option<u128> {
    if engine.phase() == Phase::InAuction {
        engine.auction_current_bidder()
    } else {
        engine.current_player_id()
    }
}

#[test]
fn all_disconnected_game_pauses_without_crash() {
    let (mut engine, presence, mut rng) = seeded_room();
    let a: u128 = 0xA11CE;
    let b: u128 = 0xB0B;
    engine.add_player(a, "Alice".to_string(), Avatar::Dog, Color::Red).unwrap();
    engine.add_player(b, "Bob".to_string(), Avatar::Car, Color::Blue).unwrap();
    assert!(presence.is_bot(a));
    assert!(presence.is_bot(b));
    engine.start(&mut rng).unwrap();
    auto_drive(&mut engine, &presence, &mut rng);
    assert!(!engine.is_over());
    assert_eq!(engine.phase(), Phase::AwaitRoll);
}

#[test]
fn bot_turns_autopiloted_and_reconnect_resumes() {
    let (mut engine, mut presence, mut rng) = seeded_room();
    let a: u128 = 0xA11CE;
    let b: u128 = 0xB0B;
    engine.add_player(a, "Alice".to_string(), Avatar::Dog, Color::Red).unwrap();
    engine.add_player(b, "Bob".to_string(), Avatar::Car, Color::Blue).unwrap();
    presence.on_connected(Session::Player(a));

    engine.start(&mut rng).unwrap();
    auto_drive(&mut engine, &presence, &mut rng);
    assert!(!engine.is_over());
    assert_eq!(pending_player(&engine), Some(a));

    presence.on_disconnected(Session::Player(a));
    auto_drive(&mut engine, &presence, &mut rng);
    assert!(!engine.is_over());

    presence.on_connected(Session::Player(a));
    auto_drive(&mut engine, &presence, &mut rng);
    assert_eq!(pending_player(&engine), Some(a));
    assert!(!engine.is_over());
}
