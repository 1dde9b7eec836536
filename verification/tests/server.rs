use monopoly::cli::parse_args;
use monopoly::error::{ApiError, ErrorKind};
use monopoly::server::autopilot::{autopilot_move, route, Presence, Route, Session};
use monopoly::server::error::ApiError as ServerError;
use monopoly::server::http::{all_ready, health_status, readiness_checks, room_name_fits, Check};
use monopoly::avatar::{Avatar, Color};
use monopoly::command::Command;
use monopoly::engine::{GameEngine, Phase};
use monopoly::rng::RngSource;
use monopoly::room::RoomSettings;

struct Zero;

impl RngSource for Zero {
    fn next_below(&mut self, _bound: u32) -> u32 {
        0
    }
}

fn args(v: &[&str]) -> Vec<String> {
    v.iter().map(|s| s.to_string()).collect()
}

#[test]
fn error_kind_and_body() {
    let e = ApiError::NotFound("房间".to_string());
    assert_eq!(e.kind(), ErrorKind::NotFound);
    let b = e.to_body();
    assert_eq!(b.code, "notfound");
    assert_eq!(b.message, "资源不存在: 房间");

    let e = ApiError::BadRequest("坏请求".to_string());
    assert_eq!(e.to_body().code, "badrequest");
    assert_eq!(e.to_body().message, "坏请求");

    let e = ApiError::Internal("炸了".to_string());
    assert_eq!(e.kind(), ErrorKind::Internal);
    assert_eq!(e.to_body().message, "服务器内部错误: 炸了");

    assert_eq!(ApiError::Conflict("x".to_string()).to_body().code, "conflict");
    assert_eq!(ApiError::Forbidden("y".to_string()).to_body().code, "forbidden");
}

#[test]
fn server_error_constructors_wrap_the_kind() {
    assert_eq!(ServerError::bad_request("a").common().kind(), ErrorKind::BadRequest);
    assert_eq!(ServerError::not_found("房间").common().to_body().message, "资源不存在: 房间");
    assert_eq!(ServerError::forbidden("c").common().kind(), ErrorKind::Forbidden);
    assert_eq!(ServerError::internal("d").common().kind(), ErrorKind::Internal);
    let from: ServerError = ApiError::Conflict("e".to_string()).into();
    assert_eq!(from.common().kind(), ErrorKind::Conflict);
}

#[test]
fn readiness_without_dependencies_is_ready() {
    let checks = readiness_checks();
    assert!(checks.is_empty());
    assert!(all_ready(&checks));
    assert_eq!(health_status(all_ready(&checks)), "ready");
    let failing = vec![Check { name: "database", ok: true }, Check { name: "cache", ok: false }];
    assert!(!all_ready(&failing));
    assert_eq!(health_status(false), "not_ready");
}

#[test]
fn parse_args_reads_host_and_port() {
    assert_eq!(parse_args(args(&[])), ("127.0.0.1".to_string(), "8080".to_string()));
    assert_eq!(
        parse_args(args(&["--host", "0.0.0.0", "--port", "9000"])),
        ("0.0.0.0".to_string(), "9000".to_string())
    );
    assert_eq!(parse_args(args(&["--bind", "1.2.3.4", "-p", "1"])), ("1.2.3.4".to_string(), "1".to_string()));
    assert_eq!(parse_args(args(&["-x", "-h", "h"])), ("h".to_string(), "8080".to_string()));
    assert_eq!(parse_args(args(&["--port"])), ("127.0.0.1".to_string(), "8080".to_string()));
}

#[test]
fn presence_counts_connections() {
    let mut p = Presence::new();
    assert!(p.nobody_online());
    assert!(p.is_bot(7));
    p.on_connected(Session::Player(7));
    p.on_connected(Session::Player(7));
    p.on_connected(Session::Owner);
    assert!(!p.is_bot(7));
    assert!(!p.nobody_online());
    p.on_disconnected(Session::Player(7));
    assert!(!p.is_bot(7));
    p.on_disconnected(Session::Player(7));
    assert!(p.is_bot(7));
    p.on_disconnected(Session::Player(7));
    assert!(p.nobody_online());
}

#[test]
fn route_sends_owner_start_and_player_commands() {
    assert!(matches!(route(Session::Owner, Command::StartGame), Route::StartGame));
    assert!(matches!(route(Session::Owner, Command::RollDice), Route::Refuse(Command::RollDice)));
    assert!(matches!(route(Session::Player(3), Command::RollDice), Route::Play(3, Command::RollDice)));
}

#[test]
fn autopilot_rolls_for_offline_players_only() {
    let settings = RoomSettings { player_count_max: 2, ..Default::default() };
    let mut e = GameEngine::new(settings).unwrap();
    e.add_player(1, "A".to_string(), Avatar::Dog, Color::Red).unwrap();
    e.add_player(2, "B".to_string(), Avatar::Car, Color::Red).unwrap();
    e.start(&mut Zero).unwrap();
    let cur = e.current_player_id().unwrap();
    let other = if cur == 1 { 2 } else { 1 };

    let mut p = Presence::new();
    assert!(autopilot_move(&e, &p).is_none());
    p.on_connected(Session::Player(other));
    assert!(matches!(autopilot_move(&e, &p), Some((id, Command::RollDice)) if id == cur));
    p.on_connected(Session::Player(cur));
    assert!(autopilot_move(&e, &p).is_none());
    assert_eq!(e.phase(), Phase::AwaitRoll);
}

#[test]
fn room_name_of_at_most_30_characters() {
    assert!(room_name_fits(""));
    assert!(room_name_fits(&"房".repeat(30)));
    assert!(!room_name_fits(&"房".repeat(31)));
    assert!(room_name_fits("周末大富翁"));
}

#[test]
fn parse_args_examples() {
    assert_eq!(parse_args(args(&["--bind", "0.0.0.0", "-p", "9000"])), ("0.0.0.0".to_string(), "9000".to_string()));
    assert_eq!(parse_args(args(&["--port"])), ("127.0.0.1".to_string(), "8080".to_string()));
    assert_eq!(parse_args(args(&["--verbose", "-h", "10.0.0.2"])), ("10.0.0.2".to_string(), "8080".to_string()));
}

#[test]
fn tokens_open_owner_and_player_sessions() {
    let owner = "owner-token".to_string();
    assert_eq!(monopoly::server::autopilot::session_for(&owner, &owner, Some(5)), Some(Session::Owner));
    assert_eq!(monopoly::server::autopilot::session_for(&"p".to_string(), &owner, Some(5)), Some(Session::Player(5)));
    assert_eq!(monopoly::server::autopilot::session_for(&"x".to_string(), &owner, None), None);
}
