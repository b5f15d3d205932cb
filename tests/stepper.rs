use battlers::game::MAX_TURNS;
use battlers::location::{Location, UNIT};
use battlers::player::Player;
use battlers::stepper::{App, AppState, BattleEventType};

fn fighter(name: &str, value: i32, x: i32, y: i32) -> Player {
    let mut p = Player::new(name);
    p.attack.set(value);
    p.defense.set(value);
    p.armor.set(value);
    p.power.set(value);
    p.speed.set(value);
    p.range.set(value);
    p.loc = Location::new(x * UNIT, y * UNIT, 0);
    p
}

fn messages(app: &App) -> Vec<String> {
    app.get_battle_log().iter().map(|e| e.message.clone()).collect()
}

#[test]
fn new_app_defaults() {
    let app = App::new();
    assert_eq!(app.state, AppState::Setup);
    assert!(app.game.players.is_empty());
    assert!(app.battle_log.is_empty());
    assert_eq!(app.current_turn, 0);
    assert!(!app.auto_advance);
    assert_eq!(app.tick_rate, 500);
    assert_eq!(app.max_log_entries, 50);
    assert_eq!(App::default().max_log_entries, 50);
}

#[test]
fn start_needs_players() {
    let mut app = App::new();
    app.start_battle();
    assert_eq!(app.state, AppState::Setup);
    assert!(app.battle_log.is_empty());
    app.add_players(vec![fighter("a", 10, 0, 0), fighter("b", 10, 1, 0)]);
    assert_eq!(app.game.players[1].name, "b");
    app.start_battle();
    assert_eq!(app.state, AppState::Running);
    assert_eq!(messages(&app), vec!["Battle begins!".to_string()]);
    assert_eq!(app.battle_log[0].event_type, BattleEventType::Info);
    assert_eq!(app.battle_log[0].turn, 0);
}

#[test]
fn pause_resume_quit() {
    let mut app = App::new();
    app.pause_battle();
    assert_eq!(app.state, AppState::Setup);
    app.toggle_pause();
    assert_eq!(app.state, AppState::Setup);
    app.state = AppState::Running;
    app.pause_battle();
    assert_eq!(app.state, AppState::Paused);
    app.resume_battle();
    assert_eq!(app.state, AppState::Running);
    app.toggle_pause();
    assert_eq!(app.state, AppState::Paused);
    app.toggle_pause();
    assert_eq!(app.state, AppState::Running);
    app.toggle_auto_advance();
    assert!(app.auto_advance);
    assert!(!app.should_quit());
    app.quit();
    assert!(app.should_quit());
}

#[test]
fn log_keeps_most_recent_entries() {
    let mut app = App::new();
    for i in 0..55 {
        app.add_battle_event(format!("event {}", i), BattleEventType::Info);
    }
    assert_eq!(app.battle_log.len(), 50);
    let log = messages(&app);
    assert_eq!(log[0], "event 5");
    assert_eq!(log[49], "event 54");
    for (k, m) in log.iter().enumerate() {
        assert_eq!(*m, format!("event {}", k + 5));
    }
}

#[test]
fn log_with_small_bound() {
    let mut app = App::new();
    app.max_log_entries = 2;
    app.current_turn = 7;
    app.add_battle_event("x".to_string(), BattleEventType::Hit);
    app.add_battle_event("y".to_string(), BattleEventType::Miss);
    app.add_battle_event("z".to_string(), BattleEventType::Death);
    assert_eq!(messages(&app), vec!["y".to_string(), "z".to_string()]);
    assert_eq!(app.battle_log[1].event_type, BattleEventType::Death);
    assert_eq!(app.battle_log[1].turn, 7);
}

#[test]
fn step_with_one_player_declares_winner() {
    let mut rng = rand::rng();
    let mut app = App::new();
    let mut solo = fighter("Solo", 10, 0, 0);
    solo.armor.curr = 7;
    app.add_players(vec![solo]);
    assert!(!app.step_battle(&mut rng));
    assert_eq!(app.state, AppState::Finished);
    assert_eq!(messages(&app), vec!["Solo is the winner with 7/10 health remaining!".to_string()]);
    assert_eq!(app.get_winner().map(|p| p.name.clone()), Some("Solo".to_string()));
}

#[test]
fn step_at_cap_ends_inconclusively() {
    let mut rng = rand::rng();
    let mut app = App::new();
    app.add_players(vec![fighter("a", 10, 0, 0), fighter("b", 10, 1, 0)]);
    app.current_turn = MAX_TURNS;
    assert!(!app.step_battle(&mut rng));
    assert_eq!(app.state, AppState::Finished);
    assert_eq!(
        messages(&app),
        vec!["Battle reached maximum turns: 256".to_string(), "Battle ended inconclusively".to_string()]
    );
    assert!(app.get_winner().is_none());
}

#[test]
fn step_logs_movement() {
    let mut rng = rand::rng();
    let mut app = App::new();
    let mut walker = fighter("Walker", 10, 0, 0);
    walker.range.set(1);
    app.add_players(vec![walker, fighter("Post", 10, 30, 40)]);
    assert!(app.step_battle(&mut rng));
    assert_eq!(messages(&app), vec!["Walker moves towards Post (distance: 50.0)".to_string()]);
    assert_eq!(app.battle_log[0].event_type, BattleEventType::Movement);
    assert_eq!(app.current_turn, 1);
    assert_eq!(app.game.turns, 1);
}

#[test]
fn step_logs_miss() {
    let mut rng = rand::rng();
    let mut app = App::new();
    let mut a = fighter("A", 10, 0, 0);
    a.attack.set(0);
    let mut b = fighter("B", 10, 1, 0);
    b.defense.set(1000);
    app.add_players(vec![a, b]);
    app.state = AppState::Running;
    assert!(app.step_battle(&mut rng));
    assert_eq!(messages(&app), vec!["A is in range of B".to_string(), "A missed".to_string()]);
    assert_eq!(app.battle_log[1].event_type, BattleEventType::Miss);
    assert_eq!(app.state, AppState::Running);
}

#[test]
fn step_logs_hit_defeat_and_winner() {
    let mut rng = rand::rng();
    let mut app = App::new();
    let mut a = fighter("A", 10, 0, 0);
    a.attack.set(100);
    a.power.set(-100);
    let mut b = fighter("B", 10, 1, 0);
    b.armor.set(1);
    b.defense.set(1);
    // a power of 20 gives a bonus of 4: every roll deals 5 to 12
    a.power.set(20);
    app.add_players(vec![a, b]);
    assert!(!app.step_battle(&mut rng));
    let log = messages(&app);
    assert_eq!(log.len(), 4);
    assert_eq!(log[0], "A is in range of B");
    assert!(log[1].starts_with("A hit B for "));
    assert!(log[1].ends_with(" damage"));
    assert_eq!(log[2], "A defeated B");
    assert!(log[3].starts_with("A is the winner with 10/10"));
    assert_eq!(app.battle_log[2].event_type, BattleEventType::Death);
    assert_eq!(app.battle_log[3].turn, 1);
    assert_eq!(app.battle_log[2].turn, 0);
    assert_eq!(app.state, AppState::Finished);
}

#[test]
fn start_only_from_setup() {
    let mut app = App::new();
    app.add_players(vec![fighter("a", 10, 0, 0), fighter("b", 10, 1, 0)]);
    app.state = AppState::Finished;
    app.start_battle();
    assert_eq!(app.state, AppState::Finished);
    assert!(app.battle_log.is_empty());
    app.quit();
    app.start_battle();
    assert_eq!(app.state, AppState::Quit);
    assert!(app.battle_log.is_empty());
}

#[test]
fn step_reaching_cap_finishes() {
    let mut rng = rand::rng();
    let mut app = App::new();
    let mut walker = fighter("Walker", 10, 0, 0);
    walker.range.set(1);
    app.add_players(vec![walker, fighter("Post", 10, 30, 40)]);
    app.current_turn = MAX_TURNS - 1;
    assert!(!app.step_battle(&mut rng));
    assert_eq!(app.state, AppState::Finished);
    assert_eq!(app.current_turn, MAX_TURNS);
    assert_eq!(
        messages(&app),
        vec![
            "Walker moves towards Post (distance: 50.0)".to_string(),
            "Battle reached maximum turns: 256".to_string(),
            "Battle ended inconclusively".to_string(),
        ]
    );
    assert_eq!(app.battle_log[0].turn, MAX_TURNS - 1);
    assert_eq!(app.battle_log[1].turn, MAX_TURNS);
}
