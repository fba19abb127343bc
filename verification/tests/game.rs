use metal_mayhem::game::{round_time_is_up, Game, GamePhase, StepAction, ROUND_DURATION};

#[test]
fn a_new_game_waits_for_players() {
    let g = Game::new();
    assert_eq!(g.phase, GamePhase::WaitingForPlayers);
    assert!(g.started_at.is_none());
    assert!(!g.is_running());
}

#[test]
fn starting_runs_the_match() {
    let mut g = Game::new();
    g.start();
    assert!(g.is_running());
    assert!(g.started_at.is_some());
    // a fresh round is not over yet
    assert!(!g.round_is_over());
    assert_eq!(g.update(), StepAction::StepWorld);
    assert!(g.is_running());
}

#[test]
fn an_unstarted_round_is_over() {
    let mut g = Game::new();
    assert!(g.round_is_over());
    assert_eq!(g.update(), StepAction::EndRound);
    assert_eq!(g.phase, GamePhase::RoundEnd);
    assert_eq!(g.update(), StepAction::EndRound);
    assert_eq!(g.phase, GamePhase::RoundEnd);
}

#[test]
fn ending_and_stopping() {
    let mut g = Game::new();
    g.start();
    g.end();
    assert_eq!(g.phase, GamePhase::RoundEnd);
    assert!(!g.is_running());
    g.stop();
    assert_eq!(g.phase, GamePhase::WaitingForPlayers);
    assert!(g.started_at.is_some());
}

#[test]
fn advance_decides_by_phase_and_clock() {
    let mut g = Game::new();
    assert_eq!(g.advance(false), StepAction::Idle);
    assert_eq!(g.phase, GamePhase::WaitingForPlayers);
    g.phase = GamePhase::RoundCountdown;
    assert_eq!(g.advance(false), StepAction::Idle);
    assert_eq!(g.phase, GamePhase::RoundCountdown);
    g.start();
    assert_eq!(g.advance(false), StepAction::StepWorld);
    assert_eq!(g.phase, GamePhase::Running);
    assert_eq!(g.advance(true), StepAction::EndRound);
    assert_eq!(g.phase, GamePhase::RoundEnd);
    assert_eq!(g.advance(false), StepAction::Idle);
    assert_eq!(g.phase, GamePhase::RoundEnd);
}

#[test]
fn a_round_lasts_ten_seconds() {
    assert_eq!(ROUND_DURATION, 10);
    assert!(!round_time_is_up(0));
    assert!(!round_time_is_up(9));
    assert!(round_time_is_up(10));
    assert!(round_time_is_up(11));
    assert!(round_time_is_up(u64::MAX));
}
