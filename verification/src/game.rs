use vstd::prelude::*;
use std::time::Instant;
use crate::clock::{now, whole_seconds_since};

verus! {

/// The phase a match is in.
#[derive(Debug, PartialEq, Eq, Structural, Copy, Clone)]
pub enum GamePhase {
    WaitingForPlayers,
    RoundCountdown,
    Running,
    RoundEnd,
}

/// Length of a round, in seconds.
pub const ROUND_DURATION: u64 = 10;

/// The round lifecycle of a match: its phase and when the current round began.
pub struct Game {
    pub phase: GamePhase,
    pub started_at: Option<Instant>,
}

/// What the caller has to do with the arena after one call of [`Game::update`].
#[derive(Debug, PartialEq, Eq, Structural, Copy, Clone)]
pub enum StepAction {
    /// The round is over: the phase became `RoundEnd` and the arena is to be reset.
    EndRound,
    /// The round goes on: the arena advances by one simulation step.
    StepWorld,
    /// The match is not running: nothing moves.
    Idle,
}

/// Whether a round that began `elapsed_secs` whole seconds ago is over.
pub open spec fn round_time_up(elapsed_secs: u64) -> bool {
    elapsed_secs >= ROUND_DURATION
}

/// Outcome of one update, given whether the round is over: the next phase and the action.
pub open spec fn step_outcome(phase: GamePhase, round_over: bool) -> (GamePhase, StepAction) {
    if round_over {
        (GamePhase::RoundEnd, StepAction::EndRound)
    } else if phase == GamePhase::Running {
        (phase, StepAction::StepWorld)
    } else {
        (phase, StepAction::Idle)
    }
}

/// Decides whether a round that began `elapsed_secs` whole seconds ago is over.
pub fn round_time_is_up(elapsed_secs: u64) -> (over: bool)
    ensures
        over == round_time_up(elapsed_secs),
{
    elapsed_secs >= ROUND_DURATION
}

impl Game {
    /// A match waiting for players, with no round started.
    pub fn new() -> (g: Game)
        ensures
            g.phase == GamePhase::WaitingForPlayers,
            g.started_at is None,
    {
        Game { phase: GamePhase::WaitingForPlayers, started_at: None }
    }

    /// Starts a round now.
    pub fn start(&mut self)
        ensures
            final(self).phase == GamePhase::Running,
            final(self).started_at is Some,
    {
        self.phase = GamePhase::Running;
        self.started_at = Some(now());
    }

    /// Ends the round; the caller resets the arena.
    pub fn end(&mut self)
        ensures
            final(self).phase == GamePhase::RoundEnd,
            final(self).started_at == old(self).started_at,
    {
        self.phase = GamePhase::RoundEnd;
    }

    /// Stops the match and goes back to waiting for players.
    pub fn stop(&mut self)
        ensures
            final(self).phase == GamePhase::WaitingForPlayers,
            final(self).started_at == old(self).started_at,
    {
        self.phase = GamePhase::WaitingForPlayers;
    }

    /// Whether the match is running.
    pub fn is_running(&self) -> (r: bool)
        ensures
            r == (self.phase == GamePhase::Running),
    {
        self.phase == GamePhase::Running
    }

    /// Whether the current round is over: a round that never started is over,
    /// otherwise it is over once `ROUND_DURATION` whole seconds have passed
    /// (the clock decides that part).
    pub fn round_is_over(&mut self) -> (over: bool)
        ensures
            *final(self) == *old(self),
            old(self).started_at is None ==> over,
    {
        match self.started_at {
            Some(started_at) => {
                let elapsed = whole_seconds_since(&started_at);
                round_time_is_up(elapsed)
            },
            None => true,
        }
    }

    /// One update of the match once it is known whether the round is over:
    /// an over round ends (phase `RoundEnd`), a running match steps the arena,
    /// anything else stays as it is.
    pub fn advance(&mut self, round_over: bool) -> (action: StepAction)
        ensures
            (final(self).phase, action) == step_outcome(old(self).phase, round_over),
            final(self).started_at == old(self).started_at,
    {
        if round_over {
            self.end();
            StepAction::EndRound
        } else if self.phase == GamePhase::Running {
            StepAction::StepWorld
        } else {
            StepAction::Idle
        }
    }

    /// One update of the match: asks the clock whether the round is over,
    /// then acts as [`Game::advance`] does.
    pub fn update(&mut self) -> (action: StepAction)
        ensures
            exists|over: bool|
                (final(self).phase, action) == step_outcome(old(self).phase, over)
                && (old(self).started_at is None ==> over),
            final(self).started_at == old(self).started_at,
    {
        let over = self.round_is_over();
        self.advance(over)
    }
}

/// The arena only ever steps while the match is running and its round is not over.
pub proof fn only_running_rounds_step(phase: GamePhase, round_over: bool)
    ensures
        step_outcome(phase, round_over).1 == StepAction::StepWorld ==> phase == GamePhase::Running
            && !round_over,
{
}

/// Once a round has ended, further updates keep it ended and never step the arena.
pub proof fn ended_round_stays_ended(round_over: bool)
    ensures
        step_outcome(GamePhase::RoundEnd, round_over).0 == GamePhase::RoundEnd,
        step_outcome(GamePhase::RoundEnd, round_over).1 != StepAction::StepWorld,
{
}

/// A round that is over stays over as time goes on.
pub proof fn round_time_up_is_monotone(earlier: u64, later: u64)
    requires
        earlier <= later,
        round_time_up(earlier),
    ensures
        round_time_up(later),
{
}

} // verus!
