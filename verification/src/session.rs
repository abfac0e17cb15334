//! What crosses the boundary between the scheduler and the networked
//! session: what the scheduler reads of a session before a step, the
//! requests a session answers an advance with, and the kinds of failure of
//! an advance.
use vstd::prelude::*;

verus! {

/// Identifies a participant slot of a session.
pub type PlayerHandle = usize;

/// The cell of `ggrs` that a save request carries. The session reads the
/// frame and the checksum that were saved into it when it looks for
/// desyncs. Its inside is not visible here.
#[verifier::external_type_specification]
#[verifier::external_body]
#[verifier::reject_recursive_types(T)]
pub struct ExGameStateCell<T: Clone>(ggrs::GameStateCell<T>);

/// The status that `ggrs` gives along with every player's input. It is only
/// handed on to the simulation.
#[verifier::external_type_specification]
#[verifier::external_body]
pub struct ExInputStatus(ggrs::InputStatus);

/// Calls `GameStateCell::save` of `ggrs` with the frame, no state data and
/// the checksum. That function stores the three values in the cell and
/// returns nothing; it panics on the null frame, -1, which is left out here.
#[verifier::external_body]
pub(crate) fn save_checksum<S: Clone>(cell: &ggrs::GameStateCell<S>, frame: i32, checksum: u128)
    requires
        frame != -1,
{
    cell.save(frame, None, Some(checksum));
}

/// Whether a session has finished synchronizing with its peers.
#[derive(Clone, Copy, Debug, PartialEq, Eq, Structural)]
pub enum SessionState {
    /// The session is still establishing its connections.
    Synchronizing,
    /// The session takes and transmits input.
    Running,
}

/// What the scheduler reads of the active session before a step.
#[derive(Debug)]
pub enum Session {
    /// A local session that rolls back and resimulates every frame to test
    /// the simulation's determinism. Every player is local.
    SyncTestSession {
        /// The session's maximum prediction window.
        max_prediction: usize,
        /// The number of players.
        num_players: usize,
    },
    /// A session among remote peers.
    P2PSession {
        /// The session's maximum prediction window.
        max_prediction: usize,
        /// How many frames the session is ahead of its peers.
        frames_ahead: i32,
        /// The players that are controlled locally.
        local_player_handles: Vec<PlayerHandle>,
        /// Whether the session is running.
        current_state: SessionState,
    },
    /// A session that only watches a host.
    SpectatorSession {
        /// The session's maximum prediction window.
        max_prediction: usize,
        /// Whether the session is running.
        current_state: SessionState,
    },
}

/// A request of the session. The requests that an advance returns are
/// fulfilled in the order in which they were given.
#[verifier::reject_recursive_types(S)]
pub enum Request<I, S: Clone> {
    /// Save the current state as that of `frame`, and report its checksum
    /// into `cell`.
    SaveGameState { cell: ggrs::GameStateCell<S>, frame: i32 },
    /// Go back to the state that was saved for `frame`.
    LoadGameState { frame: i32 },
    /// Simulate one step with these inputs, one for each player.
    AdvanceFrame { inputs: Vec<(I, ggrs::InputStatus)> },
}

/// The inputs of all players for one step, with the status of each. The host
/// makes them available to the simulation for the duration of that step.
pub struct PlayerInputs<I>(pub Vec<(I, ggrs::InputStatus)>);

/// Why a session did not advance.
#[derive(Clone, Copy, Debug, PartialEq, Eq, Structural)]
pub enum AdvanceError {
    /// The session has predicted as far as it may and needs remote input
    /// before it can go on.
    PredictionThreshold,
    /// Any other failure that the session reports.
    Other,
}

/// How a failed advance is reported. The step is skipped either way and the
/// frame state is left as it was.
#[derive(Clone, Copy, Debug, PartialEq, Eq, Structural)]
pub enum Notice {
    /// Expected while remote input is outstanding.
    Info,
    /// Anything else.
    Warning,
}

impl Session {
    /// How a failure of this session's advance is to be reported: reaching
    /// the prediction threshold is expected of a session with remote peers,
    /// everything else is worth a warning.
    pub open spec fn notice_for(self, error: AdvanceError) -> Notice {
        if error == AdvanceError::PredictionThreshold && !(self is SyncTestSession) {
            Notice::Info
        } else {
            Notice::Warning
        }
    }

    /// Tells how a failure of this session's advance is to be reported.
    pub fn notice(&self, error: AdvanceError) -> (notice: Notice)
        ensures
            notice == self.notice_for(error),
    {
        match (self, error) {
            (Session::P2PSession { .. }, AdvanceError::PredictionThreshold) => Notice::Info,
            (Session::SpectatorSession { .. }, AdvanceError::PredictionThreshold) => Notice::Info,
            _ => Notice::Warning,
        }
    }
}

} // verus!
