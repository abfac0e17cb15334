use bevy_ggrs::session::AdvanceError;
use bevy_ggrs::session::Notice;
use bevy_ggrs::session::SessionState;
use bevy_ggrs::Session;

#[test]
fn waiting_for_remote_input_is_expected() {
    let p2p = Session::P2PSession {
        max_prediction: 8,
        frames_ahead: 0,
        local_player_handles: vec![0],
        current_state: SessionState::Running,
    };
    let spectator = Session::SpectatorSession { max_prediction: 8, current_state: SessionState::Running };
    assert_eq!(p2p.notice(AdvanceError::PredictionThreshold), Notice::Info);
    assert_eq!(spectator.notice(AdvanceError::PredictionThreshold), Notice::Info);
}

#[test]
fn other_failures_are_warnings() {
    let p2p = Session::P2PSession {
        max_prediction: 8,
        frames_ahead: 0,
        local_player_handles: vec![0],
        current_state: SessionState::Running,
    };
    let spectator = Session::SpectatorSession { max_prediction: 8, current_state: SessionState::Synchronizing };
    let synctest = Session::SyncTestSession { max_prediction: 8, num_players: 2 };
    assert_eq!(p2p.notice(AdvanceError::Other), Notice::Warning);
    assert_eq!(spectator.notice(AdvanceError::Other), Notice::Warning);
    assert_eq!(synctest.notice(AdvanceError::Other), Notice::Warning);
    assert_eq!(synctest.notice(AdvanceError::PredictionThreshold), Notice::Warning);
}
