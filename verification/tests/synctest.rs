use bevy_ggrs::ggrs_stage::Fulfilled;
use bevy_ggrs::session::Request;
use bevy_ggrs::world::Serialized;
use bevy_ggrs::GGRSStage;
use bevy_ggrs::Rollback;
use bevy_ggrs::Session;
use bevy_ggrs::WorldState;
use ggrs::Config;
use ggrs::GGRSError;
use ggrs::GGRSRequest;
use ggrs::InputStatus;
use ggrs::SessionBuilder;
use ggrs::SyncTestSession;

const PLAYERS: usize = 2;
const COUNTER: u64 = 1;
const FRAMES: u64 = 2;

struct TestConfig;

impl Config for TestConfig {
    type Input = u8;
    type State = u8;
    type Address = String;
}

/// The input of a player at a frame, as the script has it.
fn scripted_input(frame: u32, handle: usize) -> u8 {
    ((frame * 7 + handle as u32 * 13 + 1) % 251) as u8
}

/// One entity for each player with a counter, and the number of frames as a
/// resource.
fn start_world() -> WorldState {
    let mut world = WorldState::new();
    for handle in 0..PLAYERS {
        let spawned = world.spawn(
            Rollback::new(handle as u32),
            vec![Serialized { type_id: COUNTER, bytes: 0u64.to_le_bytes().to_vec() }],
        );
        assert!(spawned);
    }
    world.set_resources(vec![Serialized { type_id: FRAMES, bytes: 0u32.to_le_bytes().to_vec() }]);
    world
}

fn read_u64(bytes: &[u8]) -> u64 {
    let mut raw = [0u8; 8];
    raw.copy_from_slice(bytes);
    u64::from_le_bytes(raw)
}

fn read_u32(bytes: &[u8]) -> u32 {
    let mut raw = [0u8; 4];
    raw.copy_from_slice(bytes);
    u32::from_le_bytes(raw)
}

/// The simulation: every player's counter is multiplied by three and its
/// input added to it, so that the order of the inputs shows; the frame
/// resource counts up.
fn simulate(world: &mut WorldState, inputs: &[(u8, InputStatus)]) {
    for (handle, (input, _)) in inputs.iter().enumerate() {
        let id = handle as u32;
        let counter = read_u64(&world.components(id).unwrap()[0].bytes);
        let next = counter.wrapping_mul(3).wrapping_add(*input as u64);
        let replaced = world
            .set_components(id, vec![Serialized { type_id: COUNTER, bytes: next.to_le_bytes().to_vec() }]);
        assert!(replaced);
    }
    let frames = read_u32(&world.resources()[0].bytes);
    world.set_resources(vec![Serialized {
        type_id: FRAMES,
        bytes: (frames + 1).to_le_bytes().to_vec(),
    }]);
}

fn request_of(request: GGRSRequest<TestConfig>) -> Request<u8, u8> {
    match request {
        GGRSRequest::SaveGameState { cell, frame } => Request::SaveGameState { cell, frame },
        GGRSRequest::LoadGameState { frame, .. } => Request::LoadGameState { frame },
        GGRSRequest::AdvanceFrame { inputs } => Request::AdvanceFrame { inputs },
    }
}

fn observe(session: &SyncTestSession<TestConfig>) -> Session {
    Session::SyncTestSession {
        max_prediction: session.max_prediction(),
        num_players: session.num_players(),
    }
}

struct Counts {
    saves: u32,
    loads: u32,
    advances: u32,
}

/// Runs one step of the host's loop and tells what was done.
fn step_once(
    stage: &mut GGRSStage,
    session: &mut SyncTestSession<TestConfig>,
    world: &mut WorldState,
    frame: u32,
    counts: &mut Counts,
) -> Result<(), GGRSError> {
    let step = stage.accumulate(16_666_667);
    let plan = stage.next_step(step, Some(&observe(session))).expect("a step is owed");
    assert!(plan.advance);
    assert_eq!(plan.handles, vec![0, 1]);
    for handle in plan.handles {
        session.add_local_input(handle, scripted_input(frame, handle))?;
    }
    let requests = session.advance_frame()?;
    for request in requests {
        match stage.handle_request(request_of(request), world) {
            Fulfilled::Saved(reported) => {
                assert_eq!(reported.frame, stage.frame());
                counts.saves += 1;
            }
            Fulfilled::Loaded => counts.loads += 1,
            Fulfilled::Advance(inputs) => {
                simulate(world, &inputs.0);
                counts.advances += 1;
            }
        }
    }
    assert!(stage.next_step(step, Some(&observe(session))).is_none());
    Ok(())
}

#[test]
fn rollbacks_leave_the_result_of_a_plain_replay() {
    let mut session: SyncTestSession<TestConfig> = SessionBuilder::new()
        .with_num_players(PLAYERS)
        .with_max_prediction_window(8)
        .with_check_distance(2)
        .start_synctest_session()
        .unwrap();
    let mut stage = GGRSStage::new();
    stage.set_update_frequency(60);
    let mut world = start_world();
    let mut counts = Counts { saves: 0, loads: 0, advances: 0 };

    let frames: u32 = 13;
    for frame in 0..frames {
        step_once(&mut stage, &mut session, &mut world, frame, &mut counts).unwrap();
    }

    // the session rolled back ten times and more
    assert_eq!(counts.loads, 10);
    assert!(counts.advances > frames);
    assert!(counts.saves >= frames);
    assert_eq!(stage.frame(), frames as i32);
    assert_eq!(stage.snapshots().len(), 8);

    // the same inputs without any rollback
    let mut reference = start_world();
    for frame in 0..frames {
        let inputs: Vec<(u8, InputStatus)> = (0..PLAYERS)
            .map(|handle| (scripted_input(frame, handle), InputStatus::Confirmed))
            .collect();
        simulate(&mut reference, &inputs);
    }
    assert_eq!(world, reference);
    assert_eq!(read_u32(&world.resources()[0].bytes), frames);
}

#[test]
fn session_sees_a_simulation_that_is_not_deterministic() {
    let mut session: SyncTestSession<TestConfig> = SessionBuilder::new()
        .with_num_players(PLAYERS)
        .with_max_prediction_window(8)
        .with_check_distance(2)
        .start_synctest_session()
        .unwrap();
    let mut stage = GGRSStage::new();
    let mut world = start_world();
    let mut counts = Counts { saves: 0, loads: 0, advances: 0 };

    let mut outcome: Result<(), GGRSError> = Ok(());
    for frame in 0..20 {
        // state that the rollback does not restore: it is spawned under a new
        // id whenever the world is stepped, resimulated or not
        let id = 100 + counts.advances + counts.loads;
        world.spawn(Rollback::new(id), vec![Serialized { type_id: COUNTER, bytes: vec![frame as u8] }]);
        outcome = step_once(&mut stage, &mut session, &mut world, frame, &mut counts);
        if outcome.is_err() {
            break;
        }
    }
    // the checksums that the stage reported differ between the first run of a
    // frame and its resimulation
    assert!(matches!(outcome, Err(GGRSError::MismatchedChecksum { .. })));
}
