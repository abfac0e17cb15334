use bevy_ggrs::ggrs_stage::Fulfilled;
use bevy_ggrs::ggrs_stage::Reported;
use bevy_ggrs::ggrs_stage::Step;
use bevy_ggrs::ggrs_stage::NANOS_PER_SECOND;
use bevy_ggrs::session::Request;
use bevy_ggrs::session::SessionState;
use bevy_ggrs::world::Serialized;
use bevy_ggrs::GGRSStage;
use bevy_ggrs::Rollback;
use bevy_ggrs::Session;
use bevy_ggrs::WorldSnapshot;
use bevy_ggrs::WorldState;
use ggrs::GameStateCell;
use ggrs::InputStatus;

fn synctest() -> Session {
    Session::SyncTestSession { max_prediction: 8, num_players: 2 }
}

fn p2p(frames_ahead: i32, current_state: SessionState) -> Session {
    Session::P2PSession {
        max_prediction: 8,
        frames_ahead,
        local_player_handles: vec![1, 3],
        current_state,
    }
}

fn world_with(counter: u8) -> WorldState {
    let mut world = WorldState::new();
    world.spawn(Rollback::new(0), vec![Serialized { type_id: 1, bytes: vec![counter] }]);
    world
}

/// Takes all steps that are owed and counts them.
fn drain(stage: &mut GGRSStage, step: u64, session: &Session) -> u32 {
    let mut steps: u32 = 0;
    while stage.next_step(step, Some(session)).is_some() {
        steps += 1;
    }
    steps
}

#[test]
fn new_stage_starts_at_frame_zero() {
    let stage = GGRSStage::new();
    assert_eq!(stage.frame(), 0);
    assert_eq!(stage.accumulator(), 0);
    assert_eq!(stage.update_frequency(), 60);
    assert!(!stage.run_slow());
    assert!(stage.snapshots().is_empty());
    assert!(stage.type_registry().components().is_empty());
    assert!(stage.type_registry().resources().is_empty());
}

#[test]
fn step_duration_is_a_second_by_the_frequency() {
    let mut stage = GGRSStage::new();
    assert_eq!(NANOS_PER_SECOND, 1_000_000_000);
    assert_eq!(stage.step_duration(), 16_666_666);
    stage.set_update_frequency(1);
    assert_eq!(stage.step_duration(), 1_000_000_000);
    stage.set_update_frequency(2);
    assert_eq!(stage.step_duration(), 500_000_000);
    stage.set_update_frequency(3);
    assert_eq!(stage.step_duration(), 333_333_333);
    stage.set_update_frequency(1_000_000_000);
    assert_eq!(stage.step_duration(), 1);
    stage.set_update_frequency(1_000_000_001);
    assert_eq!(stage.step_duration(), 1);
    stage.set_update_frequency(usize::MAX);
    assert_eq!(stage.step_duration(), 1);
}

#[test]
fn frequency_zero_never_owes_a_step() {
    let mut stage = GGRSStage::new();
    stage.set_update_frequency(0);
    assert_eq!(stage.step_duration(), u64::MAX);
    let step = stage.accumulate(u64::MAX);
    assert_eq!(step, u64::MAX);
    assert_eq!(stage.accumulator(), u64::MAX);
    assert!(stage.next_step(step, Some(&synctest())).is_none());
    assert_eq!(stage.accumulator(), u64::MAX);
    // running slow changes nothing of that
    stage.run_p2p(8, 1, &vec![0], SessionState::Running);
    assert_eq!(stage.step_duration(), u64::MAX);
}

#[test]
fn accumulator_saturates() {
    let mut stage = GGRSStage::new();
    stage.accumulate(u64::MAX - 5);
    assert_eq!(stage.accumulator(), u64::MAX - 5);
    stage.accumulate(5);
    assert_eq!(stage.accumulator(), u64::MAX);
    stage.accumulate(1);
    assert_eq!(stage.accumulator(), u64::MAX);
}

#[test]
fn one_second_at_sixty_steps_a_second_is_sixty_steps() {
    let mut stage = GGRSStage::new();
    stage.set_update_frequency(60);
    let session = synctest();
    let mut steps: u32 = 0;
    for _ in 0..10 {
        let step = stage.accumulate(100_000_000);
        assert_eq!(step, 16_666_666);
        steps += drain(&mut stage, step, &session);
    }
    assert_eq!(steps, 60);
    // what is left is far below one step
    assert_eq!(stage.accumulator(), 40);
}

#[test]
fn one_second_in_one_piece_is_sixty_steps_too() {
    let mut stage = GGRSStage::new();
    let step = stage.accumulate(1_000_000_000);
    assert_eq!(drain(&mut stage, step, &synctest()), 60);
    assert_eq!(stage.accumulator(), 40);
}

#[test]
fn a_step_is_owed_only_above_its_duration() {
    let mut stage = GGRSStage::new();
    let step = stage.accumulate(16_666_666);
    assert!(stage.next_step(step, Some(&synctest())).is_none());
    assert_eq!(stage.accumulator(), 16_666_666);
    stage.accumulate(1);
    assert!(stage.next_step(step, Some(&synctest())).is_some());
    assert_eq!(stage.accumulator(), 1);
    assert!(stage.next_step(step, Some(&synctest())).is_none());
}

#[test]
fn running_slow_stretches_the_step_by_a_tenth() {
    let mut stage = GGRSStage::new();
    stage.set_update_frequency(50);
    assert_eq!(stage.step_duration(), 20_000_000);
    stage.run_p2p(8, 2, &vec![0], SessionState::Running);
    assert!(stage.run_slow());
    assert_eq!(stage.step_duration(), 22_000_000);
    assert_eq!(stage.accumulate(0), 22_000_000);
    stage.run_p2p(8, 0, &vec![0], SessionState::Running);
    assert!(!stage.run_slow());
    assert_eq!(stage.step_duration(), 20_000_000);
    stage.run_p2p(8, -3, &vec![0], SessionState::Running);
    assert!(!stage.run_slow());

    stage.set_update_frequency(60);
    stage.run_p2p(8, 1, &vec![0], SessionState::Running);
    // eleven tenths of a sixtieth of a second, rounded down once
    assert_eq!(stage.step_duration(), 18_333_333);
}

#[test]
fn slow_step_is_rounded_once() {
    let mut stage = GGRSStage::new();
    stage.set_update_frequency(11);
    assert_eq!(stage.step_duration(), 90_909_090);
    stage.run_p2p(8, 1, &vec![0], SessionState::Running);
    // eleven tenths of an eleventh of a second are a tenth of a second
    assert_eq!(stage.step_duration(), 100_000_000);
    let step = stage.accumulate(100_000_000);
    assert_eq!(step, 100_000_000);
    let session = p2p(1, SessionState::Running);
    // a step is owed only above its duration
    assert!(stage.next_step(step, Some(&session)).is_none());
    stage.accumulate(1);
    assert!(stage.next_step(step, Some(&session)).is_some());
    assert_eq!(stage.accumulator(), 1);

    for (frequency, slow) in [
        (22usize, 50_000_000u64),
        (55, 20_000_000),
        (110, 10_000_000),
        (3, 366_666_666),
        (1_000_000_000, 1),
        (1_100_000_000, 1),
        (1_100_000_001, 1),
        (usize::MAX, 1),
    ] {
        stage.set_update_frequency(frequency);
        assert_eq!(stage.step_duration(), slow);
    }
}

#[test]
fn slow_steps_are_fewer() {
    let mut stage = GGRSStage::new();
    stage.set_update_frequency(50);
    stage.run_p2p(8, 1, &vec![0], SessionState::Synchronizing);
    let step = stage.accumulate(1_000_000_000);
    assert_eq!(step, 22_000_000);
    // the session stays ahead, so the stage stays slow
    let session = p2p(1, SessionState::Running);
    assert_eq!(drain(&mut stage, step, &session), 45);
    assert_eq!(stage.accumulator(), 10_000_000);
}

#[test]
fn without_a_session_the_stage_resets() {
    let mut stage = GGRSStage::new();
    stage.set_update_frequency(30);
    stage.run_p2p(4, 1, &vec![0], SessionState::Running);
    let world = world_with(3);
    stage.save_world(GameStateCell::<u8>::default(), 0, &world);
    stage.advance_frame::<u8>(Vec::new());
    assert_eq!(stage.frame(), 1);
    assert_eq!(stage.snapshots().len(), 4);

    // the stage is reset though less than a step has accumulated
    let step = stage.tick(10);
    assert_eq!(stage.accumulator(), 10);
    assert!(stage.next_step(step, None).is_none());
    assert_eq!(stage.frame(), 0);
    assert_eq!(stage.accumulator(), 0);
    assert!(!stage.run_slow());
    assert!(stage.snapshots().is_empty());
    assert_eq!(stage.update_frequency(), 30);
    assert_eq!(stage.last_update(), 10);
}

#[test]
fn without_a_session_no_step_is_taken_however_much_time_has_passed() {
    let mut stage = GGRSStage::new();
    stage.run_synctest(8, 2);
    stage.advance_frame::<u8>(Vec::new());
    let step = stage.accumulate(1_000_000_000);
    assert!(stage.next_step(step, None).is_none());
    assert_eq!(stage.frame(), 0);
    assert_eq!(stage.accumulator(), 0);
    assert!(stage.snapshots().is_empty());
    // and none is owed afterwards
    assert!(stage.next_step(step, None).is_none());
    assert!(stage.next_step(step, Some(&synctest())).is_none());
}

#[test]
fn tick_accumulates_the_time_since_the_last_one() {
    let mut stage = GGRSStage::new();
    assert_eq!(stage.last_update(), 0);
    assert_eq!(stage.tick(5_000_000), 16_666_666);
    assert_eq!(stage.accumulator(), 5_000_000);
    assert_eq!(stage.last_update(), 5_000_000);
    stage.tick(7_000_000);
    assert_eq!(stage.accumulator(), 7_000_000);
    assert_eq!(stage.last_update(), 7_000_000);
    // a time before the last one adds nothing
    stage.tick(6_000_000);
    assert_eq!(stage.accumulator(), 7_000_000);
    assert_eq!(stage.last_update(), 6_000_000);
    // the accumulator stops at the largest value
    stage.tick(u64::MAX);
    assert_eq!(stage.accumulator(), u64::MAX);
    assert_eq!(stage.last_update(), u64::MAX);
}

#[test]
fn sixty_ticks_of_a_second_are_sixty_steps() {
    let mut stage = GGRSStage::new();
    let session = synctest();
    let mut steps: u32 = 0;
    let mut now: u64 = 0;
    // a second in uneven pieces
    for piece in [1u64, 333_333_333, 16_666_666, 500_000_000, 150_000_000] {
        now += piece;
        let step = stage.tick(now);
        steps += drain(&mut stage, step, &session);
    }
    assert_eq!(now, 1_000_000_000);
    assert_eq!(steps, 60);
    assert_eq!(stage.accumulator(), 40);
}

#[test]
fn reset_at_sets_the_time_of_the_last_run() {
    let mut stage = GGRSStage::new();
    stage.run_p2p(8, 1, &vec![0], SessionState::Running);
    stage.tick(100);
    stage.advance_frame::<u8>(Vec::new());
    stage.reset_at(250);
    assert_eq!(stage.last_update(), 250);
    assert_eq!(stage.frame(), 0);
    assert_eq!(stage.accumulator(), 0);
    assert!(!stage.run_slow());
    assert!(stage.snapshots().is_empty());
    stage.tick(300);
    assert_eq!(stage.accumulator(), 50);
}

#[test]
fn reset_keeps_the_configuration() {
    let mut stage = GGRSStage::new();
    stage.set_update_frequency(120);
    stage.run_synctest(8, 2);
    stage.accumulate(77);
    stage.advance_frame::<u8>(Vec::new());
    stage.reset();
    assert_eq!(stage.frame(), 0);
    assert_eq!(stage.accumulator(), 0);
    assert!(!stage.run_slow());
    assert!(stage.snapshots().is_empty());
    assert_eq!(stage.update_frequency(), 120);
}

#[test]
fn sync_test_step_asks_for_every_player() {
    let mut stage = GGRSStage::new();
    let step = stage.run_synctest(8, 3);
    assert_eq!(step, Step { handles: vec![0, 1, 2], advance: true });
    assert_eq!(stage.snapshots().len(), 8);
    // the store keeps its size once it has one
    let step = stage.run_synctest(5, 0);
    assert_eq!(step, Step { handles: Vec::new(), advance: true });
    assert_eq!(stage.snapshots().len(), 8);
}

#[test]
fn p2p_step_asks_for_the_local_players() {
    let mut stage = GGRSStage::new();
    let step = stage.run_p2p(6, 0, &vec![1, 3], SessionState::Running);
    assert_eq!(step, Step { handles: vec![1, 3], advance: true });
    assert_eq!(stage.snapshots().len(), 6);
    let step = stage.run_p2p(6, 0, &vec![1, 3], SessionState::Synchronizing);
    assert_eq!(step, Step { handles: vec![1, 3], advance: false });
}

#[test]
fn spectator_step_asks_for_nobody() {
    let mut stage = GGRSStage::new();
    assert_eq!(
        stage.run_spectator(8, SessionState::Running),
        Step { handles: Vec::new(), advance: true }
    );
    assert_eq!(
        stage.run_spectator(8, SessionState::Synchronizing),
        Step { handles: Vec::new(), advance: false }
    );
}

#[test]
fn spectator_step_sizes_an_empty_store() {
    let mut stage = GGRSStage::new();
    assert!(stage.snapshots().is_empty());
    stage.run_spectator(5, SessionState::Synchronizing);
    assert_eq!(stage.snapshots().len(), 5);
    stage.run_spectator(9, SessionState::Running);
    assert_eq!(stage.snapshots().len(), 5);

    let mut stage = GGRSStage::new();
    let step = stage.accumulate(1_000_000_000);
    let spectator =
        Session::SpectatorSession { max_prediction: 6, current_state: SessionState::Running };
    assert!(stage.next_step(step, Some(&spectator)).is_some());
    assert_eq!(stage.snapshots().len(), 6);
    // a save is then taken
    let world = world_with(1);
    stage.save_world(GameStateCell::<u8>::default(), 0, &world);
    assert_eq!(stage.snapshots().load(0).world(), &world);
}

#[test]
fn next_step_follows_the_session() {
    let mut stage = GGRSStage::new();
    let step = stage.accumulate(1_000_000_000);
    assert_eq!(
        stage.next_step(step, Some(&synctest())),
        Some(Step { handles: vec![0, 1], advance: true })
    );
    assert_eq!(
        stage.next_step(step, Some(&p2p(1, SessionState::Synchronizing))),
        Some(Step { handles: vec![1, 3], advance: false })
    );
    assert!(stage.run_slow());
    assert_eq!(
        stage.next_step(step, Some(&p2p(0, SessionState::Running))),
        Some(Step { handles: vec![1, 3], advance: true })
    );
    assert!(!stage.run_slow());
    let spectator =
        Session::SpectatorSession { max_prediction: 8, current_state: SessionState::Running };
    assert_eq!(
        stage.next_step(step, Some(&spectator)),
        Some(Step { handles: Vec::new(), advance: true })
    );
    assert_eq!(stage.accumulator(), 1_000_000_000 - 4 * 16_666_666);
}

#[test]
fn save_keeps_a_snapshot_in_the_slot_of_the_frame() {
    let mut stage = GGRSStage::new();
    stage.run_synctest(4, 1);
    for frame in 0..6 {
        let world = world_with(frame as u8);
        let reported = stage.save_world(GameStateCell::<u8>::default(), frame, &world);
        let checksum = WorldSnapshot::from_world(&world).checksum();
        assert_eq!(reported, Reported { frame, checksum: checksum as u128 });
        assert_eq!(stage.snapshots().load(frame), &WorldSnapshot::from_world(&world));
        stage.advance_frame::<u8>(Vec::new());
    }
    assert_eq!(stage.frame(), 6);
    assert_eq!(stage.snapshots().load(0).world(), &world_with(4));
    assert_eq!(stage.snapshots().load(1).world(), &world_with(5));
    assert_eq!(stage.snapshots().load(2).world(), &world_with(2));
    assert_eq!(stage.snapshots().load(3).world(), &world_with(3));
}

#[test]
fn load_sets_the_frame_and_restores_the_world() {
    let mut stage = GGRSStage::new();
    stage.run_synctest(8, 1);
    let mut world = world_with(0);
    for frame in 0..5 {
        world.set_components(0, vec![Serialized { type_id: 1, bytes: vec![frame as u8] }]);
        stage.save_world(GameStateCell::<u8>::default(), frame, &world);
        stage.advance_frame::<u8>(Vec::new());
    }
    world.spawn(Rollback::new(9), Vec::new());
    stage.load_world(2, &mut world);
    assert_eq!(stage.frame(), 2);
    assert_eq!(world, world_with(2));
}

#[test]
fn advance_counts_the_frame_and_hands_the_inputs_on() {
    let mut stage = GGRSStage::new();
    let inputs = vec![(7u8, InputStatus::Confirmed), (9u8, InputStatus::Predicted)];
    let resource = stage.advance_frame(inputs);
    assert_eq!(stage.frame(), 1);
    assert_eq!(resource.0.len(), 2);
    assert_eq!(resource.0[0].0, 7);
    assert_eq!(resource.0[0].1, InputStatus::Confirmed);
    assert_eq!(resource.0[1].0, 9);
    assert_eq!(resource.0[1].1, InputStatus::Predicted);
}

#[test]
fn requests_are_fulfilled_by_their_kind() {
    let mut stage = GGRSStage::new();
    stage.run_synctest(8, 1);
    let mut world = world_with(1);

    let save: Request<u8, u8> = Request::SaveGameState { cell: GameStateCell::default(), frame: 0 };
    match stage.handle_request(save, &mut world) {
        Fulfilled::Saved(reported) => {
            let checksum = WorldSnapshot::from_world(&world_with(1)).checksum();
            assert_eq!(reported, Reported { frame: 0, checksum: checksum as u128 });
        }
        _ => panic!("a save reports frame and checksum"),
    }
    assert_eq!(stage.frame(), 0);
    assert_eq!(world, world_with(1));
    assert_eq!(stage.snapshots().load(0).world(), &world_with(1));

    let advance: Request<u8, u8> =
        Request::AdvanceFrame { inputs: vec![(5u8, InputStatus::Confirmed)] };
    match stage.handle_request(advance, &mut world) {
        Fulfilled::Advance(inputs) => {
            assert_eq!(inputs.0.len(), 1);
            assert_eq!(inputs.0[0].0, 5);
        }
        _ => panic!("an advance hands the inputs back"),
    }
    assert_eq!(stage.frame(), 1);
    assert_eq!(world, world_with(1));

    world.set_components(0, vec![Serialized { type_id: 1, bytes: vec![2] }]);
    let load: Request<u8, u8> = Request::LoadGameState { frame: 0 };
    assert!(matches!(stage.handle_request(load, &mut world), Fulfilled::Loaded));
    assert_eq!(stage.frame(), 0);
    assert_eq!(world, world_with(1));
}

#[test]
fn run_reads_the_clock() {
    let mut stage = GGRSStage::new();
    let step = stage.run();
    assert_eq!(step, 16_666_666);
    let first = stage.last_update();
    assert_eq!(stage.accumulator(), first);
    let step = stage.run();
    assert_eq!(step, 16_666_666);
    assert!(stage.last_update() >= first);
    assert_eq!(stage.accumulator(), stage.last_update());
    assert_eq!(stage.frame(), 0);
    stage.reset();
    assert!(stage.last_update() >= first);
    assert_eq!(stage.accumulator(), 0);
}
