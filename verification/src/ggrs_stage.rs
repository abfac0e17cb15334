//! The rollback stage: it turns real time into fixed simulation steps, says
//! what each step asks of the session, and fulfils the session's requests by
//! saving and loading snapshots of the world and counting frames.
//!
//! The host runs the loop. Once per real frame it calls [`GGRSStage::run`],
//! which reads the clock, or [`GGRSStage::tick`] with a time of its own,
//! polls the session, and then asks [`GGRSStage::next_step`] for steps until
//! there is none left. For every step it gathers the input of the players
//! that the step names, lets the session advance where the step says so, and
//! hands each request of the session to [`GGRSStage::handle_request`] in the
//! order given.
use crate::clock::elapsed_nanos;
use crate::clock::now;
use crate::plugin::TrackedTypes;
use crate::plugin::TrackedTypesView;
use crate::plugin::DEFAULT_FPS;
use crate::session::save_checksum;
use crate::session::PlayerHandle;
use crate::session::PlayerInputs;
use crate::session::Request;
use crate::session::Session;
use crate::session::SessionState;
use crate::snapshot_store::slot_of;
use crate::snapshot_store::SnapshotStore;
use crate::world::WorldState;
use crate::world::WorldView;
use crate::world_snapshot::captured;
use crate::world_snapshot::world_checksum;
use crate::world_snapshot::SnapshotView;
use crate::world_snapshot::WorldSnapshot;
use vstd::prelude::*;

verus! {

/// The nanoseconds of one second.
pub const NANOS_PER_SECOND: u64 = 1_000_000_000;

/// A duration of `numerator / denominator` nanoseconds in whole nanoseconds:
/// rounded down, but never less than one nanosecond.
pub open spec fn whole_nanos(numerator: int, denominator: int) -> u64 {
    if numerator / denominator < 1 {
        1
    } else {
        (numerator / denominator) as u64
    }
}

/// The duration of one step at the given update frequency, in whole
/// nanoseconds: the nanoseconds of a second divided by the frequency,
/// rounded down, but never less than one nanosecond. At frequency zero no
/// step is ever owed: the duration is the largest there is.
pub open spec fn nominal_step(update_frequency: usize) -> u64 {
    if update_frequency == 0 {
        u64::MAX
    } else {
        whole_nanos(NANOS_PER_SECOND as int, update_frequency as int)
    }
}

/// The duration of one step as the accumulator uses it, in whole
/// nanoseconds. It is the nominal duration, one second by the frequency.
/// While the stage runs slow to let remote peers catch up it is eleven tenths
/// of a second by the frequency, rounded down once, but never less than one
/// nanosecond.
pub open spec fn step_nanos(update_frequency: usize, run_slow: bool) -> u64 {
    if update_frequency != 0 && run_slow {
        whole_nanos(11 * NANOS_PER_SECOND, 10 * update_frequency)
    } else {
        nominal_step(update_frequency)
    }
}

/// The sum of two durations, or the largest duration where the sum is
/// larger.
pub open spec fn saturating_sum(a: u64, b: u64) -> u64 {
    if a + b > u64::MAX {
        u64::MAX
    } else {
        (a + b) as u64
    }
}

/// How many steps an accumulator owes: a step is owed while the accumulator
/// is larger than the step's duration.
pub open spec fn steps_owed(accumulator: u64, step: u64) -> nat
    decreases accumulator,
{
    if step > 0 && accumulator > step {
        1 + steps_owed((accumulator - step) as u64, step)
    } else {
        0
    }
}

/// What is left in an accumulator once all steps it owes were taken.
pub open spec fn residue(accumulator: u64, step: u64) -> u64
    decreases accumulator,
{
    if step > 0 && accumulator > step {
        residue((accumulator - step) as u64, step)
    } else {
        accumulator
    }
}

/// No time is lost or made up: the time accumulated is the time of the steps
/// taken and the time left over, and what is left over is at most the
/// duration of one step.
pub proof fn lemma_accumulator_conserved(accumulator: u64, step: u64)
    requires
        step > 0,
    ensures
        accumulator == steps_owed(accumulator, step) * step + residue(accumulator, step),
        residue(accumulator, step) <= step,
        accumulator > 0 ==> residue(accumulator, step) > 0,
    decreases accumulator,
{
    if accumulator > step {
        let rest = (accumulator - step) as u64;
        lemma_accumulator_conserved(rest, step);
        let owed = steps_owed(rest, step);
        assert(steps_owed(accumulator, step) == 1 + owed);
        assert(residue(accumulator, step) == residue(rest, step));
        assert((1 + owed) * step == step + owed * step) by (nonlinear_arith);
    } else {
        assert(steps_owed(accumulator, step) == 0);
        assert(0 * step == 0) by (nonlinear_arith);
    }
}

/// The time of a run of real frames: the sum of their deltas.
pub open spec fn total_time(deltas: Seq<u64>) -> nat
    decreases deltas.len(),
{
    if deltas.len() == 0 {
        0
    } else {
        total_time(deltas.drop_last()) + deltas.last() as nat
    }
}

/// What is left in the accumulator after a run of real frames, each of which
/// adds its delta and then takes all the steps that are owed.
pub open spec fn left_after(accumulator: u64, deltas: Seq<u64>, step: u64) -> u64
    decreases deltas.len(),
{
    if deltas.len() == 0 {
        accumulator
    } else {
        residue(
            saturating_sum(left_after(accumulator, deltas.drop_last(), step), deltas.last()),
            step,
        )
    }
}

/// The steps taken over a run of real frames, each of which adds its delta
/// and then takes all the steps that are owed.
pub open spec fn steps_over(accumulator: u64, deltas: Seq<u64>, step: u64) -> nat
    decreases deltas.len(),
{
    if deltas.len() == 0 {
        0
    } else {
        steps_over(accumulator, deltas.drop_last(), step) + steps_owed(
            saturating_sum(left_after(accumulator, deltas.drop_last(), step), deltas.last()),
            step,
        )
    }
}

/// However the time is split into real frames, none is lost or made up: what
/// was in the accumulator and what the frames added is the time of the steps
/// taken and the time left over. After a frame what is left over is at most
/// the duration of one step, and it is more than nothing unless no time has
/// passed at all.
pub proof fn lemma_frames_conserve_time(accumulator: u64, deltas: Seq<u64>, step: u64)
    requires
        step > 0,
        accumulator + total_time(deltas) <= u64::MAX,
    ensures
        accumulator + total_time(deltas) == steps_over(accumulator, deltas, step) * step
            + left_after(accumulator, deltas, step),
        deltas.len() > 0 ==> left_after(accumulator, deltas, step) <= step,
        accumulator + total_time(deltas) > 0 ==> left_after(accumulator, deltas, step) > 0,
    decreases deltas.len(),
{
    if deltas.len() > 0 {
        let before = deltas.drop_last();
        lemma_frames_conserve_time(accumulator, before, step);
        let left = left_after(accumulator, before, step);
        let steps = steps_over(accumulator, before, step);
        assert(steps * step >= 0) by (nonlinear_arith)
            requires
                steps >= 0,
                step > 0,
        ;
        let added = saturating_sum(left, deltas.last());
        assert(added == left + deltas.last());
        lemma_accumulator_conserved(added, step);
        let owed = steps_owed(added, step);
        assert((steps + owed) * step == steps * step + owed * step) by (nonlinear_arith);
        assert(steps_over(accumulator, deltas, step) == steps + owed);
        assert(left_after(accumulator, deltas, step) == residue(added, step));
        assert(total_time(deltas) == total_time(before) + deltas.last());
    } else {
        assert(steps_over(accumulator, deltas, step) == 0);
        assert(0 * step == 0) by (nonlinear_arith);
    }
}

/// One second at sixty steps a second is sixty steps, however the second is
/// split into real frames, and forty nanoseconds are left over: sixty times
/// the step's whole nanoseconds fall that much short of the second.
pub proof fn lemma_one_second_is_sixty_steps(deltas: Seq<u64>)
    requires
        deltas.len() > 0,
        total_time(deltas) == NANOS_PER_SECOND,
    ensures
        step_nanos(60, false) == 16_666_666,
        steps_over(0, deltas, step_nanos(60, false)) == 60,
        left_after(0, deltas, step_nanos(60, false)) == 40,
{
    let step = step_nanos(60, false);
    assert(step == 16_666_666);
    lemma_frames_conserve_time(0, deltas, step);
    let steps = steps_over(0, deltas, step);
    let left = left_after(0, deltas, step);
    assert(1_000_000_000 == steps * 16_666_666 + left);
    assert(0 < left <= 16_666_666);
    assert(steps == 60) by (nonlinear_arith)
        requires
            1_000_000_000 == steps * 16_666_666 + left,
            0 < left <= 16_666_666,
    ;
}

/// Rounding down to whole nanoseconds: the whole nanoseconds of a duration of
/// `numerator / denominator` nanoseconds that is not below one nanosecond are
/// the most that are not more than the duration, and a whole number of
/// nanoseconds is more than the one exactly when it is more than the other.
pub proof fn lemma_whole_nanos(numerator: int, denominator: int, nanos: int)
    requires
        0 < denominator <= numerator <= u64::MAX,
    ensures
        whole_nanos(numerator, denominator) * denominator <= numerator < (whole_nanos(
            numerator,
            denominator,
        ) + 1) * denominator,
        numerator % denominator == 0 ==> whole_nanos(numerator, denominator) * denominator
            == numerator,
        nanos > whole_nanos(numerator, denominator) <==> nanos * denominator > numerator,
{
    let q = numerator / denominator;
    vstd::arithmetic::div_mod::lemma_fundamental_div_mod(numerator, denominator);
    vstd::arithmetic::div_mod::lemma_mod_bound(numerator, denominator);
    assert(numerator == denominator * q + numerator % denominator);
    assert(q >= 1) by (nonlinear_arith)
        requires
            numerator == denominator * q + numerator % denominator,
            0 <= numerator % denominator < denominator,
            0 < denominator <= numerator,
    ;
    assert(q <= numerator) by (nonlinear_arith)
        requires
            numerator == denominator * q + numerator % denominator,
            0 <= numerator % denominator,
            0 < denominator,
            q >= 1,
    ;
    assert(whole_nanos(numerator, denominator) == q);
    assert(q * denominator == denominator * q) by (nonlinear_arith);
    assert((q + 1) * denominator == denominator * q + denominator) by (nonlinear_arith);
    if nanos > q {
        assert(nanos * denominator >= (q + 1) * denominator) by (nonlinear_arith)
            requires
                nanos >= q + 1,
                denominator > 0,
        ;
    } else {
        assert(nanos * denominator <= q * denominator) by (nonlinear_arith)
            requires
                nanos <= q,
                denominator > 0,
        ;
    }
}

/// While the stage runs slow the step lasts eleven tenths of a second by the
/// frequency, otherwise a second by the frequency, each rounded down once to
/// whole nanoseconds: a whole number of nanoseconds is more than the step in
/// nanoseconds exactly when it is more than the step itself. Where eleven
/// tenths of a second by the frequency are whole nanoseconds, the slow step is
/// exactly that; where moreover a second by the frequency is whole
/// nanoseconds, the slow step is exactly eleven tenths of the nominal step.
pub proof fn lemma_run_slow_scaling(update_frequency: usize, nanos: u64)
    requires
        0 < update_frequency <= NANOS_PER_SECOND,
    ensures
        step_nanos(update_frequency, false) == nominal_step(update_frequency),
        nanos > step_nanos(update_frequency, false) <==> nanos * update_frequency
            > NANOS_PER_SECOND,
        nanos > step_nanos(update_frequency, true) <==> nanos * (10 * update_frequency) > 11
            * NANOS_PER_SECOND,
        (11 * NANOS_PER_SECOND) % (10 * update_frequency) == 0 ==> step_nanos(
            update_frequency,
            true,
        ) * (10 * update_frequency) == 11 * NANOS_PER_SECOND,
        (11 * NANOS_PER_SECOND) % (10 * update_frequency) == 0 && NANOS_PER_SECOND as int
            % update_frequency as int == 0 ==> 10 * step_nanos(update_frequency, true) == 11
            * nominal_step(update_frequency),
{
    let f = update_frequency as int;
    lemma_whole_nanos(NANOS_PER_SECOND as int, f, nanos as int);
    lemma_whole_nanos(11 * NANOS_PER_SECOND, 10 * f, nanos as int);
    let slow = step_nanos(update_frequency, true) as int;
    let nominal = nominal_step(update_frequency) as int;
    if (11 * NANOS_PER_SECOND) % (10 * f) == 0 && NANOS_PER_SECOND as int % f == 0 {
        assert(slow * (10 * f) == 11 * NANOS_PER_SECOND);
        assert(nominal * f == NANOS_PER_SECOND);
        assert(10 * slow == 11 * nominal) by (nonlinear_arith)
            requires
                slow * (10 * f) == 11 * (nominal * f),
                f > 0,
        ;
    }
}

/// The step never lasts less than a nanosecond, so that taking steps always
/// comes to an end.
pub proof fn lemma_step_is_positive(update_frequency: usize, run_slow: bool)
    ensures
        step_nanos(update_frequency, run_slow) >= 1,
{
}

/// Divides a number of nanoseconds, rounding down, but never below one.
fn divide_nanos(numerator: u128, denominator: u128) -> (nanos: u64)
    requires
        0 < denominator,
        numerator <= u64::MAX,
    ensures
        nanos == whole_nanos(numerator as int, denominator as int),
{
    let quotient: u128 = numerator / denominator;
    proof {
        vstd::arithmetic::div_mod::lemma_fundamental_div_mod(numerator as int, denominator as int);
        vstd::arithmetic::div_mod::lemma_mod_bound(numerator as int, denominator as int);
        let q = numerator as int / denominator as int;
        let r = numerator as int % denominator as int;
        assert(q <= numerator) by (nonlinear_arith)
            requires
                numerator == denominator * q + r,
                0 <= r,
                0 < denominator,
                0 <= numerator,
        ;
    }
    if quotient < 1 {
        1
    } else {
        quotient as u64
    }
}

/// What one step asks of the host.
#[derive(Debug, PartialEq, Eq)]
pub struct Step {
    /// The players whose input is gathered for this step, in this order.
    pub handles: Vec<PlayerHandle>,
    /// Whether the gathered input is handed to the session and the session
    /// is asked to advance. Where it is not, the step passes without a
    /// simulation update.
    pub advance: bool,
}

/// What a [`GGRSStage`] is.
pub struct StageView {
    /// The types that are saved and loaded.
    pub types: TrackedTypesView,
    /// The slots of the snapshot store.
    pub snapshots: Seq<SnapshotView>,
    /// The number of steps per second.
    pub update_frequency: usize,
    /// The number of the frame that is simulated next.
    pub frame: i32,
    /// The time that has not been turned into steps yet, in nanoseconds.
    pub accumulator: u64,
    /// Whether the stage runs slow to let remote peers catch up.
    pub run_slow: bool,
    /// When the stage last ran, in nanoseconds since it was made.
    pub last_update: u64,
}

impl StageView {
    /// The stage as it is made: at frame zero, with nothing accumulated,
    /// without snapshot slots and tracked types, at the default frequency.
    pub open spec fn initial() -> StageView {
        StageView {
            types: TrackedTypesView { components: Seq::empty(), resources: Seq::empty() },
            snapshots: Seq::empty(),
            update_frequency: DEFAULT_FPS,
            frame: 0,
            accumulator: 0,
            run_slow: false,
            last_update: 0,
        }
    }

    /// The stage with another update frequency.
    pub open spec fn with_update_frequency(self, update_frequency: usize) -> StageView {
        StageView { update_frequency, ..self }
    }

    /// The stage with another table of tracked types.
    pub open spec fn with_types(self, types: TrackedTypesView) -> StageView {
        StageView { types, ..self }
    }

    /// The stage with its timing and frame state reset: at frame zero, with
    /// nothing accumulated, not running slow, without snapshot slots. The
    /// configuration stays, and so does the time at which the stage last
    /// ran.
    pub open spec fn reset(self) -> StageView {
        StageView { snapshots: Seq::empty(), frame: 0, accumulator: 0, run_slow: false, ..self }
    }

    /// The stage reset at the time `now`, which is then the time at which
    /// it last ran.
    pub open spec fn reset_at(self, now: u64) -> StageView {
        StageView { last_update: now, ..self.reset() }
    }

    /// The time from the last run of the stage to `now`, in nanoseconds;
    /// nothing where `now` is the earlier of the two.
    pub open spec fn elapsed(self, now: u64) -> u64 {
        if now >= self.last_update {
            (now - self.last_update) as u64
        } else {
            0
        }
    }

    /// The stage after a real frame began at the time `now`: the time since
    /// it last ran is added to the accumulator, and `now` is the time at
    /// which it last ran.
    pub open spec fn ticked(self, now: u64) -> StageView {
        StageView { last_update: now, ..self.accumulated(self.elapsed(now)) }
    }

    /// The duration of a step in the stage's present state.
    pub open spec fn step(self) -> u64 {
        step_nanos(self.update_frequency, self.run_slow)
    }

    /// The stage after `delta` nanoseconds have passed.
    pub open spec fn accumulated(self, delta: u64) -> StageView {
        StageView { accumulator: saturating_sum(self.accumulator, delta), ..self }
    }

    /// The stage with a snapshot store sized to the session's prediction
    /// window, where it had no slots; unchanged where it had some.
    pub open spec fn with_window(self, max_prediction: usize) -> StageView {
        if self.snapshots.len() == 0 {
            StageView {
                snapshots: Seq::new(max_prediction as nat, |i: int| captured(WorldView::empty())),
                ..self
            }
        } else {
            self
        }
    }

    /// The stage made ready for a step of the given session.
    pub open spec fn prepared(self, session: Session) -> StageView {
        match session {
            Session::SyncTestSession { max_prediction, .. } => self.with_window(max_prediction),
            Session::P2PSession { max_prediction, frames_ahead, .. } => StageView {
                run_slow: frames_ahead > 0,
                ..self.with_window(max_prediction)
            },
            Session::SpectatorSession { max_prediction, .. } => self.with_window(max_prediction),
        }
    }

    /// The stage after it was asked for the next step. Without a session it
    /// is reset, whatever it has accumulated. With a session, where the
    /// accumulator is larger than the step's duration, that duration is taken
    /// from it and the stage is made ready for the session's step; where it
    /// is not, nothing changes.
    pub open spec fn after_step(self, step: u64, session: Option<&Session>) -> StageView {
        match session {
            None => self.reset(),
            Some(session) => if self.accumulator > step {
                (StageView { accumulator: (self.accumulator - step) as u64, ..self }).prepared(
                    *session,
                )
            } else {
                self
            },
        }
    }

    /// The stage after the world was saved as the state of the current
    /// frame.
    pub open spec fn saved(self, world: WorldView) -> StageView {
        StageView {
            snapshots: self.snapshots.update(
                slot_of(self.frame, self.snapshots.len()),
                captured(world),
            ),
            ..self
        }
    }

    /// The stage after the state of `frame` was loaded.
    pub open spec fn loaded(self, frame: i32) -> StageView {
        StageView { frame, ..self }
    }

    /// The stage after one simulation step.
    pub open spec fn advanced(self) -> StageView {
        StageView { frame: (self.frame + 1) as i32, ..self }
    }

    /// Whether the stage can fulfil a request. A save must name the current
    /// frame, a save or load needs a snapshot store with slots and a frame
    /// that is not negative, and the frame counter must have room for an
    /// advance.
    pub open spec fn accepts<I, S: Clone>(self, request: Request<I, S>) -> bool {
        match request {
            Request::SaveGameState { frame, .. } => frame == self.frame && self.snapshots.len() > 0,
            Request::LoadGameState { frame } => frame >= 0 && self.snapshots.len() > 0,
            Request::AdvanceFrame { .. } => self.frame < i32::MAX,
        }
    }

    /// The stage after it fulfilled a request in the given world.
    pub open spec fn fulfilled<I, S: Clone>(
        self,
        request: Request<I, S>,
        world: WorldView,
    ) -> StageView {
        match request {
            Request::SaveGameState { .. } => self.saved(world),
            Request::LoadGameState { frame } => self.loaded(frame),
            Request::AdvanceFrame { .. } => self.advanced(),
        }
    }

    /// The world after the stage fulfilled a request in it: a load puts the
    /// state of the frame's slot in its place, all else leaves it alone.
    pub open spec fn world_after<I, S: Clone>(
        self,
        request: Request<I, S>,
        world: WorldView,
    ) -> WorldView {
        match request {
            Request::LoadGameState { frame } => self.snapshots[slot_of(
                frame,
                self.snapshots.len(),
            )].world,
            _ => world,
        }
    }
}

/// The stage and the world after the host fulfilled a run of requests in
/// the order given, running the simulation update `simulate` on the world
/// for every advance.
pub open spec fn after_requests<I, S: Clone>(
    stage: StageView,
    world: WorldView,
    requests: Seq<Request<I, S>>,
    simulate: spec_fn(WorldView, Vec<(I, ggrs::InputStatus)>) -> WorldView,
) -> (StageView, WorldView)
    decreases requests.len(),
{
    if requests.len() == 0 {
        (stage, world)
    } else {
        let (before, live) = after_requests(stage, world, requests.drop_last(), simulate);
        let request = requests.last();
        let shown = before.world_after(request, live);
        (
            before.fulfilled(request, live),
            match request {
                Request::AdvanceFrame { inputs } => simulate(shown, inputs),
                _ => shown,
            },
        )
    }
}

/// Whether the stage can fulfil every request of a run when its turn comes.
pub open spec fn accepts_all<I, S: Clone>(
    stage: StageView,
    world: WorldView,
    requests: Seq<Request<I, S>>,
    simulate: spec_fn(WorldView, Vec<(I, ggrs::InputStatus)>) -> WorldView,
) -> bool
    decreases requests.len(),
{
    requests.len() > 0 ==> accepts_all(stage, world, requests.drop_last(), simulate)
        && after_requests(stage, world, requests.drop_last(), simulate).0.accepts(requests.last())
}

/// The requests to advance with each of the given inputs in turn.
pub open spec fn advance_requests<I, S: Clone>(inputs: Seq<Vec<(I, ggrs::InputStatus)>>) -> Seq<
    Request<I, S>,
> {
    Seq::new(inputs.len(), |k: int| Request::AdvanceFrame { inputs: inputs[k] })
}

/// The world after the simulation update ran with each of the given inputs
/// in turn.
pub open spec fn replayed<I>(
    world: WorldView,
    inputs: Seq<Vec<(I, ggrs::InputStatus)>>,
    simulate: spec_fn(WorldView, Vec<(I, ggrs::InputStatus)>) -> WorldView,
) -> WorldView
    decreases inputs.len(),
{
    if inputs.len() == 0 {
        world
    } else {
        simulate(replayed(world, inputs.drop_last(), simulate), inputs.last())
    }
}

/// Going back to a saved frame and advancing again with inputs leaves the
/// world that the simulation makes of the saved state with these inputs, at
/// the frame that many frames after the saved one, whatever the world was
/// before and whatever frame the stage was at.
pub proof fn lemma_rollback_then_replay<I, S: Clone>(
    stage: StageView,
    world: WorldView,
    frame: i32,
    inputs: Seq<Vec<(I, ggrs::InputStatus)>>,
    simulate: spec_fn(WorldView, Vec<(I, ggrs::InputStatus)>) -> WorldView,
)
    requires
        frame >= 0,
        stage.snapshots.len() > 0,
        frame + inputs.len() <= i32::MAX,
    ensures
        ({
            let requests = seq![Request::<I, S>::LoadGameState { frame }] + advance_requests::<
                I,
                S,
            >(inputs);
            let saved = stage.snapshots[slot_of(frame, stage.snapshots.len())].world;
            &&& accepts_all(stage, world, requests, simulate)
            &&& after_requests(stage, world, requests, simulate) == (
                StageView { frame: (frame + inputs.len()) as i32, ..stage },
                replayed(saved, inputs, simulate),
            )
        }),
    decreases inputs.len(),
{
    let load = seq![Request::<I, S>::LoadGameState { frame }];
    let requests = load + advance_requests::<I, S>(inputs);
    if inputs.len() == 0 {
        assert(requests =~= load);
        assert(requests.drop_last() =~= Seq::<Request<I, S>>::empty());
        assert(accepts_all(stage, world, requests.drop_last(), simulate));
        assert(after_requests(stage, world, requests.drop_last(), simulate) == (stage, world));
    } else {
        let fewer = inputs.drop_last();
        lemma_rollback_then_replay::<I, S>(stage, world, frame, fewer, simulate);
        assert(requests.drop_last() =~= load + advance_requests::<I, S>(fewer));
        assert(requests.last() == Request::<I, S>::AdvanceFrame { inputs: inputs.last() });
    }
}

/// A rollback followed by a replay of the same inputs changes nothing: where
/// the world is what the simulation made of a saved frame with some inputs,
/// and the stage is as many frames on, going back to that frame and advancing
/// with the same inputs gives the same world and the same stage again.
pub proof fn lemma_rollback_and_replay_change_nothing<I, S: Clone>(
    stage: StageView,
    frame: i32,
    inputs: Seq<Vec<(I, ggrs::InputStatus)>>,
    simulate: spec_fn(WorldView, Vec<(I, ggrs::InputStatus)>) -> WorldView,
)
    requires
        frame >= 0,
        stage.snapshots.len() > 0,
        stage.frame == frame + inputs.len(),
    ensures
        ({
            let saved = stage.snapshots[slot_of(frame, stage.snapshots.len())].world;
            let world = replayed(saved, inputs, simulate);
            after_requests(
                stage,
                world,
                seq![Request::<I, S>::LoadGameState { frame }] + advance_requests::<I, S>(inputs),
                simulate,
            ) == (stage, world)
        }),
{
    let saved = stage.snapshots[slot_of(frame, stage.snapshots.len())].world;
    lemma_rollback_then_replay::<I, S>(
        stage,
        replayed(saved, inputs, simulate),
        frame,
        inputs,
        simulate,
    );
}

/// The frame whose state a slot of the snapshot store holds after a run of
/// requests: the frame of the last save into that slot, if there was one.
pub open spec fn last_saved<I, S: Clone>(
    requests: Seq<Request<I, S>>,
    slots: nat,
    slot: int,
) -> Option<i32>
    decreases requests.len(),
{
    if requests.len() == 0 {
        None
    } else {
        match requests.last() {
            Request::SaveGameState { frame, .. } => if slot_of(frame, slots) == slot {
                Some(frame)
            } else {
                last_saved(requests.drop_last(), slots, slot)
            },
            _ => last_saved(requests.drop_last(), slots, slot),
        }
    }
}

/// Whether a run of requests is one that a session may give for a script of
/// inputs, one entry for each frame: a save names the current frame, an
/// advance carries the script's inputs for the current frame, and a load
/// names a frame that was saved and whose slot no other frame has taken
/// since.
pub open spec fn follows_script<I, S: Clone>(
    stage: StageView,
    world: WorldView,
    requests: Seq<Request<I, S>>,
    script: Seq<Vec<(I, ggrs::InputStatus)>>,
    simulate: spec_fn(WorldView, Vec<(I, ggrs::InputStatus)>) -> WorldView,
) -> bool
    decreases requests.len(),
{
    requests.len() > 0 ==> {
        let earlier = requests.drop_last();
        let before = after_requests(stage, world, earlier, simulate).0;
        &&& follows_script(stage, world, earlier, script, simulate)
        &&& match requests.last() {
            Request::SaveGameState { frame, .. } => frame == before.frame,
            Request::LoadGameState { frame } => frame >= 0 && last_saved(
                earlier,
                stage.snapshots.len(),
                slot_of(frame, stage.snapshots.len()),
            ) == Some(frame),
            Request::AdvanceFrame { inputs } => before.frame < script.len() && before.frame
                < i32::MAX && inputs == script[before.frame as int],
        }
    }
}

/// However often a session goes back and simulates again, the world is the
/// one that the script's inputs give without any rollback. From frame zero,
/// after any run of requests that a session may give for a script, the
/// stage is at a frame of the script and the world is what the simulation
/// makes of the first world with the script's inputs up to that frame; every
/// request was one that the stage accepts; and every slot that was saved
/// into holds the world of the frame last saved there.
pub proof fn lemma_rollbacks_leave_the_plain_replay<I, S: Clone>(
    stage: StageView,
    world: WorldView,
    requests: Seq<Request<I, S>>,
    script: Seq<Vec<(I, ggrs::InputStatus)>>,
    simulate: spec_fn(WorldView, Vec<(I, ggrs::InputStatus)>) -> WorldView,
)
    requires
        stage.frame == 0,
        stage.snapshots.len() > 0,
        follows_script(stage, world, requests, script, simulate),
    ensures
        ({
            let (after, live) = after_requests(stage, world, requests, simulate);
            let slots = stage.snapshots.len();
            &&& accepts_all(stage, world, requests, simulate)
            &&& 0 <= after.frame <= script.len()
            &&& live == replayed(world, script.take(after.frame as int), simulate)
            &&& after.snapshots.len() == slots
            &&& forall|slot: int|
                0 <= slot < slots ==> match #[trigger] last_saved(requests, slots, slot) {
                    Some(frame) => 0 <= frame <= script.len() && after.snapshots[slot].world
                        == replayed(world, script.take(frame as int), simulate),
                    None => true,
                }
        }),
    decreases requests.len(),
{
    let slots = stage.snapshots.len();
    if requests.len() == 0 {
        assert(script.take(0) =~= Seq::<Vec<(I, ggrs::InputStatus)>>::empty());
    } else {
        let earlier = requests.drop_last();
        let request = requests.last();
        lemma_rollbacks_leave_the_plain_replay(stage, world, earlier, script, simulate);
        let (before, seen) = after_requests(stage, world, earlier, simulate);
        let (after, live) = after_requests(stage, world, requests, simulate);
        match request {
            Request::SaveGameState { frame, .. } => {
                let saved = slot_of(frame, slots);
                assert(0 <= saved < slots);
                assert forall|slot: int| 0 <= slot < slots implies match #[trigger] last_saved(
                    requests,
                    slots,
                    slot,
                ) {
                    Some(frame) => 0 <= frame <= script.len() && after.snapshots[slot].world
                        == replayed(world, script.take(frame as int), simulate),
                    None => true,
                } by {
                    if slot != saved {
                        assert(last_saved(requests, slots, slot) == last_saved(
                            earlier,
                            slots,
                            slot,
                        ));
                    }
                }
            },
            Request::LoadGameState { frame } => {
                let loaded = slot_of(frame, slots);
                assert(0 <= loaded < slots);
                assert(last_saved(earlier, slots, loaded) == Some(frame));
                assert forall|slot: int| 0 <= slot < slots implies match #[trigger] last_saved(
                    requests,
                    slots,
                    slot,
                ) {
                    Some(frame) => 0 <= frame <= script.len() && after.snapshots[slot].world
                        == replayed(world, script.take(frame as int), simulate),
                    None => true,
                } by {
                    assert(last_saved(requests, slots, slot) == last_saved(earlier, slots, slot));
                }
            },
            Request::AdvanceFrame { inputs } => {
                let next = script.take(before.frame + 1);
                assert(next.drop_last() =~= script.take(before.frame as int));
                assert(next.last() == script[before.frame as int]);
                assert forall|slot: int| 0 <= slot < slots implies match #[trigger] last_saved(
                    requests,
                    slots,
                    slot,
                ) {
                    Some(frame) => 0 <= frame <= script.len() && after.snapshots[slot].world
                        == replayed(world, script.take(frame as int), simulate),
                    None => true,
                } by {
                    assert(last_saved(requests, slots, slot) == last_saved(earlier, slots, slot));
                }
            },
        }
    }
}

/// Taking a step takes one from the steps that are owed and leaves what
/// will be left over as it is.
pub proof fn lemma_step_taken(stage: StageView, step: u64, session: Session)
    requires
        step > 0,
        stage.accumulator > step,
    ensures
        stage.after_step(step, Some(&session)).accumulator == stage.accumulator - step,
        steps_owed(stage.accumulator, step) == 1 + steps_owed(
            stage.after_step(step, Some(&session)).accumulator,
            step,
        ),
        residue(stage.accumulator, step) == residue(
            stage.after_step(step, Some(&session)).accumulator,
            step,
        ),
{
}

/// The players whose input a step of the session needs: every player of a
/// sync test, the local players of a session among peers, nobody for a
/// spectator.
pub open spec fn handles_of(session: Session) -> Seq<PlayerHandle> {
    match session {
        Session::SyncTestSession { num_players, .. } => Seq::new(
            num_players as nat,
            |i: int| i as usize,
        ),
        Session::P2PSession { local_player_handles, .. } => local_player_handles@,
        Session::SpectatorSession { .. } => Seq::empty(),
    }
}

/// Whether a step of the session asks the session to advance: a sync test
/// always does, the others once they are running.
pub open spec fn advances(session: Session) -> bool {
    match session {
        Session::SyncTestSession { .. } => true,
        Session::P2PSession { current_state, .. } => current_state == SessionState::Running,
        Session::SpectatorSession { current_state, .. } => current_state == SessionState::Running,
    }
}

/// What a save reports to the session: the frame that was saved and the
/// checksum of the snapshot that was taken of it.
#[derive(Clone, Copy, Debug, PartialEq, Eq, Structural)]
pub struct Reported {
    /// The frame that was saved.
    pub frame: i32,
    /// The checksum of the snapshot.
    pub checksum: u128,
}

/// What a save of the given world as the state of `frame` reports.
pub open spec fn report_of(frame: i32, world: WorldView) -> Reported {
    Reported { frame, checksum: world_checksum(world) as u128 }
}

/// What the stage hands back for a fulfilled request.
pub enum Fulfilled<I> {
    /// The world was saved, and this was reported into the session's cell.
    /// Nothing is left to do.
    Saved(Reported),
    /// A saved state was loaded into the world state; the host brings its
    /// world in line with it.
    Loaded,
    /// The frame was counted. The host makes the inputs available, runs the
    /// simulation update, and takes the inputs away again.
    Advance(PlayerInputs<I>),
}

/// The rollback stage handles updating, saving and loading the game state.
pub struct GGRSStage {
    /// The types that are saved and loaded.
    type_registry: TrackedTypes,
    /// The snapshots of the last frames, one slot for each frame of the
    /// prediction window.
    snapshots: SnapshotStore,
    /// The number of steps per second.
    update_frequency: usize,
    /// Counts the frames that have been simulated.
    frame: i32,
    /// When the stage was made: the point from which it counts time.
    origin: instant::Instant,
    /// When the stage last ran, in nanoseconds since it was made.
    last_update: u64,
    /// The time that has not been turned into steps yet, in nanoseconds.
    accumulator: u64,
    /// Whether the stage runs slow to let remote peers catch up.
    run_slow: bool,
}

impl View for GGRSStage {
    type V = StageView;

    closed spec fn view(&self) -> StageView {
        StageView {
            types: self.type_registry@,
            snapshots: self.snapshots@,
            update_frequency: self.update_frequency,
            frame: self.frame,
            accumulator: self.accumulator,
            run_slow: self.run_slow,
            last_update: self.last_update,
        }
    }
}

impl GGRSStage {
    /// Whether the stage is well formed: its snapshots are, and its frame
    /// counter is not negative.
    pub closed spec fn wf(&self) -> bool {
        &&& self.snapshots.wf()
        &&& self.frame >= 0
    }

    /// The frame counter of a well-formed stage is never negative.
    pub proof fn lemma_frame_not_negative(&self)
        requires
            self.wf(),
        ensures
            self@.frame >= 0,
    {
    }

    /// A stage at frame zero that starts measuring time now.
    pub fn new() -> (stage: Self)
        ensures
            stage.wf(),
            stage@ == StageView::initial(),
    {
        let stage = GGRSStage {
            type_registry: TrackedTypes::new(),
            snapshots: SnapshotStore::new(),
            frame: 0,
            update_frequency: DEFAULT_FPS,
            origin: now(),
            last_update: 0,
            accumulator: 0,
            run_slow: false,
        };
        proof {
            assert(stage@.snapshots =~= Seq::<SnapshotView>::empty());
            assert(stage@.types.components =~= Seq::<u64>::empty());
            assert(stage@.types.resources =~= Seq::<u64>::empty());
        }
        stage
    }

    /// The time that the clock shows, in nanoseconds since the stage was
    /// made.
    fn clock(&self) -> u64 {
        let time = now();
        elapsed_nanos(&time, &self.origin)
    }

    /// When the stage last ran, in nanoseconds since it was made.
    pub fn last_update(&self) -> (nanos: u64)
        ensures
            nanos == self@.last_update,
    {
        self.last_update
    }

    /// Resets the timing and frame state, as for a session that has not
    /// started yet. The stage last ran at the time that the clock shows.
    pub fn reset(&mut self)
        ensures
            final(self).wf(),
            final(self)@ == old(self)@.reset_at(final(self)@.last_update),
    {
        let time = self.clock();
        self.reset_at(time);
    }

    /// Resets the timing and frame state at the time `now`, in nanoseconds
    /// since the stage was made.
    pub fn reset_at(&mut self, now: u64)
        ensures
            final(self).wf(),
            final(self)@ == old(self)@.reset_at(now),
    {
        self.last_update = now;
        self.accumulator = 0;
        self.frame = 0;
        self.run_slow = false;
        self.snapshots.clear();
        proof {
            assert(self@.snapshots =~= Seq::<SnapshotView>::empty());
        }
    }

    /// Changes the number of steps per second.
    pub fn set_update_frequency(&mut self, update_frequency: usize)
        ensures
            old(self).wf() ==> final(self).wf(),
            final(self)@ == old(self)@.with_update_frequency(update_frequency),
    {
        self.update_frequency = update_frequency
    }

    /// Changes the table of tracked types.
    pub fn set_type_registry(&mut self, type_registry: TrackedTypes)
        ensures
            old(self).wf() ==> final(self).wf(),
            final(self)@ == old(self)@.with_types(type_registry@),
    {
        self.type_registry = type_registry;
    }

    /// The table of tracked types.
    pub fn type_registry(&self) -> (types: &TrackedTypes)
        ensures
            types@ == self@.types,
    {
        &self.type_registry
    }

    /// The number of steps per second.
    pub fn update_frequency(&self) -> (update_frequency: usize)
        ensures
            update_frequency == self@.update_frequency,
    {
        self.update_frequency
    }

    /// The number of the frame that is simulated next.
    pub fn frame(&self) -> (frame: i32)
        ensures
            frame == self@.frame,
    {
        self.frame
    }

    /// The time that has not been turned into steps yet, in nanoseconds.
    pub fn accumulator(&self) -> (nanos: u64)
        ensures
            nanos == self@.accumulator,
    {
        self.accumulator
    }

    /// Whether the stage runs slow.
    pub fn run_slow(&self) -> (slow: bool)
        ensures
            slow == self@.run_slow,
    {
        self.run_slow
    }

    /// The snapshot store.
    pub fn snapshots(&self) -> (store: &SnapshotStore)
        ensures
            store@ == self@.snapshots,
            self.wf() ==> store.wf(),
    {
        &self.snapshots
    }

    /// The duration of a step in the stage's present state, in nanoseconds.
    pub fn step_duration(&self) -> (step: u64)
        ensures
            step == self@.step(),
    {
        if self.update_frequency == 0 {
            return u64::MAX;
        }
        let frequency: u128 = self.update_frequency as u128;
        if self.run_slow {
            divide_nanos(11 * (NANOS_PER_SECOND as u128), 10 * frequency)
        } else {
            divide_nanos(NANOS_PER_SECOND as u128, frequency)
        }
    }

    /// Adds `delta` nanoseconds to the accumulator, which stops at the
    /// largest value it can hold. Returns the duration of a step for this
    /// real frame.
    pub fn accumulate(&mut self, delta: u64) -> (step: u64)
        ensures
            old(self).wf() ==> final(self).wf(),
            final(self)@ == old(self)@.accumulated(delta),
            step == old(self)@.step(),
    {
        let step = self.step_duration();
        self.accumulator = self.accumulator.saturating_add(delta);
        step
    }

    /// Begins a real frame at the time `now`, in nanoseconds since the stage
    /// was made: the time since the stage last ran is accumulated, and `now`
    /// is the time at which it last ran. Returns the duration of a step for
    /// this frame.
    pub fn tick(&mut self, now: u64) -> (step: u64)
        ensures
            old(self).wf() ==> final(self).wf(),
            final(self)@ == old(self)@.ticked(now),
            step == old(self)@.step(),
    {
        let delta: u64 = if now >= self.last_update {
            now - self.last_update
        } else {
            0
        };
        self.last_update = now;
        self.accumulate(delta)
    }

    /// Begins a real frame at the time that the clock shows. Returns the
    /// duration of a step for this frame.
    pub fn run(&mut self) -> (step: u64)
        ensures
            old(self).wf() ==> final(self).wf(),
            final(self)@ == old(self)@.ticked(final(self)@.last_update),
            step == old(self)@.step(),
    {
        let time = self.clock();
        self.tick(time)
    }

    /// Gives the snapshot store its slots where it has none.
    fn size_snapshots(&mut self, max_prediction: usize)
        requires
            old(self).wf(),
        ensures
            final(self).wf(),
            final(self)@ == old(self)@.with_window(max_prediction),
    {
        self.snapshots.initialize(max_prediction);
    }

    /// Makes the stage ready for a step of a sync test session and says what
    /// the step asks: input for every player, and an advance.
    pub fn run_synctest(&mut self, max_prediction: usize, num_players: usize) -> (step: Step)
        requires
            old(self).wf(),
        ensures
            final(self).wf(),
            final(self)@ == old(self)@.with_window(max_prediction),
            step.handles@ == Seq::new(num_players as nat, |i: int| i as usize),
            step.advance,
    {
        self.size_snapshots(max_prediction);
        let mut handles: Vec<PlayerHandle> = Vec::new();
        let mut handle: usize = 0;
        while handle < num_players
            invariant
                handle <= num_players,
                handles@.len() == handle,
                forall|i: int| 0 <= i < handle ==> handles@[i] == i as usize,
            decreases num_players - handle,
        {
            handles.push(handle);
            handle = handle + 1;
        }
        proof {
            assert(handles@ =~= Seq::new(num_players as nat, |i: int| i as usize));
        }
        Step { handles, advance: true }
    }

    /// Makes the stage ready for a step of a session among peers and says
    /// what the step asks: input for the local players, and an advance once
    /// the session is running. The stage runs slow from now on while the
    /// session is ahead of its peers.
    pub fn run_p2p(
        &mut self,
        max_prediction: usize,
        frames_ahead: i32,
        local_player_handles: &Vec<PlayerHandle>,
        current_state: SessionState,
    ) -> (step: Step)
        requires
            old(self).wf(),
        ensures
            final(self).wf(),
            final(self)@ == (StageView {
                run_slow: frames_ahead > 0,
                ..old(self)@.with_window(max_prediction)
            }),
            step.handles@ == local_player_handles@,
            step.advance == (current_state == SessionState::Running),
    {
        self.size_snapshots(max_prediction);
        self.run_slow = frames_ahead > 0;
        let mut handles: Vec<PlayerHandle> = Vec::new();
        let mut i: usize = 0;
        while i < local_player_handles.len()
            invariant
                i <= local_player_handles.len(),
                handles@ == local_player_handles@.take(i as int),
            decreases local_player_handles.len() - i,
        {
            handles.push(local_player_handles[i]);
            proof {
                assert(handles@ =~= local_player_handles@.take(i + 1));
            }
            i = i + 1;
        }
        proof {
            assert(local_player_handles@.take(i as int) =~= local_player_handles@);
        }
        Step { handles, advance: current_state == SessionState::Running }
    }

    /// Makes the stage ready for a step of a spectator session and says what
    /// the step asks: no input, and an advance once the session is running.
    pub fn run_spectator(&mut self, max_prediction: usize, current_state: SessionState) -> (step:
        Step)
        requires
            old(self).wf(),
        ensures
            final(self).wf(),
            final(self)@ == old(self)@.with_window(max_prediction),
            step.handles@ == Seq::<PlayerHandle>::empty(),
            step.advance == (current_state == SessionState::Running),
    {
        self.size_snapshots(max_prediction);
        let handles: Vec<PlayerHandle> = Vec::new();
        proof {
            assert(handles@ =~= Seq::<PlayerHandle>::empty());
        }
        Step { handles, advance: current_state == SessionState::Running }
    }

    /// Asks for the next step of this real frame. `step` is the duration
    /// that [`GGRSStage::run`] or [`GGRSStage::tick`] returned for it.
    ///
    /// Without a session there is no step: the stage is reset, whatever it
    /// has accumulated. With a session a step is owed while the accumulator
    /// is larger than `step`. Its duration is then taken from the
    /// accumulator, and the stage is made ready for the session's step, which
    /// is returned. `None` ends the real frame.
    pub fn next_step(&mut self, step: u64, session: Option<&Session>) -> (next: Option<Step>)
        requires
            old(self).wf(),
        ensures
            final(self).wf(),
            final(self)@ == old(self)@.after_step(step, session),
            next is Some <==> old(self)@.accumulator > step && session is Some,
            next is Some ==> next->0.handles@ == handles_of(*session->0) && next->0.advance
                == advances(*session->0),
    {
        match session {
            None => {
                let time = self.last_update;
                self.reset_at(time);
                None
            },
            Some(session) => {
                if self.accumulator > step {
                    self.accumulator = self.accumulator - step;
                    match session {
                        Session::SyncTestSession { max_prediction, num_players } => {
                            Some(self.run_synctest(*max_prediction, *num_players))
                        },
                        Session::P2PSession {
                            max_prediction,
                            frames_ahead,
                            local_player_handles,
                            current_state,
                        } => {
                            Some(
                                self.run_p2p(
                                    *max_prediction,
                                    *frames_ahead,
                                    local_player_handles,
                                    *current_state,
                                ),
                            )
                        },
                        Session::SpectatorSession { max_prediction, current_state } => {
                            Some(self.run_spectator(*max_prediction, *current_state))
                        },
                    }
                } else {
                    None
                }
            },
        }
    }

    /// Fulfils one request of the session.
    pub fn handle_request<I, S: Clone>(
        &mut self,
        request: Request<I, S>,
        world: &mut WorldState,
    ) -> (done: Fulfilled<I>)
        requires
            old(self).wf(),
            old(world).wf(),
            old(self)@.accepts(request),
        ensures
            final(self).wf(),
            final(world).wf(),
            final(self)@ == old(self)@.fulfilled(request, old(world)@),
            final(world)@ == old(self)@.world_after(request, old(world)@),
            match request {
                Request::SaveGameState { frame, .. } => done == Fulfilled::<I>::Saved(
                    report_of(frame, old(world)@),
                ),
                Request::LoadGameState { .. } => done is Loaded,
                Request::AdvanceFrame { inputs } => done == Fulfilled::Advance(
                    PlayerInputs(inputs),
                ),
            },
    {
        match request {
            Request::SaveGameState { cell, frame } => {
                Fulfilled::Saved(self.save_world(cell, frame, world))
            },
            Request::LoadGameState { frame } => {
                self.load_world(frame, world);
                Fulfilled::Loaded
            },
            Request::AdvanceFrame { inputs } => Fulfilled::Advance(self.advance_frame(inputs)),
        }
    }

    /// Saves the world as the state of `frame`, which must be the current
    /// frame: captures a snapshot, keeps it in the slot of the frame, and
    /// reports the frame and the snapshot's checksum into the session's
    /// cell. No state data is handed to the session. Returns what was
    /// reported.
    pub fn save_world<S: Clone>(
        &mut self,
        cell: ggrs::GameStateCell<S>,
        frame: i32,
        world: &WorldState,
    ) -> (reported: Reported)
        requires
            old(self).wf(),
            world.wf(),
            frame == old(self)@.frame,
            old(self)@.snapshots.len() > 0,
        ensures
            final(self).wf(),
            final(self)@ == old(self)@.saved(world@),
            reported == report_of(frame, world@),
    {
        let reported = self.capture(frame, world);
        save_checksum(&cell, reported.frame, reported.checksum);
        reported
    }

    /// Captures a snapshot of the world as the state of `frame`, keeps it in
    /// the slot of the frame, and says what is to be reported to the
    /// session.
    fn capture(&mut self, frame: i32, world: &WorldState) -> (report: Reported)
        requires
            old(self).wf(),
            world.wf(),
            frame == old(self)@.frame,
            old(self)@.snapshots.len() > 0,
        ensures
            final(self).wf(),
            final(self)@ == old(self)@.saved(world@),
            report == report_of(frame, world@),
    {
        let snapshot = WorldSnapshot::from_world(world);
        let report = Reported { frame, checksum: snapshot.checksum() as u128 };
        self.snapshots.save(frame, snapshot);
        report
    }

    /// Goes back to `frame`: sets the frame counter and restores the world
    /// from the slot of the frame.
    pub fn load_world(&mut self, frame: i32, world: &mut WorldState)
        requires
            old(self).wf(),
            frame >= 0,
            old(self)@.snapshots.len() > 0,
        ensures
            final(self).wf(),
            final(world).wf(),
            final(self)@ == old(self)@.loaded(frame),
            final(world)@ == old(self)@.snapshots[slot_of(frame, old(self)@.snapshots.len())].world,
    {
        self.frame = frame;
        let snapshot_to_load = self.snapshots.load(frame);
        snapshot_to_load.write_to_world(world);
    }

    /// Counts one simulated frame and hands back the inputs that the host
    /// makes available to the simulation update of that frame.
    pub fn advance_frame<I>(&mut self, inputs: Vec<(I, ggrs::InputStatus)>) -> (resource:
        PlayerInputs<I>)
        requires
            old(self).wf(),
            old(self)@.frame < i32::MAX,
        ensures
            final(self).wf(),
            final(self)@ == old(self)@.advanced(),
            resource == PlayerInputs(inputs),
    {
        self.frame = self.frame + 1;
        PlayerInputs(inputs)
    }
}

} // verus!
