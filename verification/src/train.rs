//! The course of a training run: what a chunk does, step by step, when it stops,
//! and what is carried over to the next chunk.
//!
//! The numerical work of a step happens elsewhere. What comes back from it is the
//! total loss, as a bit pattern, and the elapsed time.
use std::path::PathBuf;
use vstd::prelude::*;
use crate::contract::StudentSpec;
use crate::ieee::{finite, is_finite, is_less, less};
use crate::shard::Sample;
use crate::text::{decimal, push_decimal};

verus! {

/// A path, which is carried through and never looked into.
#[verifier::external_type_specification]
#[verifier::external_body]
pub struct ExPathBuf(PathBuf);

/// The settings of one chunk. Real-valued settings are bit patterns.
#[derive(Clone, Debug)]
pub struct TrainSettings {
    /// Steps to run in this chunk of a possibly longer run.
    pub steps: usize,
    /// binary64.
    pub lr: u64,
    pub weight_decay: u32,
    pub grad_clip: u32,
    pub w_output: u32,
    pub w_temporal: u32,
    pub w_feature: u32,
    pub log_every: usize,
    pub ckpt_every: usize,
    pub seed: u64,
    /// The weights of an earlier chunk to go on from.
    pub resume: Option<PathBuf>,
    /// Wall-clock budget of this chunk; 0 is unlimited.
    pub max_seconds: u64,
    /// Steps over all chunks; 0 makes this chunk the whole run.
    pub target_steps: usize,
    /// Decoded shards held in memory at most.
    pub shard_cache: usize,
}

impl Default for TrainSettings {
    fn default() -> (settings: Self)
        ensures
            settings.steps == 100,
            settings.lr == 0x3f1a_36e2_eb1c_432d,
            settings.weight_decay == 0x3c23_d70a,
            settings.grad_clip == 0x3f80_0000,
            settings.w_output == 0x3f80_0000,
            settings.w_temporal == 0x3e80_0000,
            settings.w_feature == 0x3d4c_cccd,
            settings.log_every == 10,
            settings.ckpt_every == 0,
            settings.seed == 42,
            settings.resume is None,
            settings.max_seconds == 0,
            settings.target_steps == 0,
            settings.shard_cache == 128,
    {
        TrainSettings {
            steps: 100,
            lr: 0x3f1a_36e2_eb1c_432d,
            weight_decay: 0x3c23_d70a,
            grad_clip: 0x3f80_0000,
            w_output: 0x3f80_0000,
            w_temporal: 0x3e80_0000,
            w_feature: 0x3d4c_cccd,
            log_every: 10,
            ckpt_every: 0,
            seed: 42,
            resume: None,
            max_seconds: 0,
            target_steps: 0,
            shard_cache: 128,
        }
    }
}

/// Progress of a run across its chunks. Losses are binary32 patterns, the time a
/// binary64 pattern.
#[derive(Clone, Debug, Default, PartialEq)]
pub struct TrainState {
    pub steps_done: usize,
    pub target_steps: usize,
    pub chunks: usize,
    pub train_seconds: u64,
    pub last_loss: u32,
    pub best_loss: u32,
    pub completed: bool,
    /// Why the last chunk ended: `target`, `chunk-steps` or `max-seconds`.
    pub stopped_by: String,
}

/// The loss of a step and its parts, as bit patterns.
#[derive(Clone, Copy, Debug, PartialEq, Eq, Structural)]
pub struct StepMetrics {
    pub output: u32,
    pub temporal: u32,
    pub feature: u32,
    pub total: u32,
}

/// The largest finite binary32 number.
pub const LARGEST_SINGLE: u32 = 0x7f7f_ffff;

/// How far a run has come.
pub struct Tally {
    pub steps_done: nat,
    pub last_loss: u32,
    pub best_loss: u32,
}

impl TrainState {
    pub open spec fn tally(self) -> Tally {
        Tally {
            steps_done: self.steps_done as nat,
            last_loss: self.last_loss,
            best_loss: self.best_loss,
        }
    }
}

/// A run after one more step.
pub open spec fn after_step(tally: Tally, loss: u32) -> Tally {
    Tally {
        steps_done: tally.steps_done + 1,
        last_loss: loss,
        best_loss: if less(loss, tally.best_loss) {
            loss
        } else {
            tally.best_loss
        },
    }
}

/// A run after steps with the given losses.
pub open spec fn after_steps(tally: Tally, losses: Seq<u32>) -> Tally
    decreases losses.len(),
{
    if losses.len() == 0 {
        tally
    } else {
        after_step(after_steps(tally, losses.drop_last()), losses.last())
    }
}

/// The steps that are left of a run after `done` of them.
pub open spec fn remaining(settings: TrainSettings, done: nat) -> nat {
    if settings.target_steps == 0 {
        usize::MAX as nat
    } else if settings.target_steps > done {
        (settings.target_steps - done) as nat
    } else {
        0
    }
}

/// The steps of the chunk that begins after `done` steps.
pub open spec fn chunk_steps(settings: TrainSettings, done: nat) -> nat {
    if settings.steps < remaining(settings, done) {
        settings.steps as nat
    } else {
        remaining(settings, done)
    }
}

/// The shard that the step with the given number, counted from one over the
/// whole run, learns from.
pub open spec fn shard_of(step: nat, shards: nat) -> nat {
    ((step - 1) as nat) % shards
}

/// The shards of `count` steps that follow `done` earlier ones.
pub open spec fn shard_order(done: nat, count: nat, shards: nat) -> Seq<nat> {
    Seq::new(count, |i: int| shard_of(done + i as nat + 1, shards))
}

/// The `i`-th step of a chunk, counted from one, is logged.
pub open spec fn is_logged(settings: TrainSettings, i: nat) -> bool {
    i == 1 || settings.log_every == 0 || i % settings.log_every as nat == 0
}

/// A checkpoint is due after the step with the given number.
pub open spec fn is_checkpoint(settings: TrainSettings, step: nat) -> bool {
    settings.ckpt_every > 0 && step % settings.ckpt_every as nat == 0
}

/// The time budget of the chunk is used up.
pub open spec fn out_of_time(settings: TrainSettings, elapsed: u64) -> bool {
    settings.max_seconds > 0 && elapsed >= settings.max_seconds
}

/// A run of `done` steps has reached its target.
pub open spec fn is_complete(settings: TrainSettings, done: nat) -> bool {
    settings.target_steps > 0 && done >= settings.target_steps
}

/// The state before the first step of a run.
pub fn fresh_state(settings: &TrainSettings) -> (state: TrainState)
    ensures
        state.steps_done == 0,
        state.target_steps == settings.target_steps,
        state.chunks == 0,
        state.train_seconds == 0,
        state.last_loss == 0,
        state.best_loss == LARGEST_SINGLE,
        !state.completed,
        state.stopped_by@ == ""@,
{
    TrainState {
        steps_done: 0,
        target_steps: settings.target_steps,
        chunks: 0,
        train_seconds: 0,
        last_loss: 0,
        best_loss: LARGEST_SINGLE,
        completed: false,
        stopped_by: "".to_owned(),
    }
}

/// The state that a chunk goes on from: the one an earlier chunk left, under the
/// target of this chunk where it names one.
pub fn resumed_state(settings: &TrainSettings, earlier: TrainState) -> (state: TrainState)
    ensures
        state == (TrainState {
            target_steps: if settings.target_steps > 0 {
                settings.target_steps
            } else {
                earlier.target_steps
            },
            ..earlier
        }),
{
    let mut state: TrainState = earlier;
    if settings.target_steps > 0 {
        state.target_steps = settings.target_steps;
    }
    state
}

/// Where a chunk stands between two pieces of outside work.
#[derive(Clone, Copy, Debug, PartialEq, Eq, Structural)]
pub enum Phase {
    /// The next step is to be computed.
    Step,
    /// A step was recorded; a checkpoint may be due, and the clock is to be read.
    Clock { checkpoint: bool },
    /// No step is left; the chunk is to be finished.
    Over,
    /// The loss went out of range; nothing of this step is to be kept.
    Diverged,
}

/// One chunk of a training run.
pub struct Chunk<'a> {
    settings: &'a TrainSettings,
    shards: usize,
    /// The tally that the chunk began with.
    began: Ghost<Tally>,
    /// Steps that this chunk is to run.
    length: usize,
    state: TrainState,
    /// The losses of the steps of this chunk.
    history: Vec<u32>,
    /// The step of the newest checkpoint.
    last_saved: usize,
    phase: Phase,
    /// The time budget ended the chunk.
    timed_out: bool,
}

/// How a chunk stands.
pub struct Progress {
    pub settings: TrainSettings,
    pub shards: nat,
    /// The tally that the chunk began with.
    pub began: Tally,
    /// Steps that the chunk is to run.
    pub length: nat,
    pub state: TrainState,
    /// The losses of the steps of the chunk.
    pub history: Seq<u32>,
    /// The step of the newest checkpoint.
    pub last_saved: nat,
    pub phase: Phase,
    /// The time budget ended the chunk.
    pub timed_out: bool,
}

/// What a chunk begins with.
pub enum Opening<'a> {
    /// No step is run, because the run is at its target already or because the
    /// settings ask for no steps. This is its state, marked as complete.
    Complete(TrainState),
    Run(Chunk<'a>),
}

/// A step to be computed.
#[derive(Clone, Copy, Debug, PartialEq, Eq, Structural)]
pub struct StepPlan {
    /// Its number over the whole run, from one.
    pub step: usize,
    /// The shard to learn from.
    pub shard: usize,
}

/// What becomes of a step that was recorded.
#[derive(Clone, Copy, Debug, PartialEq, Eq, Structural)]
pub enum StepOutcome {
    /// The run goes on. The metrics are to be appended to the log file, and a
    /// checkpoint is to be written where one is due.
    Kept { checkpoint: bool },
    /// The loss is not finite: the run is to be abandoned, and the checkpoint of
    /// the step `last_saved` stays the newest.
    Diverged { last_saved: usize },
}

impl Progress {
    /// The tally is that of the state the chunk began from, advanced by the
    /// recorded losses, and no loss that is not finite was kept.
    pub open spec fn valid(self) -> bool {
        &&& self.shards > 0
        &&& 0 < self.length
        &&& self.began.steps_done + self.length <= usize::MAX
        &&& self.length == chunk_steps(self.settings, self.began.steps_done)
        &&& self.history.len() <= self.length
        &&& self.state.tally() == after_steps(self.began, self.history)
        &&& self.state.steps_done == self.began.steps_done + self.history.len()
        &&& self.began.steps_done <= self.last_saved <= self.state.steps_done
        &&& self.timed_out ==> self.settings.max_seconds > 0
        &&& self.phase !is Diverged ==> all_finite(self.history)
        &&& self.phase is Diverged ==> {
            &&& self.history.len() > 0
            &&& !finite(self.history.last())
            &&& self.last_saved < self.state.steps_done
        }
        &&& self.phase is Step ==> !self.timed_out && self.history.len() < self.length
        &&& self.phase is Over ==> self.timed_out || self.history.len() == self.length
        &&& self.phase matches Phase::Clock { checkpoint } ==> {
            &&& !self.timed_out
            &&& self.history.len() > 0
            &&& checkpoint == is_checkpoint(self.settings, self.state.steps_done as nat)
        }
    }

    /// Everything that the steps of a chunk leave alone.
    pub open spec fn same_chunk(self, other: Progress) -> bool {
        &&& self.settings == other.settings
        &&& self.shards == other.shards
        &&& self.began == other.began
        &&& self.length == other.length
        &&& self.state.target_steps == other.state.target_steps
        &&& self.state.chunks == other.state.chunks
        &&& self.state.train_seconds == other.state.train_seconds
        &&& self.state.completed == other.state.completed
        &&& self.state.stopped_by == other.state.stopped_by
    }
}

impl<'a> View for Chunk<'a> {
    type V = Progress;

    closed spec fn view(&self) -> Progress {
        Progress {
            settings: *self.settings,
            shards: self.shards as nat,
            began: self.began@,
            length: self.length as nat,
            state: self.state,
            history: self.history@,
            last_saved: self.last_saved as nat,
            phase: self.phase,
            timed_out: self.timed_out,
        }
    }
}

impl<'a> Chunk<'a> {
    pub open spec fn valid(self) -> bool {
        self@.valid()
    }

    /// Opens the chunk that goes on from `state`.
    pub fn begin(settings: &'a TrainSettings, state: TrainState, shards: usize) -> (opening: Opening<
        'a,
    >)
        requires
            shards > 0,
            settings.target_steps > 0 || state.steps_done + settings.steps <= usize::MAX,
        ensures
            opening is Complete <==> chunk_steps(*settings, state.steps_done as nat) == 0,
            opening matches Opening::Complete(complete) ==> {
                &&& complete.completed
                &&& complete.stopped_by@ == "target"@
                &&& complete == (TrainState {
                    completed: true,
                    stopped_by: complete.stopped_by,
                    ..state
                })
            },
            opening matches Opening::Run(chunk) ==> {
                &&& chunk.valid()
                &&& chunk@ == (Progress {
                    settings: *settings,
                    shards: shards as nat,
                    began: state.tally(),
                    length: chunk_steps(*settings, state.steps_done as nat),
                    state,
                    history: Seq::empty(),
                    last_saved: state.steps_done as nat,
                    phase: Phase::Step,
                    timed_out: false,
                })
            },
    {
        let start: usize = state.steps_done;
        let remaining: usize = if settings.target_steps > 0 {
            settings.target_steps.saturating_sub(start)
        } else {
            usize::MAX
        };
        let length: usize = if settings.steps < remaining {
            settings.steps
        } else {
            remaining
        };
        if length == 0 {
            let mut complete: TrainState = state;
            complete.completed = true;
            complete.stopped_by = "target".to_owned();
            return Opening::Complete(complete);
        }
        let ghost began = state.tally();
        Opening::Run(
            Chunk {
                settings,
                shards,
                began: Ghost(began),
                length,
                state,
                history: Vec::new(),
                last_saved: start,
                phase: Phase::Step,
                timed_out: false,
            },
        )
    }

    /// The state of the run as it stands.
    pub fn state(&self) -> (state: &TrainState)
        ensures
            *state == self@.state,
    {
        &self.state
    }

    /// Where the chunk stands.
    pub fn phase(&self) -> (phase: Phase)
        ensures
            phase == self@.phase,
    {
        self.phase
    }

    /// The step to be computed next, if one is left.
    pub fn next(&self) -> (plan: Option<StepPlan>)
        requires
            self.valid(),
        ensures
            plan is Some <==> self@.phase is Step,
            plan matches Some(p) ==> {
                &&& p.step == self@.state.steps_done + 1
                &&& p.shard == shard_of(p.step as nat, self@.shards)
                &&& p.shard < self@.shards
            },
    {
        match self.phase {
            Phase::Step => Some(
                StepPlan {
                    step: self.state.steps_done + 1,
                    shard: self.state.steps_done % self.shards,
                },
            ),
            _ => None,
        }
    }

    /// Records the total loss of the step that was computed. The first part of the
    /// result says whether the step is logged.
    pub fn record(&mut self, total: u32) -> (result: (bool, StepOutcome))
        requires
            old(self).valid(),
            old(self)@.phase is Step,
        ensures
            final(self).valid(),
            final(self)@.same_chunk(old(self)@),
            final(self)@.history == old(self)@.history.push(total),
            final(self)@.state.tally() == after_step(old(self)@.state.tally(), total),
            final(self)@.last_saved == old(self)@.last_saved,
            !final(self)@.timed_out,
            result.0 == is_logged(old(self)@.settings, final(self)@.history.len()),
            finite(total) ==> {
                let checkpoint = is_checkpoint(
                    old(self)@.settings,
                    final(self)@.state.steps_done as nat,
                );
                &&& result.1 == StepOutcome::Kept { checkpoint }
                &&& final(self)@.phase == Phase::Clock { checkpoint }
            },
            !finite(total) ==> {
                &&& result.1 == StepOutcome::Diverged { last_saved: old(self)@.last_saved as usize }
                &&& final(self)@.phase is Diverged
            },
    {
        let ghost earlier = self.history@;
        self.history.push(total);
        self.state.steps_done = self.state.steps_done + 1;
        self.state.last_loss = total;
        if is_less(total, self.state.best_loss) {
            self.state.best_loss = total;
        }
        assert(self.history@.drop_last() =~= earlier);
        let i: usize = self.history.len();
        let every: usize = if self.settings.log_every == 0 {
            1
        } else {
            self.settings.log_every
        };
        let logged: bool = i == 1 || i % every == 0;
        if !is_finite(total) {
            self.phase = Phase::Diverged;
            return (logged, StepOutcome::Diverged { last_saved: self.last_saved });
        }
        let checkpoint: bool = self.settings.ckpt_every > 0 && self.state.steps_done
            % self.settings.ckpt_every == 0;
        self.phase = Phase::Clock { checkpoint };
        (logged, StepOutcome::Kept { checkpoint })
    }

    /// Notes that the checkpoint of the recorded step was written.
    pub fn checkpointed(&mut self)
        requires
            old(self).valid(),
            old(self)@.phase == (Phase::Clock { checkpoint: true }),
        ensures
            final(self).valid(),
            final(self)@ == (Progress { last_saved: old(self)@.state.steps_done as nat, ..old(self)@ }),
    {
        self.last_saved = self.state.steps_done;
    }

    /// Reads the clock after a recorded step: whether the time budget ends the
    /// chunk here.
    pub fn tick(&mut self, elapsed: u64) -> (stop: bool)
        requires
            old(self).valid(),
            old(self)@.phase is Clock,
        ensures
            final(self).valid(),
            stop == out_of_time(old(self)@.settings, elapsed),
            final(self)@ == (Progress {
                timed_out: stop,
                phase: if stop || old(self)@.history.len() == old(self)@.length {
                    Phase::Over
                } else {
                    Phase::Step
                },
                ..old(self)@
            }),
    {
        let stop: bool = self.settings.max_seconds > 0 && elapsed >= self.settings.max_seconds;
        self.timed_out = stop;
        if stop || self.history.len() == self.length {
            self.phase = Phase::Over;
        } else {
            self.phase = Phase::Step;
        }
        stop
    }

    /// Closes the chunk: its losses, and the state to be saved. `train_seconds` is
    /// the time of the whole run, as a binary64 pattern.
    pub fn finish(self, train_seconds: u64) -> (result: (Vec<u32>, TrainState))
        requires
            self.valid(),
            self@.phase is Over,
            self@.state.chunks < usize::MAX,
        ensures
            result.0@ == self@.history,
            all_finite(result.0@),
            closed(self@, train_seconds, result.1),
    {
        let mut state: TrainState = self.state;
        state.chunks = state.chunks + 1;
        state.train_seconds = train_seconds;
        state.completed = self.settings.target_steps > 0 && state.steps_done
            >= self.settings.target_steps;
        state.stopped_by =
        if state.completed {
            "target".to_owned()
        } else if self.timed_out {
            "max-seconds".to_owned()
        } else {
            "chunk-steps".to_owned()
        };
        (self.history, state)
    }
}

/// Every loss is a finite number.
pub open spec fn all_finite(losses: Seq<u32>) -> bool {
    forall|i: int| 0 <= i < losses.len() ==> finite(#[trigger] losses[i])
}

/// The name of what ended a chunk.
pub open spec fn stop_name(complete: bool, timed_out: bool) -> Seq<char> {
    if complete {
        "target"@
    } else if timed_out {
        "max-seconds"@
    } else {
        "chunk-steps"@
    }
}

/// `state` is what a chunk leaves behind.
pub open spec fn closed(chunk: Progress, train_seconds: u64, state: TrainState) -> bool {
    let complete = is_complete(chunk.settings, chunk.state.steps_done as nat);
    &&& state.tally() == after_steps(chunk.began, chunk.history)
    &&& state.target_steps == chunk.state.target_steps
    &&& state.chunks == chunk.state.chunks + 1
    &&& state.train_seconds == train_seconds
    &&& state.completed == complete
    &&& state.stopped_by@ == stop_name(complete, chunk.timed_out)
}

/// A run counts every step.
pub proof fn steps_are_counted(tally: Tally, losses: Seq<u32>)
    ensures
        after_steps(tally, losses).steps_done == tally.steps_done + losses.len(),
    decreases losses.len(),
{
    if losses.len() > 0 {
        steps_are_counted(tally, losses.drop_last());
    }
}

/// Steps taken in two parts come to what they come to in one.
pub proof fn steps_compose(tally: Tally, first: Seq<u32>, second: Seq<u32>)
    ensures
        after_steps(after_steps(tally, first), second) == after_steps(tally, first + second),
    decreases second.len(),
{
    if second.len() == 0 {
        assert(first + second =~= first);
    } else {
        steps_compose(tally, first, second.drop_last());
        assert((first + second).drop_last() =~= first + second.drop_last());
        assert((first + second).last() == second.last());
    }
}

/// The shards of two chunks, one after the other, are those of one chunk of both
/// lengths: the choice depends on nothing but the number of the step.
pub proof fn shard_order_composes(done: nat, first: nat, second: nat, shards: nat)
    ensures
        shard_order(done, first, shards) + shard_order(done + first, second, shards)
            == shard_order(done, first + second, shards),
{
    let split = shard_order(done, first, shards) + shard_order(done + first, second, shards);
    let whole = shard_order(done, first + second, shards);
    assert(split =~= whole);
}

/// Every shard comes up once in as many steps as there are shards.
pub proof fn every_shard_comes_up(done: nat, shards: nat, shard: nat)
    requires
        shard < shards,
    ensures
        exists|i: int|
            0 <= i < shards && #[trigger] shard_order(done, shards, shards)[i] == shard,
{
    let phase = done % shards;
    let i: int = if shard >= phase {
        shard - phase
    } else {
        shards + shard - phase
    };
    let (d, n): (int, int) = (done as int, shards as int);
    vstd::arithmetic::div_mod::lemma_fundamental_div_mod(d, n);
    let k: int = if shard >= phase {
        d / n
    } else {
        d / n + 1
    };
    assert(d + i == n * k + shard) by (nonlinear_arith)
        requires
            d == n * (d / n) + phase,
            shard >= phase ==> k == d / n && i == shard - phase,
            shard < phase ==> k == d / n + 1 && i == n + shard - phase,
    ;
    vstd::arithmetic::div_mod::lemma_fundamental_div_mod_converse(d + i, n, k, shard as int);
    assert(shard_order(done, shards, shards)[i] == shard);
}

/// A chunk never takes a run past its target, and a run that is not at its target
/// is taken further.
pub proof fn no_overtraining(settings: TrainSettings, done: nat)
    requires
        settings.target_steps > 0,
    ensures
        done <= settings.target_steps ==> done + chunk_steps(settings, done)
            <= settings.target_steps,
        is_complete(settings, done) ==> chunk_steps(settings, done) == 0,
        !is_complete(settings, done) && settings.steps > 0 ==> chunk_steps(settings, done) > 0,
{
}

/// Two chunks that resume one another leave the run where a single chunk with the
/// same losses leaves it.
pub proof fn resumed_chunks_match_a_single_run(
    first: Progress,
    between: TrainState,
    second: Progress,
    split: TrainState,
    whole: Progress,
    single: TrainState,
    seconds: (u64, u64, u64),
)
    requires
        first.valid() && second.valid() && whole.valid(),
        closed(first, seconds.0, between),
        second.began == between.tally(),
        closed(second, seconds.1, split),
        whole.began == first.began,
        whole.history == first.history + second.history,
        closed(whole, seconds.2, single),
        second.settings.target_steps == whole.settings.target_steps,
    ensures
        split.tally() == single.tally(),
        split.completed == single.completed,
{
    steps_compose(first.began, first.history, second.history);
}

/// What steps on the given shards make of a model, and their losses. The model is
/// all that a step changes: the weights and the moments of the optimizer.
pub open spec fn learned<M>(
    step: spec_fn(M, nat) -> (M, u32),
    model: M,
    order: Seq<nat>,
) -> (M, Seq<u32>)
    decreases order.len(),
{
    if order.len() == 0 {
        (model, Seq::empty())
    } else {
        let (before, losses) = learned(step, model, order.drop_last());
        let (after, loss) = step(before, order.last());
        (after, losses.push(loss))
    }
}

/// Learning from some shards and then from others is learning from both in a row.
pub proof fn learning_composes<M>(
    step: spec_fn(M, nat) -> (M, u32),
    model: M,
    first: Seq<nat>,
    second: Seq<nat>,
)
    ensures
        ({
            let (between, early) = learned(step, model, first);
            let (end, late) = learned(step, between, second);
            learned(step, model, first + second) == (end, early + late)
        }),
    decreases second.len(),
{
    let (between, early) = learned(step, model, first);
    if second.len() == 0 {
        assert(first + second =~= first);
        assert(early + Seq::<u32>::empty() =~= early);
    } else {
        learning_composes(step, model, first, second.drop_last());
        assert((first + second).drop_last() =~= first + second.drop_last());
        assert((first + second).last() == second.last());
        let (_, late) = learned(step, between, second);
        let (_, shorter) = learned(step, between, second.drop_last());
        assert(early + late =~= (early + shorter).push(late.last()));
    }
}

/// A chunk that learns by `step` from the shards in their order, beginning with
/// `model`.
pub open spec fn learns<M>(
    chunk: Progress,
    step: spec_fn(M, nat) -> (M, u32),
    model: M,
) -> bool {
    chunk.history == learned(
        step,
        model,
        shard_order(chunk.began.steps_done, chunk.history.len(), chunk.shards),
    ).1
}

/// The model that a chunk leaves behind.
pub open spec fn left_by<M>(
    chunk: Progress,
    step: spec_fn(M, nat) -> (M, u32),
    model: M,
) -> M {
    learned(
        step,
        model,
        shard_order(chunk.began.steps_done, chunk.history.len(), chunk.shards),
    ).0
}

/// Where a step depends on nothing but the model and the shard, a chunk that goes
/// on from the state and the model that another left has the losses that a single
/// chunk of both lengths has there, and leaves the run and the model where that
/// one leaves them.
pub proof fn resumed_runs_repeat_the_losses<M>(
    step: spec_fn(M, nat) -> (M, u32),
    model: M,
    first: Progress,
    between: TrainState,
    second: Progress,
    whole: Progress,
    seconds: u64,
)
    requires
        first.valid() && second.valid() && whole.valid(),
        first.shards == whole.shards && second.shards == whole.shards,
        first.began == whole.began,
        closed(first, seconds, between),
        second.began == between.tally(),
        whole.history.len() == first.history.len() + second.history.len(),
        learns(first, step, model),
        learns(second, step, left_by(first, step, model)),
        learns(whole, step, model),
    ensures
        whole.history == first.history + second.history,
        second.state.tally() == whole.state.tally(),
        left_by(second, step, left_by(first, step, model)) == left_by(whole, step, model),
{
    let done = first.began.steps_done;
    let (early, late) = (first.history.len(), second.history.len());
    let early_order = shard_order(done, early, first.shards);
    let late_order = shard_order(done + early, late, first.shards);
    shard_order_composes(done, early, late, first.shards);
    learning_composes(step, model, early_order, late_order);
    steps_compose(first.began, first.history, second.history);
}

/// The best loss is one that occurred, or the one the run came with, and no loss
/// is less.
pub proof fn best_loss_is_least(tally: Tally, losses: Seq<u32>)
    ensures
        ({
            let best = after_steps(tally, losses).best_loss;
            &&& best == tally.best_loss || losses.contains(best)
            &&& !less(tally.best_loss, best)
            &&& forall|i: int| 0 <= i < losses.len() ==> !less(#[trigger] losses[i], best)
        }),
    decreases losses.len(),
{
    if losses.len() > 0 {
        let shorter = losses.drop_last();
        best_loss_is_least(tally, shorter);
        let before = after_steps(tally, shorter).best_loss;
        let best = after_steps(tally, losses).best_loss;
        if best == losses.last() {
            assert(losses[losses.len() - 1] == best);
        } else if best != tally.best_loss {
            let i = choose|i: int| 0 <= i < shorter.len() && shorter[i] == before;
            assert(losses[i] == best);
        }
        assert forall|i: int| 0 <= i < losses.len() implies !less(#[trigger] losses[i], best) by {
            if i < shorter.len() {
                assert(!less(shorter[i], before));
            }
        }
    }
}

/// What a chunk keeps is free of infinities and NaNs.
pub proof fn kept_losses_are_finite(tally: Tally, losses: Seq<u32>)
    requires
        all_finite(losses),
        finite(tally.last_loss) && finite(tally.best_loss),
    ensures
        finite(after_steps(tally, losses).last_loss),
        finite(after_steps(tally, losses).best_loss),
    decreases losses.len(),
{
    if losses.len() > 0 {
        assert(finite(losses[losses.len() - 1]));
        assert(all_finite(losses.drop_last()));
        kept_losses_are_finite(tally, losses.drop_last());
    }
}

/// A chunk without a time budget is never out of time.
pub proof fn no_budget_no_stop(settings: TrainSettings, elapsed: u64)
    requires
        settings.max_seconds == 0,
    ensures
        !out_of_time(settings, elapsed),
{
}

/// The files of a checkpoint.
#[derive(Clone, Copy, Debug, PartialEq, Eq, Structural)]
pub enum Artifact {
    /// The weights, to go on from.
    StudentMpk,
    /// The weights, to be deployed.
    StudentBin,
    /// The moments of the optimizer.
    Optimizer,
    /// The progress of the run.
    State,
}

impl Artifact {
    pub open spec fn name(self) -> Seq<char> {
        match self {
            Artifact::StudentMpk => "student.mpk"@,
            Artifact::StudentBin => "student.bin"@,
            Artifact::Optimizer => "optim.mpk"@,
            Artifact::State => "state.json"@,
        }
    }

    pub fn file(self) -> (text: &'static str)
        ensures
            text@ == self.name(),
    {
        match self {
            Artifact::StudentMpk => "student.mpk",
            Artifact::StudentBin => "student.bin",
            Artifact::Optimizer => "optim.mpk",
            Artifact::State => "state.json",
        }
    }
}

/// The files of a checkpoint in the order in which they are written. The state
/// comes last, and so marks the others as a coherent set.
pub fn checkpoint_order() -> (files: [Artifact; 4])
    ensures
        files@ == seq![
            Artifact::StudentMpk,
            Artifact::StudentBin,
            Artifact::Optimizer,
            Artifact::State,
        ],
{
    let files: [Artifact; 4] = [
        Artifact::StudentMpk,
        Artifact::StudentBin,
        Artifact::Optimizer,
        Artifact::State,
    ];
    assert(files@ =~= seq![
        Artifact::StudentMpk,
        Artifact::StudentBin,
        Artifact::Optimizer,
        Artifact::State,
    ]);
    files
}

/// Why a cache cannot be trained on.
#[derive(Clone, Copy, Debug, PartialEq, Eq, Structural)]
pub enum CacheMismatch {
    NoShards,
    /// The latents of the cache have another number of channels than the spec.
    Channels { cache: usize, spec: usize },
}

impl CacheMismatch {
    pub open spec fn text(self) -> Seq<char> {
        match self {
            CacheMismatch::NoShards => "teacher cache has no shards"@,
            CacheMismatch::Channels { cache, spec } => "cache latent_channels="@ + decimal(
                cache as nat,
            ) + " but spec expects "@ + decimal(spec as nat),
        }
    }

    /// The message for a user.
    pub fn message(&self) -> (text: String)
        ensures
            text@ == self.text(),
    {
        match self {
            CacheMismatch::NoShards => "teacher cache has no shards".to_owned(),
            CacheMismatch::Channels { cache, spec } => {
                let mut text: String = "cache latent_channels=".to_owned();
                push_decimal(&mut text, *cache as u64);
                text.append(" but spec expects ");
                push_decimal(&mut text, *spec as u64);
                text
            },
        }
    }
}

/// Accepts a cache that has a shard to train on.
pub fn require_shards(shards: usize) -> (verdict: Result<(), CacheMismatch>)
    ensures
        verdict == (if shards == 0 {
            Err::<(), CacheMismatch>(CacheMismatch::NoShards)
        } else {
            Ok(())
        }),
{
    if shards == 0 {
        Err(CacheMismatch::NoShards)
    } else {
        Ok(())
    }
}

/// Accepts a cache whose latents have the channels that the student expects.
pub fn require_channels(spec: &StudentSpec, first: &Sample) -> (verdict: Result<(), CacheMismatch>)
    ensures
        verdict == (if first.noisy.1[1] != spec.latent_channels {
            Err::<(), CacheMismatch>(
                CacheMismatch::Channels { cache: first.noisy.1[1], spec: spec.latent_channels },
            )
        } else {
            Ok(())
        }),
{
    let channels: usize = first.noisy.1[1];
    if channels != spec.latent_channels {
        Err(CacheMismatch::Channels { cache: channels, spec: spec.latent_channels })
    } else {
        Ok(())
    }
}

/// What a step conditions the student on: the prompt of its own text encoder
/// where the shard has one, else the teacher's.
pub fn conditioning(sample: &Sample) -> (prompt: &(Vec<u32>, [usize; 3]))
    ensures
        *prompt == (match sample.student_prompt {
            Some(own) => own,
            None => sample.prompt,
        }),
{
    match &sample.student_prompt {
        Some(own) => own,
        None => &sample.prompt,
    }
}

/// The text of a divergence: the parts of the loss and the learning rate come as
/// they are to be shown.
pub open spec fn divergence_text(
    step: nat,
    parts: (Seq<char>, Seq<char>, Seq<char>),
    out: Seq<char>,
    last_saved: nat,
    lr: Seq<char>,
) -> Seq<char> {
    "loss became non-finite at step "@ + decimal(step) + " (output="@ + parts.0 + ", temporal="@
        + parts.1 + ", feature="@ + parts.2
        + ").\nWeights from this step are unusable and were NOT saved; the checkpoint in "@ + out
        + " is from step "@ + decimal(last_saved)
        + ".\nMost likely the learning rate is too high \u{2014} this run used "@ + lr
        + ", and python/longlive_distill/configs/browser-384m-umt5.yaml specifies 2e-5."@
}

/// The message with which a diverged run is abandoned.
pub fn divergence_message(
    step: usize,
    output: &str,
    temporal: &str,
    feature: &str,
    out: &str,
    last_saved: usize,
    lr: &str,
) -> (text: String)
    ensures
        text@ == divergence_text(
            step as nat,
            (output@, temporal@, feature@),
            out@,
            last_saved as nat,
            lr@,
        ),
{
    let mut text: String = "loss became non-finite at step ".to_owned();
    push_decimal(&mut text, step as u64);
    text.append(" (output=");
    text.append(output);
    text.append(", temporal=");
    text.append(temporal);
    text.append(", feature=");
    text.append(feature);
    text.append(").\nWeights from this step are unusable and were NOT saved; the checkpoint in ");
    text.append(out);
    text.append(" is from step ");
    push_decimal(&mut text, last_saved as u64);
    text.append(".\nMost likely the learning rate is too high \u{2014} this run used ");
    text.append(lr);
    text.append(", and python/longlive_distill/configs/browser-384m-umt5.yaml specifies 2e-5.");
    text
}

/// The loss that a chunk is reported with: that of its last step or, where it ran
/// none, that of the run.
pub fn final_loss(history: &[u32], state: &TrainState) -> (loss: u32)
    ensures
        loss == (if history@.len() == 0 {
            state.last_loss
        } else {
            history@.last()
        }),
{
    if history.len() == 0 {
        state.last_loss
    } else {
        history[history.len() - 1]
    }
}

/// The line that a chunk is reported with. The loss comes as it is to be shown.
pub open spec fn summary_text(
    steps: nat,
    state: TrainState,
    loss: Seq<char>,
    out: Seq<char>,
) -> Seq<char> {
    "chunk done \u{b7} "@ + decimal(steps) + " steps this chunk \u{b7} "@ + decimal(
        state.steps_done as nat,
    ) + "/"@ + (if state.target_steps > 0 {
        decimal(state.target_steps as nat)
    } else {
        "-"@
    }) + " total \u{b7} final loss "@ + loss + " \u{b7} stopped by "@ + state.stopped_by@
        + " \u{b7} "@ + (if state.completed {
        "COMPLETED"@
    } else {
        "resume for more"@
    }) + " \u{b7} artifacts in "@ + out
}

/// The line that a chunk of `steps` steps is reported with.
pub fn summary(steps: usize, state: &TrainState, loss: &str, out: &str) -> (text: String)
    ensures
        text@ == summary_text(steps as nat, *state, loss@, out@),
{
    let mut text: String = "chunk done \u{b7} ".to_owned();
    push_decimal(&mut text, steps as u64);
    text.append(" steps this chunk \u{b7} ");
    push_decimal(&mut text, state.steps_done as u64);
    text.append("/");
    if state.target_steps > 0 {
        push_decimal(&mut text, state.target_steps as u64);
    } else {
        text.append("-");
    }
    text.append(" total \u{b7} final loss ");
    text.append(loss);
    text.append(" \u{b7} stopped by ");
    text.append(state.stopped_by.as_str());
    text.append(" \u{b7} ");
    if state.completed {
        text.append("COMPLETED");
    } else {
        text.append("resume for more");
    }
    text.append(" \u{b7} artifacts in ");
    text.append(out);
    text
}

/// A chunk has as many steps as it is asked for, unless the target comes first:
/// then it has exactly those that are left, and the run is complete after them. A
/// run that is at its target has none.
pub proof fn chunks_run_to_their_end(settings: TrainSettings, done: nat)
    ensures
        settings.target_steps == 0 ==> chunk_steps(settings, done) == settings.steps,
        done + settings.steps <= settings.target_steps ==> chunk_steps(settings, done)
            == settings.steps,
        done < settings.target_steps <= done + settings.steps ==> {
            &&& done + chunk_steps(settings, done) == settings.target_steps
            &&& is_complete(settings, done + chunk_steps(settings, done))
        },
        0 < settings.target_steps <= done ==> chunk_steps(settings, done) == 0,
{
}

/// A chunk that ends without a time budget has run to its end, and says so: the
/// steps it was asked for, or those that were left of the run, and the run is
/// complete exactly where it has reached its target.
pub proof fn unhurried_chunks_run_to_their_end(
    chunk: Progress,
    train_seconds: u64,
    state: TrainState,
)
    requires
        chunk.valid(),
        chunk.phase is Over,
        chunk.settings.max_seconds == 0,
        closed(chunk, train_seconds, state),
    ensures
        ({
            let (done, steps, target) = (
                chunk.began.steps_done as int,
                chunk.settings.steps as int,
                chunk.settings.target_steps as int,
            );
            &&& target == 0 || done + steps < target ==> {
                &&& chunk.history.len() == steps
                &&& state.steps_done == done + steps
                &&& !state.completed
                &&& state.stopped_by@ == "chunk-steps"@
            }
            &&& 0 < target <= done + steps ==> {
                &&& done < target
                &&& chunk.history.len() == target - done
                &&& state.steps_done == target
                &&& state.completed
                &&& state.stopped_by@ == "target"@
            }
        }),
        state.chunks == chunk.state.chunks + 1,
        state.train_seconds == train_seconds,
        state.last_loss == chunk.history.last(),
{
    steps_are_counted(chunk.began, chunk.history);
    last_loss_is_the_last(chunk.began, chunk.history);
}

/// A chunk that runs out of time is short of its length or at its end, and is
/// reported by its budget only where the run is not complete.
pub proof fn hurried_chunks_say_so(chunk: Progress, train_seconds: u64, state: TrainState)
    requires
        chunk.valid(),
        chunk.phase is Over,
        closed(chunk, train_seconds, state),
    ensures
        chunk.history.len() < chunk.length ==> chunk.settings.max_seconds > 0,
        state.steps_done == chunk.began.steps_done + chunk.history.len(),
        state.completed <==> 0 < chunk.settings.target_steps <= state.steps_done,
        state.completed ==> state.stopped_by@ == "target"@,
        !state.completed && chunk.history.len() < chunk.length ==> state.stopped_by@
            == "max-seconds"@,
        !state.completed && !chunk.timed_out ==> state.stopped_by@ == "chunk-steps"@,
{
    steps_are_counted(chunk.began, chunk.history);
}

/// The last loss of a run is that of its last step.
pub proof fn last_loss_is_the_last(tally: Tally, losses: Seq<u32>)
    ensures
        losses.len() == 0 ==> after_steps(tally, losses) == tally,
        losses.len() > 0 ==> after_steps(tally, losses).last_loss == losses.last(),
{
}

/// A run that never saw a smaller loss than the one it came with keeps that one as
/// its best.
pub proof fn best_loss_stays(tally: Tally, losses: Seq<u32>)
    requires
        forall|i: int| 0 <= i < losses.len() ==> !less(#[trigger] losses[i], tally.best_loss),
    ensures
        after_steps(tally, losses).best_loss == tally.best_loss,
    decreases losses.len(),
{
    if losses.len() > 0 {
        assert forall|i: int| 0 <= i < losses.drop_last().len() implies !less(
            #[trigger] losses.drop_last()[i],
            tally.best_loss,
        ) by {
            assert(!less(losses[i], tally.best_loss));
        }
        best_loss_stays(tally, losses.drop_last());
        assert(!less(losses[losses.len() - 1], tally.best_loss));
    }
}

/// Shards are taken in turn: the first step of a run learns from the first shard,
/// and every other step from the shard after that of the step before, or from the
/// first again after the last.
pub proof fn shards_are_taken_in_turn(step: nat, shards: nat)
    requires
        shards > 0,
        step >= 1,
    ensures
        shard_of(1, shards) == 0,
        shard_of(step, shards) < shards,
        shard_of(step + 1, shards) == (if shard_of(step, shards) + 1 == shards {
            0
        } else {
            shard_of(step, shards) + 1
        }),
{
    let (a, n): (int, int) = (step - 1, shards as int);
    vstd::arithmetic::div_mod::lemma_fundamental_div_mod(a, n);
    let (q, r) = (a / n, a % n);
    assert(n * (q + 1) == n * q + n) by (nonlinear_arith);
    assert(q * n == n * q && (q + 1) * n == n * (q + 1)) by (nonlinear_arith);
    if r + 1 == n {
        vstd::arithmetic::div_mod::lemma_fundamental_div_mod_converse(a + 1, n, q + 1, 0);
    } else {
        vstd::arithmetic::div_mod::lemma_fundamental_div_mod_converse(a + 1, n, q, r + 1);
    }
    vstd::arithmetic::div_mod::lemma_small_mod(0, shards);
}

/// The steps of a chunk learn from the shards that their numbers over the whole
/// run give, not from those that their numbers within the chunk would give.
pub proof fn orders_follow_the_run(done: nat, count: nat, shards: nat, i: int)
    requires
        shards > 0,
        0 <= i < count,
    ensures
        shard_order(done, count, shards).len() == count,
        (shard_order(done, count, shards)[i] as int - (done + i)) % (shards as int) == 0,
        0 <= shard_order(done, count, shards)[i] < shards,
{
    let (a, n): (int, int) = (done + i, shards as int);
    vstd::arithmetic::div_mod::lemma_fundamental_div_mod(a, n);
    let q = -(a / n);
    assert(a % n - a == q * n) by (nonlinear_arith)
        requires
            a == n * (a / n) + a % n,
            q == -(a / n),
    ;
    vstd::arithmetic::div_mod::lemma_mod_multiples_basic(q, n);
}

/// The first step of a chunk is logged, and after it every `log_every`-th one:
/// none between two multiples. Without an interval every step is.
pub proof fn logs_keep_their_interval(settings: TrainSettings, turn: nat, between: nat)
    ensures
        is_logged(settings, 1),
        settings.log_every <= 1 ==> is_logged(settings, between),
        settings.log_every > 0 ==> is_logged(settings, turn * settings.log_every as nat),
        turn * settings.log_every < between < (turn + 1) * settings.log_every && between != 1
            ==> !is_logged(settings, between),
{
    multiples_stand_apart(settings.log_every as int, turn as int, between as int);
}

/// A checkpoint is due after every `ckpt_every`-th step of the run, none between
/// two multiples, and none at all without an interval.
pub proof fn checkpoints_keep_their_interval(settings: TrainSettings, turn: nat, between: nat)
    ensures
        settings.ckpt_every == 0 ==> !is_checkpoint(settings, between),
        settings.ckpt_every > 0 ==> is_checkpoint(settings, turn * settings.ckpt_every as nat),
        turn * settings.ckpt_every < between < (turn + 1) * settings.ckpt_every
            ==> !is_checkpoint(settings, between),
{
    multiples_stand_apart(settings.ckpt_every as int, turn as int, between as int);
}

proof fn multiples_stand_apart(every: int, turn: int, between: int)
    requires
        every >= 0,
        turn >= 0,
    ensures
        every > 0 ==> (turn * every) % every == 0,
        turn * every >= 0,
        every == 1 ==> between % every == 0,
        turn * every < between < (turn + 1) * every ==> every > 0 && between % every != 0,
{
    assert(turn * every >= 0) by (nonlinear_arith)
        requires
            turn >= 0,
            every >= 0,
    ;
    assert((turn + 1) * every == turn * every + every) by (nonlinear_arith);
    if every > 0 {
        vstd::arithmetic::div_mod::lemma_mod_multiples_basic(turn, every);
        if turn * every < between < (turn + 1) * every {
            vstd::arithmetic::div_mod::lemma_fundamental_div_mod_converse(
                between,
                every,
                turn,
                between - turn * every,
            );
        }
    }
}

/// The budget of a chunk ends it in the second that it names, and in every later
/// one, but in no earlier one.
pub proof fn budgets_end_on_time(settings: TrainSettings, elapsed: u64, later: u64)
    requires
        settings.max_seconds > 0,
        elapsed <= later,
    ensures
        out_of_time(settings, settings.max_seconds),
        !out_of_time(settings, (settings.max_seconds - 1) as u64),
        out_of_time(settings, elapsed) ==> out_of_time(settings, later),
{
}

/// A run is complete with the step that its target names and with every later one,
/// but with no earlier one, and a run without a target never is.
pub proof fn targets_end_runs(settings: TrainSettings, done: nat)
    ensures
        settings.target_steps == 0 ==> !is_complete(settings, done),
        settings.target_steps > 0 ==> {
            &&& is_complete(settings, settings.target_steps as nat + done)
            &&& done < settings.target_steps ==> !is_complete(settings, done)
        },
{
}

/// What a chunk leaves behind tells its losses: the last one, and the best of the
/// run, which is one that occurred or the one the run came with, and which none is
/// less than.
pub proof fn closed_states_tell_the_losses(
    chunk: Progress,
    train_seconds: u64,
    state: TrainState,
    i: int,
)
    requires
        chunk.valid(),
        closed(chunk, train_seconds, state),
        0 <= i < chunk.history.len(),
    ensures
        state.last_loss == chunk.history[chunk.history.len() - 1],
        state.best_loss == chunk.began.best_loss || chunk.history.contains(state.best_loss),
        !less(chunk.history[i], state.best_loss),
        !less(chunk.began.best_loss, state.best_loss),
        state.steps_done == chunk.began.steps_done + chunk.history.len(),
        state.target_steps == chunk.state.target_steps,
{
    best_loss_is_least(chunk.began, chunk.history);
    last_loss_is_the_last(chunk.began, chunk.history);
    steps_are_counted(chunk.began, chunk.history);
}

} // verus!
