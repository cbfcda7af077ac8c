use vstd::prelude::*;

verus! {

/// How long the renderer warms up before a measurement starts, in milliseconds.
pub const WARMUP_MS: u128 = 1000;

/// How long one triangulation is measured, in milliseconds.
pub const DATA_GATHER_MS: u128 = 1000;

/// The largest number of vertices of a measured triangulation.
pub const MAX_VERTEX_NUM: usize = 262144;

/// Where a timing run stands.
#[derive(Debug, Clone, Copy, PartialEq, Eq, Structural)]
pub enum DataCollectionStage {
    Inactive,
    Warmup,
    Active,
    Finished,
}

/// What the renderer is to do after a frame, as the timing run decides it.
#[derive(Debug, Clone, Copy, PartialEq, Eq, Structural)]
pub enum GatherAction {
    /// Nothing.
    Nothing,
    /// Start the timer.
    StartTimer,
    /// The warm-up is over: stop the timer and select the first triangulation.
    BeginMeasurement,
    /// Count the frame just drawn towards the running measurement.
    CountFrame,
    /// Count the frame just drawn, stop the timer, record the measurement with its total
    /// time, and move on to the next triangulation.
    FinishMeasurement { total_time_ms: u128 },
}

/// The stage and action that follow a frame drawn in `stage`, where `elapsed_ms` is the
/// time on the running timer, or `None` when no timer runs.
pub open spec fn spec_gather_step(stage: DataCollectionStage, elapsed_ms: Option<u128>) -> (
    DataCollectionStage,
    GatherAction,
) {
    match stage {
        DataCollectionStage::Inactive => (DataCollectionStage::Warmup, GatherAction::Nothing),
        DataCollectionStage::Warmup => match elapsed_ms {
            None => (DataCollectionStage::Warmup, GatherAction::StartTimer),
            Some(e) => if e >= WARMUP_MS {
                (DataCollectionStage::Active, GatherAction::BeginMeasurement)
            } else {
                (DataCollectionStage::Warmup, GatherAction::Nothing)
            },
        },
        DataCollectionStage::Active => match elapsed_ms {
            None => (DataCollectionStage::Active, GatherAction::StartTimer),
            Some(e) => if e >= DATA_GATHER_MS {
                (DataCollectionStage::Inactive, GatherAction::FinishMeasurement { total_time_ms: e })
            } else {
                (DataCollectionStage::Active, GatherAction::CountFrame)
            },
        },
        DataCollectionStage::Finished => (DataCollectionStage::Finished, GatherAction::Nothing),
    }
}

/// The decisions of a timing run: after a warm-up, each triangulation is drawn for a
/// fixed time while the frames are counted, then the next one is taken.
pub struct DataCollection {
    stage: DataCollectionStage,
}

impl DataCollection {
    /// The current stage.
    pub closed spec fn spec_stage(&self) -> DataCollectionStage {
        self.stage
    }

    /// A run that has not started yet.
    pub fn new() -> (res: Self)
        ensures
            res.spec_stage() == DataCollectionStage::Inactive,
    {
        DataCollection { stage: DataCollectionStage::Inactive }
    }

    /// The current stage.
    pub fn stage(&self) -> (res: DataCollectionStage)
        ensures
            res == self.spec_stage(),
    {
        self.stage
    }

    /// Takes the decision that follows a drawn frame, given the time on the running timer
    /// (`None` when no timer runs), and returns what the renderer is to do.
    pub fn update(&mut self, elapsed_ms: Option<u128>) -> (action: GatherAction)
        ensures
            (final(self).spec_stage(), action) == spec_gather_step(old(self).spec_stage(), elapsed_ms),
    {
        match self.stage {
            DataCollectionStage::Inactive => {
                self.stage = DataCollectionStage::Warmup;
                GatherAction::Nothing
            },
            DataCollectionStage::Warmup => {
                if let Some(elapsed) = elapsed_ms {
                    if elapsed >= WARMUP_MS {
                        self.stage = DataCollectionStage::Active;
                        GatherAction::BeginMeasurement
                    } else {
                        GatherAction::Nothing
                    }
                } else {
                    GatherAction::StartTimer
                }
            },
            DataCollectionStage::Active => {
                if let Some(elapsed) = elapsed_ms {
                    if elapsed >= DATA_GATHER_MS {
                        self.stage = DataCollectionStage::Inactive;
                        GatherAction::FinishMeasurement { total_time_ms: elapsed }
                    } else {
                        GatherAction::CountFrame
                    }
                } else {
                    GatherAction::StartTimer
                }
            },
            DataCollectionStage::Finished => GatherAction::Nothing,
        }
    }
}

/// A measurement is recorded only at the end of an active stage that has run its full
/// time, it carries that time, and the run then starts over with a warm-up; a
/// measurement only begins once the warm-up has run its full time.
pub proof fn lemma_measurements_follow_warmup(stage: DataCollectionStage, elapsed_ms: Option<u128>)
    ensures
        ({
            let (next, action) = spec_gather_step(stage, elapsed_ms);
            &&& (action matches GatherAction::FinishMeasurement { total_time_ms } ==> {
                &&& stage == DataCollectionStage::Active
                &&& elapsed_ms == Some(total_time_ms)
                &&& total_time_ms >= DATA_GATHER_MS
                &&& next == DataCollectionStage::Inactive
                &&& spec_gather_step(next, None).0 == DataCollectionStage::Warmup
            })
            &&& (action == GatherAction::BeginMeasurement ==> {
                &&& stage == DataCollectionStage::Warmup
                &&& elapsed_ms matches Some(e) && e >= WARMUP_MS
                &&& next == DataCollectionStage::Active
            })
        }),
{
}

/// A finished run stays finished and asks for nothing, whatever the timer shows.
pub proof fn lemma_finished_is_final(elapsed_ms: Option<u128>)
    ensures
        spec_gather_step(DataCollectionStage::Finished, elapsed_ms) == (
            DataCollectionStage::Finished,
            GatherAction::Nothing,
        ),
{
}

/// The whole step of a timing run, case by case: an inactive run goes into its warm-up; a
/// warm-up with no timer running starts one, and ends (the measurement begins) as soon as
/// the timer shows at least `WARMUP_MS`, not before; an active stage with no timer starts
/// one, counts each frame while the timer shows less than `DATA_GATHER_MS`, and as soon as
/// it shows at least that, records the measurement with the time shown and goes back to
/// inactive.
pub proof fn lemma_gather_step_cases(elapsed_ms: u128)
    ensures
        WARMUP_MS == 1000 && DATA_GATHER_MS == 1000,
        spec_gather_step(DataCollectionStage::Inactive, None) == (
            DataCollectionStage::Warmup,
            GatherAction::Nothing,
        ),
        spec_gather_step(DataCollectionStage::Inactive, Some(elapsed_ms)) == (
            DataCollectionStage::Warmup,
            GatherAction::Nothing,
        ),
        spec_gather_step(DataCollectionStage::Warmup, None) == (
            DataCollectionStage::Warmup,
            GatherAction::StartTimer,
        ),
        elapsed_ms >= WARMUP_MS ==> spec_gather_step(DataCollectionStage::Warmup, Some(elapsed_ms)) == (
            DataCollectionStage::Active,
            GatherAction::BeginMeasurement,
        ),
        elapsed_ms < WARMUP_MS ==> spec_gather_step(DataCollectionStage::Warmup, Some(elapsed_ms)) == (
            DataCollectionStage::Warmup,
            GatherAction::Nothing,
        ),
        spec_gather_step(DataCollectionStage::Active, None) == (
            DataCollectionStage::Active,
            GatherAction::StartTimer,
        ),
        elapsed_ms >= DATA_GATHER_MS ==> spec_gather_step(DataCollectionStage::Active, Some(elapsed_ms)) == (
            DataCollectionStage::Inactive,
            GatherAction::FinishMeasurement { total_time_ms: elapsed_ms },
        ),
        elapsed_ms < DATA_GATHER_MS ==> spec_gather_step(DataCollectionStage::Active, Some(elapsed_ms)) == (
            DataCollectionStage::Active,
            GatherAction::CountFrame,
        ),
{
}

} // verus!
