//! Pipeline lifecycle, configuration checks and the monitoring processor.
//!
//! The supervisor owns the run: it resolves the starting version from the
//! configuration and the stored cursor, refuses to run against the wrong
//! chain, bounds backfill and testing runs by an ending version, and
//! walks the lifecycle states.  The runtime performs the I/O of each
//! stage and feeds the outcomes back as events.

use vstd::prelude::*;

verus! {

use crate::cursor::ProcessorStatus;

#[derive(Clone)]
pub struct PostgresConfig {
    pub connection_string: String,
    pub db_pool_size: u32,
}

#[derive(Clone)]
pub enum DbConfig {
    Postgres(PostgresConfig),
    Unsupported,
}

#[derive(Clone, Copy, PartialEq, Eq, Structural, Debug)]
pub enum ProcessorMode {
    Default,
    Backfill,
    Testing,
}

#[derive(Clone, Copy)]
pub struct BackfillConfig {
    pub ending_version: u64,
}

#[derive(Clone, Copy)]
pub struct TestingConfig {
    pub ending_version: u64,
}

/// Which processor the process runs, with its stage-channel size.
#[derive(Clone, Copy, PartialEq, Eq, Structural, Debug)]
pub enum ProcessorConfig {
    Monitoring { channel_size: usize },
    Other,
}

#[derive(Clone)]
pub struct IndexerProcessorConfig {
    pub db_config: DbConfig,
    pub processor_config: ProcessorConfig,
    pub mode: ProcessorMode,
    pub starting_version: Option<u64>,
    pub backfill_config: Option<BackfillConfig>,
    pub testing_config: Option<TestingConfig>,
}

#[derive(PartialEq, Eq, Structural, Debug)]
pub enum SupervisorError {
    /// The database configuration is not one the processor supports.
    InvalidDbConfig,
    /// The processor configuration names a different processor.
    InvalidProcessorConfig,
    /// The stream serves a different chain than the one stored.
    ChainIdMismatch { stored: u64, actual: u64 },
}

/// The outcome of comparing the stream's chain id with the stored one.
#[derive(PartialEq, Eq, Structural, Debug)]
pub enum ChainIdCheck {
    /// The stored chain id equals the stream's.
    Matched(u64),
    /// Nothing was stored yet; the stream's chain id is to be saved.
    Saved(u64),
    /// The stored chain id differs from the stream's: fatal.
    Mismatch { stored: u64, actual: u64 },
}

/// Verifies the chain id served by the stream against the stored one:
/// a first run stores it, a match proceeds, anything else is fatal.
pub fn check_or_update_chain_id(stored: Option<u64>, grpc_chain_id: u64) -> (r: ChainIdCheck)
    ensures
        r == match stored {
            None => ChainIdCheck::Saved(grpc_chain_id),
            Some(s) => if s == grpc_chain_id {
                ChainIdCheck::Matched(grpc_chain_id)
            } else {
                ChainIdCheck::Mismatch { stored: s, actual: grpc_chain_id }
            },
        },
{
    match stored {
        None => ChainIdCheck::Saved(grpc_chain_id),
        Some(s) => {
            if s == grpc_chain_id {
                ChainIdCheck::Matched(grpc_chain_id)
            } else {
                ChainIdCheck::Mismatch { stored: s, actual: grpc_chain_id }
            }
        },
    }
}

/// The version the stream subscription starts at: one past the stored
/// cursor, but never below the configured starting version.
pub open spec fn spec_starting_version(config_start: Option<u64>, stored: Option<u64>) -> int {
    let from_config: int = match config_start {
        Some(c) => c as int,
        None => 0,
    };
    let from_cursor: int = match stored {
        Some(v) => v + 1,
        None => 0,
    };
    if from_config >= from_cursor {
        from_config
    } else {
        from_cursor
    }
}

pub fn get_starting_version(config_start: Option<u64>, stored: Option<u64>) -> (r: u64)
    requires
        stored is Some ==> stored->0 < u64::MAX,
    ensures
        r == spec_starting_version(config_start, stored),
{
    let from_config: u64 = match config_start {
        Some(c) => c,
        None => 0,
    };
    let from_cursor: u64 = match stored {
        Some(v) => v + 1,
        None => 0,
    };
    if from_config >= from_cursor {
        from_config
    } else {
        from_cursor
    }
}

/// The version the stream request is bounded by: none in the default
/// mode, the configured ending version under backfill or testing.
pub open spec fn spec_request_ending_version(config: IndexerProcessorConfig) -> Option<u64> {
    match config.mode {
        ProcessorMode::Default => None,
        ProcessorMode::Backfill => match config.backfill_config {
            Some(b) => Some(b.ending_version),
            None => None,
        },
        ProcessorMode::Testing => match config.testing_config {
            Some(t) => Some(t.ending_version),
            None => None,
        },
    }
}

pub fn request_ending_version(config: &IndexerProcessorConfig) -> (r: Option<u64>)
    ensures
        r == spec_request_ending_version(*config),
{
    match config.mode {
        ProcessorMode::Default => None,
        ProcessorMode::Backfill => match &config.backfill_config {
            Some(b) => Some(b.ending_version),
            None => None,
        },
        ProcessorMode::Testing => match &config.testing_config {
            Some(t) => Some(t.ending_version),
            None => None,
        },
    }
}

/// Lifecycle states of the supervisor.
#[derive(Clone, Copy, PartialEq, Eq, Structural, Debug)]
pub enum SupervisorState {
    Initializing,
    Running,
    Draining,
    Stopped,
    Failed,
}

/// Events the runtime reports back to the supervisor.
#[derive(Clone, Copy, PartialEq, Eq, Structural, Debug)]
pub enum SupervisorEvent {
    /// Migrations ran, the chain id matched and the starting version is
    /// resolved.
    InitComplete,
    /// The stream ended or the ending version was reached.
    EndOfStream,
    /// An external shutdown was requested.
    ShutdownSignal,
    /// A stage reported a fatal error.
    FatalError,
    /// All in-flight batches finished and the cursor was flushed.
    DrainComplete,
}

/// The lifecycle transition table.  Events that do not apply to a state
/// leave it unchanged; the terminal states absorb everything.
pub open spec fn spec_step(state: SupervisorState, event: SupervisorEvent) -> SupervisorState {
    match (state, event) {
        (SupervisorState::Initializing, SupervisorEvent::InitComplete) => SupervisorState::Running,
        (SupervisorState::Initializing, SupervisorEvent::FatalError) => SupervisorState::Failed,
        (SupervisorState::Running, SupervisorEvent::EndOfStream) => SupervisorState::Draining,
        (SupervisorState::Running, SupervisorEvent::ShutdownSignal) => SupervisorState::Draining,
        (SupervisorState::Running, SupervisorEvent::FatalError) => SupervisorState::Failed,
        (SupervisorState::Draining, SupervisorEvent::DrainComplete) => SupervisorState::Stopped,
        (SupervisorState::Draining, SupervisorEvent::FatalError) => SupervisorState::Failed,
        _ => state,
    }
}

pub fn supervisor_step(state: SupervisorState, event: SupervisorEvent) -> (r: SupervisorState)
    ensures
        r == spec_step(state, event),
{
    match (state, event) {
        (SupervisorState::Initializing, SupervisorEvent::InitComplete) => SupervisorState::Running,
        (SupervisorState::Initializing, SupervisorEvent::FatalError) => SupervisorState::Failed,
        (SupervisorState::Running, SupervisorEvent::EndOfStream) => SupervisorState::Draining,
        (SupervisorState::Running, SupervisorEvent::ShutdownSignal) => SupervisorState::Draining,
        (SupervisorState::Running, SupervisorEvent::FatalError) => SupervisorState::Failed,
        (SupervisorState::Draining, SupervisorEvent::DrainComplete) => SupervisorState::Stopped,
        (SupervisorState::Draining, SupervisorEvent::FatalError) => SupervisorState::Failed,
        (s, _) => s,
    }
}

/// The process exit code for a terminal state: 0 for a clean drain,
/// non-zero for a failure.
pub fn exit_code(state: SupervisorState) -> (r: i32)
    requires
        state == SupervisorState::Stopped || state == SupervisorState::Failed,
    ensures
        state == SupervisorState::Stopped ==> r == 0,
        state == SupervisorState::Failed ==> r == 1,
{
    if matches!(state, SupervisorState::Stopped) {
        0
    } else {
        1
    }
}

/// Everything the runtime needs to open the stream and wire the stages.
#[derive(PartialEq, Eq, Structural, Debug)]
pub struct RunPlan {
    pub starting_version: u64,
    pub request_ending_version: Option<u64>,
    pub channel_size: usize,
}

/// The processor that transforms nothing: it only follows the stream and
/// advances the cursor, for monitoring.
pub struct MonitoringProcessor {
    pub config: IndexerProcessorConfig,
}

impl MonitoringProcessor {
    /// Accepts only a supported database configuration.
    pub fn new(config: IndexerProcessorConfig) -> (r: Result<MonitoringProcessor, SupervisorError>)
        ensures
            match r {
                Ok(p) => config.db_config is Postgres && p.config == config,
                Err(e) => config.db_config is Unsupported && e == SupervisorError::InvalidDbConfig,
            },
    {
        match &config.db_config {
            DbConfig::Postgres(_) => Ok(MonitoringProcessor { config }),
            DbConfig::Unsupported => Err(SupervisorError::InvalidDbConfig),
        }
    }

    pub fn name(&self) -> (r: String)
        ensures
            r@ == "monitoring_processor"@,
    {
        "monitoring_processor".to_owned()
    }

    /// The run decisions made before the stream loop starts: resolve the
    /// starting version against the stored cursor, verify the chain id,
    /// accept only the monitoring configuration, and bound the stream by
    /// the mode's ending version.
    pub fn plan_run(
        &self,
        stored: &Option<ProcessorStatus>,
        stored_chain_id: Option<u64>,
        grpc_chain_id: u64,
    ) -> (r: Result<RunPlan, SupervisorError>)
        requires
            match stored {
                Some(s) => s.last_success_version < u64::MAX,
                None => true,
            },
        ensures
            match r {
                Ok(plan) => {
                    &&& (stored_chain_id is Some ==> stored_chain_id->0 == grpc_chain_id)
                    &&& self.config.processor_config matches ProcessorConfig::Monitoring {
                        channel_size,
                    } && plan.channel_size == channel_size
                    &&& plan.starting_version == spec_starting_version(
                        self.config.starting_version,
                        match stored {
                            Some(s) => Some(s.last_success_version),
                            None => None,
                        },
                    )
                    &&& plan.request_ending_version == spec_request_ending_version(self.config)
                },
                Err(SupervisorError::ChainIdMismatch { stored: sc, actual }) => stored_chain_id
                    == Some(sc) && actual == grpc_chain_id && sc != grpc_chain_id,
                Err(SupervisorError::InvalidProcessorConfig) => (stored_chain_id is Some
                    ==> stored_chain_id->0 == grpc_chain_id) && !(self.config.processor_config
                    is Monitoring),
                Err(SupervisorError::InvalidDbConfig) => false,
            },
    {
        let stored_version: Option<u64> = match stored {
            Some(s) => Some(s.last_success_version),
            None => None,
        };
        let starting_version = get_starting_version(self.config.starting_version, stored_version);
        match check_or_update_chain_id(stored_chain_id, grpc_chain_id) {
            ChainIdCheck::Mismatch { stored: sc, actual } => {
                return Err(SupervisorError::ChainIdMismatch { stored: sc, actual });
            },
            _ => {},
        }
        let channel_size: usize = match self.config.processor_config {
            ProcessorConfig::Monitoring { channel_size } => channel_size,
            ProcessorConfig::Other => {
                return Err(SupervisorError::InvalidProcessorConfig);
            },
        };
        Ok(
            RunPlan {
                starting_version,
                request_ending_version: request_ending_version(&self.config),
                channel_size,
            },
        )
    }
}

/// What one pull from the stream source yielded: a contiguous batch, a
/// clean end of the subscription, or a failure.
#[derive(Clone, Copy, PartialEq, Eq, Structural, Debug)]
pub enum StreamOutcome {
    Batch { start_version: u64, end_version: u64 },
    End,
    Fail,
}

/// What the supervisor does with one stream outcome.
#[derive(Clone, Copy, PartialEq, Eq, Structural, Debug)]
pub enum StreamAction {
    /// Hand the batch to the processor.
    Process,
    /// Stop pulling and drain in-flight work.
    Drain,
    /// Reopen the subscription one past the stored cursor, after
    /// backoff; the cursor does not advance for a failed pull.
    Restart,
}

/// Dispatches one stream outcome: batches are processed, the end of the
/// stream or a reached ending version drains the run, and a failed pull
/// restarts the subscription.
pub fn on_stream_outcome(outcome: &StreamOutcome, ending_version: Option<u64>) -> (r: StreamAction)
    ensures
        r == match *outcome {
            StreamOutcome::Batch { start_version, end_version } => {
                match ending_version {
                    Some(bound) => if end_version >= bound {
                        StreamAction::Drain
                    } else {
                        StreamAction::Process
                    },
                    None => StreamAction::Process,
                }
            },
            StreamOutcome::End => StreamAction::Drain,
            StreamOutcome::Fail => StreamAction::Restart,
        },
{
    match outcome {
        StreamOutcome::Batch { start_version: _, end_version } => match ending_version {
            Some(bound) => {
                if *end_version >= bound {
                    StreamAction::Drain
                } else {
                    StreamAction::Process
                }
            },
            None => StreamAction::Process,
        },
        StreamOutcome::End => StreamAction::Drain,
        StreamOutcome::Fail => StreamAction::Restart,
    }
}

} // verus!
