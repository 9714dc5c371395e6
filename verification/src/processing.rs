//! The per-batch outcome: how publish and write results join into one
//! commit decision.
//!
//! A batch is committed only when its publish step and its database step
//! both succeeded; a publish failure or a database failure aborts the
//! batch, and the cursor is not advanced for an aborted batch.

use vstd::prelude::*;

verus! {

use crate::transaction::Timestamp;

/// What a committed batch reports back to the supervisor and the cursor.
pub struct ProcessingResult {
    pub start_version: u64,
    pub end_version: u64,
    pub processing_duration_micros: u64,
    pub db_insertion_duration_micros: u64,
    pub last_transaction_timestamp: Option<Timestamp>,
}

/// Why a batch aborted.
#[derive(Debug)]
pub enum ProcessorError {
    /// The stream's chain id names no known network.
    UnknownChainId { chain_id: u64 },
    /// A record collection could not be published.
    PublishFailed(String),
    /// A record collection could not be written.
    DbFailed(String),
}

/// Joins the outcomes of the publish and write steps of one batch: the
/// batch commits only when both succeeded, a failed publish aborts it
/// before the write counts, and a failed write aborts it after a clean
/// publish.
pub fn complete_batch(
    start_version: u64,
    end_version: u64,
    mq_result: Result<(), String>,
    db_result: Result<(), String>,
    processing_duration_micros: u64,
    db_insertion_duration_micros: u64,
    last_transaction_timestamp: Option<Timestamp>,
) -> (r: Result<ProcessingResult, ProcessorError>)
    ensures
        match r {
            Ok(done) => {
                &&& mq_result is Ok
                &&& db_result is Ok
                &&& done.start_version == start_version
                &&& done.end_version == end_version
                &&& done.processing_duration_micros == processing_duration_micros
                &&& done.db_insertion_duration_micros == db_insertion_duration_micros
                &&& done.last_transaction_timestamp == last_transaction_timestamp
            },
            Err(ProcessorError::PublishFailed(m)) => mq_result is Err && m@ == mq_result->Err_0@,
            Err(ProcessorError::DbFailed(m)) => mq_result is Ok && db_result is Err && m@
                == db_result->Err_0@,
            Err(ProcessorError::UnknownChainId { .. }) => false,
        },
{
    match mq_result {
        Err(m) => Err(ProcessorError::PublishFailed(m)),
        Ok(()) => match db_result {
            Err(m) => Err(ProcessorError::DbFailed(m)),
            Ok(()) => Ok(
                ProcessingResult {
                    start_version,
                    end_version,
                    processing_duration_micros,
                    db_insertion_duration_micros,
                    last_transaction_timestamp,
                },
            ),
        },
    }
}

/// Resolves the network a batch publishes to: an unknown chain id is a
/// fatal batch error.
pub fn resolve_network(db_chain_id: Option<u64>) -> (r: Result<
    crate::network::Network,
    ProcessorError,
>)
    ensures
        match r {
            Ok(n) => crate::network::spec_from_chain_id(
                match db_chain_id {
                    Some(c) => c,
                    None => 0,
                },
            ) == Some(n),
            Err(ProcessorError::UnknownChainId { chain_id }) => chain_id == (match db_chain_id {
                Some(c) => c,
                None => 0,
            }) && crate::network::spec_from_chain_id(chain_id) is None,
            Err(_) => false,
        },
{
    let chain_id: u64 = match db_chain_id {
        Some(c) => c,
        None => 0,
    };
    match crate::network::Network::from_chain_id(chain_id) {
        Some(n) => Ok(n),
        None => Err(ProcessorError::UnknownChainId { chain_id }),
    }
}

} // verus!
