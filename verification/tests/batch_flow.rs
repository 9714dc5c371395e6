use indexer_core::cursor::ProcessorStatus;
use indexer_core::default_processor::produce_to_mq_topics;
use indexer_core::network::Network;
use indexer_core::processing::{complete_batch, resolve_network, ProcessorError};
use indexer_core::supervisor::{
    on_stream_outcome, BackfillConfig, DbConfig, IndexerProcessorConfig, MonitoringProcessor,
    PostgresConfig, ProcessorConfig, ProcessorMode, StreamAction, StreamOutcome, SupervisorError,
};
use indexer_core::transaction::Timestamp;

fn monitoring_config(mode: ProcessorMode) -> IndexerProcessorConfig {
    IndexerProcessorConfig {
        db_config: DbConfig::Postgres(PostgresConfig {
            connection_string: "postgres://localhost/indexer".to_string(),
            db_pool_size: 8,
        }),
        processor_config: ProcessorConfig::Monitoring { channel_size: 64 },
        mode,
        starting_version: Some(50),
        backfill_config: Some(BackfillConfig {
            ending_version: 5000,
        }),
        testing_config: None,
    }
}

#[test]
fn batch_commits_only_when_both_steps_succeed() {
    let ts = Some(Timestamp {
        seconds: 1,
        nanos: 0,
    });
    let done = complete_batch(101, 110, Ok(()), Ok(()), 5, 9, ts).unwrap();
    assert_eq!(done.start_version, 101);
    assert_eq!(done.end_version, 110);
    assert_eq!(done.processing_duration_micros, 5);
    assert_eq!(done.db_insertion_duration_micros, 9);

    let publish_failed = complete_batch(101, 110, Err("broker".to_string()), Ok(()), 0, 0, None);
    assert!(matches!(
        publish_failed,
        Err(ProcessorError::PublishFailed(m)) if m == "broker"
    ));

    let db_failed = complete_batch(101, 110, Ok(()), Err("deadlock".to_string()), 0, 0, None);
    assert!(matches!(
        db_failed,
        Err(ProcessorError::DbFailed(m)) if m == "deadlock"
    ));
}

#[test]
fn transient_db_failure_retries_with_one_cursor_advance() {
    // The first attempt fails on the database step: the batch aborts and
    // the cursor does not move.  The retry succeeds and the cursor
    // advances exactly once.
    let mut cursor = ProcessorStatus::new("user_transaction_processor".to_string(), 100, 0);

    let first = complete_batch(101, 110, Ok(()), Err("timeout".to_string()), 1, 1, None);
    assert!(first.is_err());
    assert_eq!(cursor.last_success_version, 100);

    let retry = complete_batch(101, 110, Ok(()), Ok(()), 1, 1, None).unwrap();
    assert!(cursor
        .record_success(retry.start_version, retry.end_version, 42)
        .is_ok());
    assert_eq!(cursor.last_success_version, 110);

    // A duplicate commit of the same span is refused as a gap, so only
    // one advance is ever persisted.
    assert!(cursor.record_success(101, 110, 42).is_err());
    assert_eq!(cursor.last_success_version, 110);
}

#[test]
fn unknown_chain_id_is_fatal_for_the_batch() {
    assert!(matches!(resolve_network(Some(1)), Ok(Network::Mainnet)));
    assert!(matches!(resolve_network(Some(2)), Ok(Network::Testnet)));
    assert!(matches!(
        resolve_network(Some(3)),
        Err(ProcessorError::UnknownChainId { chain_id: 3 })
    ));
    assert!(matches!(
        resolve_network(None),
        Err(ProcessorError::UnknownChainId { chain_id: 0 })
    ));
}

#[test]
fn default_processor_topics() {
    let (bmt, ti, cti, tm) = produce_to_mq_topics(Network::Mainnet);
    assert_eq!(bmt, "aptos.mainnet.block.metadata.transactions");
    assert_eq!(ti, "aptos.mainnet.table.items");
    assert_eq!(cti, "aptos.mainnet.current.table.items");
    assert_eq!(tm, "aptos.mainnet.table.metadatas");
    assert_eq!(
        indexer_core::user_transaction_processor::produce_to_mq_topics(Network::Mainnet).0,
        "aptos.mainnet.user.transactions"
    );
    assert_eq!(
        indexer_core::user_transaction_processor::produce_to_mq_topics(Network::Mainnet).1,
        "aptos.mainnet.signatures"
    );
    assert_eq!(
        indexer_core::account_transactions_processor::produce_to_mq_topic(Network::Testnet),
        "aptos.testnet.account.transactions"
    );
    assert_eq!(
        indexer_core::raw_transaction_processor::produce_to_mq_topic(Network::Mainnet),
        "aptos.mainnet.raw.transactions"
    );
}

#[test]
fn monitoring_processor_validates_config() {
    let ok = MonitoringProcessor::new(monitoring_config(ProcessorMode::Default));
    assert!(ok.is_ok());

    let mut bad = monitoring_config(ProcessorMode::Default);
    bad.db_config = DbConfig::Unsupported;
    assert!(matches!(
        MonitoringProcessor::new(bad),
        Err(SupervisorError::InvalidDbConfig)
    ));
}

#[test]
fn monitoring_run_plan_resolves_versions_and_chain() {
    let p = MonitoringProcessor::new(monitoring_config(ProcessorMode::Backfill)).unwrap();
    let stored = Some(ProcessorStatus::new("monitoring_processor".to_string(), 99, 0));

    let plan = p.plan_run(&stored, Some(1), 1).unwrap();
    assert_eq!(plan.starting_version, 100);
    assert_eq!(plan.request_ending_version, Some(5000));
    assert_eq!(plan.channel_size, 64);

    // A mismatching chain id refuses to run and reports both ids.
    let err = p.plan_run(&stored, Some(1), 3);
    assert_eq!(
        err,
        Err(SupervisorError::ChainIdMismatch {
            stored: 1,
            actual: 3
        })
    );

    // In the default mode the stream is unbounded.
    let p2 = MonitoringProcessor::new(monitoring_config(ProcessorMode::Default)).unwrap();
    let plan2 = p2.plan_run(&None, None, 2).unwrap();
    assert_eq!(plan2.starting_version, 50);
    assert_eq!(plan2.request_ending_version, None);
}

#[test]
fn stream_outcomes_dispatch() {
    let batch = StreamOutcome::Batch {
        start_version: 101,
        end_version: 110,
    };
    assert_eq!(on_stream_outcome(&batch, None), StreamAction::Process);
    assert_eq!(on_stream_outcome(&batch, Some(1000)), StreamAction::Process);
    // A backfill bound at or below the batch end drains the run.
    assert_eq!(on_stream_outcome(&batch, Some(110)), StreamAction::Drain);
    assert_eq!(on_stream_outcome(&StreamOutcome::End, None), StreamAction::Drain);
    assert_eq!(
        on_stream_outcome(&StreamOutcome::Fail, None),
        StreamAction::Restart
    );
}
