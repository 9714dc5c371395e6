use indexer_core::address::standardize_address;
use indexer_core::cursor::{CursorError, ProcessorStatus, should_persist_status};
use indexer_core::mq::{
    join_send_results, CustomProducer, CustomProducerEnum, KafkaProducer, NoopProducer,
};
use indexer_core::network::{topic_name, Network};
use indexer_core::ordering::str_le;
use indexer_core::supervisor::{
    check_or_update_chain_id, exit_code, get_starting_version, supervisor_step, ChainIdCheck,
    SupervisorEvent, SupervisorState,
};
use indexer_core::table_flags::{TableFlags, SIGNATURES, TABLE_ITEMS};
use indexer_core::writer::{chunk_bounds, get_config_table_chunk_size, str_eq};

#[test]
fn standardize_pads_and_prefixes() {
    assert_eq!(
        standardize_address("0x1"),
        format!("0x{:0>64}", "1"),
    );
    assert_eq!(
        standardize_address("ff"),
        format!("0x{:0>64}", "ff"),
    );
}

#[test]
fn standardize_lowercases_hex_digits() {
    assert_eq!(
        standardize_address("0xAbCdEf"),
        format!("0x{:0>64}", "abcdef"),
    );
}

#[test]
fn standardize_keeps_long_bodies() {
    let long = "a".repeat(70);
    assert_eq!(standardize_address(&long), format!("0x{}", long));
}

#[test]
fn standardize_is_idempotent() {
    for input in ["0x1", "AB", "", "0xDeadBeef", "zz-not-hex"] {
        let once = standardize_address(input);
        let twice = standardize_address(&once);
        assert_eq!(once, twice);
    }
}

#[test]
fn network_from_chain_id() {
    assert!(matches!(Network::from_chain_id(1), Some(Network::Mainnet)));
    assert!(matches!(Network::from_chain_id(2), Some(Network::Testnet)));
    assert!(Network::from_chain_id(3).is_none());
    assert!(Network::from_chain_id(0).is_none());
}

#[test]
fn network_names_and_topics() {
    assert_eq!(Network::Mainnet.name(), "mainnet");
    assert_eq!(Network::Testnet.name(), "testnet");
    assert_eq!(topic_name(Network::Mainnet, "events"), "aptos.mainnet.events");
    assert_eq!(
        topic_name(Network::Testnet, "raw.transactions"),
        "aptos.testnet.raw.transactions"
    );
}

#[test]
fn empty_brokers_select_noop_producer() {
    assert!(matches!(
        CustomProducerEnum::new(""),
        CustomProducerEnum::Noop(_)
    ));
    assert!(matches!(
        CustomProducerEnum::new("localhost:9092"),
        CustomProducerEnum::Kafka(_)
    ));
}

#[test]
fn noop_publish_succeeds_without_io() {
    let producer = CustomProducerEnum::new("");
    // Even failed deliveries cannot fail the no-op: nothing was sent.
    let delivery = vec![Err("broker down".to_string())];
    assert!(producer.send_to_mq("aptos.mainnet.events", 1, &delivery).is_ok());
    let no_delivery: Vec<Result<(), String>> = Vec::new();
    assert!(NoopProducer.send_to_mq("t", 0, &no_delivery).is_ok());
}

#[test]
fn kafka_publish_joins_deliveries() {
    let producer = KafkaProducer::new("localhost:9092");
    let all_ok = vec![Ok(()), Ok(()), Ok(())];
    assert!(producer.send_to_mq("t", 3, &all_ok).is_ok());
    let with_failures = vec![
        Ok(()),
        Err("first".to_string()),
        Err("second".to_string()),
    ];
    assert_eq!(
        producer.send_to_mq("t", 3, &with_failures),
        Err("first".to_string())
    );
}

#[test]
fn cursor_advances_contiguous_batches() {
    let mut status = ProcessorStatus::new("events_processor".to_string(), 100, 0);
    assert!(status.record_success(101, 110, 555).is_ok());
    assert_eq!(status.last_success_version, 110);
    assert_eq!(status.last_transaction_timestamp, 555);
    assert!(status.record_success(111, 111, 556).is_ok());
    assert_eq!(status.last_success_version, 111);
}

#[test]
fn cursor_refuses_gap_and_stays() {
    let mut status = ProcessorStatus::new("events_processor".to_string(), 100, 7);
    let r = status.record_success(102, 110, 999);
    assert_eq!(
        r,
        Err(CursorError::Gap {
            stored: 100,
            batch_start: 102
        })
    );
    assert_eq!(status.last_success_version, 100);
    assert_eq!(status.last_transaction_timestamp, 7);
}

#[test]
fn cursor_coalesces_until_interval() {
    assert!(!should_persist_status(0));
    assert!(should_persist_status(1));
    assert!(should_persist_status(60));
}

#[test]
fn chain_id_check_outcomes() {
    assert_eq!(check_or_update_chain_id(None, 1), ChainIdCheck::Saved(1));
    assert_eq!(check_or_update_chain_id(Some(3), 3), ChainIdCheck::Matched(3));
    assert_eq!(
        check_or_update_chain_id(Some(1), 3),
        ChainIdCheck::Mismatch {
            stored: 1,
            actual: 3
        }
    );
}

#[test]
fn starting_version_resolution() {
    assert_eq!(get_starting_version(None, None), 0);
    assert_eq!(get_starting_version(Some(50), None), 50);
    assert_eq!(get_starting_version(None, Some(100)), 101);
    assert_eq!(get_starting_version(Some(50), Some(100)), 101);
    assert_eq!(get_starting_version(Some(500), Some(100)), 500);
}

#[test]
fn supervisor_lifecycle() {
    let s = SupervisorState::Initializing;
    let s = supervisor_step(s, SupervisorEvent::InitComplete);
    assert_eq!(s, SupervisorState::Running);
    let s = supervisor_step(s, SupervisorEvent::EndOfStream);
    assert_eq!(s, SupervisorState::Draining);
    let s = supervisor_step(s, SupervisorEvent::DrainComplete);
    assert_eq!(s, SupervisorState::Stopped);
    assert_eq!(exit_code(s), 0);

    let f = supervisor_step(SupervisorState::Running, SupervisorEvent::FatalError);
    assert_eq!(f, SupervisorState::Failed);
    assert_eq!(exit_code(f), 1);

    // Terminal states absorb further events.
    assert_eq!(
        supervisor_step(SupervisorState::Stopped, SupervisorEvent::FatalError),
        SupervisorState::Stopped
    );
}

#[test]
fn table_flags_bitset() {
    let flags = TableFlags::from_bits(TABLE_ITEMS | SIGNATURES);
    assert!(flags.contains(TABLE_ITEMS));
    assert!(flags.contains(SIGNATURES));
    assert!(!flags.contains(indexer_core::table_flags::TABLE_METADATAS));
    assert!(!TableFlags::empty().contains(TABLE_ITEMS));
}

#[test]
fn chunk_bounds_cover_and_cap() {
    assert_eq!(chunk_bounds(10, 3), vec![(0, 3), (3, 6), (6, 9), (9, 10)]);
    assert_eq!(chunk_bounds(3, 3), vec![(0, 3)]);
    assert_eq!(chunk_bounds(0, 5), Vec::<(usize, usize)>::new());
    assert_eq!(chunk_bounds(1, 100), vec![(0, 1)]);
}

#[test]
fn chunk_size_lookup() {
    let sizes = vec![
        ("events".to_string(), 500usize),
        ("signatures".to_string(), 200usize),
    ];
    assert_eq!(get_config_table_chunk_size("events", &sizes, 1000), 500);
    assert_eq!(get_config_table_chunk_size("signatures", &sizes, 1000), 200);
    assert_eq!(get_config_table_chunk_size("table_items", &sizes, 1000), 1000);
}

#[test]
fn string_helpers() {
    assert!(str_eq("abc", "abc"));
    assert!(!str_eq("abc", "abd"));
    assert!(!str_eq("abc", "ab"));
    assert!(str_le("abc", "abd"));
    assert!(str_le("ab", "abc"));
    assert!(!str_le("b", "abc"));
    assert!(str_le("", "a"));
    assert!(str_le("same", "same"));
}

#[test]
fn kafka_client_settings_are_fixed() {
    let settings = indexer_core::mq::kafka_client_settings();
    assert_eq!(
        settings,
        vec![
            ("message.timeout.ms", "5000"),
            ("queue.buffering.max.ms", "2000"),
            ("compression.codec", "snappy"),
            ("request.required.acks", "all"),
            ("message.max.bytes", "10000000"),
            ("batch.size", "50000000"),
        ]
    );
}

#[test]
fn class_results_join_like_deliveries() {
    let all_ok: Vec<Result<(), String>> = vec![Ok(()), Ok(())];
    assert!(join_send_results(&all_ok).is_ok());
    let one_failed = vec![Ok(()), Err("signatures topic down".to_string()), Ok(())];
    assert_eq!(
        join_send_results(&one_failed),
        Err("signatures topic down".to_string())
    );
    let empty: Vec<Result<(), String>> = Vec::new();
    assert!(join_send_results(&empty).is_ok());
}

#[test]
fn kafka_producer_keeps_broker_list() {
    let p = KafkaProducer::new("broker-a:9092,broker-b:9092");
    assert_eq!(p.brokers, "broker-a:9092,broker-b:9092");
    match CustomProducerEnum::new("broker-a:9092") {
        CustomProducerEnum::Kafka(k) => assert_eq!(k.brokers, "broker-a:9092"),
        CustomProducerEnum::Noop(_) => panic!("non-empty brokers must select the real client"),
    }
}
