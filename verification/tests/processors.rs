use indexer_core::account_transactions_processor::AccountTransaction;
use indexer_core::default_processor::{
    insert_block_metadata_transactions_query, insert_current_table_items_query,
    insert_table_items_query, insert_table_metadata_query, merge_current_table_items,
    process_transactions as default_process_transactions, sort_current_table_items,
    upsert_current_table_item, CurrentTableItem, DefaultProcessor,
};
use indexer_core::events_processor::{
    process_transactions as events_process_transactions, EventsProcessor,
};
use indexer_core::mq::{CustomProducer, CustomProducerEnum};
use indexer_core::raw_transaction::RawTransaction;
use indexer_core::raw_transaction_processor::{
    process_transactions as raw_process_transactions, RawTransactionProcessor,
};
use indexer_core::table_flags::{TableFlags, SIGNATURES, TABLE_ITEMS, TABLE_METADATAS};
use indexer_core::transaction::{
    BlockMetadataTxnData, EventInput, PayloadInput, SignatureInput, TableItemData, Timestamp,
    Transaction, TransactionInfo, TransactionType, TxnData, UserTransactionRequest, UserTxnData,
    WriteSetChangeInput,
};
use indexer_core::user_transaction_processor::{
    hex_with_prefix, insert_signatures_query, insert_user_transactions_query,
    user_transaction_parse, UserTransactionProcessor,
};
use indexer_core::writer::ConflictPolicy;

fn info_with_changes(changes: Vec<WriteSetChangeInput>) -> TransactionInfo {
    TransactionInfo {
        hash: vec![0xab, 0xcd],
        state_change_hash: vec![0x01],
        event_root_hash: vec![0x02],
        state_checkpoint_hash: None,
        accumulator_root_hash: vec![0x03],
        gas_used: 7,
        success: true,
        vm_status: "Executed successfully".to_string(),
        changes,
    }
}

fn base_txn(version: u64, txn_data: Option<TxnData>) -> Transaction {
    Transaction {
        version,
        block_height: 10,
        epoch: 2,
        timestamp: Some(Timestamp {
            seconds: 1_700_000_000,
            nanos: 500_000,
        }),
        txn_type: TransactionType::User,
        info: Some(info_with_changes(Vec::new())),
        txn_data,
    }
}

fn event(addr: &str, ty: &str) -> EventInput {
    EventInput {
        account_address: addr.to_string(),
        creation_number: 1,
        sequence_number: 9,
        type_str: ty.to_string(),
        data: "{}".to_string(),
    }
}

fn write_table_item(handle: &str, key_hash: &str) -> WriteSetChangeInput {
    WriteSetChangeInput::WriteTableItem {
        handle: handle.to_string(),
        key: "0x11".to_string(),
        key_hash: key_hash.to_string(),
        data: TableItemData {
            key: "\"k\"".to_string(),
            key_type: "u64".to_string(),
            value: "\"v\"".to_string(),
            value_type: "u128".to_string(),
        },
    }
}

fn user_request(sender: &str, sequence: u64, gas_unit_price: u64) -> UserTransactionRequest {
    UserTransactionRequest {
        sender: sender.to_string(),
        sequence_number: sequence,
        max_gas_amount: 2000,
        gas_unit_price,
        expiration_timestamp_secs: 1_700_000_600,
        entry_function_id_str: "0x1::coin::transfer".to_string(),
        parent_signature_type: "ed25519_signature".to_string(),
        payload: Some(PayloadInput {
            payload_type: "entry_function_payload".to_string(),
            payload_json: "{\"function\":\"0x1::coin::transfer\"}".to_string(),
        }),
        signatures: vec![SignatureInput {
            signer: sender.to_string(),
            is_sender_primary: true,
            multi_agent_index: 0,
            multi_sig_index: 0,
            type_str: "ed25519_signature".to_string(),
            public_key: vec![0x01, 0x02],
            signature: vec![0xaa, 0xbb],
            threshold: 1,
        }],
    }
}

fn user_txn(version: u64, sender: &str, sequence: u64, gas_unit_price: u64) -> Transaction {
    base_txn(
        version,
        Some(TxnData::User(UserTxnData {
            request: user_request(sender, sequence, gas_unit_price),
            events: vec![event("0xCAFE", "0x1::coin::DepositEvent")],
        })),
    )
}

#[test]
fn events_extraction_skips_unknown_and_counts_it() {
    // One transaction with no txn_data, one user transaction with one event.
    let txns = vec![base_txn(5, None), user_txn(6, "0x1", 1, 1)];
    let (events, unknown) = events_process_transactions(&txns);
    assert_eq!(unknown, 1);
    assert_eq!(events.len(), 1);
    assert_eq!(events[0].transaction_version, 6);
    assert_eq!(events[0].event_index, 0);
    assert_eq!(events[0].account_address, format!("0x{:0>64}", "cafe"));
    assert_eq!(events[0].type_, "0x1::coin::DepositEvent");
    assert_eq!(events[0].indexed_type, "0x1::coin::DepositEvent");
    assert_eq!(events[0].transaction_block_height, 10);
}

#[test]
fn events_indexed_type_is_truncated() {
    let long_type = "t".repeat(400);
    let mut txn = base_txn(1, None);
    txn.txn_data = Some(TxnData::User(UserTxnData {
        request: user_request("0x1", 0, 0),
        events: vec![event("0x2", &long_type)],
    }));
    let (events, unknown) = events_process_transactions(&vec![txn]);
    assert_eq!(unknown, 0);
    assert_eq!(events[0].type_.len(), 400);
    assert_eq!(events[0].indexed_type.len(), 300);
    assert_eq!(events[0].indexed_type, "t".repeat(300));
}

#[test]
fn current_table_items_merge_newest_wins() {
    // Two transactions touching the same table handle and key hash,
    // versions 5 and 7: the merged projection carries version 7.
    let t5 = Transaction {
        info: Some(info_with_changes(vec![write_table_item("0xAA", "H")])),
        ..base_txn(5, None)
    };
    let t7 = Transaction {
        info: Some(info_with_changes(vec![write_table_item("0xAA", "H")])),
        ..base_txn(7, None)
    };
    let flags = TableFlags::empty();
    let (_bmts, (items, current_items, metadata)) =
        default_process_transactions(&vec![t5, t7], flags);
    assert_eq!(items.len(), 2);
    assert_eq!(current_items.len(), 1);
    assert_eq!(current_items[0].last_transaction_version, 7);
    assert_eq!(current_items[0].table_handle, format!("0x{:0>64}", "aa"));
    assert_eq!(current_items[0].key_hash, format!("0x{:0>64}", "H"));
    assert_eq!(metadata.len(), 1);
}

#[test]
fn default_process_is_deterministic_on_replay() {
    let make_batch = || {
        vec![
            Transaction {
                info: Some(info_with_changes(vec![write_table_item("0xAA", "H")])),
                ..base_txn(5, None)
            },
            Transaction {
                info: Some(info_with_changes(vec![write_table_item("0xBB", "G")])),
                ..base_txn(6, None)
            },
        ]
    };
    let flags = TableFlags::empty();
    let (_, (items1, ctis1, tms1)) = default_process_transactions(&make_batch(), flags);
    let (_, (items2, ctis2, tms2)) = default_process_transactions(&make_batch(), flags);
    assert_eq!(items1.len(), items2.len());
    assert_eq!(ctis1.len(), ctis2.len());
    assert_eq!(tms1.len(), tms2.len());
    for (a, b) in ctis1.iter().zip(ctis2.iter()) {
        assert_eq!(a.table_handle, b.table_handle);
        assert_eq!(a.last_transaction_version, b.last_transaction_version);
    }
}

#[test]
fn conditional_upsert_keeps_latest_in_any_order() {
    // The stored row ends at version 10 whichever order versions 7 and
    // 10 arrive in, and replaying leaves it unchanged.
    let row = |v: i64| CurrentTableItem {
        table_handle: "0xAA".to_string(),
        key_hash: "H".to_string(),
        key: "0x11".to_string(),
        decoded_key: "\"k\"".to_string(),
        decoded_value: Some(format!("\"v{}\"", v)),
        last_transaction_version: v,
        is_deleted: false,
    };
    let forward = upsert_current_table_item(Some(upsert_current_table_item(None, row(7))), row(10));
    assert_eq!(forward.last_transaction_version, 10);
    let backward = upsert_current_table_item(Some(upsert_current_table_item(None, row(10))), row(7));
    assert_eq!(backward.last_transaction_version, 10);
    assert_eq!(forward.decoded_value, backward.decoded_value);
    // Replay: applying the same rows again does not change the state.
    let replayed =
        upsert_current_table_item(Some(upsert_current_table_item(Some(forward), row(7))), row(10));
    assert_eq!(replayed.last_transaction_version, 10);
    assert_eq!(replayed.decoded_value, Some("\"v10\"".to_string()));
}

#[test]
fn merged_projection_is_sorted_by_primary_key() {
    let rows = vec![
        CurrentTableItem {
            table_handle: "0xbb".to_string(),
            key_hash: "2".to_string(),
            key: String::new(),
            decoded_key: String::new(),
            decoded_value: None,
            last_transaction_version: 1,
            is_deleted: true,
        },
        CurrentTableItem {
            table_handle: "0xaa".to_string(),
            key_hash: "9".to_string(),
            key: String::new(),
            decoded_key: String::new(),
            decoded_value: None,
            last_transaction_version: 2,
            is_deleted: true,
        },
        CurrentTableItem {
            table_handle: "0xbb".to_string(),
            key_hash: "1".to_string(),
            key: String::new(),
            decoded_key: String::new(),
            decoded_value: None,
            last_transaction_version: 3,
            is_deleted: true,
        },
    ];
    let merged = merge_current_table_items(&rows);
    let sorted = sort_current_table_items(merged);
    assert_eq!(sorted.len(), 3);
    assert_eq!(sorted[0].table_handle, "0xaa");
    assert_eq!(sorted[1].table_handle, "0xbb");
    assert_eq!(sorted[1].key_hash, "1");
    assert_eq!(sorted[2].key_hash, "2");
}

#[test]
fn deprecated_table_items_are_cleared() {
    let txn = Transaction {
        info: Some(info_with_changes(vec![write_table_item("0xAA", "H")])),
        ..base_txn(5, None)
    };
    let flags = TableFlags::from_bits(TABLE_ITEMS | TABLE_METADATAS);
    let (_bmts, (items, current_items, metadata)) =
        default_process_transactions(&vec![txn], flags);
    assert_eq!(items.len(), 0);
    assert_eq!(metadata.len(), 0);
    // The current projection is unaffected by those two switches.
    assert_eq!(current_items.len(), 1);
}

#[test]
fn user_transactions_extracted_exactly() {
    let txns = vec![user_txn(42, "0x1", 42, 100)];
    let (users, sigs, unknown) = user_transaction_parse(&txns, TableFlags::empty());
    assert_eq!(unknown, 0);
    assert_eq!(users.len(), 1);
    let u = &users[0];
    assert_eq!(u.version, 42);
    assert_eq!(u.sender, format!("0x{:0>64}", "1"));
    assert_eq!(u.sequence_number, 42);
    assert_eq!(u.gas_unit_price, 100);
    assert_eq!(u.max_gas_amount, 2000);
    assert_eq!(u.entry_function_id_str, "0x1::coin::transfer");
    assert_eq!(u.timestamp, 1_700_000_000 * 1_000_000 + 500);
    assert_eq!(sigs.len(), 1);
    assert_eq!(sigs[0].transaction_version, 42);
    assert_eq!(sigs[0].public_key, "0x0102");
    assert_eq!(sigs[0].signature, "0xaabb");
    assert!(sigs[0].is_sender_primary);
}

#[test]
fn deprecated_signatures_are_cleared() {
    let txns = vec![user_txn(1, "0x1", 0, 1)];
    let (users, sigs, _) = user_transaction_parse(&txns, TableFlags::from_bits(SIGNATURES));
    assert_eq!(users.len(), 1);
    assert_eq!(sigs.len(), 0);
}

#[test]
fn unknown_type_counted_by_user_parse() {
    let txns = vec![base_txn(1, None), user_txn(2, "0x1", 0, 1)];
    let (users, _sigs, unknown) = user_transaction_parse(&txns, TableFlags::empty());
    assert_eq!(unknown, 1);
    assert_eq!(users.len(), 1);
}

#[test]
fn hex_encoding_through_wrapper() {
    assert_eq!(hex_with_prefix(&[0xbe, 0xef]), "0xbeef");
    assert_eq!(hex_with_prefix(&[]), "0x");
    assert_eq!(hex_with_prefix(&[0x00, 0x0f]), "0x000f");
}

#[test]
fn raw_transaction_carries_user_fields_canonically() {
    let txn = user_txn(42, "0x1", 42, 100);
    let raws = raw_process_transactions(&vec![txn]);
    assert_eq!(raws.len(), 1);
    let r = &raws[0];
    assert_eq!(r.version, 42);
    assert_eq!(r.sender, format!("0x{:0>64}", "1"));
    assert_eq!(r.sequence_number, 42);
    assert_eq!(r.gas_unit_price, 100);
    assert_eq!(r.hash, format!("0x{:0>64}", "abcd"));
    assert_eq!(r.payload_type, Some("entry_function_payload".to_string()));
    assert_eq!(r.type_, "TRANSACTION_TYPE_USER");
    assert_eq!(r.signature.len(), 1);
    assert_eq!(r.events.len(), 1);
    assert_eq!(r.timestamp, 1_700_000_000 * 1_000_000 + 500);
}

#[test]
fn raw_transaction_defaults_without_user_data() {
    let mut txn = base_txn(9, Some(TxnData::Other));
    txn.txn_type = TransactionType::StateCheckpoint;
    let r = RawTransaction::from_transaction(&txn);
    assert_eq!(r.sender, "");
    assert_eq!(r.sequence_number, 0);
    assert_eq!(r.max_gas_amount, 0);
    assert!(r.payload.is_none());
    assert!(r.signature.is_empty());
    assert!(r.events.is_empty());
    assert_eq!(r.type_, "TRANSACTION_TYPE_STATE_CHECKPOINT");
}

#[test]
fn account_extraction_dedups_across_sources() {
    let mut txn = base_txn(3, None);
    txn.txn_data = Some(TxnData::User(UserTxnData {
        request: user_request("0xA", 0, 0),
        events: vec![event("0xA", "t"), event("0xa", "t"), event("0xB", "t")],
    }));
    txn.info = Some(info_with_changes(vec![
        WriteSetChangeInput::WriteResource {
            address: "0xA".to_string(),
        },
        WriteSetChangeInput::DeleteModule {
            address: "0xC".to_string(),
        },
    ]));
    let accounts = AccountTransaction::get_accounts(&txn);
    // "0xA" and "0xa" normalize to the same account.
    assert_eq!(accounts.len(), 3);
    assert!(accounts.contains(&format!("0x{:0>64}", "a")));
    assert!(accounts.contains(&format!("0x{:0>64}", "b")));
    assert!(accounts.contains(&format!("0x{:0>64}", "c")));
}

#[test]
fn account_pairs_are_unique_per_batch() {
    let mk = |version: u64| {
        let mut txn = base_txn(version, None);
        txn.txn_data = Some(TxnData::User(UserTxnData {
            request: user_request("0xA", 0, 0),
            events: vec![event("0xA", "t")],
        }));
        txn
    };
    let pairs = indexer_core::account_transactions_processor::process_transactions(&vec![
        mk(1),
        mk(2),
    ]);
    assert_eq!(pairs.len(), 2);
    assert_eq!(pairs[0].transaction_version, 1);
    assert_eq!(pairs[1].transaction_version, 2);
    assert_eq!(pairs[0].account_address, pairs[1].account_address);
}

#[test]
fn upsert_queries_match_table_contracts() {
    let q = insert_current_table_items_query(&Vec::new());
    assert_eq!(q.table, "current_table_items");
    assert_eq!(q.conflict_columns, vec!["table_handle", "key_hash"]);
    assert_eq!(q.policy, ConflictPolicy::ConditionalUpdate);
    assert_eq!(
        q.filter,
        Some(" WHERE current_table_items.last_transaction_version <= excluded.last_transaction_version ")
    );

    let q = insert_table_items_query(&Vec::new());
    assert_eq!(q.table, "table_items");
    assert_eq!(q.policy, ConflictPolicy::DoNothing);
    assert_eq!(
        q.conflict_columns,
        vec!["transaction_version", "write_set_change_index"]
    );

    let q = insert_block_metadata_transactions_query(&Vec::new());
    assert_eq!(q.table, "block_metadata_transactions");
    assert_eq!(q.policy, ConflictPolicy::DoNothing);

    let q = insert_table_metadata_query(&Vec::new());
    assert_eq!(q.table, "table_metadatas");
    assert_eq!(q.conflict_columns, vec!["handle"]);

    let q = insert_user_transactions_query(&Vec::new());
    assert_eq!(q.table, "user_transactions");
    assert_eq!(q.policy, ConflictPolicy::UpdateSet);
    assert_eq!(q.conflict_columns, vec!["version"]);
    assert_eq!(
        q.update_columns,
        vec![
            "entry_function_contract_address",
            "entry_function_module_name",
            "entry_function_function_name",
            "inserted_at"
        ]
    );

    let q = insert_signatures_query(&Vec::new());
    assert_eq!(q.table, "signatures");
    assert_eq!(q.policy, ConflictPolicy::DoNothing);
    assert_eq!(
        q.conflict_columns,
        vec![
            "transaction_version",
            "multi_agent_index",
            "multi_sig_index",
            "is_sender_primary"
        ]
    );

    let q = indexer_core::account_transactions_processor::insert_account_transactions_query(
        &Vec::new(),
    );
    assert_eq!(q.table, "account_transactions");
    assert_eq!(
        q.conflict_columns,
        vec!["transaction_version", "account_address"]
    );
}

#[test]
fn processor_names() {
    let noop = CustomProducerEnum::new("");
    assert_eq!(
        EventsProcessor::new(noop.clone(), Vec::new()).name(),
        "events_processor"
    );
    assert_eq!(
        DefaultProcessor::new(noop.clone(), Vec::new(), TableFlags::empty()).name(),
        "default_processor"
    );
    assert_eq!(
        UserTransactionProcessor::new(noop.clone(), Vec::new(), TableFlags::empty()).name(),
        "user_transaction_processor"
    );
    assert_eq!(
        indexer_core::account_transactions_processor::AccountTransactionsProcessor::new(
            noop.clone(),
            Vec::new()
        )
        .name(),
        "account_transactions_processor"
    );
    assert_eq!(
        RawTransactionProcessor::new(noop).name(),
        "raw_transaction_processor"
    );
}

#[test]
fn block_metadata_extraction() {
    let mut txn = base_txn(8, None);
    txn.txn_type = TransactionType::BlockMetadata;
    txn.txn_data = Some(TxnData::BlockMetadata(BlockMetadataTxnData {
        id: "0xAB".to_string(),
        round: 77,
        previous_block_votes_bitvec: vec![0b1010],
        proposer: "0xCd".to_string(),
        failed_proposer_indices: vec![3, 5],
        events: vec![event("0x9", "block")],
    }));
    let (bmts, (items, _ctis, _tms)) =
        default_process_transactions(&vec![txn], TableFlags::empty());
    assert_eq!(items.len(), 0);
    assert_eq!(bmts.len(), 1);
    let b = &bmts[0];
    assert_eq!(b.version, 8);
    assert_eq!(b.round, 77);
    assert_eq!(b.epoch, 2);
    assert_eq!(b.id, format!("0x{:0>64}", "ab"));
    assert_eq!(b.proposer, format!("0x{:0>64}", "cd"));
    assert_eq!(b.failed_proposer_indices, vec![3, 5]);
    assert_eq!(b.timestamp, 1_700_000_000 * 1_000_000 + 500);
}

#[test]
fn table_item_history_rows_follow_change_order() {
    let txn = Transaction {
        info: Some(info_with_changes(vec![
            WriteSetChangeInput::WriteResource {
                address: "0x1".to_string(),
            },
            write_table_item("0xAA", "H1"),
            WriteSetChangeInput::DeleteTableItem {
                handle: "0xAA".to_string(),
                key: "0x22".to_string(),
                key_hash: "H2".to_string(),
                decoded_key: "\"k2\"".to_string(),
            },
        ])),
        ..base_txn(5, None)
    };
    let (_bmts, (items, ctis, _tms)) =
        default_process_transactions(&vec![txn], TableFlags::empty());
    assert_eq!(items.len(), 2);
    // The write-set change index is the position within the transaction.
    assert_eq!(items[0].write_set_change_index, 1);
    assert!(!items[0].is_deleted);
    assert_eq!(items[1].write_set_change_index, 2);
    assert!(items[1].is_deleted);
    assert_eq!(items[1].decoded_value, None);
    assert_eq!(ctis.len(), 2);
}

#[test]
fn handle_spellings_normalize_to_one_key() {
    // Two writes whose handles differ only as hex spellings of the same
    // value (case, prefix) merge into one current-state row.
    let t5 = Transaction {
        info: Some(info_with_changes(vec![write_table_item("0xAA", "0xH1")])),
        ..base_txn(5, None)
    };
    let t7 = Transaction {
        info: Some(info_with_changes(vec![write_table_item("aa", "0xH1")])),
        ..base_txn(7, None)
    };
    let (_bmts, (_items, current_items, metadata)) =
        default_process_transactions(&vec![t5, t7], TableFlags::empty());
    assert_eq!(current_items.len(), 1);
    assert_eq!(current_items[0].last_transaction_version, 7);
    assert_eq!(metadata.len(), 1);
}

#[test]
fn deprecation_leaves_other_collections_unchanged() {
    let make_batch = || {
        vec![Transaction {
            info: Some(info_with_changes(vec![write_table_item("0xAA", "H")])),
            ..base_txn(5, None)
        }]
    };
    let (bmts_a, (items_a, ctis_a, tms_a)) =
        default_process_transactions(&make_batch(), TableFlags::empty());
    let (bmts_b, (items_b, ctis_b, tms_b)) =
        default_process_transactions(&make_batch(), TableFlags::from_bits(TABLE_ITEMS));
    // The deprecated collection empties; everything else is identical.
    assert_eq!(items_a.len(), 1);
    assert_eq!(items_b.len(), 0);
    assert_eq!(bmts_a.len(), bmts_b.len());
    assert_eq!(ctis_a.len(), ctis_b.len());
    assert_eq!(tms_a.len(), tms_b.len());
    for (a, b) in ctis_a.iter().zip(ctis_b.iter()) {
        assert_eq!(a.table_handle, b.table_handle);
        assert_eq!(a.key_hash, b.key_hash);
        assert_eq!(a.key, b.key);
        assert_eq!(a.decoded_key, b.decoded_key);
        assert_eq!(a.decoded_value, b.decoded_value);
        assert_eq!(a.last_transaction_version, b.last_transaction_version);
        assert_eq!(a.is_deleted, b.is_deleted);
    }
    for (a, b) in tms_a.iter().zip(tms_b.iter()) {
        assert_eq!(a.handle, b.handle);
        assert_eq!(a.key_type, b.key_type);
        assert_eq!(a.value_type, b.value_type);
    }
}
