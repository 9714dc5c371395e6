//! The user-transaction processor: one `UserTransaction` record per
//! user-typed transaction, with the signatures of its request.
//!
//! A transaction without its `txn_data` union is skipped and counted as
//! an unknown type; transactions of other types contribute nothing.

use vstd::prelude::*;

verus! {

use vstd::string::StringExecFns;
use crate::address::{standardize_address, spec_standardize, hex_of, hex_encode};
use crate::events_processor::spec_unknown_count;
use crate::mq::CustomProducerEnum;
use crate::table_flags::TableFlags;
use crate::transaction::{
    Transaction,
    Timestamp,
    TxnData,
    UserTransactionRequest,
    timestamp_in_range,
    spec_timestamp_micros,
    parse_timestamp,
};
use crate::writer::{ConflictPolicy, UpsertQuery};

/// A row of the `user_transactions` table; primary key `version`.
pub struct UserTransaction {
    pub version: i64,
    pub block_height: i64,
    pub parent_signature_type: String,
    pub sender: String,
    pub sequence_number: i64,
    pub max_gas_amount: u64,
    pub expiration_timestamp_secs: i64,
    pub gas_unit_price: u64,
    pub timestamp: i64,
    pub entry_function_id_str: String,
    pub epoch: i64,
}

/// A row of the `signatures` table; primary key `(transaction_version,
/// multi_agent_index, multi_sig_index, is_sender_primary)`.
pub struct Signature {
    pub transaction_version: i64,
    pub multi_agent_index: i64,
    pub multi_sig_index: i64,
    pub transaction_block_height: i64,
    pub signer: String,
    pub is_sender_primary: bool,
    pub type_: String,
    pub public_key: String,
    pub signature: String,
    pub threshold: i64,
}

/// A byte string in `0x`-prefixed lowercase hex, unpadded.
pub open spec fn spec_hex_with_prefix(bs: Seq<u8>) -> Seq<char> {
    seq!['0', 'x'] + hex_of(bs)
}

/// Encodes bytes as `0x`-prefixed lowercase hex.
pub fn hex_with_prefix(bytes: &[u8]) -> (r: String)
    ensures
        r@ == spec_hex_with_prefix(bytes@),
{
    let r = String::from_str("0x").concat(hex_encode(bytes).as_str());
    proof {
        reveal_strlit("0x");
        assert(r@ =~= spec_hex_with_prefix(bytes@));
    }
    r
}

/// Inputs the extraction reads from a user transaction request.
pub open spec fn user_request_wf(req: UserTransactionRequest) -> bool {
    &&& req.sequence_number <= i64::MAX as u64
    &&& req.signatures@.len() <= i64::MAX as int
}

/// What the record built from a user transaction request holds.
pub open spec fn user_txn_matches(
    u: UserTransaction,
    req: UserTransactionRequest,
    ts: Timestamp,
    block_height: i64,
    epoch: i64,
    version: i64,
) -> bool {
    &&& u.version == version
    &&& u.block_height == block_height
    &&& u.parent_signature_type@ == req.parent_signature_type@
    &&& u.sender@ == spec_standardize(req.sender@)
    &&& u.sequence_number == req.sequence_number as i64
    &&& u.max_gas_amount == req.max_gas_amount
    &&& u.expiration_timestamp_secs == req.expiration_timestamp_secs
    &&& u.gas_unit_price == req.gas_unit_price
    &&& u.timestamp == spec_timestamp_micros(ts)
    &&& u.entry_function_id_str@ == req.entry_function_id_str@
    &&& u.epoch == epoch
}

/// What the signature record built from one input signature holds.
pub open spec fn signature_matches(
    s: Signature,
    sig: crate::transaction::SignatureInput,
    block_height: i64,
    version: i64,
) -> bool {
    &&& s.transaction_version == version
    &&& s.multi_agent_index == sig.multi_agent_index
    &&& s.multi_sig_index == sig.multi_sig_index
    &&& s.transaction_block_height == block_height
    &&& s.signer@ == spec_standardize(sig.signer@)
    &&& s.is_sender_primary == sig.is_sender_primary
    &&& s.type_@ == sig.type_str@
    &&& s.public_key@ == spec_hex_with_prefix(sig.public_key@)
    &&& s.signature@ == spec_hex_with_prefix(sig.signature@)
    &&& s.threshold == sig.threshold
}

impl UserTransaction {
    /// Builds the user-transaction record and its signature records from
    /// one request.
    pub fn from_transaction(
        req: &UserTransactionRequest,
        timestamp: &Timestamp,
        block_height: i64,
        epoch: i64,
        version: i64,
    ) -> (r: (UserTransaction, Vec<Signature>))
        requires
            timestamp_in_range(*timestamp),
            user_request_wf(*req),
        ensures
            user_txn_matches(r.0, *req, *timestamp, block_height, epoch, version),
            r.1@.len() == req.signatures@.len(),
            forall|i: int|
                0 <= i < r.1@.len() ==> signature_matches(
                    #[trigger] r.1@[i],
                    req.signatures@[i],
                    block_height,
                    version,
                ),
    {
        let user_transaction = UserTransaction {
            version,
            block_height,
            parent_signature_type: req.parent_signature_type.clone(),
            sender: standardize_address(req.sender.as_str()),
            sequence_number: req.sequence_number as i64,
            max_gas_amount: req.max_gas_amount,
            expiration_timestamp_secs: req.expiration_timestamp_secs,
            gas_unit_price: req.gas_unit_price,
            timestamp: parse_timestamp(timestamp),
            entry_function_id_str: req.entry_function_id_str.clone(),
            epoch,
        };
        let mut sigs: Vec<Signature> = Vec::new();
        let mut i: usize = 0;
        while i < req.signatures.len()
            invariant
                i <= req.signatures@.len(),
                sigs@.len() == i,
                forall|j: int|
                    0 <= j < i ==> signature_matches(
                        #[trigger] sigs@[j],
                        req.signatures@[j],
                        block_height,
                        version,
                    ),
            decreases req.signatures@.len() - i,
        {
            let sig = &req.signatures[i];
            sigs.push(
                Signature {
                    transaction_version: version,
                    multi_agent_index: sig.multi_agent_index,
                    multi_sig_index: sig.multi_sig_index,
                    transaction_block_height: block_height,
                    signer: standardize_address(sig.signer.as_str()),
                    is_sender_primary: sig.is_sender_primary,
                    type_: sig.type_str.clone(),
                    public_key: hex_with_prefix(sig.public_key.as_slice()),
                    signature: hex_with_prefix(sig.signature.as_slice()),
                    threshold: sig.threshold,
                },
            );
            i = i + 1;
        }
        (user_transaction, sigs)
    }
}

/// Inputs a transaction must satisfy before user-transaction extraction.
pub open spec fn user_inputs_wf(txn: Transaction) -> bool {
    &&& txn.version <= i64::MAX as u64
    &&& txn.block_height <= i64::MAX as u64
    &&& txn.epoch <= i64::MAX as u64
    &&& match txn.txn_data {
        Some(TxnData::User(d)) => user_request_wf(d.request) && txn.timestamp is Some
            && timestamp_in_range(txn.timestamp->0),
        _ => true,
    }
}

/// Whether a transaction is user-typed.
pub open spec fn is_user_txn(txn: Transaction) -> bool {
    txn.txn_data matches Some(TxnData::User(_))
}

/// The request of a user-typed transaction.
pub open spec fn spec_user_request(txn: Transaction) -> UserTransactionRequest
    recommends
        is_user_txn(txn),
{
    txn.txn_data->0->User_0.request
}

/// The number of user-typed transactions in a batch.
pub open spec fn spec_user_count(txns: Seq<Transaction>) -> int
    decreases txns.len(),
{
    if txns.len() == 0 {
        0
    } else {
        spec_user_count(txns.drop_last()) + if is_user_txn(txns.last()) {
            1int
        } else {
            0int
        }
    }
}

/// The number of signatures over the user-typed transactions of a batch.
pub open spec fn spec_batch_sig_count(txns: Seq<Transaction>) -> int
    decreases txns.len(),
{
    if txns.len() == 0 {
        0
    } else {
        spec_batch_sig_count(txns.drop_last()) + if is_user_txn(txns.last()) {
            spec_user_request(txns.last()).signatures@.len() as int
        } else {
            0int
        }
    }
}

pub open spec fn spec_user_offset(txns: Seq<Transaction>, t: int) -> int {
    spec_user_count(txns.take(t))
}

pub open spec fn spec_sig_offset(txns: Seq<Transaction>, t: int) -> int {
    spec_batch_sig_count(txns.take(t))
}

proof fn lemma_unknown_take_step(txns: Seq<Transaction>, t: int)
    requires
        0 <= t < txns.len(),
    ensures
        spec_unknown_count(txns.take(t + 1)) == spec_unknown_count(txns.take(t)) + if txns[t]
            .txn_data is None {
            1int
        } else {
            0int
        },
{
    assert(txns.take(t + 1).drop_last() =~= txns.take(t));
    assert(txns.take(t + 1).last() == txns[t]);
}

proof fn lemma_user_counts_take_step(txns: Seq<Transaction>, t: int)
    requires
        0 <= t < txns.len(),
    ensures
        spec_user_count(txns.take(t + 1)) == spec_user_count(txns.take(t)) + if is_user_txn(
            txns[t],
        ) {
            1int
        } else {
            0int
        },
        spec_batch_sig_count(txns.take(t + 1)) == spec_batch_sig_count(txns.take(t))
            + if is_user_txn(txns[t]) {
            spec_user_request(txns[t]).signatures@.len() as int
        } else {
            0int
        },
{
    assert(txns.take(t + 1).drop_last() =~= txns.take(t));
    assert(txns.take(t + 1).last() == txns[t]);
}

proof fn lemma_user_counts_nonneg(txns: Seq<Transaction>)
    ensures
        spec_user_count(txns) >= 0,
        spec_batch_sig_count(txns) >= 0,
    decreases txns.len(),
{
    if txns.len() > 0 {
        lemma_user_counts_nonneg(txns.drop_last());
    }
}

proof fn lemma_user_offsets_mono(txns: Seq<Transaction>, k: int, t: int)
    requires
        0 <= k < t <= txns.len(),
    ensures
        spec_user_offset(txns, k) + (if is_user_txn(txns[k]) {
            1int
        } else {
            0int
        }) <= spec_user_offset(txns, t),
        spec_sig_offset(txns, k) + (if is_user_txn(txns[k]) {
            spec_user_request(txns[k]).signatures@.len() as int
        } else {
            0int
        }) <= spec_sig_offset(txns, t),
    decreases t - k,
{
    lemma_user_counts_take_step(txns, t - 1);
    if k < t - 1 {
        lemma_user_offsets_mono(txns, k, t - 1);
    }
}

/// Extracts the user-transaction and signature records of a whole batch,
/// in version order, counting the transactions whose `txn_data` is
/// absent.  When the `signatures` table is deprecated its collection
/// comes back empty.
#[verifier::rlimit(60)]
pub fn user_transaction_parse(transactions: &Vec<Transaction>, deprecated_tables: TableFlags) -> (r:
    (Vec<UserTransaction>, Vec<Signature>, u64))
    requires
        forall|t: int| 0 <= t < transactions@.len() ==> user_inputs_wf(#[trigger] transactions@[t]),
        transactions@.len() < u64::MAX,
    ensures
        r.0@.len() == spec_user_count(transactions@),
        forall|t: int|
            #![trigger transactions@[t]]
            0 <= t < transactions@.len() && is_user_txn(transactions@[t]) ==> user_txn_matches(
                r.0@[spec_user_offset(transactions@, t)],
                spec_user_request(transactions@[t]),
                transactions@[t].timestamp->0,
                transactions@[t].block_height as i64,
                transactions@[t].epoch as i64,
                transactions@[t].version as i64,
            ),
        deprecated_tables.spec_contains(crate::table_flags::SIGNATURES) ==> r.1@.len() == 0,
        !deprecated_tables.spec_contains(crate::table_flags::SIGNATURES) ==> r.1@.len()
            == spec_batch_sig_count(transactions@) && (forall|t: int, i: int|
            #![trigger spec_user_request(transactions@[t]).signatures@[i]]
            0 <= t < transactions@.len() && is_user_txn(transactions@[t]) && 0 <= i
                < spec_user_request(transactions@[t]).signatures@.len() ==> signature_matches(
                r.1@[spec_sig_offset(transactions@, t) + i],
                spec_user_request(transactions@[t]).signatures@[i],
                transactions@[t].block_height as i64,
                transactions@[t].version as i64,
            )),
        r.2 == spec_unknown_count(transactions@),
{
    let mut user_transactions: Vec<UserTransaction> = Vec::new();
    let mut signatures: Vec<Signature> = Vec::new();
    let mut unknown: u64 = 0;
    let mut t: usize = 0;
    proof {
        assert(transactions@.take(0) =~= Seq::<Transaction>::empty());
    }
    while t < transactions.len()
        invariant
            t <= transactions@.len(),
            transactions@.len() < u64::MAX,
            unknown <= t,
            forall|k: int| 0 <= k < transactions@.len() ==> user_inputs_wf(
                #[trigger] transactions@[k],
            ),
            user_transactions@.len() == spec_user_count(transactions@.take(t as int)),
            signatures@.len() == spec_batch_sig_count(transactions@.take(t as int)),
            unknown == spec_unknown_count(transactions@.take(t as int)),
            forall|k: int|
                #![trigger transactions@[k]]
                0 <= k < t && is_user_txn(transactions@[k]) ==> user_txn_matches(
                    user_transactions@[spec_user_offset(transactions@, k)],
                    spec_user_request(transactions@[k]),
                    transactions@[k].timestamp->0,
                    transactions@[k].block_height as i64,
                    transactions@[k].epoch as i64,
                    transactions@[k].version as i64,
                ),
            forall|k: int, i: int|
                #![trigger spec_user_request(transactions@[k]).signatures@[i]]
                0 <= k < t && is_user_txn(transactions@[k]) && 0 <= i < spec_user_request(
                    transactions@[k],
                ).signatures@.len() ==> signature_matches(
                    signatures@[spec_sig_offset(transactions@, k) + i],
                    spec_user_request(transactions@[k]).signatures@[i],
                    transactions@[k].block_height as i64,
                    transactions@[k].version as i64,
                ),
        decreases transactions@.len() - t,
    {
        let txn = &transactions[t];
        let ghost prev_users = user_transactions@;
        let ghost prev_sigs = signatures@;
        if txn.txn_data.is_none() {
            unknown = unknown + 1;
        }
        proof {
            lemma_unknown_take_step(transactions@, t as int);
        }
        match &txn.txn_data {
            Some(TxnData::User(d)) => {
                let ts = txn.timestamp.as_ref().unwrap();
                let (user_transaction, mut sigs) = UserTransaction::from_transaction(
                    &d.request,
                    ts,
                    txn.block_height as i64,
                    txn.epoch as i64,
                    txn.version as i64,
                );
                let ghost sig_views = sigs@;
                proof {
                    assert(is_user_txn(transactions@[t as int]));
                    assert(spec_user_request(transactions@[t as int]) == d.request);
                }
                user_transactions.push(user_transaction);
                signatures.append(&mut sigs);
                proof {
                    lemma_user_counts_take_step(transactions@, t as int);
                    assert(spec_user_offset(transactions@, t as int) == prev_users.len());
                    assert(spec_sig_offset(transactions@, t as int) == prev_sigs.len());
                    assert forall|k: int|
                        #![trigger transactions@[k]]
                        0 <= k < t + 1 && is_user_txn(transactions@[k]) implies user_txn_matches(
                        user_transactions@[spec_user_offset(transactions@, k)],
                        spec_user_request(transactions@[k]),
                        transactions@[k].timestamp->0,
                        transactions@[k].block_height as i64,
                        transactions@[k].epoch as i64,
                        transactions@[k].version as i64,
                    ) by {
                        lemma_user_counts_nonneg(transactions@.take(k));
                        if k < t {
                            lemma_user_offsets_mono(transactions@, k, t as int);
                            assert(user_transactions@[spec_user_offset(transactions@, k)]
                                == prev_users[spec_user_offset(transactions@, k)]);
                        }
                    }
                    assert forall|k: int, i: int|
                        #![trigger spec_user_request(transactions@[k]).signatures@[i]]
                        0 <= k < t + 1 && is_user_txn(transactions@[k]) && 0 <= i
                            < spec_user_request(transactions@[k]).signatures@.len() implies signature_matches(
                        signatures@[spec_sig_offset(transactions@, k) + i],
                        spec_user_request(transactions@[k]).signatures@[i],
                        transactions@[k].block_height as i64,
                        transactions@[k].version as i64,
                    ) by {
                        lemma_user_counts_nonneg(transactions@.take(k));
                        if k < t {
                            lemma_user_offsets_mono(transactions@, k, t as int);
                            assert(signatures@[spec_sig_offset(transactions@, k) + i] == prev_sigs[
                                spec_sig_offset(transactions@, k) + i]);
                        } else {
                            assert(spec_user_request(transactions@[k]) == d.request);
                            assert(signatures@[spec_sig_offset(transactions@, k) + i]
                                == sig_views[i]);
                        }
                    }
                }
            },
            _ => {
                proof {
                    assert(!is_user_txn(transactions@[t as int]));
                }
                proof {
                    lemma_user_counts_take_step(transactions@, t as int);
                    assert(spec_user_offset(transactions@, t as int) == prev_users.len());
                    assert(spec_sig_offset(transactions@, t as int) == prev_sigs.len());
                    assert forall|k: int|
                        #![trigger transactions@[k]]
                        0 <= k < t + 1 && is_user_txn(transactions@[k]) implies user_txn_matches(
                        user_transactions@[spec_user_offset(transactions@, k)],
                        spec_user_request(transactions@[k]),
                        transactions@[k].timestamp->0,
                        transactions@[k].block_height as i64,
                        transactions@[k].epoch as i64,
                        transactions@[k].version as i64,
                    ) by {
                        lemma_user_counts_nonneg(transactions@.take(k));
                        if k < t {
                            lemma_user_offsets_mono(transactions@, k, t as int);
                            assert(user_transactions@[spec_user_offset(transactions@, k)]
                                == prev_users[spec_user_offset(transactions@, k)]);
                        }
                    }
                    assert forall|k: int, i: int|
                        #![trigger spec_user_request(transactions@[k]).signatures@[i]]
                        0 <= k < t + 1 && is_user_txn(transactions@[k]) && 0 <= i
                            < spec_user_request(transactions@[k]).signatures@.len() implies signature_matches(
                        signatures@[spec_sig_offset(transactions@, k) + i],
                        spec_user_request(transactions@[k]).signatures@[i],
                        transactions@[k].block_height as i64,
                        transactions@[k].version as i64,
                    ) by {
                        lemma_user_counts_nonneg(transactions@.take(k));
                        if k < t {
                            lemma_user_offsets_mono(transactions@, k, t as int);
                            assert(signatures@[spec_sig_offset(transactions@, k) + i] == prev_sigs[
                                spec_sig_offset(transactions@, k) + i]);
                        } else {
                            assert(false);
                        }
                    }
                }
            },
        }
        t = t + 1;
    }
    proof {
        assert(transactions@.take(transactions@.len() as int) =~= transactions@);
    }
    if deprecated_tables.contains(crate::table_flags::SIGNATURES) {
        signatures.clear();
    }
    (user_transactions, signatures, unknown)
}

/// The user-transaction processor: broker producer, per-table chunk
/// sizes and the deprecation bitset; the database pool stays with the
/// runtime.
pub struct UserTransactionProcessor {
    pub producer: CustomProducerEnum,
    pub per_table_chunk_sizes: Vec<(String, usize)>,
    pub deprecated_tables: TableFlags,
}

impl UserTransactionProcessor {
    pub fn new(
        producer: CustomProducerEnum,
        per_table_chunk_sizes: Vec<(String, usize)>,
        deprecated_tables: TableFlags,
    ) -> (r: UserTransactionProcessor)
        ensures
            r.producer == producer,
            r.per_table_chunk_sizes == per_table_chunk_sizes,
            r.deprecated_tables == deprecated_tables,
    {
        UserTransactionProcessor { producer, per_table_chunk_sizes, deprecated_tables }
    }

    pub fn name(&self) -> (r: &'static str)
        ensures
            r@ == "user_transaction_processor"@,
    {
        "user_transaction_processor"
    }
}

/// The two topics the user-transaction processor publishes to.
pub fn produce_to_mq_topics(network: crate::network::Network) -> (r: (String, String))
    ensures
        r.0@ == crate::network::spec_topic(network, "user.transactions"@),
        r.1@ == crate::network::spec_topic(network, "signatures"@),
{
    (
        crate::network::topic_name(network, "user.transactions"),
        crate::network::topic_name(network, "signatures"),
    )
}

/// The bulk insert for `user_transactions`: an upsert on the version
/// that refreshes the entry-function columns.
pub fn insert_user_transactions_query(items_to_insert: &Vec<UserTransaction>) -> (r: UpsertQuery)
    ensures
        r.table@ == "user_transactions"@,
        r.conflict_columns@.len() == 1 && r.conflict_columns@[0]@ == "version"@,
        r.policy == ConflictPolicy::UpdateSet,
        r.update_columns@.len() == 4 && r.update_columns@[0]@
            == "entry_function_contract_address"@ && r.update_columns@[1]@
            == "entry_function_module_name"@ && r.update_columns@[2]@
            == "entry_function_function_name"@ && r.update_columns@[3]@ == "inserted_at"@,
        r.filter is None,
        r.n_rows == items_to_insert@.len(),
{
    UpsertQuery {
        table: "user_transactions",
        conflict_columns: vec!["version"],
        policy: ConflictPolicy::UpdateSet,
        update_columns: vec![
            "entry_function_contract_address",
            "entry_function_module_name",
            "entry_function_function_name",
            "inserted_at",
        ],
        filter: None,
        n_rows: items_to_insert.len(),
    }
}

/// The bulk insert for `signatures`: append-only on its four-column
/// primary key.
pub fn insert_signatures_query(items_to_insert: &Vec<Signature>) -> (r: UpsertQuery)
    ensures
        r.table@ == "signatures"@,
        r.conflict_columns@.len() == 4 && r.conflict_columns@[0]@ == "transaction_version"@
            && r.conflict_columns@[1]@ == "multi_agent_index"@ && r.conflict_columns@[2]@
            == "multi_sig_index"@ && r.conflict_columns@[3]@ == "is_sender_primary"@,
        r.policy == ConflictPolicy::DoNothing,
        r.update_columns@.len() == 0,
        r.filter is None,
        r.n_rows == items_to_insert@.len(),
{
    UpsertQuery {
        table: "signatures",
        conflict_columns: vec![
            "transaction_version",
            "multi_agent_index",
            "multi_sig_index",
            "is_sender_primary",
        ],
        policy: ConflictPolicy::DoNothing,
        update_columns: Vec::new(),
        filter: None,
        n_rows: items_to_insert.len(),
    }
}

} // verus!
