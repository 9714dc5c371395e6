//! The input transaction model.
//!
//! The stream hands the pipeline decoded transactions as plain values:
//! the version and block position, the transaction info with its hashes
//! and write-set changes, and the tagged `txn_data` union.  The runtime
//! converts the on-wire protobuf form into this model; everything the
//! processors read is here.

use vstd::prelude::*;

verus! {

/// A point in time as the stream carries it: seconds and nanoseconds
/// since the epoch.
#[derive(Clone, Copy, PartialEq, Eq, Structural, Debug)]
pub struct Timestamp {
    pub seconds: i64,
    pub nanos: u32,
}

/// The latest second a stream timestamp may carry (end of year 9999).
pub const MAX_TIMESTAMP_SECS: i64 = 253_402_300_799;

/// Whether a stream timestamp is within the representable range.
pub open spec fn timestamp_in_range(ts: Timestamp) -> bool {
    0 <= ts.seconds <= MAX_TIMESTAMP_SECS && ts.nanos < 1_000_000_000
}

/// Microseconds since the epoch of a stream timestamp.
pub open spec fn spec_timestamp_micros(ts: Timestamp) -> int {
    ts.seconds * 1_000_000 + ts.nanos / 1000
}

/// Converts a stream timestamp to microseconds since the epoch.
pub fn parse_timestamp(ts: &Timestamp) -> (r: i64)
    requires
        timestamp_in_range(*ts),
    ensures
        r == spec_timestamp_micros(*ts),
{
    ts.seconds * 1_000_000 + (ts.nanos / 1000) as i64
}

/// The wire tag of a transaction.
#[derive(Clone, Copy, PartialEq, Eq, Structural, Debug)]
pub enum TransactionType {
    Unspecified,
    Genesis,
    BlockMetadata,
    StateCheckpoint,
    User,
    Validator,
    BlockEpilogue,
}

impl TransactionType {
    /// The wire name of the tag.
    pub open spec fn spec_str_name(self) -> Seq<char> {
        match self {
            TransactionType::Unspecified => "TRANSACTION_TYPE_UNSPECIFIED"@,
            TransactionType::Genesis => "TRANSACTION_TYPE_GENESIS"@,
            TransactionType::BlockMetadata => "TRANSACTION_TYPE_BLOCK_METADATA"@,
            TransactionType::StateCheckpoint => "TRANSACTION_TYPE_STATE_CHECKPOINT"@,
            TransactionType::User => "TRANSACTION_TYPE_USER"@,
            TransactionType::Validator => "TRANSACTION_TYPE_VALIDATOR"@,
            TransactionType::BlockEpilogue => "TRANSACTION_TYPE_BLOCK_EPILOGUE"@,
        }
    }

    pub fn as_str_name(&self) -> (r: String)
        ensures
            r@ == self.spec_str_name(),
    {
        match self {
            TransactionType::Unspecified => "TRANSACTION_TYPE_UNSPECIFIED".to_owned(),
            TransactionType::Genesis => "TRANSACTION_TYPE_GENESIS".to_owned(),
            TransactionType::BlockMetadata => "TRANSACTION_TYPE_BLOCK_METADATA".to_owned(),
            TransactionType::StateCheckpoint => "TRANSACTION_TYPE_STATE_CHECKPOINT".to_owned(),
            TransactionType::User => "TRANSACTION_TYPE_USER".to_owned(),
            TransactionType::Validator => "TRANSACTION_TYPE_VALIDATOR".to_owned(),
            TransactionType::BlockEpilogue => "TRANSACTION_TYPE_BLOCK_EPILOGUE".to_owned(),
        }
    }
}

/// One emitted move event, as decoded from the wire.
pub struct EventInput {
    pub account_address: String,
    pub creation_number: u64,
    pub sequence_number: u64,
    pub type_str: String,
    /// JSON text of the event payload.
    pub data: String,
}

/// The decoded content of one write-set table item change.
pub struct TableItemData {
    /// JSON text of the decoded key.
    pub key: String,
    pub key_type: String,
    /// JSON text of the decoded value; absent for a deletion.
    pub value: String,
    pub value_type: String,
}

/// One write-set change of a transaction.  Table item changes carry the
/// handle, the raw key, and the key's hash as computed upstream when the
/// wire form was decoded.
pub enum WriteSetChangeInput {
    WriteTableItem { handle: String, key: String, key_hash: String, data: TableItemData },
    DeleteTableItem { handle: String, key: String, key_hash: String, decoded_key: String },
    WriteResource { address: String },
    DeleteResource { address: String },
    WriteModule { address: String },
    DeleteModule { address: String },
}

/// The transaction info: hashes, gas, status and the write set.
pub struct TransactionInfo {
    pub hash: Vec<u8>,
    pub state_change_hash: Vec<u8>,
    pub event_root_hash: Vec<u8>,
    pub state_checkpoint_hash: Option<Vec<u8>>,
    pub accumulator_root_hash: Vec<u8>,
    pub gas_used: u64,
    pub success: bool,
    pub vm_status: String,
    pub changes: Vec<WriteSetChangeInput>,
}

/// The payload of a user transaction request, already cleaned and tagged
/// by the wire decoder.
pub struct PayloadInput {
    /// The payload kind tag, such as an entry-function payload.
    pub payload_type: String,
    /// JSON text of the cleaned payload.
    pub payload_json: String,
}

/// One signature of a user transaction, as decoded from the wire
/// signature tree.
pub struct SignatureInput {
    pub signer: String,
    pub is_sender_primary: bool,
    pub multi_agent_index: i64,
    pub multi_sig_index: i64,
    pub type_str: String,
    pub public_key: Vec<u8>,
    pub signature: Vec<u8>,
    pub threshold: i64,
}

/// The request of a user transaction.
pub struct UserTransactionRequest {
    pub sender: String,
    pub sequence_number: u64,
    pub max_gas_amount: u64,
    pub gas_unit_price: u64,
    pub expiration_timestamp_secs: i64,
    pub entry_function_id_str: String,
    pub parent_signature_type: String,
    pub payload: Option<PayloadInput>,
    pub signatures: Vec<SignatureInput>,
}

/// Data carried only by block-metadata transactions.
pub struct BlockMetadataTxnData {
    pub id: String,
    pub round: u64,
    pub previous_block_votes_bitvec: Vec<u8>,
    pub proposer: String,
    pub failed_proposer_indices: Vec<u32>,
    pub events: Vec<EventInput>,
}

pub struct GenesisTxnData {
    pub events: Vec<EventInput>,
}

pub struct UserTxnData {
    pub request: UserTransactionRequest,
    pub events: Vec<EventInput>,
}

pub struct ValidatorTxnData {
    pub events: Vec<EventInput>,
}

/// The tagged union of transaction payloads.
pub enum TxnData {
    BlockMetadata(BlockMetadataTxnData),
    Genesis(GenesisTxnData),
    User(UserTxnData),
    Validator(ValidatorTxnData),
    Other,
}

/// One decoded transaction of the stream.
pub struct Transaction {
    pub version: u64,
    pub block_height: u64,
    pub epoch: u64,
    pub timestamp: Option<Timestamp>,
    pub txn_type: TransactionType,
    pub info: Option<TransactionInfo>,
    pub txn_data: Option<TxnData>,
}

impl Transaction {
    /// The events the transaction carries, over all payload variants.
    pub open spec fn spec_events(self) -> Seq<EventInput> {
        match self.txn_data {
            Some(TxnData::BlockMetadata(d)) => d.events@,
            Some(TxnData::Genesis(d)) => d.events@,
            Some(TxnData::User(d)) => d.events@,
            Some(TxnData::Validator(d)) => d.events@,
            Some(TxnData::Other) => Seq::empty(),
            None => Seq::empty(),
        }
    }
}

} // verus!
