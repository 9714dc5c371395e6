//! The denormalized raw transaction record: one per input transaction,
//! composing the transaction info, the user request if any, and the
//! events and signatures.

use vstd::prelude::*;

verus! {

use crate::address::{standardize_address, spec_standardize, hex_of, hex_encode};
use crate::events_processor::{Event, parse_events, event_matches, event_inputs_wf};
use crate::transaction::{Transaction, TxnData, timestamp_in_range, spec_timestamp_micros};
use crate::user_transaction_processor::{
    Signature,
    UserTransaction,
    signature_matches,
    user_inputs_wf,
};

/// The record published to the raw-transactions topic.  Hashes are in
/// canonical form; the sender fields are zero or empty for transactions
/// that carry no user request; the timestamp is in microseconds.
pub struct RawTransaction {
    pub version: u64,
    pub hash: String,
    pub state_change_hash: String,
    pub event_root_hash: String,
    pub state_checkpoint_hash: Option<String>,
    pub gas_used: u64,
    pub success: bool,
    pub vm_status: String,
    pub accumulator_root_hash: String,
    pub sender: String,
    pub sequence_number: i64,
    pub max_gas_amount: u64,
    pub gas_unit_price: u64,
    pub expiration_timestamp_secs: i64,
    pub payload_type: Option<String>,
    pub payload: Option<String>,
    pub signature: Vec<Signature>,
    pub events: Vec<Event>,
    pub timestamp: i64,
    pub type_: String,
    pub block_height: i64,
}

/// A byte hash in canonical form: its lowercase hex, zero-padded and
/// `0x`-prefixed.
pub open spec fn spec_hash_form(bs: Seq<u8>) -> Seq<char> {
    spec_standardize(hex_of(bs))
}

/// What the raw record of a transaction holds.
pub open spec fn raw_matches(r: RawTransaction, txn: Transaction) -> bool {
    let info = txn.info->0;
    &&& r.version == txn.version
    &&& r.hash@ == spec_hash_form(info.hash@)
    &&& r.state_change_hash@ == spec_hash_form(info.state_change_hash@)
    &&& r.event_root_hash@ == spec_hash_form(info.event_root_hash@)
    &&& match info.state_checkpoint_hash {
        Some(h) => r.state_checkpoint_hash is Some && r.state_checkpoint_hash->0@
            == spec_hash_form(h@),
        None => r.state_checkpoint_hash is None,
    }
    &&& r.gas_used == info.gas_used
    &&& r.success == info.success
    &&& r.vm_status@ == info.vm_status@
    &&& r.accumulator_root_hash@ == spec_hash_form(info.accumulator_root_hash@)
    &&& match txn.txn_data {
        Some(TxnData::User(d)) => {
            &&& r.sender@ == spec_standardize(d.request.sender@)
            &&& r.sequence_number == d.request.sequence_number as i64
            &&& r.max_gas_amount == d.request.max_gas_amount
            &&& r.gas_unit_price == d.request.gas_unit_price
            &&& r.expiration_timestamp_secs == d.request.expiration_timestamp_secs
            &&& match d.request.payload {
                Some(p) => r.payload_type is Some && r.payload_type->0@ == p.payload_type@
                    && r.payload is Some && r.payload->0@ == p.payload_json@,
                None => r.payload_type is None && r.payload is None,
            }
            &&& r.signature@.len() == d.request.signatures@.len()
            &&& forall|i: int|
                0 <= i < r.signature@.len() ==> signature_matches(
                    #[trigger] r.signature@[i],
                    d.request.signatures@[i],
                    txn.block_height as i64,
                    txn.version as i64,
                )
        },
        _ => {
            &&& r.sender@ == Seq::<char>::empty()
            &&& r.sequence_number == 0
            &&& r.max_gas_amount == 0
            &&& r.gas_unit_price == 0
            &&& r.expiration_timestamp_secs == 0
            &&& r.payload_type is None
            &&& r.payload is None
            &&& r.signature@.len() == 0
        },
    }
    &&& r.events@.len() == txn.spec_events().len()
    &&& forall|i: int|
        0 <= i < r.events@.len() ==> event_matches(#[trigger] r.events@[i], txn, i)
    &&& r.timestamp == spec_timestamp_micros(txn.timestamp->0)
    &&& r.type_@ == txn.txn_type.spec_str_name()
    &&& r.block_height == txn.block_height as i64
}

/// Normalizes a byte hash: lowercase hex, zero-padded, `0x`-prefixed.
fn hash_to_standard(bytes: &[u8]) -> (r: String)
    ensures
        r@ == spec_hash_form(bytes@),
{
    let hex = hex_encode(bytes);
    standardize_address(hex.as_str())
}

impl RawTransaction {
    /// Builds the denormalized record of one transaction.
    pub fn from_transaction(txn: &Transaction) -> (r: RawTransaction)
        requires
            txn.info is Some,
            txn.timestamp is Some,
            timestamp_in_range(txn.timestamp->0),
            event_inputs_wf(*txn),
            user_inputs_wf(*txn),
        ensures
            raw_matches(r, *txn),
    {
        let info = txn.info.as_ref().unwrap();
        let ts = txn.timestamp.as_ref().unwrap();
        let block_height = txn.block_height as i64;
        let txn_version = txn.version as i64;

        let mut sender: String = String::new();
        let mut sequence_number: i64 = 0;
        let mut max_gas_amount: u64 = 0;
        let mut gas_unit_price: u64 = 0;
        let mut expiration_timestamp_secs: i64 = 0;
        let mut payload_type: Option<String> = None;
        let mut payload: Option<String> = None;
        let mut signature: Vec<Signature> = Vec::new();
        if let Some(TxnData::User(d)) = &txn.txn_data {
            let (user_transaction, sigs) = UserTransaction::from_transaction(
                &d.request,
                ts,
                block_height,
                txn.epoch as i64,
                txn_version,
            );
            if let Some(p) = &d.request.payload {
                payload = Some(p.payload_json.clone());
                payload_type = Some(p.payload_type.clone());
            }
            sender = user_transaction.sender;
            sequence_number = user_transaction.sequence_number;
            max_gas_amount = user_transaction.max_gas_amount;
            gas_unit_price = user_transaction.gas_unit_price;
            expiration_timestamp_secs = user_transaction.expiration_timestamp_secs;
            signature = sigs;
        }
        let events = parse_events(txn);

        RawTransaction {
            version: txn.version,
            hash: hash_to_standard(info.hash.as_slice()),
            state_change_hash: hash_to_standard(info.state_change_hash.as_slice()),
            event_root_hash: hash_to_standard(info.event_root_hash.as_slice()),
            state_checkpoint_hash: match &info.state_checkpoint_hash {
                Some(h) => Some(hash_to_standard(h.as_slice())),
                None => None,
            },
            gas_used: info.gas_used,
            success: info.success,
            vm_status: info.vm_status.clone(),
            accumulator_root_hash: hash_to_standard(info.accumulator_root_hash.as_slice()),
            sender,
            sequence_number,
            max_gas_amount,
            gas_unit_price,
            expiration_timestamp_secs,
            payload_type,
            payload,
            signature,
            events,
            timestamp: crate::transaction::parse_timestamp(ts),
            type_: txn.txn_type.as_str_name(),
            block_height,
        }
    }
}

pub type RawTransactionModel = RawTransaction;

} // verus!
