//! The raw-transaction processor: one denormalized record per input
//! transaction, published to the raw-transactions topic.  It writes no
//! database table.

use vstd::prelude::*;

verus! {

use crate::events_processor::event_inputs_wf;
use crate::mq::CustomProducerEnum;
use crate::raw_transaction::{RawTransaction, raw_matches};
use crate::transaction::{Transaction, timestamp_in_range};
use crate::user_transaction_processor::user_inputs_wf;

/// Inputs the raw extraction needs of every transaction in a batch.
pub open spec fn raw_inputs_wf(txn: Transaction) -> bool {
    &&& txn.info is Some
    &&& txn.timestamp is Some
    &&& timestamp_in_range(txn.timestamp->0)
    &&& event_inputs_wf(txn)
    &&& user_inputs_wf(txn)
}

/// Transforms a whole batch: one raw record per transaction, in order.
pub fn process_transactions(transactions: &Vec<Transaction>) -> (r: Vec<RawTransaction>)
    requires
        forall|t: int| 0 <= t < transactions@.len() ==> raw_inputs_wf(#[trigger] transactions@[t]),
    ensures
        r@.len() == transactions@.len(),
        forall|t: int|
            0 <= t < transactions@.len() ==> raw_matches(#[trigger] r@[t], transactions@[t]),
{
    let mut out: Vec<RawTransaction> = Vec::new();
    let mut t: usize = 0;
    while t < transactions.len()
        invariant
            t <= transactions@.len(),
            out@.len() == t,
            forall|k: int| 0 <= k < transactions@.len() ==> raw_inputs_wf(
                #[trigger] transactions@[k],
            ),
            forall|k: int| 0 <= k < t ==> raw_matches(#[trigger] out@[k], transactions@[k]),
        decreases transactions@.len() - t,
    {
        let raw_transaction = RawTransaction::from_transaction(&transactions[t]);
        out.push(raw_transaction);
        t = t + 1;
    }
    out
}

/// The raw-transaction processor: it only publishes, so it carries the
/// broker producer alone; the database pool stays with the runtime.
pub struct RawTransactionProcessor {
    pub producer: CustomProducerEnum,
}

impl RawTransactionProcessor {
    pub fn new(producer: CustomProducerEnum) -> (r: RawTransactionProcessor)
        ensures
            r.producer == producer,
    {
        RawTransactionProcessor { producer }
    }

    pub fn name(&self) -> (r: &'static str)
        ensures
            r@ == "raw_transaction_processor"@,
    {
        "raw_transaction_processor"
    }
}

/// The topic the raw-transaction processor publishes to.
pub fn produce_to_mq_topic(network: crate::network::Network) -> (r: String)
    ensures
        r@ == crate::network::spec_topic(network, "raw.transactions"@),
{
    crate::network::topic_name(network, "raw.transactions")
}

} // verus!
