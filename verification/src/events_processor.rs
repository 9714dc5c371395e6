//! The events processor: one `Event` record per move event of every
//! transaction that carries events.
//!
//! A transaction without its `txn_data` union is skipped and counted as
//! an unknown type; it contributes no records and does not fail the
//! batch.

use vstd::prelude::*;

verus! {

use vstd::string::StrSliceExecFns;
use crate::address::{standardize_address, spec_standardize};
use crate::mq::CustomProducerEnum;
use crate::transaction::Transaction;

/// Characters of an event type kept in the indexed type column.
pub const MAX_INDEXED_TYPE_CHARS: usize = 300;

/// An event record, as published and as written to the `events` table.
/// Its primary key is `(transaction_version, event_index)`.
pub struct Event {
    pub sequence_number: i64,
    pub creation_number: i64,
    pub account_address: String,
    pub transaction_version: i64,
    pub transaction_block_height: i64,
    pub type_: String,
    /// JSON text of the event payload.
    pub data: String,
    pub event_index: i64,
    pub indexed_type: String,
}

/// The first `n` characters of a sequence, or all of it if shorter.
pub open spec fn spec_truncate(s: Seq<char>, n: int) -> Seq<char> {
    if s.len() <= n {
        s
    } else {
        s.take(n)
    }
}

/// Truncates a string to at most `n` characters.
pub fn truncate_str(s: &str, n: usize) -> (r: String)
    ensures
        r@ == spec_truncate(s@, n as int),
{
    let len = s.unicode_len();
    if len <= n {
        s.to_owned()
    } else {
        s.substring_char(0, n).to_owned()
    }
}

/// What the `i`-th event record extracted from a transaction holds: the
/// event's fields with the address normalized, the transaction's
/// position, the position of the event in the transaction, and the type
/// truncated for indexing.
pub open spec fn event_matches(e: Event, txn: Transaction, i: int) -> bool {
    let ev = txn.spec_events()[i];
    &&& e.sequence_number == ev.sequence_number as i64
    &&& e.creation_number == ev.creation_number as i64
    &&& e.account_address@ == spec_standardize(ev.account_address@)
    &&& e.transaction_version == txn.version as i64
    &&& e.transaction_block_height == txn.block_height as i64
    &&& e.type_@ == ev.type_str@
    &&& e.data@ == ev.data@
    &&& e.event_index == i
    &&& e.indexed_type@ == spec_truncate(ev.type_str@, MAX_INDEXED_TYPE_CHARS as int)
}

/// Inputs a transaction must satisfy before extraction: present, in-range
/// timestamp and counters that fit the record columns.
pub open spec fn event_inputs_wf(txn: Transaction) -> bool {
    &&& txn.version <= i64::MAX as u64
    &&& txn.block_height <= i64::MAX as u64
    &&& txn.spec_events().len() <= i64::MAX as int
    &&& forall|i: int|
        0 <= i < txn.spec_events().len() ==> (#[trigger] txn.spec_events()[i]).sequence_number
            <= i64::MAX as u64 && txn.spec_events()[i].creation_number <= i64::MAX as u64
}

/// Extracts the event records of one transaction, in event order.
pub fn parse_events(txn: &Transaction) -> (r: Vec<Event>)
    requires
        event_inputs_wf(*txn),
    ensures
        r@.len() == txn.spec_events().len(),
        forall|i: int| 0 <= i < r@.len() ==> event_matches(#[trigger] r@[i], *txn, i),
{
    let mut out: Vec<Event> = Vec::new();
    let events: &Vec<crate::transaction::EventInput> = match &txn.txn_data {
        Some(crate::transaction::TxnData::BlockMetadata(d)) => &d.events,
        Some(crate::transaction::TxnData::Genesis(d)) => &d.events,
        Some(crate::transaction::TxnData::User(d)) => &d.events,
        Some(crate::transaction::TxnData::Validator(d)) => &d.events,
        Some(crate::transaction::TxnData::Other) => {
            return out;
        },
        None => {
            return out;
        },
    };
    assert(events@ == txn.spec_events());
    let mut i: usize = 0;
    while i < events.len()
        invariant
            i <= events@.len(),
            events@ == txn.spec_events(),
            event_inputs_wf(*txn),
            out@.len() == i,
            forall|j: int| 0 <= j < i ==> event_matches(#[trigger] out@[j], *txn, j),
        decreases events@.len() - i,
    {
        let ev = &events[i];
        let e = Event {
            sequence_number: ev.sequence_number as i64,
            creation_number: ev.creation_number as i64,
            account_address: standardize_address(ev.account_address.as_str()),
            transaction_version: txn.version as i64,
            transaction_block_height: txn.block_height as i64,
            type_: ev.type_str.clone(),
            data: ev.data.clone(),
            event_index: i as i64,
            indexed_type: truncate_str(ev.type_str.as_str(), MAX_INDEXED_TYPE_CHARS),
        };
        out.push(e);
        i = i + 1;
    }
    out
}

/// The number of events over a transaction sequence.
pub open spec fn spec_total_events(txns: Seq<Transaction>) -> int
    decreases txns.len(),
{
    if txns.len() == 0 {
        0
    } else {
        spec_total_events(txns.drop_last()) + txns.last().spec_events().len()
    }
}

/// The number of transactions whose `txn_data` union is absent.
pub open spec fn spec_unknown_count(txns: Seq<Transaction>) -> int
    decreases txns.len(),
{
    if txns.len() == 0 {
        0
    } else {
        spec_unknown_count(txns.drop_last()) + if txns.last().txn_data is None {
            1int
        } else {
            0int
        }
    }
}

/// Where the records of transaction `t` start in the flattened output.
pub open spec fn spec_event_offset(txns: Seq<Transaction>, t: int) -> int {
    spec_total_events(txns.take(t))
}

proof fn lemma_total_events_take_step(txns: Seq<Transaction>, t: int)
    requires
        0 <= t < txns.len(),
    ensures
        spec_total_events(txns.take(t + 1)) == spec_total_events(txns.take(t))
            + txns[t].spec_events().len(),
        spec_unknown_count(txns.take(t + 1)) == spec_unknown_count(txns.take(t)) + if txns[t]
            .txn_data is None {
            1int
        } else {
            0int
        },
{
    assert(txns.take(t + 1).drop_last() =~= txns.take(t));
    assert(txns.take(t + 1).last() == txns[t]);
}

proof fn lemma_total_events_nonneg(txns: Seq<Transaction>)
    ensures
        spec_total_events(txns) >= 0,
        spec_unknown_count(txns) >= 0,
    decreases txns.len(),
{
    if txns.len() > 0 {
        lemma_total_events_nonneg(txns.drop_last());
    }
}

/// The records of an earlier transaction lie before the offset of a
/// later one.
proof fn lemma_event_offset_mono(txns: Seq<Transaction>, k: int, t: int)
    requires
        0 <= k < t <= txns.len(),
    ensures
        spec_event_offset(txns, k) + txns[k].spec_events().len() <= spec_event_offset(txns, t),
    decreases t - k,
{
    lemma_total_events_take_step(txns, t - 1);
    if k == t - 1 {
    } else {
        lemma_event_offset_mono(txns, k, t - 1);
        assert(txns[t - 1].spec_events().len() >= 0);
    }
}

/// Extracts the event records of a whole batch, in version order and
/// event order within each transaction, and counts the transactions
/// whose `txn_data` is absent.
pub fn process_transactions(transactions: &Vec<Transaction>) -> (r: (Vec<Event>, u64))
    requires
        forall|t: int| 0 <= t < transactions@.len() ==> event_inputs_wf(
            #[trigger] transactions@[t],
        ),
        transactions@.len() < u64::MAX,
    ensures
        r.0@.len() == spec_total_events(transactions@),
        forall|t: int, j: int|
            #![trigger transactions@[t].spec_events()[j]]
            0 <= t < transactions@.len() && 0 <= j < transactions@[t].spec_events().len()
                ==> event_matches(
                r.0@[spec_event_offset(transactions@, t) + j],
                transactions@[t],
                j,
            ),
        r.1 == spec_unknown_count(transactions@),
{
    let mut out: Vec<Event> = Vec::new();
    let mut unknown: u64 = 0;
    let mut t: usize = 0;
    proof {
        assert(transactions@.take(0) =~= Seq::<Transaction>::empty());
    }
    while t < transactions.len()
        invariant
            t <= transactions@.len(),
            transactions@.len() < u64::MAX,
            forall|k: int| 0 <= k < transactions@.len() ==> event_inputs_wf(
                #[trigger] transactions@[k],
            ),
            out@.len() == spec_total_events(transactions@.take(t as int)),
            unknown == spec_unknown_count(transactions@.take(t as int)),
            unknown <= t,
            forall|k: int, j: int|
                #![trigger transactions@[k].spec_events()[j]]
                0 <= k < t && 0 <= j < transactions@[k].spec_events().len() ==> event_matches(
                    out@[spec_event_offset(transactions@, k) + j],
                    transactions@[k],
                    j,
                ),
        decreases transactions@.len() - t,
    {
        let txn = &transactions[t];
        if txn.txn_data.is_none() {
            unknown = unknown + 1;
        }
        let mut txn_events = parse_events(txn);
        let ghost prev_out = out@;
        out.append(&mut txn_events);
        proof {
            lemma_total_events_take_step(transactions@, t as int);
            assert(spec_event_offset(transactions@, t as int) == prev_out.len());
            assert forall|k: int, j: int|
                #![trigger transactions@[k].spec_events()[j]]
                0 <= k < t + 1 && 0 <= j < transactions@[k].spec_events().len() implies event_matches(
                out@[spec_event_offset(transactions@, k) + j],
                transactions@[k],
                j,
            ) by {
                if k < t {
                    lemma_total_events_nonneg(transactions@.take(k as int));
                    lemma_event_offset_mono(transactions@, k, t as int);
                    assert(out@[spec_event_offset(transactions@, k) + j] == prev_out[
                        spec_event_offset(transactions@, k) + j]);
                }
            }
        }
        t = t + 1;
    }
    proof {
        assert(transactions@.take(transactions@.len() as int) =~= transactions@);
    }
    (out, unknown)
}

/// The events processor: broker producer and per-table chunk sizes; the
/// database pool stays with the runtime.
pub struct EventsProcessor {
    pub producer: CustomProducerEnum,
    pub per_table_chunk_sizes: Vec<(String, usize)>,
}

impl EventsProcessor {
    pub fn new(producer: CustomProducerEnum, per_table_chunk_sizes: Vec<(String, usize)>) -> (r:
        EventsProcessor)
        ensures
            r.producer == producer,
            r.per_table_chunk_sizes == per_table_chunk_sizes,
    {
        EventsProcessor { producer, per_table_chunk_sizes }
    }

    pub fn name(&self) -> (r: &'static str)
        ensures
            r@ == "events_processor"@,
    {
        "events_processor"
    }
}

/// The topic the events processor publishes to.
pub fn produce_to_mq_topic(network: crate::network::Network) -> (r: String)
    ensures
        r@ == crate::network::spec_topic(network, "events"@),
{
    crate::network::topic_name(network, "events")
}

/// The bulk insert for `events`: an upsert on `(transaction_version,
/// event_index)` that refreshes the indexing columns.
pub fn insert_events_query(items_to_insert: &Vec<Event>) -> (r: crate::writer::UpsertQuery)
    ensures
        r.table@ == "events"@,
        r.conflict_columns@.len() == 2 && r.conflict_columns@[0]@ == "transaction_version"@
            && r.conflict_columns@[1]@ == "event_index"@,
        r.policy == crate::writer::ConflictPolicy::UpdateSet,
        r.update_columns@.len() == 2 && r.update_columns@[0]@ == "inserted_at"@
            && r.update_columns@[1]@ == "indexed_type"@,
        r.filter is None,
        r.n_rows == items_to_insert@.len(),
{
    crate::writer::UpsertQuery {
        table: "events",
        conflict_columns: vec!["transaction_version", "event_index"],
        policy: crate::writer::ConflictPolicy::UpdateSet,
        update_columns: vec!["inserted_at", "indexed_type"],
        filter: None,
        n_rows: items_to_insert.len(),
    }
}

} // verus!
