//! The account-transactions processor: the distinct accounts each
//! transaction touches, as `(transaction_version, account_address)`
//! pairs.
//!
//! An account is touched by a transaction when one of its events is
//! keyed by it or one of its write-set resource or module changes
//! addresses it.  Addresses are normalized before dedup, and each
//! account appears once per transaction.

use vstd::prelude::*;

verus! {

use crate::address::{standardize_address, spec_standardize};
use crate::mq::CustomProducerEnum;
use crate::transaction::{EventInput, Transaction, WriteSetChangeInput};
use crate::writer::{str_eq, ConflictPolicy, UpsertQuery};

/// A row of the `account_transactions` table; primary key
/// `(transaction_version, account_address)`.
pub struct AccountTransaction {
    pub transaction_version: i64,
    pub account_address: String,
}

/// The normalized addresses keying a sequence of events.
pub open spec fn spec_event_addrs(evs: Seq<EventInput>) -> Set<Seq<char>>
    decreases evs.len(),
{
    if evs.len() == 0 {
        Set::empty()
    } else {
        spec_event_addrs(evs.drop_last()).insert(spec_standardize(evs.last().account_address@))
    }
}

/// The normalized address a write-set change touches, if any.  Table
/// item changes carry no account.
pub open spec fn spec_change_addr(c: WriteSetChangeInput) -> Option<Seq<char>> {
    match c {
        WriteSetChangeInput::WriteResource { address } => Some(spec_standardize(address@)),
        WriteSetChangeInput::DeleteResource { address } => Some(spec_standardize(address@)),
        WriteSetChangeInput::WriteModule { address } => Some(spec_standardize(address@)),
        WriteSetChangeInput::DeleteModule { address } => Some(spec_standardize(address@)),
        _ => None,
    }
}

/// The normalized addresses a sequence of write-set changes touches.
pub open spec fn spec_change_addrs(cs: Seq<WriteSetChangeInput>) -> Set<Seq<char>>
    decreases cs.len(),
{
    if cs.len() == 0 {
        Set::empty()
    } else {
        match spec_change_addr(cs.last()) {
            Some(a) => spec_change_addrs(cs.drop_last()).insert(a),
            None => spec_change_addrs(cs.drop_last()),
        }
    }
}

/// All accounts a transaction touches.
pub open spec fn spec_account_set(txn: Transaction) -> Set<Seq<char>> {
    spec_event_addrs(txn.spec_events()).union(spec_change_addrs(txn.spec_changes()))
}

/// The set of views a string vector holds.
pub open spec fn addr_set(v: Seq<String>) -> Set<Seq<char>>
    decreases v.len(),
{
    if v.len() == 0 {
        Set::empty()
    } else {
        addr_set(v.drop_last()).insert(v.last()@)
    }
}

/// Membership in the view set is having an index with that view.
pub proof fn lemma_addr_set_index(v: Seq<String>, a: Seq<char>)
    ensures
        addr_set(v).contains(a) <==> exists|k: int| 0 <= k < v.len() && (#[trigger] v[k])@ == a,
    decreases v.len(),
{
    if v.len() > 0 {
        lemma_addr_set_index(v.drop_last(), a);
        if addr_set(v).contains(a) {
            if v.last()@ == a {
                assert(v[v.len() - 1]@ == a);
            } else {
                let k = choose|k: int| 0 <= k < v.drop_last().len() && (#[trigger] v.drop_last()[k])@ == a;
                assert(v[k]@ == a);
            }
        }
        if exists|k: int| 0 <= k < v.len() && (#[trigger] v[k])@ == a {
            let k = choose|k: int| 0 <= k < v.len() && (#[trigger] v[k])@ == a;
            if k < v.len() - 1 {
                assert(v.drop_last()[k]@ == a);
            }
        }
    }
}

proof fn lemma_addr_set_push(v: Seq<String>, x: String)
    ensures
        addr_set(v.push(x)) == addr_set(v).insert(x@),
{
    assert(v.push(x).drop_last() =~= v);
}

proof fn lemma_event_addrs_take_step(evs: Seq<EventInput>, i: int)
    requires
        0 <= i < evs.len(),
    ensures
        spec_event_addrs(evs.take(i + 1)) == spec_event_addrs(evs.take(i)).insert(
            spec_standardize(evs[i].account_address@),
        ),
{
    assert(evs.take(i + 1).drop_last() =~= evs.take(i));
    assert(evs.take(i + 1).last() == evs[i]);
}

proof fn lemma_change_addrs_take_step(cs: Seq<WriteSetChangeInput>, i: int)
    requires
        0 <= i < cs.len(),
    ensures
        spec_change_addrs(cs.take(i + 1)) == (match spec_change_addr(cs[i]) {
            Some(a) => spec_change_addrs(cs.take(i)).insert(a),
            None => spec_change_addrs(cs.take(i)),
        }),
{
    assert(cs.take(i + 1).drop_last() =~= cs.take(i));
    assert(cs.take(i + 1).last() == cs[i]);
}

/// Whether a vector already holds a string with this view.
fn contains_addr(out: &Vec<String>, addr: &str) -> (r: bool)
    ensures
        r == exists|k: int| 0 <= k < out@.len() && (#[trigger] out@[k])@ == addr@,
{
    let mut k: usize = 0;
    while k < out.len()
        invariant
            k <= out@.len(),
            forall|j: int| 0 <= j < k ==> (#[trigger] out@[j])@ != addr@,
        decreases out@.len() - k,
    {
        if str_eq(out[k].as_str(), addr) {
            return true;
        }
        k = k + 1;
    }
    false
}

/// Pushes an address unless it is already present, keeping the list
/// duplicate-free while growing the set it holds by this address.
fn push_distinct(out: &mut Vec<String>, addr: String)
    requires
        forall|k1: int, k2: int|
            0 <= k1 < k2 < old(out)@.len() ==> (#[trigger] old(out)@[k1])@ != (
            #[trigger] old(out)@[k2])@,
    ensures
        forall|k1: int, k2: int|
            0 <= k1 < k2 < final(out)@.len() ==> (#[trigger] final(out)@[k1])@ != (
            #[trigger] final(out)@[k2])@,
        addr_set(final(out)@) == addr_set(old(out)@).insert(addr@),
{
    let present = contains_addr(out, addr.as_str());
    proof {
        lemma_addr_set_index(out@, addr@);
    }
    if !present {
        let ghost prev = out@;
        out.push(addr);
        proof {
            lemma_addr_set_push(prev, out@.last());
        }
    } else {
        proof {
            assert(addr_set(out@).contains(addr@));
            assert(addr_set(out@).insert(addr@) =~= addr_set(out@));
        }
    }
}

impl AccountTransaction {
    /// The distinct accounts a transaction touches, each in canonical
    /// form and listed once, in first-occurrence order.
    pub fn get_accounts(txn: &Transaction) -> (r: Vec<String>)
        ensures
            forall|k1: int, k2: int|
                0 <= k1 < k2 < r@.len() ==> (#[trigger] r@[k1])@ != (#[trigger] r@[k2])@,
            addr_set(r@) == spec_account_set(*txn),
    {
        let mut out: Vec<String> = Vec::new();
        let events: &Vec<EventInput> = match &txn.txn_data {
            Some(crate::transaction::TxnData::BlockMetadata(d)) => &d.events,
            Some(crate::transaction::TxnData::Genesis(d)) => &d.events,
            Some(crate::transaction::TxnData::User(d)) => &d.events,
            Some(crate::transaction::TxnData::Validator(d)) => &d.events,
            _ => {
                proof {
                    assert(txn.spec_events() =~= Seq::<EventInput>::empty());
                }
                return Self::collect_change_accounts(txn, out);
            },
        };
        assert(events@ == txn.spec_events());
        let mut i: usize = 0;
        proof {
            assert(events@.take(0) =~= Seq::<EventInput>::empty());
        }
        while i < events.len()
            invariant
                i <= events@.len(),
                events@ == txn.spec_events(),
                forall|k1: int, k2: int|
                    0 <= k1 < k2 < out@.len() ==> (#[trigger] out@[k1])@ != (#[trigger] out@[k2])@,
                addr_set(out@) == spec_event_addrs(events@.take(i as int)),
            decreases events@.len() - i,
        {
            proof {
                lemma_event_addrs_take_step(events@, i as int);
            }
            let addr = standardize_address(events[i].account_address.as_str());
            push_distinct(&mut out, addr);
            proof {
                assert(addr_set(out@) =~= spec_event_addrs(events@.take(i as int + 1)));
            }
            i = i + 1;
        }
        proof {
            assert(events@.take(events@.len() as int) =~= events@);
        }
        Self::collect_change_accounts(txn, out)
    }

    /// Adds the accounts of the transaction's write-set changes.
    fn collect_change_accounts(txn: &Transaction, acc: Vec<String>) -> (r: Vec<String>)
        requires
            forall|k1: int, k2: int|
                0 <= k1 < k2 < acc@.len() ==> (#[trigger] acc@[k1])@ != (#[trigger] acc@[k2])@,
            addr_set(acc@) == spec_event_addrs(txn.spec_events()),
        ensures
            forall|k1: int, k2: int|
                0 <= k1 < k2 < r@.len() ==> (#[trigger] r@[k1])@ != (#[trigger] r@[k2])@,
            addr_set(r@) == spec_account_set(*txn),
    {
        let mut out = acc;
        let changes: &Vec<WriteSetChangeInput> = match &txn.info {
            Some(info) => &info.changes,
            None => {
                proof {
                    assert(txn.spec_changes() =~= Seq::<WriteSetChangeInput>::empty());
                    assert(addr_set(out@) =~= spec_account_set(*txn));
                }
                return out;
            },
        };
        assert(changes@ == txn.spec_changes());
        let mut j: usize = 0;
        proof {
            assert(changes@.take(0) =~= Seq::<WriteSetChangeInput>::empty());
        }
        while j < changes.len()
            invariant
                j <= changes@.len(),
                changes@ == txn.spec_changes(),
                forall|k1: int, k2: int|
                    0 <= k1 < k2 < out@.len() ==> (#[trigger] out@[k1])@ != (#[trigger] out@[k2])@,
                addr_set(out@) == spec_event_addrs(txn.spec_events()).union(
                    spec_change_addrs(changes@.take(j as int)),
                ),
            decreases changes@.len() - j,
        {
            proof {
                lemma_change_addrs_take_step(changes@, j as int);
            }
            match &changes[j] {
                WriteSetChangeInput::WriteResource { address } => {
                    push_distinct(&mut out, standardize_address(address.as_str()));
                },
                WriteSetChangeInput::DeleteResource { address } => {
                    push_distinct(&mut out, standardize_address(address.as_str()));
                },
                WriteSetChangeInput::WriteModule { address } => {
                    push_distinct(&mut out, standardize_address(address.as_str()));
                },
                WriteSetChangeInput::DeleteModule { address } => {
                    push_distinct(&mut out, standardize_address(address.as_str()));
                },
                _ => {},
            }
            proof {
                assert(addr_set(out@) =~= spec_event_addrs(txn.spec_events()).union(
                    spec_change_addrs(changes@.take(j as int + 1)),
                ));
            }
            j = j + 1;
        }
        proof {
            assert(changes@.take(changes@.len() as int) =~= changes@);
        }
        out
    }
}

/// Whether a record could have come from one of the first `t`
/// transactions: its version is that transaction's and its account is
/// among the accounts that transaction touches.
pub open spec fn from_some_txn(txns: Seq<Transaction>, t: int, p: AccountTransaction) -> bool {
    exists|u: int|
        0 <= u < t && p.transaction_version == (#[trigger] txns[u]).version as i64
            && spec_account_set(txns[u]).contains(p.account_address@)
}

/// Whether the rows carry the pair `(version, account)`.
pub open spec fn covers_pair(rows: Seq<AccountTransaction>, version: i64, q: Seq<char>) -> bool {
    exists|k: int|
        0 <= k < rows.len() && (#[trigger] rows[k]).transaction_version == version
            && rows[k].account_address@ == q
}

/// Transforms a whole batch: the `(version, account)` pairs of every
/// transaction, each pair once.  The batch arrives in strictly
/// increasing version order, so pairs of different transactions differ.
#[verifier::rlimit(100)]
pub fn process_transactions(transactions: &Vec<Transaction>) -> (r: Vec<AccountTransaction>)
    requires
        forall|t: int| 0 <= t < transactions@.len() ==> (#[trigger] transactions@[t]).version
            <= i64::MAX as u64,
        forall|t1: int, t2: int|
            0 <= t1 < t2 < transactions@.len() ==> (#[trigger] transactions@[t1]).version < (
            #[trigger] transactions@[t2]).version,
    ensures
        forall|k1: int, k2: int|
            0 <= k1 < k2 < r@.len() ==> !((#[trigger] r@[k1]).transaction_version == (
            #[trigger] r@[k2]).transaction_version && r@[k1].account_address@
                == r@[k2].account_address@),
        forall|k: int|
            0 <= k < r@.len() ==> from_some_txn(
                transactions@,
                transactions@.len() as int,
                #[trigger] r@[k],
            ),
        forall|t: int, a: Seq<char>|
            #![trigger spec_account_set(transactions@[t]).contains(a)]
            0 <= t < transactions@.len() && spec_account_set(transactions@[t]).contains(a)
                ==> covers_pair(r@, transactions@[t].version as i64, a),
{
    let mut out: Vec<AccountTransaction> = Vec::new();
    let mut t: usize = 0;
    while t < transactions.len()
        invariant
            t <= transactions@.len(),
            forall|k: int| 0 <= k < transactions@.len() ==> (#[trigger] transactions@[k]).version
                <= i64::MAX as u64,
            forall|t1: int, t2: int|
                0 <= t1 < t2 < transactions@.len() ==> (#[trigger] transactions@[t1]).version < (
                #[trigger] transactions@[t2]).version,
            forall|k1: int, k2: int|
                0 <= k1 < k2 < out@.len() ==> !((#[trigger] out@[k1]).transaction_version == (
                #[trigger] out@[k2]).transaction_version && out@[k1].account_address@
                    == out@[k2].account_address@),
            forall|k: int|
                0 <= k < out@.len() ==> from_some_txn(transactions@, t as int, #[trigger] out@[k]),
            forall|u: int, a: Seq<char>|
                #![trigger spec_account_set(transactions@[u]).contains(a)]
                0 <= u < t && spec_account_set(transactions@[u]).contains(a) ==> covers_pair(
                    out@,
                    transactions@[u].version as i64,
                    a,
                ),
        decreases transactions@.len() - t,
    {
        let txn = &transactions[t];
        let transaction_version = txn.version as i64;
        let accounts = AccountTransaction::get_accounts(txn);
        let ghost prev_out = out@;
        let ghost accs = accounts@;
        let mut a: usize = 0;
        while a < accounts.len()
            invariant
                a <= accs.len(),
                accounts@ == accs,
                0 <= (t as int) < transactions@.len(),
                transaction_version == transactions@[t as int].version as i64,
                forall|k1: int, k2: int|
                    0 <= k1 < k2 < accs.len() ==> (#[trigger] accs[k1])@ != (#[trigger] accs[k2])@,
                addr_set(accs) == spec_account_set(transactions@[t as int]),
                out@.len() == prev_out.len() + a,
                forall|k: int| 0 <= k < prev_out.len() ==> #[trigger] out@[k] == prev_out[k],
                forall|k: int|
                    prev_out.len() <= k < out@.len() ==> (#[trigger] out@[k]).transaction_version
                        == transaction_version && out@[k].account_address@ == accs[k
                        - prev_out.len()]@,
            decreases accs.len() - a,
        {
            let account_address = accounts[a].clone();
            out.push(AccountTransaction { transaction_version, account_address });
            a = a + 1;
        }
        proof {
            assert forall|k1: int, k2: int|
                0 <= k1 < k2 < out@.len() implies !((#[trigger] out@[k1]).transaction_version == (
            #[trigger] out@[k2]).transaction_version && out@[k1].account_address@
                == out@[k2].account_address@) by {
                if k2 < prev_out.len() {
                    assert(out@[k1] == prev_out[k1]);
                    assert(out@[k2] == prev_out[k2]);
                } else if k1 < prev_out.len() {
                    assert(out@[k1] == prev_out[k1]);
                    assert(from_some_txn(transactions@, t as int, prev_out[k1]));
                    let u = choose|u: int|
                        0 <= u < t && prev_out[k1].transaction_version == (
                        #[trigger] transactions@[u]).version as i64 && spec_account_set(
                            transactions@[u],
                        ).contains(prev_out[k1].account_address@);
                    assert(transactions@[u].version < transactions@[t as int].version);
                } else {
                    assert(out@[k1].account_address@ == accs[k1 - prev_out.len()]@);
                    assert(out@[k2].account_address@ == accs[k2 - prev_out.len()]@);
                }
            }
            assert forall|k: int| 0 <= k < out@.len() implies from_some_txn(
                transactions@,
                t as int + 1,
                #[trigger] out@[k],
            ) by {
                if k < prev_out.len() {
                    assert(out@[k] == prev_out[k]);
                    assert(from_some_txn(transactions@, t as int, prev_out[k]));
                    let u = choose|u: int|
                        0 <= u < t && prev_out[k].transaction_version == (
                        #[trigger] transactions@[u]).version as i64 && spec_account_set(
                            transactions@[u],
                        ).contains(prev_out[k].account_address@);
                    assert(0 <= u < t + 1 && out@[k].transaction_version == transactions@[u].version
                        as i64 && spec_account_set(transactions@[u]).contains(
                        out@[k].account_address@,
                    ));
                } else {
                    lemma_addr_set_index(accs, out@[k].account_address@);
                    assert(accs[k - prev_out.len()]@ == out@[k].account_address@);
                    assert(spec_account_set(transactions@[t as int]).contains(
                        out@[k].account_address@,
                    ));
                    assert(0 <= t < t + 1 && out@[k].transaction_version == transactions@[t as int].version
                        as i64);
                }
            }
            assert forall|u: int, q: Seq<char>|
                #![trigger spec_account_set(transactions@[u]).contains(q)]
                0 <= u < t + 1 && spec_account_set(transactions@[u]).contains(q)
                implies covers_pair(out@, transactions@[u].version as i64, q) by {
                if u < t {
                    assert(covers_pair(prev_out, transactions@[u].version as i64, q));
                    let k = choose|k: int|
                        0 <= k < prev_out.len() && (#[trigger] prev_out[k]).transaction_version
                            == transactions@[u].version as i64 && prev_out[k].account_address@
                            == q;
                    assert(out@[k] == prev_out[k]);
                    assert(0 <= k < out@.len() && out@[k].transaction_version == transactions@[u].version
                        as i64 && out@[k].account_address@ == q);
                } else {
                    lemma_addr_set_index(accs, q);
                    let ka = choose|ka: int| 0 <= ka < accs.len() && (#[trigger] accs[ka])@ == q;
                    assert(out@[prev_out.len() + ka].transaction_version == transactions@[u].version
                        as i64 && out@[prev_out.len() + ka].account_address@ == q);
                }
            }
        }
        t = t + 1;
    }
    out
}

/// The account-transactions processor: broker producer and per-table
/// chunk sizes; the database pool stays with the runtime.
pub struct AccountTransactionsProcessor {
    pub producer: CustomProducerEnum,
    pub per_table_chunk_sizes: Vec<(String, usize)>,
}

impl AccountTransactionsProcessor {
    pub fn new(producer: CustomProducerEnum, per_table_chunk_sizes: Vec<(String, usize)>) -> (r:
        AccountTransactionsProcessor)
        ensures
            r.producer == producer,
            r.per_table_chunk_sizes == per_table_chunk_sizes,
    {
        AccountTransactionsProcessor { producer, per_table_chunk_sizes }
    }

    pub fn name(&self) -> (r: &'static str)
        ensures
            r@ == "account_transactions_processor"@,
    {
        "account_transactions_processor"
    }
}

/// The topic the account-transactions processor publishes to.
pub fn produce_to_mq_topic(network: crate::network::Network) -> (r: String)
    ensures
        r@ == crate::network::spec_topic(network, "account.transactions"@),
{
    crate::network::topic_name(network, "account.transactions")
}

/// The bulk insert for `account_transactions`: append-only on
/// `(transaction_version, account_address)`.
pub fn insert_account_transactions_query(item_to_insert: &Vec<AccountTransaction>) -> (r:
    UpsertQuery)
    ensures
        r.table@ == "account_transactions"@,
        r.conflict_columns@.len() == 2 && r.conflict_columns@[0]@ == "transaction_version"@
            && r.conflict_columns@[1]@ == "account_address"@,
        r.policy == ConflictPolicy::DoNothing,
        r.update_columns@.len() == 0,
        r.filter is None,
        r.n_rows == item_to_insert@.len(),
{
    UpsertQuery {
        table: "account_transactions",
        conflict_columns: vec!["transaction_version", "account_address"],
        policy: ConflictPolicy::DoNothing,
        update_columns: Vec::new(),
        filter: None,
        n_rows: item_to_insert.len(),
    }
}

} // verus!
