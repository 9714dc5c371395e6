//! The default processor: block-metadata transactions and table items
//! from the write set of every transaction.
//!
//! Table items come in two shapes: the append-only history row and the
//! keyed "current" projection, which is merged within the batch (newest
//! transaction wins, and within a transaction the higher write-set
//! change index) and sorted by primary key before it reaches the writer,
//! so concurrent writers take row locks in one total order.

use vstd::prelude::*;

verus! {

use crate::address::{standardize_address, spec_standardize};
use crate::mq::CustomProducerEnum;
use crate::table_flags::TableFlags;
use crate::ordering::{seq_char_le, str_le, lemma_seq_char_le_total, lemma_seq_char_le_trans, lemma_seq_char_le_antisym};
use crate::transaction::{Transaction, WriteSetChangeInput, spec_timestamp_micros};
use crate::writer::{str_eq, ConflictPolicy, UpsertQuery};

/// A row of the append-only `table_items` table; primary key
/// `(transaction_version, write_set_change_index)`.
pub struct TableItem {
    pub transaction_version: i64,
    pub write_set_change_index: i64,
    pub transaction_block_height: i64,
    pub key: String,
    pub table_handle: String,
    pub decoded_key: String,
    pub decoded_value: Option<String>,
    pub is_deleted: bool,
}

/// A row of the `current_table_items` projection; primary key
/// `(table_handle, key_hash)`, guarded by `last_transaction_version`.
pub struct CurrentTableItem {
    pub table_handle: String,
    pub key_hash: String,
    pub key: String,
    pub decoded_key: String,
    pub decoded_value: Option<String>,
    pub last_transaction_version: i64,
    pub is_deleted: bool,
}

/// A row of the `table_metadatas` table; primary key `handle`.
pub struct TableMetadata {
    pub handle: String,
    pub key_type: String,
    pub value_type: String,
}

/// A row of the `block_metadata_transactions` table; primary key
/// `version`.
pub struct BlockMetadataTransaction {
    pub version: i64,
    pub block_height: i64,
    pub id: String,
    pub round: i64,
    pub epoch: i64,
    pub previous_block_votes_bitvec: Vec<u8>,
    pub proposer: String,
    pub failed_proposer_indices: Vec<u32>,
    pub timestamp: i64,
}

impl Transaction {
    /// The write-set changes of the transaction, if its info is present.
    pub open spec fn spec_changes(self) -> Seq<WriteSetChangeInput> {
        match self.info {
            Some(info) => info.changes@,
            None => Seq::empty(),
        }
    }
}

/// Whether a write-set change touches a table item.
pub open spec fn is_table_change(c: WriteSetChangeInput) -> bool {
    c is WriteTableItem || c is DeleteTableItem
}

/// The number of table-item changes in a change sequence.
pub open spec fn spec_tc_count(changes: Seq<WriteSetChangeInput>) -> int
    decreases changes.len(),
{
    if changes.len() == 0 {
        0
    } else {
        spec_tc_count(changes.drop_last()) + if is_table_change(changes.last()) {
            1int
        } else {
            0int
        }
    }
}

/// The number of table-item writes (not deletions) in a change sequence.
pub open spec fn spec_wt_count(changes: Seq<WriteSetChangeInput>) -> int
    decreases changes.len(),
{
    if changes.len() == 0 {
        0
    } else {
        spec_wt_count(changes.drop_last()) + if changes.last() is WriteTableItem {
            1int
        } else {
            0int
        }
    }
}

/// What the history row extracted from change `j` of a transaction
/// holds.
pub open spec fn table_item_matches(it: TableItem, txn: Transaction, j: int) -> bool {
    let c = txn.spec_changes()[j];
    match c {
        WriteSetChangeInput::WriteTableItem { handle, key, key_hash, data } => {
            &&& it.transaction_version == txn.version as i64
            &&& it.write_set_change_index == j
            &&& it.transaction_block_height == txn.block_height as i64
            &&& it.key@ == key@
            &&& it.table_handle@ == spec_standardize(handle@)
            &&& it.decoded_key@ == data.key@
            &&& it.decoded_value is Some
            &&& it.decoded_value->0@ == data.value@
            &&& it.is_deleted == false
        },
        WriteSetChangeInput::DeleteTableItem { handle, key, key_hash, decoded_key } => {
            &&& it.transaction_version == txn.version as i64
            &&& it.write_set_change_index == j
            &&& it.transaction_block_height == txn.block_height as i64
            &&& it.key@ == key@
            &&& it.table_handle@ == spec_standardize(handle@)
            &&& it.decoded_key@ == decoded_key@
            &&& it.decoded_value is None
            &&& it.is_deleted == true
        },
        _ => false,
    }
}

/// What the current-state row extracted from change `j` of a transaction
/// holds: the same content keyed by `(table_handle, key_hash)` and
/// stamped with the transaction version.
pub open spec fn current_table_item_matches(ct: CurrentTableItem, txn: Transaction, j: int) -> bool {
    let c = txn.spec_changes()[j];
    match c {
        WriteSetChangeInput::WriteTableItem { handle, key, key_hash, data } => {
            &&& ct.table_handle@ == spec_standardize(handle@)
            &&& ct.key_hash@ == spec_standardize(key_hash@)
            &&& ct.key@ == key@
            &&& ct.decoded_key@ == data.key@
            &&& ct.decoded_value is Some
            &&& ct.decoded_value->0@ == data.value@
            &&& ct.last_transaction_version == txn.version as i64
            &&& ct.is_deleted == false
        },
        WriteSetChangeInput::DeleteTableItem { handle, key, key_hash, decoded_key } => {
            &&& ct.table_handle@ == spec_standardize(handle@)
            &&& ct.key_hash@ == spec_standardize(key_hash@)
            &&& ct.key@ == key@
            &&& ct.decoded_key@ == decoded_key@
            &&& ct.decoded_value is None
            &&& ct.last_transaction_version == txn.version as i64
            &&& ct.is_deleted == true
        },
        _ => false,
    }
}

/// What the metadata row extracted from a table-item write holds.
pub open spec fn table_metadata_matches(m: TableMetadata, c: WriteSetChangeInput) -> bool {
    match c {
        WriteSetChangeInput::WriteTableItem { handle, key, key_hash, data } => {
            &&& m.handle@ == spec_standardize(handle@)
            &&& m.key_type@ == data.key_type@
            &&& m.value_type@ == data.value_type@
        },
        _ => false,
    }
}

/// Inputs the default extraction needs: positions that fit the record
/// columns and a bounded change list.
pub open spec fn default_inputs_wf(txn: Transaction) -> bool {
    &&& txn.version <= i64::MAX as u64
    &&& txn.block_height <= i64::MAX as u64
    &&& txn.epoch <= i64::MAX as u64
    &&& txn.spec_changes().len() <= i64::MAX as int
    &&& match txn.txn_data {
        Some(crate::transaction::TxnData::BlockMetadata(d)) => d.round <= i64::MAX as u64
            && txn.timestamp is Some && crate::transaction::timestamp_in_range(txn.timestamp->0),
        _ => true,
    }
}

proof fn lemma_tc_count_take_step(changes: Seq<WriteSetChangeInput>, j: int)
    requires
        0 <= j < changes.len(),
    ensures
        spec_tc_count(changes.take(j + 1)) == spec_tc_count(changes.take(j)) + if is_table_change(
            changes[j],
        ) {
            1int
        } else {
            0int
        },
        spec_wt_count(changes.take(j + 1)) == spec_wt_count(changes.take(j)) + if changes[j]
            is WriteTableItem {
            1int
        } else {
            0int
        },
{
    assert(changes.take(j + 1).drop_last() =~= changes.take(j));
    assert(changes.take(j + 1).last() == changes[j]);
}

/// Prefix counts grow with the prefix.
proof fn lemma_tc_count_mono(changes: Seq<WriteSetChangeInput>, k: int, j: int)
    requires
        0 <= k < j <= changes.len(),
    ensures
        spec_tc_count(changes.take(k)) + (if is_table_change(changes[k]) {
            1int
        } else {
            0int
        }) <= spec_tc_count(changes.take(j)),
        spec_wt_count(changes.take(k)) + (if changes[k] is WriteTableItem {
            1int
        } else {
            0int
        }) <= spec_wt_count(changes.take(j)),
    decreases j - k,
{
    lemma_tc_count_take_step(changes, j - 1);
    if k < j - 1 {
        lemma_tc_count_mono(changes, k, j - 1);
    }
}

proof fn lemma_tc_count_nonneg(changes: Seq<WriteSetChangeInput>)
    ensures
        spec_tc_count(changes) >= 0,
        spec_wt_count(changes) >= 0,
        spec_tc_count(changes) <= changes.len(),
        spec_wt_count(changes) <= changes.len(),
    decreases changes.len(),
{
    if changes.len() > 0 {
        lemma_tc_count_nonneg(changes.drop_last());
    }
}

/// Extracts the table-item rows of one transaction: one history row and
/// one current-state row per table change, in change order, and one
/// metadata row per table write.
pub fn parse_table_changes(txn: &Transaction) -> (r: (
    Vec<TableItem>,
    Vec<CurrentTableItem>,
    Vec<TableMetadata>,
))
    requires
        default_inputs_wf(*txn),
    ensures
        r.0@.len() == spec_tc_count(txn.spec_changes()),
        r.1@.len() == spec_tc_count(txn.spec_changes()),
        r.2@.len() == spec_wt_count(txn.spec_changes()),
        forall|j: int|
            #![trigger txn.spec_changes()[j]]
            0 <= j < txn.spec_changes().len() && is_table_change(txn.spec_changes()[j])
                ==> table_item_matches(
                r.0@[spec_tc_count(txn.spec_changes().take(j))],
                *txn,
                j,
            ) && current_table_item_matches(r.1@[spec_tc_count(txn.spec_changes().take(j))], *txn, j),
        forall|j: int|
            #![trigger txn.spec_changes()[j]]
            0 <= j < txn.spec_changes().len() && txn.spec_changes()[j] is WriteTableItem
                ==> table_metadata_matches(
                r.2@[spec_wt_count(txn.spec_changes().take(j))],
                txn.spec_changes()[j],
            ),
{
    let mut items: Vec<TableItem> = Vec::new();
    let mut current_items: Vec<CurrentTableItem> = Vec::new();
    let mut metadata: Vec<TableMetadata> = Vec::new();
    let changes: &Vec<WriteSetChangeInput> = match &txn.info {
        Some(info) => &info.changes,
        None => {
            proof {
                assert(txn.spec_changes() =~= Seq::<WriteSetChangeInput>::empty());
            }
            return (items, current_items, metadata);
        },
    };
    assert(changes@ == txn.spec_changes());
    let ghost cs = txn.spec_changes();
    proof {
        assert(cs.take(0) =~= Seq::<WriteSetChangeInput>::empty());
    }
    let mut j: usize = 0;
    while j < changes.len()
        invariant
            j <= cs.len(),
            changes@ == cs,
            cs == txn.spec_changes(),
            default_inputs_wf(*txn),
            items@.len() == spec_tc_count(cs.take(j as int)),
            current_items@.len() == spec_tc_count(cs.take(j as int)),
            metadata@.len() == spec_wt_count(cs.take(j as int)),
            forall|k: int|
                #![trigger cs[k]]
                0 <= k < j && is_table_change(cs[k]) ==> table_item_matches(
                    items@[spec_tc_count(cs.take(k))],
                    *txn,
                    k,
                ) && current_table_item_matches(current_items@[spec_tc_count(cs.take(k))], *txn, k),
            forall|k: int|
                #![trigger cs[k]]
                0 <= k < j && cs[k] is WriteTableItem ==> table_metadata_matches(
                    metadata@[spec_wt_count(cs.take(k))],
                    cs[k],
                ),
        decreases cs.len() - j,
    {
        proof {
            lemma_tc_count_take_step(cs, j as int);
            lemma_tc_count_nonneg(cs.take(j as int));
        }
        match &changes[j] {
            WriteSetChangeInput::WriteTableItem { handle, key, key_hash, data } => {
                let standardized_handle = standardize_address(handle.as_str());
                items.push(
                    TableItem {
                        transaction_version: txn.version as i64,
                        write_set_change_index: j as i64,
                        transaction_block_height: txn.block_height as i64,
                        key: key.clone(),
                        table_handle: standardized_handle.clone(),
                        decoded_key: data.key.clone(),
                        decoded_value: Some(data.value.clone()),
                        is_deleted: false,
                    },
                );
                current_items.push(
                    CurrentTableItem {
                        table_handle: standardized_handle.clone(),
                        key_hash: standardize_address(key_hash.as_str()),
                        key: key.clone(),
                        decoded_key: data.key.clone(),
                        decoded_value: Some(data.value.clone()),
                        last_transaction_version: txn.version as i64,
                        is_deleted: false,
                    },
                );
                metadata.push(
                    TableMetadata {
                        handle: standardized_handle,
                        key_type: data.key_type.clone(),
                        value_type: data.value_type.clone(),
                    },
                );
                proof {
                    assert(table_item_matches(items@[spec_tc_count(cs.take(j as int))], *txn, j as int));
                    assert(current_table_item_matches(current_items@[spec_tc_count(cs.take(j as int))], *txn, j as int));
                    assert(table_metadata_matches(metadata@[spec_wt_count(cs.take(j as int))], cs[j as int]));
                }
                proof {
                    assert forall|k: int|
                        #![trigger cs[k]]
                        0 <= k <= j && is_table_change(cs[k]) implies table_item_matches(
                        items@[spec_tc_count(cs.take(k))],
                        *txn,
                        k,
                    ) && current_table_item_matches(
                        current_items@[spec_tc_count(cs.take(k))],
                        *txn,
                        k,
                    ) by {
                        if k < j {
                            lemma_tc_count_nonneg(cs.take(k));
                            lemma_tc_count_mono(cs, k, j as int);
                        }
                    }
                    assert forall|k: int|
                        #![trigger cs[k]]
                        0 <= k <= j && cs[k] is WriteTableItem implies table_metadata_matches(
                        metadata@[spec_wt_count(cs.take(k))],
                        cs[k],
                    ) by {
                        if k < j {
                            lemma_tc_count_nonneg(cs.take(k));
                            lemma_tc_count_mono(cs, k, j as int);
                        }
                    }
                }
            },
            WriteSetChangeInput::DeleteTableItem { handle, key, key_hash, decoded_key } => {
                let standardized_handle = standardize_address(handle.as_str());
                items.push(
                    TableItem {
                        transaction_version: txn.version as i64,
                        write_set_change_index: j as i64,
                        transaction_block_height: txn.block_height as i64,
                        key: key.clone(),
                        table_handle: standardized_handle.clone(),
                        decoded_key: decoded_key.clone(),
                        decoded_value: None,
                        is_deleted: true,
                    },
                );
                current_items.push(
                    CurrentTableItem {
                        table_handle: standardized_handle,
                        key_hash: standardize_address(key_hash.as_str()),
                        key: key.clone(),
                        decoded_key: decoded_key.clone(),
                        decoded_value: None,
                        last_transaction_version: txn.version as i64,
                        is_deleted: true,
                    },
                );
                proof {
                    assert(table_item_matches(items@[spec_tc_count(cs.take(j as int))], *txn, j as int));
                    assert(current_table_item_matches(current_items@[spec_tc_count(cs.take(j as int))], *txn, j as int));
                }
                proof {
                    assert forall|k: int|
                        #![trigger cs[k]]
                        0 <= k <= j && is_table_change(cs[k]) implies table_item_matches(
                        items@[spec_tc_count(cs.take(k))],
                        *txn,
                        k,
                    ) && current_table_item_matches(
                        current_items@[spec_tc_count(cs.take(k))],
                        *txn,
                        k,
                    ) by {
                        if k < j {
                            lemma_tc_count_nonneg(cs.take(k));
                            lemma_tc_count_mono(cs, k, j as int);
                        }
                    }
                    assert forall|k: int|
                        #![trigger cs[k]]
                        0 <= k <= j && cs[k] is WriteTableItem implies table_metadata_matches(
                        metadata@[spec_wt_count(cs.take(k))],
                        cs[k],
                    ) by {
                        if k < j {
                            lemma_tc_count_nonneg(cs.take(k));
                            lemma_tc_count_mono(cs, k, j as int);
                        }
                    }
                }
            },
            _ => {
                proof {
                    assert forall|k: int|
                        #![trigger cs[k]]
                        0 <= k <= j && is_table_change(cs[k]) implies table_item_matches(
                        items@[spec_tc_count(cs.take(k))],
                        *txn,
                        k,
                    ) && current_table_item_matches(
                        current_items@[spec_tc_count(cs.take(k))],
                        *txn,
                        k,
                    ) by {
                        if k < j {
                            lemma_tc_count_nonneg(cs.take(k));
                            lemma_tc_count_mono(cs, k, j as int);
                        }
                    }
                    assert forall|k: int|
                        #![trigger cs[k]]
                        0 <= k <= j && cs[k] is WriteTableItem implies table_metadata_matches(
                        metadata@[spec_wt_count(cs.take(k))],
                        cs[k],
                    ) by {
                        if k < j {
                            lemma_tc_count_nonneg(cs.take(k));
                            lemma_tc_count_mono(cs, k, j as int);
                        }
                    }
                }
            },
        }
        j = j + 1;
    }
    proof {
        assert(cs.take(cs.len() as int) =~= cs);
    }
    (items, current_items, metadata)
}

/// The primary key of a current-state row, at the view level.
pub open spec fn cti_pk(r: CurrentTableItem) -> (Seq<char>, Seq<char>) {
    (r.table_handle@, r.key_hash@)
}

/// Primary-key order on current-state rows: by table handle, then by
/// key hash.
pub open spec fn cti_pk_le(a: CurrentTableItem, b: CurrentTableItem) -> bool {
    if a.table_handle@ != b.table_handle@ {
        seq_char_le(a.table_handle@, b.table_handle@)
    } else {
        seq_char_le(a.key_hash@, b.key_hash@)
    }
}

proof fn lemma_cti_pk_le_total(a: CurrentTableItem, b: CurrentTableItem)
    ensures
        cti_pk_le(a, b) || cti_pk_le(b, a),
{
    lemma_seq_char_le_total(a.table_handle@, b.table_handle@);
    lemma_seq_char_le_total(a.key_hash@, b.key_hash@);
}

proof fn lemma_cti_pk_le_trans(a: CurrentTableItem, b: CurrentTableItem, c: CurrentTableItem)
    requires
        cti_pk_le(a, b),
        cti_pk_le(b, c),
    ensures
        cti_pk_le(a, c),
{
    if a.table_handle@ == b.table_handle@ && b.table_handle@ == c.table_handle@ {
        lemma_seq_char_le_trans(a.key_hash@, b.key_hash@, c.key_hash@);
    } else if a.table_handle@ == b.table_handle@ {
        assert(seq_char_le(a.table_handle@, c.table_handle@));
    } else if b.table_handle@ == c.table_handle@ {
        assert(seq_char_le(a.table_handle@, c.table_handle@));
    } else {
        lemma_seq_char_le_trans(a.table_handle@, b.table_handle@, c.table_handle@);
        if a.table_handle@ == c.table_handle@ {
            lemma_seq_char_le_antisym(a.table_handle@, b.table_handle@);
        }
    }
}

/// The position of the last row with the given key, or -1 if none.
pub open spec fn spec_last_occ_cti(rows: Seq<CurrentTableItem>, k: (Seq<char>, Seq<char>)) -> int
    decreases rows.len(),
{
    if rows.len() == 0 {
        -1
    } else if cti_pk(rows.last()) == k {
        rows.len() - 1
    } else {
        spec_last_occ_cti(rows.drop_last(), k)
    }
}

proof fn lemma_last_occ_cti_bounds(rows: Seq<CurrentTableItem>, k: (Seq<char>, Seq<char>))
    ensures
        -1 <= spec_last_occ_cti(rows, k) < rows.len(),
        spec_last_occ_cti(rows, k) >= 0 ==> cti_pk(rows[spec_last_occ_cti(rows, k)]) == k,
        forall|j: int|
            spec_last_occ_cti(rows, k) < j < rows.len() ==> cti_pk(#[trigger] rows[j]) != k,
    decreases rows.len(),
{
    if rows.len() > 0 {
        lemma_last_occ_cti_bounds(rows.drop_last(), k);
        assert forall|j: int|
            spec_last_occ_cti(rows, k) < j < rows.len() implies cti_pk(#[trigger] rows[j]) != k by {
            if j < rows.len() - 1 {
                assert(rows.drop_last()[j] == rows[j]);
            }
        }
    }
}

proof fn lemma_last_occ_cti_take_step(rows: Seq<CurrentTableItem>, n: int, k: (Seq<char>, Seq<char>))
    requires
        0 <= n < rows.len(),
    ensures
        spec_last_occ_cti(rows.take(n + 1), k) == if cti_pk(rows[n]) == k {
            n
        } else {
            spec_last_occ_cti(rows.take(n), k)
        },
{
    assert(rows.take(n + 1).drop_last() =~= rows.take(n));
    assert(rows.take(n + 1).last() == rows[n]);
}

/// A field-by-field copy of a row.
impl CurrentTableItem {
    pub fn duplicate(&self) -> (r: CurrentTableItem)
        ensures
            r == *self,
    {
        CurrentTableItem {
            table_handle: self.table_handle.clone(),
            key_hash: self.key_hash.clone(),
            key: self.key.clone(),
            decoded_key: self.decoded_key.clone(),
            decoded_value: match &self.decoded_value {
                Some(v) => Some(v.clone()),
                None => None,
            },
            last_transaction_version: self.last_transaction_version,
            is_deleted: self.is_deleted,
        }
    }
}

/// The position of a row with the given key, if one is present.
fn find_cti_by_pk(out: &Vec<CurrentTableItem>, handle: &str, key_hash: &str) -> (r: Option<usize>)
    ensures
        match r {
            Some(p) => p < out@.len() && cti_pk(out@[p as int]) == (handle@, key_hash@),
            None => forall|i: int|
                0 <= i < out@.len() ==> cti_pk(#[trigger] out@[i]) != (handle@, key_hash@),
        },
{
    let mut i: usize = 0;
    while i < out.len()
        invariant
            i <= out@.len(),
            forall|j: int| 0 <= j < i ==> cti_pk(#[trigger] out@[j]) != (handle@, key_hash@),
        decreases out@.len() - i,
    {
        let row = &out[i];
        if str_eq(row.table_handle.as_str(), handle) && str_eq(row.key_hash.as_str(), key_hash) {
            return Some(i);
        }
        i = i + 1;
    }
    None
}


/// One merge step: replacing or appending the incoming row at position
/// `p` keeps the merged prefix properties.
proof fn lemma_merge_cti_step(
    items: Seq<CurrentTableItem>,
    n: int,
    prev: Seq<CurrentTableItem>,
    cur: Seq<CurrentTableItem>,
    p: int,
)
    requires
        0 <= n < items.len(),
        0 <= p <= prev.len(),
        p < prev.len() ==> cur =~= prev.update(p, items[n]) && cti_pk(prev[p]) == cti_pk(items[n]),
        p == prev.len() ==> cur =~= prev.push(items[n]) && (forall|i: int|
            0 <= i < prev.len() ==> cti_pk(#[trigger] prev[i]) != cti_pk(items[n])),
        forall|i1: int, i2: int|
            0 <= i1 < i2 < prev.len() ==> cti_pk(#[trigger] prev[i1]) != cti_pk(
                #[trigger] prev[i2],
            ),
        forall|i: int|
            0 <= i < prev.len() ==> spec_last_occ_cti(items.take(n), cti_pk(#[trigger] prev[i]))
                >= 0 && prev[i] == items.take(n)[spec_last_occ_cti(
                items.take(n),
                cti_pk(prev[i]),
            )],
        forall|j: int|
            0 <= j < n ==> exists|i: int|
                0 <= i < prev.len() && cti_pk(#[trigger] prev[i]) == cti_pk(#[trigger] items[j]),
    ensures
        forall|i1: int, i2: int|
            0 <= i1 < i2 < cur.len() ==> cti_pk(#[trigger] cur[i1]) != cti_pk(#[trigger] cur[i2]),
        forall|i: int|
            0 <= i < cur.len() ==> spec_last_occ_cti(items.take(n + 1), cti_pk(#[trigger] cur[i]))
                >= 0 && cur[i] == items.take(n + 1)[spec_last_occ_cti(
                items.take(n + 1),
                cti_pk(cur[i]),
            )],
        forall|j: int|
            0 <= j < n + 1 ==> exists|i: int|
                0 <= i < cur.len() && cti_pk(#[trigger] cur[i]) == cti_pk(#[trigger] items[j]),
{
    assert(cur[p] == items[n]);
    assert(cti_pk(cur[p]) == cti_pk(items[n]));
    assert forall|i: int|
        0 <= i < cur.len() implies spec_last_occ_cti(items.take(n + 1), cti_pk(#[trigger] cur[i]))
        >= 0 && cur[i] == items.take(n + 1)[spec_last_occ_cti(
        items.take(n + 1),
        cti_pk(cur[i]),
    )] by {
        lemma_last_occ_cti_take_step(items, n, cti_pk(cur[i]));
        if i == p {
            assert(spec_last_occ_cti(items.take(n + 1), cti_pk(cur[p])) == n);
            assert(items.take(n + 1)[n] == items[n]);
        } else {
            assert(cur[i] == prev[i]);
            assert(cti_pk(cur[i]) != cti_pk(items[n]));
            let lo = spec_last_occ_cti(items.take(n), cti_pk(cur[i]));
            lemma_last_occ_cti_bounds(items.take(n), cti_pk(cur[i]));
            assert(items.take(n + 1)[lo] == items.take(n)[lo]);
        }
    }
    assert forall|j: int| 0 <= j < n + 1 implies exists|i: int|
        0 <= i < cur.len() && cti_pk(#[trigger] cur[i]) == cti_pk(#[trigger] items[j]) by {
        if j < n {
            let i0 = choose|i0: int|
                0 <= i0 < prev.len() && cti_pk(#[trigger] prev[i0]) == cti_pk(items[j]);
            if i0 == p {
                assert(cti_pk(cur[p]) == cti_pk(items[n]));
                assert(cti_pk(prev[p]) == cti_pk(items[n]));
                assert(cti_pk(cur[p]) == cti_pk(items[j]));
            } else {
                assert(cur[i0] == prev[i0]);
                assert(cti_pk(cur[i0]) == cti_pk(items[j]));
            }
        } else {
            assert(cti_pk(cur[p]) == cti_pk(items[n]));
        }
    }
}

/// Merges the batch's current-state rows by primary key.  The rows
/// arrive in `(transaction_version, write_set_change_index)` order, and
/// the last row of each key wins: the newest transaction, and within a
/// transaction the highest change index.  The result carries each key
/// once.
pub fn merge_current_table_items(items: &Vec<CurrentTableItem>) -> (r: Vec<CurrentTableItem>)
    ensures
        forall|i1: int, i2: int|
            0 <= i1 < i2 < r@.len() ==> cti_pk(#[trigger] r@[i1]) != cti_pk(#[trigger] r@[i2]),
        forall|i: int|
            0 <= i < r@.len() ==> spec_last_occ_cti(items@, cti_pk(#[trigger] r@[i])) >= 0 && r@[i]
                == items@[spec_last_occ_cti(items@, cti_pk(r@[i]))],
        forall|j: int|
            0 <= j < items@.len() ==> exists|i: int|
                0 <= i < r@.len() && cti_pk(#[trigger] r@[i]) == cti_pk(#[trigger] items@[j]),
{
    let mut out: Vec<CurrentTableItem> = Vec::new();
    let mut n: usize = 0;
    proof {
        assert(items@.take(0) =~= Seq::<CurrentTableItem>::empty());
    }
    while n < items.len()
        invariant
            n <= items@.len(),
            forall|i1: int, i2: int|
                0 <= i1 < i2 < out@.len() ==> cti_pk(#[trigger] out@[i1]) != cti_pk(
                    #[trigger] out@[i2],
                ),
            forall|i: int|
                0 <= i < out@.len() ==> spec_last_occ_cti(items@.take(n as int), cti_pk(#[trigger] out@[i]))
                    >= 0 && out@[i] == items@.take(n as int)[spec_last_occ_cti(
                    items@.take(n as int),
                    cti_pk(out@[i]),
                )],
            forall|j: int|
                0 <= j < n ==> exists|i: int|
                    0 <= i < out@.len() && cti_pk(#[trigger] out@[i]) == cti_pk(
                        #[trigger] items@[j],
                    ),
        decreases items@.len() - n,
    {
        let item = &items[n];
        let ghost prev_out = out@;
        match find_cti_by_pk(&out, item.table_handle.as_str(), item.key_hash.as_str()) {
            Some(p) => {
                out[p] = item.duplicate();
                proof {
                    assert(out@ =~= prev_out.update(p as int, items@[n as int]));
                    lemma_merge_cti_step(items@, n as int, prev_out, out@, p as int);
                }
            },
            None => {
                out.push(item.duplicate());
                proof {
                    assert(out@ =~= prev_out.push(items@[n as int]));
                    lemma_merge_cti_step(items@, n as int, prev_out, out@, prev_out.len() as int);
                }
            },
        }
        n = n + 1;
    }
    proof {
        assert(items@.take(items@.len() as int) =~= items@);
    }
    out
}

/// The kept row of each key is the newest: the batch's rows arrive in
/// `(transaction_version, write_set_change_index)` order, so versions
/// never decrease along the list, and the last occurrence of a key --
/// which the merge keeps -- carries a version at least that of every
/// other row of the key.
pub proof fn lemma_merge_keeps_newest(rows: Seq<CurrentTableItem>, merged: Seq<CurrentTableItem>)
    requires
        forall|j1: int, j2: int|
            0 <= j1 < j2 < rows.len() ==> (#[trigger] rows[j1]).last_transaction_version <= (
            #[trigger] rows[j2]).last_transaction_version,
        forall|i: int|
            0 <= i < merged.len() ==> spec_last_occ_cti(rows, cti_pk(#[trigger] merged[i])) >= 0
                && merged[i] == rows[spec_last_occ_cti(rows, cti_pk(merged[i]))],
    ensures
        forall|i: int, j: int|
            0 <= i < merged.len() && 0 <= j < rows.len() && cti_pk(#[trigger] rows[j]) == cti_pk(
                #[trigger] merged[i],
            ) ==> rows[j].last_transaction_version <= merged[i].last_transaction_version,
{
    assert forall|i: int, j: int|
        0 <= i < merged.len() && 0 <= j < rows.len() && cti_pk(#[trigger] rows[j]) == cti_pk(
            #[trigger] merged[i],
        ) implies rows[j].last_transaction_version <= merged[i].last_transaction_version by {
        let lo = spec_last_occ_cti(rows, cti_pk(merged[i]));
        lemma_last_occ_cti_bounds(rows, cti_pk(merged[i]));
        assert(j <= lo);
    }
}

/// Whether `a` sorts at or before `b` by primary key.
fn cti_le(a: &CurrentTableItem, b: &CurrentTableItem) -> (r: bool)
    ensures
        r == cti_pk_le(*a, *b),
{
    if !str_eq(a.table_handle.as_str(), b.table_handle.as_str()) {
        str_le(a.table_handle.as_str(), b.table_handle.as_str())
    } else {
        str_le(a.key_hash.as_str(), b.key_hash.as_str())
    }
}

/// Sorts the merged current-state rows by primary key, so the writer
/// takes row locks in one total order.  The result holds exactly the
/// input rows.
pub fn sort_current_table_items(items: Vec<CurrentTableItem>) -> (r: Vec<CurrentTableItem>)
    ensures
        r@.to_multiset() == items@.to_multiset(),
        r@.len() == items@.len(),
        forall|i1: int, i2: int|
            0 <= i1 <= i2 < r@.len() ==> cti_pk_le(#[trigger] r@[i1], #[trigger] r@[i2]),
        (forall|i1: int, i2: int|
            0 <= i1 < i2 < items@.len() ==> cti_pk(#[trigger] items@[i1]) != cti_pk(
                #[trigger] items@[i2],
            )) ==> (forall|i1: int, i2: int|
            0 <= i1 < i2 < r@.len() ==> cti_pk(#[trigger] r@[i1]) != cti_pk(#[trigger] r@[i2])),
{
    broadcast use vstd::seq_lib::group_to_multiset_ensures;

    let ghost input_unique = forall|i1: int, i2: int|
        0 <= i1 < i2 < items@.len() ==> cti_pk(#[trigger] items@[i1]) != cti_pk(
            #[trigger] items@[i2],
        );
    let mut rest = items;
    let ghost orig = rest@;
    let mut out: Vec<CurrentTableItem> = Vec::new();
    while rest.len() > 0
        invariant
            out@.to_multiset().add(rest@.to_multiset()) =~= orig.to_multiset(),
            out@.len() + rest@.len() == orig.len(),
            forall|i1: int, i2: int|
                0 <= i1 <= i2 < out@.len() ==> cti_pk_le(#[trigger] out@[i1], #[trigger] out@[i2]),
            forall|i: int, j: int|
                0 <= i < out@.len() && 0 <= j < rest@.len() ==> cti_pk_le(
                    #[trigger] out@[i],
                    #[trigger] rest@[j],
                ),
            input_unique ==> (forall|i1: int, i2: int|
                0 <= i1 < i2 < out@.len() ==> cti_pk(#[trigger] out@[i1]) != cti_pk(
                    #[trigger] out@[i2],
                )),
            input_unique ==> (forall|i1: int, i2: int|
                0 <= i1 < i2 < rest@.len() ==> cti_pk(#[trigger] rest@[i1]) != cti_pk(
                    #[trigger] rest@[i2],
                )),
            input_unique ==> (forall|i: int, j: int|
                0 <= i < out@.len() && 0 <= j < rest@.len() ==> cti_pk(#[trigger] out@[i])
                    != cti_pk(#[trigger] rest@[j])),
        decreases rest@.len(),
    {
        let mut m: usize = 0;
        let mut i: usize = 1;
        proof {
            lemma_cti_pk_le_total(rest@[0], rest@[0]);
        }
        while i < rest.len()
            invariant
                m < i <= rest@.len(),
                rest@.len() > 0,
                forall|j: int| 0 <= j < i ==> cti_pk_le(rest@[m as int], #[trigger] rest@[j]),
            decreases rest@.len() - i,
        {
            let smaller = cti_le(&rest[i], &rest[m]);
            proof {
                lemma_cti_pk_le_total(rest@[i as int], rest@[m as int]);
                if smaller {
                    assert forall|j: int| 0 <= j < i + 1 implies cti_pk_le(
                        rest@[i as int],
                        #[trigger] rest@[j],
                    ) by {
                        if j < i {
                            lemma_cti_pk_le_trans(rest@[i as int], rest@[m as int], rest@[j]);
                        } else {
                            lemma_cti_pk_le_total(rest@[i as int], rest@[i as int]);
                        }
                    }
                } else {
                    assert forall|j: int| 0 <= j < i + 1 implies cti_pk_le(
                        rest@[m as int],
                        #[trigger] rest@[j],
                    ) by {
                    }
                }
            }
            if smaller {
                m = i;
            }
            i = i + 1;
        }
        let ghost prev_rest = rest@;
        let ghost prev_out = out@;
        let x = rest.remove(m);
        out.push(x);
        proof {
            prev_rest.to_multiset_ensures();
            prev_out.to_multiset_ensures();
            assert(prev_rest.remove(m as int).to_multiset() =~= prev_rest.to_multiset().remove(x));
            assert(out@.to_multiset() =~= prev_out.to_multiset().insert(x));
            assert(prev_rest.to_multiset().contains(x));
            assert(out@.to_multiset().add(rest@.to_multiset()) =~= orig.to_multiset());
            assert forall|i1: int, i2: int|
                0 <= i1 <= i2 < out@.len() implies cti_pk_le(
                #[trigger] out@[i1],
                #[trigger] out@[i2],
            ) by {
                if i2 == out@.len() - 1 && i1 < i2 {
                    assert(cti_pk_le(prev_out[i1], prev_rest[m as int]));
                } else if i2 == out@.len() - 1 {
                    lemma_cti_pk_le_total(x, x);
                }
            }
            assert forall|i: int, j: int|
                0 <= i < out@.len() && 0 <= j < rest@.len() implies cti_pk_le(
                #[trigger] out@[i],
                #[trigger] rest@[j],
            ) by {
                let jo = if j < m {
                    j
                } else {
                    j + 1
                };
                assert(rest@[j] == prev_rest[jo]);
                if i < out@.len() - 1 {
                    assert(cti_pk_le(prev_out[i], prev_rest[jo]));
                } else {
                    assert(cti_pk_le(prev_rest[m as int], prev_rest[jo]));
                }
            }
            if input_unique {
                assert forall|i1: int, i2: int|
                    0 <= i1 < i2 < rest@.len() implies cti_pk(#[trigger] rest@[i1]) != cti_pk(
                    #[trigger] rest@[i2],
                ) by {
                    let j1 = if i1 < m {
                        i1
                    } else {
                        i1 + 1
                    };
                    let j2 = if i2 < m {
                        i2
                    } else {
                        i2 + 1
                    };
                    assert(rest@[i1] == prev_rest[j1]);
                    assert(rest@[i2] == prev_rest[j2]);
                }
                assert forall|i: int, j: int|
                    0 <= i < out@.len() && 0 <= j < rest@.len() implies cti_pk(#[trigger] out@[i])
                    != cti_pk(#[trigger] rest@[j]) by {
                    let jo = if j < m {
                        j
                    } else {
                        j + 1
                    };
                    assert(rest@[j] == prev_rest[jo]);
                    if i < out@.len() - 1 {
                        assert(cti_pk(prev_out[i]) != cti_pk(prev_rest[jo]));
                    } else {
                        assert(cti_pk(prev_rest[m as int]) != cti_pk(prev_rest[jo]));
                    }
                }
            }
        }
    }
    out
}

/// The position of the last metadata row with the given handle, or -1.
pub open spec fn spec_last_occ_tm(rows: Seq<TableMetadata>, k: Seq<char>) -> int
    decreases rows.len(),
{
    if rows.len() == 0 {
        -1
    } else if rows.last().handle@ == k {
        rows.len() - 1
    } else {
        spec_last_occ_tm(rows.drop_last(), k)
    }
}

proof fn lemma_last_occ_tm_bounds(rows: Seq<TableMetadata>, k: Seq<char>)
    ensures
        -1 <= spec_last_occ_tm(rows, k) < rows.len(),
        spec_last_occ_tm(rows, k) >= 0 ==> rows[spec_last_occ_tm(rows, k)].handle@ == k,
        forall|j: int|
            spec_last_occ_tm(rows, k) < j < rows.len() ==> (#[trigger] rows[j]).handle@ != k,
    decreases rows.len(),
{
    if rows.len() > 0 {
        lemma_last_occ_tm_bounds(rows.drop_last(), k);
        assert forall|j: int|
            spec_last_occ_tm(rows, k) < j < rows.len() implies (#[trigger] rows[j]).handle@
            != k by {
            if j < rows.len() - 1 {
                assert(rows.drop_last()[j] == rows[j]);
            }
        }
    }
}

proof fn lemma_last_occ_tm_take_step(rows: Seq<TableMetadata>, n: int, k: Seq<char>)
    requires
        0 <= n < rows.len(),
    ensures
        spec_last_occ_tm(rows.take(n + 1), k) == if rows[n].handle@ == k {
            n
        } else {
            spec_last_occ_tm(rows.take(n), k)
        },
{
    assert(rows.take(n + 1).drop_last() =~= rows.take(n));
    assert(rows.take(n + 1).last() == rows[n]);
}

impl TableMetadata {
    pub fn duplicate(&self) -> (r: TableMetadata)
        ensures
            r == *self,
    {
        TableMetadata {
            handle: self.handle.clone(),
            key_type: self.key_type.clone(),
            value_type: self.value_type.clone(),
        }
    }
}

fn find_tm_by_handle(out: &Vec<TableMetadata>, handle: &str) -> (r: Option<usize>)
    ensures
        match r {
            Some(p) => p < out@.len() && out@[p as int].handle@ == handle@,
            None => forall|i: int| 0 <= i < out@.len() ==> (#[trigger] out@[i]).handle@ != handle@,
        },
{
    let mut i: usize = 0;
    while i < out.len()
        invariant
            i <= out@.len(),
            forall|j: int| 0 <= j < i ==> (#[trigger] out@[j]).handle@ != handle@,
        decreases out@.len() - i,
    {
        if str_eq(out[i].handle.as_str(), handle) {
            return Some(i);
        }
        i = i + 1;
    }
    None
}

proof fn lemma_merge_tm_step(
    items: Seq<TableMetadata>,
    n: int,
    prev: Seq<TableMetadata>,
    cur: Seq<TableMetadata>,
    p: int,
)
    requires
        0 <= n < items.len(),
        0 <= p <= prev.len(),
        p < prev.len() ==> cur =~= prev.update(p, items[n]) && prev[p].handle@ == items[n].handle@,
        p == prev.len() ==> cur =~= prev.push(items[n]) && (forall|i: int|
            0 <= i < prev.len() ==> (#[trigger] prev[i]).handle@ != items[n].handle@),
        forall|i1: int, i2: int|
            0 <= i1 < i2 < prev.len() ==> (#[trigger] prev[i1]).handle@ != (
            #[trigger] prev[i2]).handle@,
        forall|i: int|
            0 <= i < prev.len() ==> spec_last_occ_tm(items.take(n), (#[trigger] prev[i]).handle@)
                >= 0 && prev[i] == items.take(n)[spec_last_occ_tm(items.take(n), prev[i].handle@)],
        forall|j: int|
            0 <= j < n ==> exists|i: int|
                0 <= i < prev.len() && (#[trigger] prev[i]).handle@ == (#[trigger] items[j]).handle@,
    ensures
        forall|i1: int, i2: int|
            0 <= i1 < i2 < cur.len() ==> (#[trigger] cur[i1]).handle@ != (#[trigger] cur[i2]).handle@,
        forall|i: int|
            0 <= i < cur.len() ==> spec_last_occ_tm(items.take(n + 1), (#[trigger] cur[i]).handle@)
                >= 0 && cur[i] == items.take(n + 1)[spec_last_occ_tm(
                items.take(n + 1),
                cur[i].handle@,
            )],
        forall|j: int|
            0 <= j < n + 1 ==> exists|i: int|
                0 <= i < cur.len() && (#[trigger] cur[i]).handle@ == (#[trigger] items[j]).handle@,
{
    assert(cur[p] == items[n]);
    assert forall|i: int|
        0 <= i < cur.len() implies spec_last_occ_tm(items.take(n + 1), (#[trigger] cur[i]).handle@)
        >= 0 && cur[i] == items.take(n + 1)[spec_last_occ_tm(
        items.take(n + 1),
        cur[i].handle@,
    )] by {
        lemma_last_occ_tm_take_step(items, n, cur[i].handle@);
        if i == p {
            assert(items.take(n + 1)[n] == items[n]);
        } else {
            assert(cur[i] == prev[i]);
            assert(cur[i].handle@ != items[n].handle@);
            let lo = spec_last_occ_tm(items.take(n), cur[i].handle@);
            lemma_last_occ_tm_bounds(items.take(n), cur[i].handle@);
            assert(items.take(n + 1)[lo] == items.take(n)[lo]);
        }
    }
    assert forall|j: int| 0 <= j < n + 1 implies exists|i: int|
        0 <= i < cur.len() && (#[trigger] cur[i]).handle@ == (#[trigger] items[j]).handle@ by {
        if j < n {
            let i0 = choose|i0: int|
                0 <= i0 < prev.len() && (#[trigger] prev[i0]).handle@ == items[j].handle@;
            if i0 == p {
                assert(cur[p].handle@ == items[j].handle@);
            } else {
                assert(cur[i0].handle@ == items[j].handle@);
            }
        } else {
            assert(cur[p].handle@ == items[n].handle@);
        }
    }
}

/// Merges the batch's metadata rows by table handle; the last row of
/// each handle wins.
pub fn merge_table_metadata(items: &Vec<TableMetadata>) -> (r: Vec<TableMetadata>)
    ensures
        forall|i1: int, i2: int|
            0 <= i1 < i2 < r@.len() ==> (#[trigger] r@[i1]).handle@ != (#[trigger] r@[i2]).handle@,
        forall|i: int|
            0 <= i < r@.len() ==> spec_last_occ_tm(items@, (#[trigger] r@[i]).handle@) >= 0 && r@[i]
                == items@[spec_last_occ_tm(items@, r@[i].handle@)],
        forall|j: int|
            0 <= j < items@.len() ==> exists|i: int|
                0 <= i < r@.len() && (#[trigger] r@[i]).handle@ == (#[trigger] items@[j]).handle@,
{
    let mut out: Vec<TableMetadata> = Vec::new();
    let mut n: usize = 0;
    proof {
        assert(items@.take(0) =~= Seq::<TableMetadata>::empty());
    }
    while n < items.len()
        invariant
            n <= items@.len(),
            forall|i1: int, i2: int|
                0 <= i1 < i2 < out@.len() ==> (#[trigger] out@[i1]).handle@ != (
                #[trigger] out@[i2]).handle@,
            forall|i: int|
                0 <= i < out@.len() ==> spec_last_occ_tm(
                    items@.take(n as int),
                    (#[trigger] out@[i]).handle@,
                ) >= 0 && out@[i] == items@.take(n as int)[spec_last_occ_tm(
                    items@.take(n as int),
                    out@[i].handle@,
                )],
            forall|j: int|
                0 <= j < n ==> exists|i: int|
                    0 <= i < out@.len() && (#[trigger] out@[i]).handle@ == (
                    #[trigger] items@[j]).handle@,
        decreases items@.len() - n,
    {
        let item = &items[n];
        let ghost prev_out = out@;
        match find_tm_by_handle(&out, item.handle.as_str()) {
            Some(p) => {
                out[p] = item.duplicate();
                proof {
                    assert(out@ =~= prev_out.update(p as int, items@[n as int]));
                    lemma_merge_tm_step(items@, n as int, prev_out, out@, p as int);
                }
            },
            None => {
                out.push(item.duplicate());
                proof {
                    assert(out@ =~= prev_out.push(items@[n as int]));
                    lemma_merge_tm_step(items@, n as int, prev_out, out@, prev_out.len() as int);
                }
            },
        }
        n = n + 1;
    }
    proof {
        assert(items@.take(items@.len() as int) =~= items@);
    }
    out
}

/// Sorts metadata rows by their primary key, the table handle.
pub fn sort_table_metadata(items: Vec<TableMetadata>) -> (r: Vec<TableMetadata>)
    ensures
        r@.to_multiset() == items@.to_multiset(),
        r@.len() == items@.len(),
        forall|i1: int, i2: int|
            0 <= i1 <= i2 < r@.len() ==> seq_char_le(
                (#[trigger] r@[i1]).handle@,
                (#[trigger] r@[i2]).handle@,
            ),
        (forall|i1: int, i2: int|
            0 <= i1 < i2 < items@.len() ==> (#[trigger] items@[i1]).handle@ != (
            #[trigger] items@[i2]).handle@) ==> (forall|i1: int, i2: int|
            0 <= i1 < i2 < r@.len() ==> (#[trigger] r@[i1]).handle@ != (#[trigger] r@[i2]).handle@),
{
    broadcast use vstd::seq_lib::group_to_multiset_ensures;

    let ghost input_unique = forall|i1: int, i2: int|
        0 <= i1 < i2 < items@.len() ==> (#[trigger] items@[i1]).handle@ != (
        #[trigger] items@[i2]).handle@;
    let mut rest = items;
    let ghost orig = rest@;
    let mut out: Vec<TableMetadata> = Vec::new();
    while rest.len() > 0
        invariant
            out@.to_multiset().add(rest@.to_multiset()) =~= orig.to_multiset(),
            out@.len() + rest@.len() == orig.len(),
            forall|i1: int, i2: int|
                0 <= i1 <= i2 < out@.len() ==> seq_char_le(
                    (#[trigger] out@[i1]).handle@,
                    (#[trigger] out@[i2]).handle@,
                ),
            forall|i: int, j: int|
                0 <= i < out@.len() && 0 <= j < rest@.len() ==> seq_char_le(
                    (#[trigger] out@[i]).handle@,
                    (#[trigger] rest@[j]).handle@,
                ),
            input_unique ==> (forall|i1: int, i2: int|
                0 <= i1 < i2 < out@.len() ==> (#[trigger] out@[i1]).handle@ != (
                #[trigger] out@[i2]).handle@),
            input_unique ==> (forall|i1: int, i2: int|
                0 <= i1 < i2 < rest@.len() ==> (#[trigger] rest@[i1]).handle@ != (
                #[trigger] rest@[i2]).handle@),
            input_unique ==> (forall|i: int, j: int|
                0 <= i < out@.len() && 0 <= j < rest@.len() ==> (#[trigger] out@[i]).handle@ != (
                #[trigger] rest@[j]).handle@),
        decreases rest@.len(),
    {
        let mut m: usize = 0;
        let mut i: usize = 1;
        proof {
            lemma_seq_char_le_total(rest@[0].handle@, rest@[0].handle@);
        }
        while i < rest.len()
            invariant
                m < i <= rest@.len(),
                rest@.len() > 0,
                forall|j: int|
                    0 <= j < i ==> seq_char_le(rest@[m as int].handle@, (#[trigger] rest@[j]).handle@),
            decreases rest@.len() - i,
        {
            let smaller = str_le(rest[i].handle.as_str(), rest[m].handle.as_str())
                && !str_eq(rest[i].handle.as_str(), rest[m].handle.as_str());
            proof {
                lemma_seq_char_le_total(rest@[i as int].handle@, rest@[m as int].handle@);
                if smaller {
                    assert forall|j: int| 0 <= j < i + 1 implies seq_char_le(
                        rest@[i as int].handle@,
                        (#[trigger] rest@[j]).handle@,
                    ) by {
                        if j < i {
                            lemma_seq_char_le_trans(
                                rest@[i as int].handle@,
                                rest@[m as int].handle@,
                                rest@[j].handle@,
                            );
                        } else {
                            lemma_seq_char_le_total(rest@[i as int].handle@, rest@[i as int].handle@);
                        }
                    }
                }
            }
            if smaller {
                m = i;
            }
            i = i + 1;
        }
        let ghost prev_rest = rest@;
        let ghost prev_out = out@;
        let x = rest.remove(m);
        out.push(x);
        proof {
            prev_rest.to_multiset_ensures();
            prev_out.to_multiset_ensures();
            assert(prev_rest.remove(m as int).to_multiset() =~= prev_rest.to_multiset().remove(x));
            assert(out@.to_multiset() =~= prev_out.to_multiset().insert(x));
            assert(prev_rest.to_multiset().contains(x));
            assert(out@.to_multiset().add(rest@.to_multiset()) =~= orig.to_multiset());
            assert forall|i1: int, i2: int|
                0 <= i1 <= i2 < out@.len() implies seq_char_le(
                (#[trigger] out@[i1]).handle@,
                (#[trigger] out@[i2]).handle@,
            ) by {
                if i2 == out@.len() - 1 && i1 < i2 {
                    assert(seq_char_le(prev_out[i1].handle@, prev_rest[m as int].handle@));
                } else if i2 == out@.len() - 1 {
                    lemma_seq_char_le_total(x.handle@, x.handle@);
                }
            }
            assert forall|i: int, j: int|
                0 <= i < out@.len() && 0 <= j < rest@.len() implies seq_char_le(
                (#[trigger] out@[i]).handle@,
                (#[trigger] rest@[j]).handle@,
            ) by {
                let jo = if j < m {
                    j
                } else {
                    j + 1
                };
                assert(rest@[j] == prev_rest[jo]);
                if i < out@.len() - 1 {
                    assert(seq_char_le(prev_out[i].handle@, prev_rest[jo].handle@));
                } else {
                    assert(seq_char_le(prev_rest[m as int].handle@, prev_rest[jo].handle@));
                }
            }
            if input_unique {
                assert forall|i1: int, i2: int|
                    0 <= i1 < i2 < rest@.len() implies (#[trigger] rest@[i1]).handle@ != (
                #[trigger] rest@[i2]).handle@ by {
                    let j1 = if i1 < m {
                        i1
                    } else {
                        i1 + 1
                    };
                    let j2 = if i2 < m {
                        i2
                    } else {
                        i2 + 1
                    };
                    assert(rest@[i1] == prev_rest[j1]);
                    assert(rest@[i2] == prev_rest[j2]);
                }
                assert forall|i: int, j: int|
                    0 <= i < out@.len() && 0 <= j < rest@.len() implies (
                #[trigger] out@[i]).handle@ != (#[trigger] rest@[j]).handle@ by {
                    let jo = if j < m {
                        j
                    } else {
                        j + 1
                    };
                    assert(rest@[j] == prev_rest[jo]);
                    if i < out@.len() - 1 {
                        assert(prev_out[i].handle@ != prev_rest[jo].handle@);
                    } else {
                        assert(prev_rest[m as int].handle@ != prev_rest[jo].handle@);
                    }
                }
            }
        }
    }
    out
}

/// What the block-metadata record extracted from a transaction holds.
pub open spec fn bmt_matches(b: BlockMetadataTransaction, txn: Transaction) -> bool {
    match txn.txn_data {
        Some(crate::transaction::TxnData::BlockMetadata(d)) => {
            &&& b.version == txn.version as i64
            &&& b.block_height == txn.block_height as i64
            &&& b.id@ == spec_standardize(d.id@)
            &&& b.round == d.round as i64
            &&& b.epoch == txn.epoch as i64
            &&& b.previous_block_votes_bitvec@ == d.previous_block_votes_bitvec@
            &&& b.proposer@ == spec_standardize(d.proposer@)
            &&& b.failed_proposer_indices@ == d.failed_proposer_indices@
            &&& b.timestamp == spec_timestamp_micros(txn.timestamp->0)
        },
        _ => false,
    }
}

/// Whether a transaction carries block metadata.
pub open spec fn is_bmt(txn: Transaction) -> bool {
    txn.txn_data matches Some(crate::transaction::TxnData::BlockMetadata(_))
}

/// The number of block-metadata transactions in a batch.
pub open spec fn spec_bmt_count(txns: Seq<Transaction>) -> int
    decreases txns.len(),
{
    if txns.len() == 0 {
        0
    } else {
        spec_bmt_count(txns.drop_last()) + if is_bmt(txns.last()) {
            1int
        } else {
            0int
        }
    }
}

/// The number of table-item changes over a whole batch.
pub open spec fn spec_batch_tc_count(txns: Seq<Transaction>) -> int
    decreases txns.len(),
{
    if txns.len() == 0 {
        0
    } else {
        spec_batch_tc_count(txns.drop_last()) + spec_tc_count(txns.last().spec_changes())
    }
}

/// The number of table-item writes over a whole batch.
pub open spec fn spec_batch_wt_count(txns: Seq<Transaction>) -> int
    decreases txns.len(),
{
    if txns.len() == 0 {
        0
    } else {
        spec_batch_wt_count(txns.drop_last()) + spec_wt_count(txns.last().spec_changes())
    }
}

/// Where transaction `t`'s block-metadata record lands in the output.
pub open spec fn spec_bmt_offset(txns: Seq<Transaction>, t: int) -> int {
    spec_bmt_count(txns.take(t))
}

/// Where transaction `t`'s metadata rows start in the flattened output.
pub open spec fn spec_batch_wt_offset(txns: Seq<Transaction>, t: int) -> int {
    spec_batch_wt_count(txns.take(t))
}

/// Where transaction `t`'s table items start in the flattened output.
pub open spec fn spec_batch_tc_offset(txns: Seq<Transaction>, t: int) -> int {
    spec_batch_tc_count(txns.take(t))
}

proof fn lemma_batch_counts_take_step(txns: Seq<Transaction>, t: int)
    requires
        0 <= t < txns.len(),
    ensures
        spec_bmt_count(txns.take(t + 1)) == spec_bmt_count(txns.take(t)) + if is_bmt(txns[t]) {
            1int
        } else {
            0int
        },
        spec_batch_tc_count(txns.take(t + 1)) == spec_batch_tc_count(txns.take(t)) + spec_tc_count(
            txns[t].spec_changes(),
        ),
        spec_batch_wt_count(txns.take(t + 1)) == spec_batch_wt_count(txns.take(t)) + spec_wt_count(
            txns[t].spec_changes(),
        ),
{
    assert(txns.take(t + 1).drop_last() =~= txns.take(t));
    assert(txns.take(t + 1).last() == txns[t]);
}

proof fn lemma_batch_counts_nonneg(txns: Seq<Transaction>)
    ensures
        spec_bmt_count(txns) >= 0,
        spec_batch_tc_count(txns) >= 0,
        spec_batch_wt_count(txns) >= 0,
    decreases txns.len(),
{
    if txns.len() > 0 {
        lemma_batch_counts_nonneg(txns.drop_last());
        lemma_tc_count_nonneg(txns.last().spec_changes());
    }
}

proof fn lemma_batch_offsets_mono(txns: Seq<Transaction>, k: int, t: int)
    requires
        0 <= k < t <= txns.len(),
    ensures
        spec_bmt_offset(txns, k) + (if is_bmt(txns[k]) {
            1int
        } else {
            0int
        }) <= spec_bmt_offset(txns, t),
        spec_batch_tc_offset(txns, k) + spec_tc_count(txns[k].spec_changes())
            <= spec_batch_tc_offset(txns, t),
        spec_batch_wt_offset(txns, k) + spec_wt_count(txns[k].spec_changes())
            <= spec_batch_wt_offset(txns, t),
    decreases t - k,
{
    lemma_batch_counts_take_step(txns, t - 1);
    lemma_tc_count_nonneg(txns[t - 1].spec_changes());
    if k < t - 1 {
        lemma_batch_offsets_mono(txns, k, t - 1);
    }
}

/// The primary key a table-item change writes: the normalized handle
/// and normalized key hash.
pub open spec fn spec_change_pk(txn: Transaction, j: int) -> (Seq<char>, Seq<char>) {
    match txn.spec_changes()[j] {
        WriteSetChangeInput::WriteTableItem { handle, key, key_hash, data } => (
            spec_standardize(handle@),
            spec_standardize(key_hash@),
        ),
        WriteSetChangeInput::DeleteTableItem { handle, key, key_hash, decoded_key } => (
            spec_standardize(handle@),
            spec_standardize(key_hash@),
        ),
        _ => (Seq::empty(), Seq::empty()),
    }
}

/// The normalized handle a table-item write records metadata under.
pub open spec fn spec_change_handle(txn: Transaction, j: int) -> Seq<char> {
    spec_change_pk(txn, j).0
}

/// Whether `(t, j)` names a table-item change of the batch.
pub open spec fn is_batch_table_change(txs: Seq<Transaction>, t: int, j: int) -> bool {
    &&& 0 <= t < txs.len()
    &&& 0 <= j < txs[t].spec_changes().len()
    &&& is_table_change(txs[t].spec_changes()[j])
}

/// Whether `(t, j)` names a table-item write of the batch.
pub open spec fn is_batch_table_write(txs: Seq<Transaction>, t: int, j: int) -> bool {
    &&& 0 <= t < txs.len()
    &&& 0 <= j < txs[t].spec_changes().len()
    &&& txs[t].spec_changes()[j] is WriteTableItem
}

/// Whether `(t, j)` is the last change of the batch writing `key`:
/// the newest transaction, and within it the highest change index.
pub open spec fn is_last_change_of_key(
    txs: Seq<Transaction>,
    key: (Seq<char>, Seq<char>),
    t: int,
    j: int,
) -> bool {
    &&& is_batch_table_change(txs, t, j)
    &&& spec_change_pk(txs[t], j) == key
    &&& forall|t2: int, j2: int|
        #![trigger spec_change_pk(txs[t2], j2)]
        is_batch_table_change(txs, t2, j2) && spec_change_pk(txs[t2], j2) == key ==> (t2 < t || (t2
            == t && j2 <= j))
}

/// Whether `(t, j)` is the last table write of the batch under `handle`.
pub open spec fn is_last_write_of_handle(
    txs: Seq<Transaction>,
    handle: Seq<char>,
    t: int,
    j: int,
) -> bool {
    &&& is_batch_table_write(txs, t, j)
    &&& spec_change_handle(txs[t], j) == handle
    &&& forall|t2: int, j2: int|
        #![trigger spec_change_handle(txs[t2], j2)]
        is_batch_table_write(txs, t2, j2) && spec_change_handle(txs[t2], j2) == handle ==> (t2 < t
            || (t2 == t && j2 <= j))
}

/// Whether a current-state row is exactly what the last change of its
/// key in the batch extracts.
pub open spec fn cti_row_from_batch(txs: Seq<Transaction>, row: CurrentTableItem) -> bool {
    exists|t: int, j: int|
        #![trigger is_last_change_of_key(txs, cti_pk(row), t, j)]
        is_last_change_of_key(txs, cti_pk(row), t, j) && current_table_item_matches(row, txs[t], j)
}

/// Whether a metadata row is exactly what the last table write of its
/// handle in the batch extracts.
pub open spec fn tm_row_from_batch(txs: Seq<Transaction>, row: TableMetadata) -> bool {
    exists|t: int, j: int|
        #![trigger is_last_write_of_handle(txs, row.handle@, t, j)]
        is_last_write_of_handle(txs, row.handle@, t, j) && table_metadata_matches(
            row,
            txs[t].spec_changes()[j],
        )
}

/// Where change `j` of transaction `t` lands among the batch's
/// flattened table-item rows.
pub open spec fn spec_tc_pos(txns: Seq<Transaction>, t: int, j: int) -> int {
    spec_batch_tc_offset(txns, t) + spec_tc_count(txns[t].spec_changes().take(j))
}

/// Where table write `j` of transaction `t` lands among the batch's
/// flattened metadata rows.
pub open spec fn spec_wt_pos(txns: Seq<Transaction>, t: int, j: int) -> int {
    spec_batch_wt_offset(txns, t) + spec_wt_count(txns[t].spec_changes().take(j))
}

/// A table change's flattened position lies within the batch's rows.
proof fn lemma_tc_pos_bounds(txns: Seq<Transaction>, t: int, j: int)
    requires
        0 <= t < txns.len(),
        0 <= j < txns[t].spec_changes().len(),
    ensures
        0 <= spec_tc_pos(txns, t, j),
        is_table_change(txns[t].spec_changes()[j]) ==> spec_tc_pos(txns, t, j)
            < spec_batch_tc_count(txns),
        txns[t].spec_changes()[j] is WriteTableItem ==> 0 <= spec_wt_pos(txns, t, j)
            < spec_batch_wt_count(txns),
        spec_wt_pos(txns, t, j) >= 0,
{
    lemma_batch_counts_nonneg(txns.take(t));
    lemma_tc_count_nonneg(txns[t].spec_changes().take(j));
    lemma_tc_count_mono(txns[t].spec_changes(), j, txns[t].spec_changes().len() as int);
    assert(txns[t].spec_changes().take(txns[t].spec_changes().len() as int) =~= txns[t].spec_changes());
    lemma_batch_offsets_mono(txns, t, txns.len() as int);
    assert(txns.take(txns.len() as int) =~= txns);
}

/// Flattened positions respect batch order: an earlier change of the
/// batch lands strictly before a later one.
proof fn lemma_tc_pos_mono(txns: Seq<Transaction>, t1: int, j1: int, t2: int, j2: int)
    requires
        0 <= t1 < txns.len(),
        0 <= j1 < txns[t1].spec_changes().len(),
        0 <= t2 < txns.len(),
        0 <= j2 < txns[t2].spec_changes().len(),
        is_table_change(txns[t1].spec_changes()[j1]),
        t1 < t2 || (t1 == t2 && j1 < j2),
    ensures
        spec_tc_pos(txns, t1, j1) < spec_tc_pos(txns, t2, j2),
        txns[t1].spec_changes()[j1] is WriteTableItem ==> spec_wt_pos(txns, t1, j1) < spec_wt_pos(
            txns,
            t2,
            j2,
        ),
{
    lemma_tc_count_nonneg(txns[t2].spec_changes().take(j2));
    if t1 == t2 {
        lemma_tc_count_mono(txns[t1].spec_changes(), j1, j2);
    } else {
        lemma_tc_count_mono(txns[t1].spec_changes(), j1, txns[t1].spec_changes().len() as int);
        assert(txns[t1].spec_changes().take(txns[t1].spec_changes().len() as int) =~= txns[t1].spec_changes());
        lemma_batch_offsets_mono(txns, t1, t2);
    }
}

/// Every flattened table-item position comes from some change: the
/// inverse of the position map, within one change list.
proof fn lemma_tc_pos_inverse_inner(changes: Seq<WriteSetChangeInput>, p: int)
    requires
        0 <= p < spec_tc_count(changes),
    ensures
        exists|j: int|
            #![trigger changes[j]]
            0 <= j < changes.len() && is_table_change(changes[j]) && spec_tc_count(changes.take(j))
                == p,
    decreases changes.len(),
{
    lemma_tc_count_nonneg(changes);
    let prior = changes.drop_last();
    lemma_tc_count_nonneg(prior);
    if p < spec_tc_count(prior) {
        lemma_tc_pos_inverse_inner(prior, p);
        let j = choose|j: int|
            0 <= j < prior.len() && is_table_change(#[trigger] prior[j]) && spec_tc_count(
                prior.take(j),
            ) == p;
        assert(changes[j] == prior[j]);
        assert(changes.take(j) =~= prior.take(j));
    } else {
        assert(is_table_change(changes.last()));
        assert(changes.take(changes.len() - 1) =~= prior);
    }
}

/// The metadata analogue of the inner inverse.
proof fn lemma_wt_pos_inverse_inner(changes: Seq<WriteSetChangeInput>, p: int)
    requires
        0 <= p < spec_wt_count(changes),
    ensures
        exists|j: int|
            #![trigger changes[j]]
            0 <= j < changes.len() && changes[j] is WriteTableItem && spec_wt_count(changes.take(j))
                == p,
    decreases changes.len(),
{
    lemma_tc_count_nonneg(changes);
    let prior = changes.drop_last();
    lemma_tc_count_nonneg(prior);
    if p < spec_wt_count(prior) {
        lemma_wt_pos_inverse_inner(prior, p);
        let j = choose|j: int|
            0 <= j < prior.len() && (#[trigger] prior[j]) is WriteTableItem && spec_wt_count(
                prior.take(j),
            ) == p;
        assert(changes[j] == prior[j]);
        assert(changes.take(j) =~= prior.take(j));
    } else {
        assert(changes.last() is WriteTableItem);
        assert(changes.take(changes.len() - 1) =~= prior);
    }
}

/// Every flattened table-item position comes from some change of some
/// transaction of the batch.
proof fn lemma_tc_pos_inverse(txns: Seq<Transaction>, p: int)
    requires
        0 <= p < spec_batch_tc_count(txns),
    ensures
        exists|t: int, j: int|
            #![trigger txns[t].spec_changes()[j]]
            0 <= t < txns.len() && 0 <= j < txns[t].spec_changes().len() && is_table_change(
                txns[t].spec_changes()[j],
            ) && spec_tc_pos(txns, t, j) == p,
    decreases txns.len(),
{
    lemma_batch_counts_nonneg(txns);
    let prior = txns.drop_last();
    lemma_batch_counts_nonneg(prior);
    if p < spec_batch_tc_count(prior) {
        lemma_tc_pos_inverse(prior, p);
        let (t, j) = choose|t: int, j: int|
            #![trigger prior[t].spec_changes()[j]]
            0 <= t < prior.len() && 0 <= j < prior[t].spec_changes().len() && is_table_change(
                prior[t].spec_changes()[j],
            ) && spec_tc_pos(prior, t, j) == p;
        assert(txns[t] == prior[t]);
        assert(txns.take(t) =~= prior.take(t));
        assert(spec_tc_pos(txns, t, j) == p);
    } else {
        let t = txns.len() - 1;
        let inner = p - spec_batch_tc_count(prior);
        lemma_tc_pos_inverse_inner(txns[t].spec_changes(), inner);
        let j = choose|j: int|
            0 <= j < txns[t].spec_changes().len() && is_table_change(
                #[trigger] txns[t].spec_changes()[j],
            ) && spec_tc_count(txns[t].spec_changes().take(j)) == inner;
        assert(txns.take(t) =~= prior);
        assert(spec_tc_pos(txns, t, j) == p);
    }
}

/// Every flattened metadata position comes from some table write of
/// some transaction of the batch.
proof fn lemma_wt_pos_inverse(txns: Seq<Transaction>, p: int)
    requires
        0 <= p < spec_batch_wt_count(txns),
    ensures
        exists|t: int, j: int|
            #![trigger txns[t].spec_changes()[j]]
            0 <= t < txns.len() && 0 <= j < txns[t].spec_changes().len()
                && txns[t].spec_changes()[j] is WriteTableItem && spec_wt_pos(txns, t, j) == p,
    decreases txns.len(),
{
    lemma_batch_counts_nonneg(txns);
    let prior = txns.drop_last();
    lemma_batch_counts_nonneg(prior);
    if p < spec_batch_wt_count(prior) {
        lemma_wt_pos_inverse(prior, p);
        let (t, j) = choose|t: int, j: int|
            #![trigger prior[t].spec_changes()[j]]
            0 <= t < prior.len() && 0 <= j < prior[t].spec_changes().len()
                && prior[t].spec_changes()[j] is WriteTableItem && spec_wt_pos(prior, t, j) == p;
        assert(txns[t] == prior[t]);
        assert(txns.take(t) =~= prior.take(t));
        assert(spec_wt_pos(txns, t, j) == p);
    } else {
        let t = txns.len() - 1;
        let inner = p - spec_batch_wt_count(prior);
        lemma_wt_pos_inverse_inner(txns[t].spec_changes(), inner);
        let j = choose|j: int|
            0 <= j < txns[t].spec_changes().len() && (#[trigger] txns[t].spec_changes()[j])
                is WriteTableItem && spec_wt_count(txns[t].spec_changes().take(j)) == inner;
        assert(txns.take(t) =~= prior);
        assert(spec_wt_pos(txns, t, j) == p);
    }
}

/// A current-state row extracted from a change carries that change's
/// primary key.
proof fn lemma_cti_matches_pk(ct: CurrentTableItem, txn: Transaction, j: int)
    requires
        0 <= j < txn.spec_changes().len(),
        is_table_change(txn.spec_changes()[j]),
        current_table_item_matches(ct, txn, j),
    ensures
        cti_pk(ct) == spec_change_pk(txn, j),
{
}

/// A metadata row extracted from a table write carries that write's
/// normalized handle.
proof fn lemma_tm_matches_handle(m: TableMetadata, txn: Transaction, j: int)
    requires
        0 <= j < txn.spec_changes().len(),
        txn.spec_changes()[j] is WriteTableItem,
        table_metadata_matches(m, txn.spec_changes()[j]),
    ensures
        m.handle@ == spec_change_handle(txn, j),
{
}

/// Lifts the merge and sort contracts to the batch: every row of the
/// sorted current-state projection is extracted from the last change of
/// its key in the batch, and every table change's key is represented.
#[verifier::rlimit(100)]
proof fn lemma_cti_projection_content(
    txs: Seq<Transaction>,
    raw: Seq<CurrentTableItem>,
    merged: Seq<CurrentTableItem>,
    sorted: Seq<CurrentTableItem>,
)
    requires
        raw.len() == spec_batch_tc_count(txs),
        forall|t: int, j: int|
            #![trigger txs[t].spec_changes()[j]]
            0 <= t < txs.len() && 0 <= j < txs[t].spec_changes().len() && is_table_change(
                txs[t].spec_changes()[j],
            ) ==> current_table_item_matches(raw[spec_tc_pos(txs, t, j)], txs[t], j),
        forall|i: int|
            0 <= i < merged.len() ==> spec_last_occ_cti(raw, cti_pk(#[trigger] merged[i])) >= 0
                && merged[i] == raw[spec_last_occ_cti(raw, cti_pk(merged[i]))],
        sorted.to_multiset() == merged.to_multiset(),
    ensures
        forall|i: int| 0 <= i < sorted.len() ==> cti_row_from_batch(txs, #[trigger] sorted[i]),
{
    broadcast use vstd::seq_lib::group_to_multiset_ensures;

    assert forall|i: int| 0 <= i < sorted.len() implies cti_row_from_batch(
        txs,
        #[trigger] sorted[i],
    ) by {
        let row = sorted[i];
        assert(sorted.contains(row));
        assert(merged.to_multiset().count(row) > 0);
        assert(merged.contains(row));
        let i0 = choose|i0: int| 0 <= i0 < merged.len() && merged[i0] == row;
        assert(merged[i0] == row);
        let key = cti_pk(row);
        let lo = spec_last_occ_cti(raw, key);
        assert(lo >= 0 && row == raw[lo]);
        lemma_last_occ_cti_bounds(raw, key);
        lemma_tc_pos_inverse(txs, lo);
        let (t, j) = choose|t: int, j: int|
            #![trigger txs[t].spec_changes()[j]]
            0 <= t < txs.len() && 0 <= j < txs[t].spec_changes().len() && is_table_change(
                txs[t].spec_changes()[j],
            ) && spec_tc_pos(txs, t, j) == lo;
        assert(current_table_item_matches(raw[spec_tc_pos(txs, t, j)], txs[t], j));
        assert(current_table_item_matches(row, txs[t], j));
        lemma_cti_matches_pk(row, txs[t], j);
        assert forall|t2: int, j2: int|
            #![trigger spec_change_pk(txs[t2], j2)]
            is_batch_table_change(txs, t2, j2) && spec_change_pk(txs[t2], j2) == key implies (t2 < t
            || (t2 == t && j2 <= j)) by {
            if t < t2 || (t == t2 && j < j2) {
                lemma_tc_pos_mono(txs, t, j, t2, j2);
                lemma_tc_pos_bounds(txs, t2, j2);
                let p2 = spec_tc_pos(txs, t2, j2);
                assert(current_table_item_matches(raw[p2], txs[t2], j2));
                lemma_cti_matches_pk(raw[p2], txs[t2], j2);
                assert(cti_pk(raw[p2]) == key);
                assert(false);
            }
        }
        assert(is_last_change_of_key(txs, key, t, j));
        assert(cti_row_from_batch(txs, row));
    }
}

/// The metadata analogue: every sorted metadata row is extracted from
/// the last table write of its handle, and every written handle appears.
#[verifier::rlimit(100)]
proof fn lemma_tm_projection_content(
    txs: Seq<Transaction>,
    raw: Seq<TableMetadata>,
    merged: Seq<TableMetadata>,
    sorted: Seq<TableMetadata>,
)
    requires
        raw.len() == spec_batch_wt_count(txs),
        forall|t: int, j: int|
            #![trigger txs[t].spec_changes()[j]]
            0 <= t < txs.len() && 0 <= j < txs[t].spec_changes().len()
                && txs[t].spec_changes()[j] is WriteTableItem ==> table_metadata_matches(
                raw[spec_wt_pos(txs, t, j)],
                txs[t].spec_changes()[j],
            ),
        forall|i: int|
            0 <= i < merged.len() ==> spec_last_occ_tm(raw, (#[trigger] merged[i]).handle@) >= 0
                && merged[i] == raw[spec_last_occ_tm(raw, merged[i].handle@)],
        sorted.to_multiset() == merged.to_multiset(),
    ensures
        forall|i: int| 0 <= i < sorted.len() ==> tm_row_from_batch(txs, #[trigger] sorted[i]),
{
    broadcast use vstd::seq_lib::group_to_multiset_ensures;

    assert forall|i: int| 0 <= i < sorted.len() implies tm_row_from_batch(
        txs,
        #[trigger] sorted[i],
    ) by {
        let row = sorted[i];
        assert(sorted.contains(row));
        assert(merged.to_multiset().count(row) > 0);
        assert(merged.contains(row));
        let i0 = choose|i0: int| 0 <= i0 < merged.len() && merged[i0] == row;
        assert(merged[i0] == row);
        let key = row.handle@;
        let lo = spec_last_occ_tm(raw, key);
        assert(lo >= 0 && row == raw[lo]);
        lemma_last_occ_tm_bounds(raw, key);
        lemma_wt_pos_inverse(txs, lo);
        let (t, j) = choose|t: int, j: int|
            #![trigger txs[t].spec_changes()[j]]
            0 <= t < txs.len() && 0 <= j < txs[t].spec_changes().len()
                && txs[t].spec_changes()[j] is WriteTableItem && spec_wt_pos(txs, t, j) == lo;
        assert(table_metadata_matches(raw[spec_wt_pos(txs, t, j)], txs[t].spec_changes()[j]));
        assert(table_metadata_matches(row, txs[t].spec_changes()[j]));
        lemma_tm_matches_handle(row, txs[t], j);
        assert forall|t2: int, j2: int|
            #![trigger spec_change_handle(txs[t2], j2)]
            is_batch_table_write(txs, t2, j2) && spec_change_handle(txs[t2], j2) == key implies (t2
            < t || (t2 == t && j2 <= j)) by {
            if t < t2 || (t == t2 && j < j2) {
                lemma_tc_pos_mono(txs, t, j, t2, j2);
                lemma_tc_pos_bounds(txs, t2, j2);
                let p2 = spec_wt_pos(txs, t2, j2);
                assert(table_metadata_matches(raw[p2], txs[t2].spec_changes()[j2]));
                lemma_tm_matches_handle(raw[p2], txs[t2], j2);
                assert(raw[p2].handle@ == key);
                assert(false);
            }
        }
        assert(is_last_write_of_handle(txs, key, t, j));
        assert(tm_row_from_batch(txs, row));
    }
}

/// Transforms a whole batch for the default processor: the
/// block-metadata records in version order, the table-item history rows
/// in `(version, change index)` order, and the current-state and
/// metadata projections merged by primary key and sorted by it.  Each
/// kept projection row is exactly what the last change of its key in
/// the batch extracts, and every written key is represented once.
/// Collections of deprecated tables come back empty; the others do not
/// depend on the flags.
#[verifier::rlimit(100)]
pub fn process_transactions(transactions: &Vec<Transaction>, flags: TableFlags) -> (r: (
    Vec<BlockMetadataTransaction>,
    (Vec<TableItem>, Vec<CurrentTableItem>, Vec<TableMetadata>),
))
    requires
        forall|t: int| 0 <= t < transactions@.len() ==> default_inputs_wf(
            #[trigger] transactions@[t],
        ),
    ensures
        r.0@.len() == spec_bmt_count(transactions@),
        forall|t: int|
            #![trigger transactions@[t]]
            0 <= t < transactions@.len() && is_bmt(transactions@[t]) ==> bmt_matches(
                r.0@[spec_bmt_offset(transactions@, t)],
                transactions@[t],
            ),
        flags.spec_contains(crate::table_flags::TABLE_ITEMS) ==> r.1.0@.len() == 0,
        !flags.spec_contains(crate::table_flags::TABLE_ITEMS) ==> r.1.0@.len()
            == spec_batch_tc_count(transactions@) && (forall|t: int, j: int|
            #![trigger transactions@[t].spec_changes()[j]]
            0 <= t < transactions@.len() && 0 <= j < transactions@[t].spec_changes().len()
                && is_table_change(transactions@[t].spec_changes()[j]) ==> table_item_matches(
                r.1.0@[spec_batch_tc_offset(transactions@, t) + spec_tc_count(
                    transactions@[t].spec_changes().take(j),
                )],
                transactions@[t],
                j,
            )),
        forall|i1: int, i2: int|
            0 <= i1 <= i2 < r.1.1@.len() ==> cti_pk_le(#[trigger] r.1.1@[i1], #[trigger] r.1.1@[i2]),
        forall|i1: int, i2: int|
            0 <= i1 < i2 < r.1.1@.len() ==> cti_pk(#[trigger] r.1.1@[i1]) != cti_pk(
                #[trigger] r.1.1@[i2],
            ),
        flags.spec_contains(crate::table_flags::TABLE_METADATAS) ==> r.1.2@.len() == 0,
        forall|i1: int, i2: int|
            0 <= i1 <= i2 < r.1.2@.len() ==> seq_char_le(
                (#[trigger] r.1.2@[i1]).handle@,
                (#[trigger] r.1.2@[i2]).handle@,
            ),
        forall|i1: int, i2: int|
            0 <= i1 < i2 < r.1.2@.len() ==> (#[trigger] r.1.2@[i1]).handle@ != (
            #[trigger] r.1.2@[i2]).handle@,
        forall|i: int|
            0 <= i < r.1.1@.len() ==> cti_row_from_batch(transactions@, #[trigger] r.1.1@[i]),
        forall|t: int, j: int|
            #![trigger is_batch_table_change(transactions@, t, j)]
            is_batch_table_change(transactions@, t, j) ==> exists|i: int|
                0 <= i < r.1.1@.len() && cti_pk(#[trigger] r.1.1@[i]) == spec_change_pk(
                    transactions@[t],
                    j,
                ),
        !flags.spec_contains(crate::table_flags::TABLE_METADATAS) ==> (forall|i: int|
            0 <= i < r.1.2@.len() ==> tm_row_from_batch(transactions@, #[trigger] r.1.2@[i])),
        !flags.spec_contains(crate::table_flags::TABLE_METADATAS) ==> (forall|t: int, j: int|
            #![trigger is_batch_table_write(transactions@, t, j)]
            is_batch_table_write(transactions@, t, j) ==> exists|i: int|
                0 <= i < r.1.2@.len() && (#[trigger] r.1.2@[i]).handle@ == spec_change_handle(
                    transactions@[t],
                    j,
                )),
{
    let mut bmts: Vec<BlockMetadataTransaction> = Vec::new();
    let mut items: Vec<TableItem> = Vec::new();
    let mut raw_ctis: Vec<CurrentTableItem> = Vec::new();
    let mut raw_metas: Vec<TableMetadata> = Vec::new();
    let mut t: usize = 0;
    proof {
        assert(transactions@.take(0) =~= Seq::<Transaction>::empty());
    }
    while t < transactions.len()
        invariant
            t <= transactions@.len(),
            forall|k: int| 0 <= k < transactions@.len() ==> default_inputs_wf(
                #[trigger] transactions@[k],
            ),
            bmts@.len() == spec_bmt_count(transactions@.take(t as int)),
            items@.len() == spec_batch_tc_count(transactions@.take(t as int)),
            raw_ctis@.len() == spec_batch_tc_count(transactions@.take(t as int)),
            raw_metas@.len() == spec_batch_wt_count(transactions@.take(t as int)),
            forall|k: int|
                #![trigger transactions@[k]]
                0 <= k < t && is_bmt(transactions@[k]) ==> bmt_matches(
                    bmts@[spec_bmt_offset(transactions@, k)],
                    transactions@[k],
                ),
            forall|k: int, j: int|
                #![trigger transactions@[k].spec_changes()[j]]
                0 <= k < t && 0 <= j < transactions@[k].spec_changes().len() && is_table_change(
                    transactions@[k].spec_changes()[j],
                ) ==> table_item_matches(
                    items@[spec_tc_pos(transactions@, k, j)],
                    transactions@[k],
                    j,
                ) && current_table_item_matches(
                    raw_ctis@[spec_tc_pos(transactions@, k, j)],
                    transactions@[k],
                    j,
                ),
            forall|k: int, j: int|
                #![trigger transactions@[k].spec_changes()[j]]
                0 <= k < t && 0 <= j < transactions@[k].spec_changes().len()
                    && transactions@[k].spec_changes()[j] is WriteTableItem
                    ==> table_metadata_matches(
                    raw_metas@[spec_wt_pos(transactions@, k, j)],
                    transactions@[k].spec_changes()[j],
                ),
        decreases transactions@.len() - t,
    {
        let txn = &transactions[t];
        let ghost prev_bmts = bmts@;
        let ghost prev_items = items@;
        let ghost prev_ctis = raw_ctis@;
        let ghost prev_metas = raw_metas@;
        if let Some(crate::transaction::TxnData::BlockMetadata(d)) = &txn.txn_data {
            let ts = txn.timestamp.as_ref().unwrap();
            bmts.push(
                BlockMetadataTransaction {
                    version: txn.version as i64,
                    block_height: txn.block_height as i64,
                    id: standardize_address(d.id.as_str()),
                    round: d.round as i64,
                    epoch: txn.epoch as i64,
                    previous_block_votes_bitvec: d.previous_block_votes_bitvec.clone(),
                    proposer: standardize_address(d.proposer.as_str()),
                    failed_proposer_indices: d.failed_proposer_indices.clone(),
                    timestamp: crate::transaction::parse_timestamp(ts),
                },
            );
        }
        let (mut txn_items, mut txn_ctis, mut txn_metas) = parse_table_changes(txn);
        items.append(&mut txn_items);
        raw_ctis.append(&mut txn_ctis);
        raw_metas.append(&mut txn_metas);
        proof {
            lemma_batch_counts_take_step(transactions@, t as int);
            lemma_tc_count_nonneg(transactions@[t as int].spec_changes());
            assert(spec_bmt_offset(transactions@, t as int) == prev_bmts.len());
            assert(spec_batch_tc_offset(transactions@, t as int) == prev_items.len());
            assert(spec_batch_tc_offset(transactions@, t as int) == prev_ctis.len());
            assert(spec_batch_wt_offset(transactions@, t as int) == prev_metas.len());
            assert forall|k: int|
                #![trigger transactions@[k]]
                0 <= k < t + 1 && is_bmt(transactions@[k]) implies bmt_matches(
                bmts@[spec_bmt_offset(transactions@, k)],
                transactions@[k],
            ) by {
                if k < t {
                    lemma_batch_counts_nonneg(transactions@.take(k));
                    lemma_batch_offsets_mono(transactions@, k, t as int);
                    assert(bmts@[spec_bmt_offset(transactions@, k)] == prev_bmts[spec_bmt_offset(
                        transactions@,
                        k,
                    )]);
                }
            }
            assert forall|k: int, j: int|
                #![trigger transactions@[k].spec_changes()[j]]
                0 <= k < t + 1 && 0 <= j < transactions@[k].spec_changes().len() && is_table_change(
                    transactions@[k].spec_changes()[j],
                ) implies table_item_matches(
                items@[spec_tc_pos(transactions@, k, j)],
                transactions@[k],
                j,
            ) && current_table_item_matches(
                raw_ctis@[spec_tc_pos(transactions@, k, j)],
                transactions@[k],
                j,
            ) by {
                lemma_tc_count_nonneg(transactions@[k].spec_changes().take(j));
                if k < t {
                    lemma_batch_counts_nonneg(transactions@.take(k));
                    lemma_batch_offsets_mono(transactions@, k, t as int);
                    lemma_tc_count_mono(transactions@[k].spec_changes(), j, transactions@[k].spec_changes().len() as int);
                    let pos = spec_tc_pos(transactions@, k, j);
                    assert(transactions@[k].spec_changes().take(
                        transactions@[k].spec_changes().len() as int,
                    ) =~= transactions@[k].spec_changes());
                    assert(items@[pos] == prev_items[pos]);
                    assert(raw_ctis@[pos] == prev_ctis[pos]);
                } else {
                    lemma_tc_count_mono(transactions@[t as int].spec_changes(), j, transactions@[t as int].spec_changes().len() as int);
                    assert(transactions@[t as int].spec_changes().take(
                        transactions@[t as int].spec_changes().len() as int,
                    ) =~= transactions@[t as int].spec_changes());
                }
            }
            assert forall|k: int, j: int|
                #![trigger transactions@[k].spec_changes()[j]]
                0 <= k < t + 1 && 0 <= j < transactions@[k].spec_changes().len()
                    && transactions@[k].spec_changes()[j] is WriteTableItem
                implies table_metadata_matches(
                raw_metas@[spec_wt_pos(transactions@, k, j)],
                transactions@[k].spec_changes()[j],
            ) by {
                lemma_tc_count_nonneg(transactions@[k].spec_changes().take(j));
                if k < t {
                    lemma_batch_counts_nonneg(transactions@.take(k));
                    lemma_batch_offsets_mono(transactions@, k, t as int);
                    lemma_tc_count_mono(transactions@[k].spec_changes(), j, transactions@[k].spec_changes().len() as int);
                    let pos = spec_wt_pos(transactions@, k, j);
                    assert(transactions@[k].spec_changes().take(
                        transactions@[k].spec_changes().len() as int,
                    ) =~= transactions@[k].spec_changes());
                    assert(raw_metas@[pos] == prev_metas[pos]);
                } else {
                    lemma_tc_count_mono(transactions@[t as int].spec_changes(), j, transactions@[t as int].spec_changes().len() as int);
                    assert(transactions@[t as int].spec_changes().take(
                        transactions@[t as int].spec_changes().len() as int,
                    ) =~= transactions@[t as int].spec_changes());
                }
            }
        }
        t = t + 1;
    }
    proof {
        assert(transactions@.take(transactions@.len() as int) =~= transactions@);
    }
    let merged_ctis = merge_current_table_items(&raw_ctis);
    let ghost merged_ctis_view = merged_ctis@;
    proof {
        assert forall|j: int| 0 <= j < raw_ctis@.len() implies exists|i: int|
            0 <= i < merged_ctis_view.len() && cti_pk(#[trigger] merged_ctis_view[i]) == cti_pk(
                #[trigger] raw_ctis@[j],
            ) by {
            let i = choose|i: int|
                0 <= i < merged_ctis@.len() && cti_pk(#[trigger] merged_ctis@[i]) == cti_pk(
                    raw_ctis@[j],
                );
            assert(cti_pk(merged_ctis_view[i]) == cti_pk(raw_ctis@[j]));
        }
    }
    let current_table_items = sort_current_table_items(merged_ctis);
    let merged_metas = merge_table_metadata(&raw_metas);
    let ghost merged_metas_view = merged_metas@;
    proof {
        assert forall|j: int| 0 <= j < raw_metas@.len() implies exists|i: int|
            0 <= i < merged_metas_view.len() && (#[trigger] merged_metas_view[i]).handle@ == (
            #[trigger] raw_metas@[j]).handle@ by {
            let i = choose|i: int|
                0 <= i < merged_metas@.len() && (#[trigger] merged_metas@[i]).handle@
                    == raw_metas@[j].handle@;
            assert(merged_metas_view[i].handle@ == raw_metas@[j].handle@);
        }
    }
    let mut table_metadata = sort_table_metadata(merged_metas);
    proof {
        broadcast use vstd::seq_lib::group_to_multiset_ensures;

        lemma_cti_projection_content(
            transactions@,
            raw_ctis@,
            merged_ctis_view,
            current_table_items@,
        );
        assert forall|t: int, j: int|
            #![trigger is_batch_table_change(transactions@, t, j)]
            is_batch_table_change(transactions@, t, j) implies exists|i: int|
            0 <= i < current_table_items@.len() && cti_pk(#[trigger] current_table_items@[i])
                == spec_change_pk(transactions@[t], j) by {
            lemma_tc_pos_bounds(transactions@, t, j);
            let p = spec_tc_pos(transactions@, t, j);
            assert(current_table_item_matches(raw_ctis@[p], transactions@[t], j));
            lemma_cti_matches_pk(raw_ctis@[p], transactions@[t], j);
            let i0 = choose|i0: int|
                0 <= i0 < merged_ctis_view.len() && cti_pk(#[trigger] merged_ctis_view[i0])
                    == cti_pk(raw_ctis@[p]);
            assert(merged_ctis_view.contains(merged_ctis_view[i0]));
            assert(current_table_items@.to_multiset().count(merged_ctis_view[i0]) > 0);
            assert(current_table_items@.contains(merged_ctis_view[i0]));
            let i = choose|i: int|
                0 <= i < current_table_items@.len() && current_table_items@[i]
                    == merged_ctis_view[i0];
            assert(cti_pk(current_table_items@[i]) == spec_change_pk(transactions@[t], j));
        }
    }
    proof {
        broadcast use vstd::seq_lib::group_to_multiset_ensures;

        lemma_tm_projection_content(
            transactions@,
            raw_metas@,
            merged_metas_view,
            table_metadata@,
        );
        assert forall|t: int, j: int|
            #![trigger is_batch_table_write(transactions@, t, j)]
            is_batch_table_write(transactions@, t, j) implies exists|i: int|
            0 <= i < table_metadata@.len() && (#[trigger] table_metadata@[i]).handle@
                == spec_change_handle(transactions@[t], j) by {
            lemma_tc_pos_bounds(transactions@, t, j);
            let p = spec_wt_pos(transactions@, t, j);
            assert(table_metadata_matches(raw_metas@[p], transactions@[t].spec_changes()[j]));
            lemma_tm_matches_handle(raw_metas@[p], transactions@[t], j);
            let i0 = choose|i0: int|
                0 <= i0 < merged_metas_view.len() && (#[trigger] merged_metas_view[i0]).handle@
                    == raw_metas@[p].handle@;
            assert(merged_metas_view.contains(merged_metas_view[i0]));
            assert(table_metadata@.to_multiset().count(merged_metas_view[i0]) > 0);
            assert(table_metadata@.contains(merged_metas_view[i0]));
            let i = choose|i: int|
                0 <= i < table_metadata@.len() && table_metadata@[i] == merged_metas_view[i0];
            assert(table_metadata@[i].handle@ == spec_change_handle(transactions@[t], j));
        }
    }
    let ghost sorted_metas = table_metadata@;
    if flags.contains(crate::table_flags::TABLE_ITEMS) {
        items.clear();
    }
    if flags.contains(crate::table_flags::TABLE_METADATAS) {
        table_metadata.clear();
    }
    proof {
        if !flags.spec_contains(crate::table_flags::TABLE_METADATAS) {
            assert(table_metadata@ == sorted_metas);
            assert forall|t: int, j: int|
                #![trigger is_batch_table_write(transactions@, t, j)]
                is_batch_table_write(transactions@, t, j) implies exists|i: int|
                0 <= i < table_metadata@.len() && (#[trigger] table_metadata@[i]).handle@
                    == spec_change_handle(transactions@[t], j) by {
                let i = choose|i: int|
                    0 <= i < sorted_metas.len() && (#[trigger] sorted_metas[i]).handle@
                        == spec_change_handle(transactions@[t], j);
                assert(table_metadata@[i].handle@ == spec_change_handle(transactions@[t], j));
            }
        }
    }
    (bmts, (items, current_table_items, table_metadata))
}

/// The default processor: broker producer, per-table chunk sizes and the
/// deprecation bitset; the database pool stays with the runtime.
pub struct DefaultProcessor {
    pub producer: CustomProducerEnum,
    pub per_table_chunk_sizes: Vec<(String, usize)>,
    pub deprecated_tables: TableFlags,
}

impl DefaultProcessor {
    pub fn new(
        producer: CustomProducerEnum,
        per_table_chunk_sizes: Vec<(String, usize)>,
        deprecated_tables: TableFlags,
    ) -> (r: DefaultProcessor)
        ensures
            r.producer == producer,
            r.per_table_chunk_sizes == per_table_chunk_sizes,
            r.deprecated_tables == deprecated_tables,
    {
        DefaultProcessor { producer, per_table_chunk_sizes, deprecated_tables }
    }

    pub fn name(&self) -> (r: &'static str)
        ensures
            r@ == "default_processor"@,
    {
        "default_processor"
    }
}

/// The four topics the default processor publishes to, in the order
/// block metadata, table items, current table items, table metadata.
pub fn produce_to_mq_topics(network: crate::network::Network) -> (r: (String, String, String, String))
    ensures
        r.0@ == crate::network::spec_topic(network, "block.metadata.transactions"@),
        r.1@ == crate::network::spec_topic(network, "table.items"@),
        r.2@ == crate::network::spec_topic(network, "current.table.items"@),
        r.3@ == crate::network::spec_topic(network, "table.metadatas"@),
{
    (
        crate::network::topic_name(network, "block.metadata.transactions"),
        crate::network::topic_name(network, "table.items"),
        crate::network::topic_name(network, "current.table.items"),
        crate::network::topic_name(network, "table.metadatas"),
    )
}

/// The bulk insert for `block_metadata_transactions`: append-only on the
/// version.
pub fn insert_block_metadata_transactions_query(items_to_insert: &Vec<BlockMetadataTransaction>)
    -> (r: UpsertQuery)
    ensures
        r.table@ == "block_metadata_transactions"@,
        r.conflict_columns@.len() == 1 && r.conflict_columns@[0]@ == "version"@,
        r.policy == ConflictPolicy::DoNothing,
        r.update_columns@.len() == 0,
        r.filter is None,
        r.n_rows == items_to_insert@.len(),
{
    UpsertQuery {
        table: "block_metadata_transactions",
        conflict_columns: vec!["version"],
        policy: ConflictPolicy::DoNothing,
        update_columns: Vec::new(),
        filter: None,
        n_rows: items_to_insert.len(),
    }
}

/// The bulk insert for `table_items`: append-only on
/// `(transaction_version, write_set_change_index)`.
pub fn insert_table_items_query(items_to_insert: &Vec<TableItem>) -> (r: UpsertQuery)
    ensures
        r.table@ == "table_items"@,
        r.conflict_columns@.len() == 2 && r.conflict_columns@[0]@ == "transaction_version"@
            && r.conflict_columns@[1]@ == "write_set_change_index"@,
        r.policy == ConflictPolicy::DoNothing,
        r.update_columns@.len() == 0,
        r.filter is None,
        r.n_rows == items_to_insert@.len(),
{
    UpsertQuery {
        table: "table_items",
        conflict_columns: vec!["transaction_version", "write_set_change_index"],
        policy: ConflictPolicy::DoNothing,
        update_columns: Vec::new(),
        filter: None,
        n_rows: items_to_insert.len(),
    }
}

/// The bulk insert for `current_table_items`: an upsert on
/// `(table_handle, key_hash)` that refreshes the content columns, but
/// only while the stored row is not newer than the incoming one, so an
/// out-of-order batch cannot overwrite newer state.
pub fn insert_current_table_items_query(items_to_insert: &Vec<CurrentTableItem>) -> (r: UpsertQuery)
    ensures
        r.table@ == "current_table_items"@,
        r.conflict_columns@.len() == 2 && r.conflict_columns@[0]@ == "table_handle"@
            && r.conflict_columns@[1]@ == "key_hash"@,
        r.policy == ConflictPolicy::ConditionalUpdate,
        r.update_columns@.len() == 6 && r.update_columns@[0]@ == "key"@ && r.update_columns@[1]@
            == "decoded_key"@ && r.update_columns@[2]@ == "decoded_value"@ && r.update_columns@[3]@
            == "is_deleted"@ && r.update_columns@[4]@ == "last_transaction_version"@
            && r.update_columns@[5]@ == "inserted_at"@,
        r.filter is Some && r.filter->0@
            == " WHERE current_table_items.last_transaction_version <= excluded.last_transaction_version "@,
        r.n_rows == items_to_insert@.len(),
{
    UpsertQuery {
        table: "current_table_items",
        conflict_columns: vec!["table_handle", "key_hash"],
        policy: ConflictPolicy::ConditionalUpdate,
        update_columns: vec![
            "key",
            "decoded_key",
            "decoded_value",
            "is_deleted",
            "last_transaction_version",
            "inserted_at",
        ],
        filter: Some(
            " WHERE current_table_items.last_transaction_version <= excluded.last_transaction_version ",
        ),
        n_rows: items_to_insert.len(),
    }
}

/// The bulk insert for `table_metadatas`: append-only on the handle.
pub fn insert_table_metadata_query(items_to_insert: &Vec<TableMetadata>) -> (r: UpsertQuery)
    ensures
        r.table@ == "table_metadatas"@,
        r.conflict_columns@.len() == 1 && r.conflict_columns@[0]@ == "handle"@,
        r.policy == ConflictPolicy::DoNothing,
        r.update_columns@.len() == 0,
        r.filter is None,
        r.n_rows == items_to_insert@.len(),
{
    UpsertQuery {
        table: "table_metadatas",
        conflict_columns: vec!["handle"],
        policy: ConflictPolicy::DoNothing,
        update_columns: Vec::new(),
        filter: None,
        n_rows: items_to_insert.len(),
    }
}

/// Row order for the conditional policy of `current_table_items`: by the
/// last transaction version.
pub open spec fn cti_version_le(a: CurrentTableItem, b: CurrentTableItem) -> bool {
    a.last_transaction_version <= b.last_transaction_version
}

/// What the conditional upsert of `current_table_items` stores for one
/// primary key: the incoming row unless the stored one is newer.
pub fn upsert_current_table_item(stored: Option<CurrentTableItem>, incoming: CurrentTableItem) -> (r:
    CurrentTableItem)
    ensures
        Some(r) == crate::writer::apply_row(
            crate::writer::ConflictPolicy::ConditionalUpdate,
            stored,
            incoming,
            (|a: CurrentTableItem, b: CurrentTableItem| cti_version_le(a, b)),
        ),
{
    match stored {
        None => incoming,
        Some(w) => {
            if w.last_transaction_version <= incoming.last_transaction_version {
                incoming
            } else {
                w
            }
        },
    }
}

} // verus!
