//! The chunked database writer: chunking, per-table chunk sizes, and the
//! per-table conflict policies with their semantics.
//!
//! The writer splits each record collection into chunks of at most the
//! table's configured row count and issues one bulk upsert per chunk;
//! chunks of one table are sequential, tables are concurrent.  The SQL
//! runs with the runtime; here live the chunk plan, the query
//! descriptions, and the meaning of each conflict clause, from which
//! replay safety is proved.

use vstd::prelude::*;

verus! {

use vstd::string::StrSliceExecFns;

/// What a bulk insert does when a row's primary key already exists.
#[derive(Clone, Copy, PartialEq, Eq, Structural, Debug)]
pub enum ConflictPolicy {
    /// Keep the stored row (`DO NOTHING`): append-only tables.
    DoNothing,
    /// Overwrite the listed columns (`DO UPDATE SET`).
    UpdateSet,
    /// Overwrite only when the stored row is not newer than the incoming
    /// one (`DO UPDATE SET ... WHERE stored.version <= incoming.version`).
    ConditionalUpdate,
}

/// One bulk upsert, described: the table, its conflict target and
/// policy, the columns an update refreshes, the update filter of a
/// conditional policy, and how many rows are bound.
pub struct UpsertQuery {
    pub table: &'static str,
    pub conflict_columns: Vec<&'static str>,
    pub policy: ConflictPolicy,
    pub update_columns: Vec<&'static str>,
    pub filter: Option<&'static str>,
    pub n_rows: usize,
}

/// Whether two strings hold the same characters.
pub fn str_eq(a: &str, b: &str) -> (r: bool)
    ensures
        r == (a@ == b@),
{
    let la = a.unicode_len();
    let lb = b.unicode_len();
    if la != lb {
        proof {
            if a@ == b@ {
                assert(a@.len() == b@.len());
            }
        }
        return false;
    }
    let mut i: usize = 0;
    while i < la
        invariant
            a@.len() == la,
            b@.len() == la,
            i <= la,
            forall|j: int| 0 <= j < i ==> a@[j] == b@[j],
        decreases la - i,
    {
        if a.get_char(i) != b.get_char(i) {
            return false;
        }
        i = i + 1;
    }
    proof {
        assert(a@ =~= b@);
    }
    true
}

/// The first configured size for the table, if any.
pub open spec fn spec_config_chunk_size(
    table_name: Seq<char>,
    sizes: Seq<(String, usize)>,
) -> Option<usize>
    decreases sizes.len(),
{
    if sizes.len() == 0 {
        None
    } else if sizes.first().0@ == table_name {
        Some(sizes.first().1)
    } else {
        spec_config_chunk_size(table_name, sizes.drop_first())
    }
}

/// The chunk size the writer uses for a table: the configured one, or
/// the caller's default for the table's row shape.
pub fn get_config_table_chunk_size(
    table_name: &str,
    per_table_chunk_sizes: &Vec<(String, usize)>,
    default_chunk_size: usize,
) -> (r: usize)
    ensures
        r == match spec_config_chunk_size(table_name@, per_table_chunk_sizes@) {
            Some(s) => s,
            None => default_chunk_size,
        },
{
    let mut i: usize = 0;
    proof {
        assert(per_table_chunk_sizes@.skip(0) =~= per_table_chunk_sizes@);
    }
    while i < per_table_chunk_sizes.len()
        invariant
            i <= per_table_chunk_sizes@.len(),
            spec_config_chunk_size(table_name@, per_table_chunk_sizes@)
                == spec_config_chunk_size(
                table_name@,
                per_table_chunk_sizes@.skip(i as int),
            ),
        decreases per_table_chunk_sizes@.len() - i,
    {
        proof {
            assert(per_table_chunk_sizes@.skip(i as int).first() == per_table_chunk_sizes@[
                i as int]);
            assert(per_table_chunk_sizes@.skip(i as int).drop_first() =~= per_table_chunk_sizes@
                .skip(i as int + 1));
        }
        let entry = &per_table_chunk_sizes[i];
        if str_eq(entry.0.as_str(), table_name) {
            return entry.1;
        }
        i = i + 1;
    }
    proof {
        assert(per_table_chunk_sizes@.skip(per_table_chunk_sizes@.len() as int) =~= Seq::<(
            String,
            usize,
        )>::empty());
    }
    default_chunk_size
}

/// The half-open row ranges of a collection's chunks: consecutive,
/// covering, each at most `chunk_size` rows and none empty.
pub fn chunk_bounds(len: usize, chunk_size: usize) -> (r: Vec<(usize, usize)>)
    requires
        chunk_size >= 1,
    ensures
        len == 0 ==> r@.len() == 0,
        len > 0 ==> r@.len() >= 1,
        forall|i: int|
            0 <= i < r@.len() ==> (#[trigger] r@[i]).0 < r@[i].1 <= len && r@[i].1 - r@[i].0
                <= chunk_size,
        r@.len() > 0 ==> r@[0].0 == 0 && r@[r@.len() - 1].1 == len,
        forall|i: int| 0 <= i < r@.len() - 1 ==> (#[trigger] r@[i]).1 == r@[i + 1].0,
{
    let mut r: Vec<(usize, usize)> = Vec::new();
    let mut start: usize = 0;
    while start < len
        invariant
            start <= len,
            chunk_size >= 1,
            start == 0 ==> r@.len() == 0,
            start > 0 ==> r@.len() >= 1 && r@[0].0 == 0 && r@[r@.len() - 1].1 == start,
            forall|i: int|
                0 <= i < r@.len() ==> (#[trigger] r@[i]).0 < r@[i].1 <= len && r@[i].1 - r@[i].0
                    <= chunk_size,
            forall|i: int| 0 <= i < r@.len() - 1 ==> (#[trigger] r@[i]).1 == r@[i + 1].0,
        decreases len - start,
    {
        let end: usize = if len - start < chunk_size {
            len
        } else {
            start + chunk_size
        };
        r.push((start, end));
        start = end;
    }
    r
}

/// What one upsert leaves stored for one primary key: the stored row if
/// any, then the incoming row under the table's conflict policy.  `le`
/// orders rows by their version column for the conditional policy.
pub open spec fn apply_row<R>(
    policy: ConflictPolicy,
    stored: Option<R>,
    incoming: R,
    le: spec_fn(R, R) -> bool,
) -> Option<R> {
    match stored {
        None => Some(incoming),
        Some(w) => match policy {
            ConflictPolicy::DoNothing => Some(w),
            ConflictPolicy::UpdateSet => Some(incoming),
            ConflictPolicy::ConditionalUpdate => if le(w, incoming) {
                Some(incoming)
            } else {
                Some(w)
            },
        },
    }
}

/// What a sequence of upserts of one primary key leaves stored, applied
/// in order.
pub open spec fn apply_rows<R>(
    policy: ConflictPolicy,
    stored: Option<R>,
    rows: Seq<R>,
    le: spec_fn(R, R) -> bool,
) -> Option<R>
    decreases rows.len(),
{
    if rows.len() == 0 {
        stored
    } else {
        apply_row(policy, apply_rows(policy, stored, rows.drop_last(), le), rows.last(), le)
    }
}

/// A row order fit for the conditional policy: total and transitive.
pub open spec fn le_wf<R>(le: spec_fn(R, R) -> bool) -> bool {
    &&& forall|a: R, b: R| #[trigger] le(a, b) || #[trigger] le(b, a)
    &&& forall|a: R, b: R, c: R| #[trigger] le(a, b) && #[trigger] le(b, c) ==> le(a, c)
}

/// After a write, something is stored, the stored row came from the
/// stored state or the write, and under the conditional policy it is at
/// least as new as the stored row and every written row.
pub proof fn lemma_apply_rows_bounds<R>(
    policy: ConflictPolicy,
    stored: Option<R>,
    rows: Seq<R>,
    le: spec_fn(R, R) -> bool,
)
    requires
        le_wf(le),
    ensures
        (stored is Some || rows.len() > 0) ==> apply_rows(policy, stored, rows, le) is Some,
        apply_rows(policy, stored, rows, le) is Some ==> (stored == apply_rows(
            policy,
            stored,
            rows,
            le,
        ) || rows.contains(apply_rows(policy, stored, rows, le)->0)),
        (policy is ConditionalUpdate && apply_rows(policy, stored, rows, le) is Some) ==> ((
        stored is Some ==> le(stored->0, apply_rows(policy, stored, rows, le)->0)) && (forall|
            i: int,
        |
            0 <= i < rows.len() ==> le(
                #[trigger] rows[i],
                apply_rows(policy, stored, rows, le)->0,
            ))),
    decreases rows.len(),
{
    if rows.len() > 0 {
        lemma_apply_rows_bounds(policy, stored, rows.drop_last(), le);
        let prev = apply_rows(policy, stored, rows.drop_last(), le);
        let w = apply_rows(policy, stored, rows, le);
        assert(rows.contains(rows.last()));
        if w is Some {
            let wv = w->0;
            if prev is Some {
                let pv = prev->0;
                if stored != Some(pv) {
                    assert(rows.drop_last().contains(pv));
                    let i = choose|i: int|
                        0 <= i < rows.drop_last().len() && rows.drop_last()[i] == pv;
                    assert(rows[i] == pv);
                    assert(rows.contains(pv));
                }
            }

            if policy is ConditionalUpdate {
                assert forall|i: int| 0 <= i < rows.len() implies le(#[trigger] rows[i], wv) by {
                    if i < rows.len() - 1 {
                        let pv = prev->0;
                        assert(rows.drop_last()[i] == rows[i]);
                        assert(le(rows.drop_last()[i], pv));
                        assert(le(rows[i], pv));
                        assert(le(pv, wv) || le(wv, pv));
                        if !le(pv, wv) {
                            assert(wv == pv);
                            assert(le(pv, wv) || le(wv, pv));
                            assert(le(pv, pv) || le(pv, pv));
                        }
                        assert(le(pv, wv));
                    } else {
                        assert(le(wv, wv) || le(wv, wv));
                        if wv != rows.last() {
                            assert(le(rows.last(), prev->0));
                            assert(wv == prev->0);
                        }
                    }
                }
            }
        }
    }
}

/// Replay safety: writing the same rows again, onto the state the first
/// write left, leaves that state unchanged, for every conflict policy.
pub proof fn lemma_apply_rows_idempotent<R>(
    policy: ConflictPolicy,
    stored: Option<R>,
    rows: Seq<R>,
    le: spec_fn(R, R) -> bool,
)
    requires
        le_wf(le),
    ensures
        apply_rows(policy, apply_rows(policy, stored, rows, le), rows, le) == apply_rows(
            policy,
            stored,
            rows,
            le,
        ),
    decreases rows.len(),
{
    if rows.len() == 0 {
        return ;
    }
    let c = rows.drop_last();
    let r = rows.last();
    let a = apply_rows(policy, stored, c, le);
    let b = apply_rows(policy, stored, rows, le);
    match policy {
        ConflictPolicy::DoNothing => {
            lemma_do_nothing_absorbs(b, rows, le);
        },
        ConflictPolicy::UpdateSet => {
            lemma_update_set_last(b, stored, rows, le);
        },
        ConflictPolicy::ConditionalUpdate => {
            lemma_apply_rows_bounds(policy, stored, c, le);
            if a is Some {
                let av = a->0;
                if le(av, r) {
                    assert(b == Some(r));
                    lemma_conditional_stays_at(Some(r), c, r, le, stored);
                } else {
                    assert(b == a);
                    lemma_apply_rows_idempotent(policy, stored, c, le);
                    assert(apply_rows(policy, a, c, le) == a);
                    assert(apply_rows(policy, b, rows, le) == apply_row(
                        policy,
                        apply_rows(policy, b, c, le),
                        r,
                        le,
                    ));
                }
            } else {
                assert(stored is None && c.len() == 0);
                assert(b == Some(r));
                assert(apply_rows(policy, b, c, le) == b);
                assert(le(r, r) || le(r, r));
            }
        },
    }
}

/// Under `DoNothing`, a stored state is never changed by a write.
proof fn lemma_do_nothing_absorbs<R>(stored: Option<R>, rows: Seq<R>, le: spec_fn(R, R) -> bool)
    requires
        stored is Some,
    ensures
        apply_rows(ConflictPolicy::DoNothing, stored, rows, le) == stored,
    decreases rows.len(),
{
    if rows.len() > 0 {
        lemma_do_nothing_absorbs(stored, rows.drop_last(), le);
    }
}

/// Under `UpdateSet`, the last written row is stored; replaying stores
/// it again.
proof fn lemma_update_set_last<R>(
    b: Option<R>,
    stored: Option<R>,
    rows: Seq<R>,
    le: spec_fn(R, R) -> bool,
)
    requires
        rows.len() > 0,
        b == apply_rows(ConflictPolicy::UpdateSet, stored, rows, le),
    ensures
        b == Some(rows.last()),
        apply_rows(ConflictPolicy::UpdateSet, b, rows, le) == b,
    decreases rows.len(),
{
    lemma_update_set_any_start(stored, rows, le);
    lemma_update_set_any_start(b, rows, le);
}

proof fn lemma_update_set_any_start<R>(stored: Option<R>, rows: Seq<R>, le: spec_fn(R, R) -> bool)
    requires
        rows.len() > 0,
    ensures
        apply_rows(ConflictPolicy::UpdateSet, stored, rows, le) == Some(rows.last()),
    decreases rows.len(),
{
    if rows.len() > 1 {
        lemma_update_set_any_start(stored, rows.drop_last(), le);
    }
}

/// Under the conditional policy, a state holding a row at least as new
/// as every row of a write, and equal to the last row it does not beat
/// strictly, is left unchanged when those rows replay onto it.
proof fn lemma_conditional_stays_at<R>(
    b: Option<R>,
    c: Seq<R>,
    r: R,
    le: spec_fn(R, R) -> bool,
    orig: Option<R>,
)
    requires
        le_wf(le),
        b == Some(r),
        forall|i: int| 0 <= i < c.len() ==> le(#[trigger] c[i], r),
    ensures
        apply_row(
            ConflictPolicy::ConditionalUpdate,
            apply_rows(ConflictPolicy::ConditionalUpdate, b, c, le),
            r,
            le,
        ) == Some(r),
    decreases c.len(),
{
    lemma_apply_rows_bounds(ConflictPolicy::ConditionalUpdate, b, c, le);
    let z = apply_rows(ConflictPolicy::ConditionalUpdate, b, c, le);
    let zv = z->0;
    if zv == r {
        assert(le(r, r) || le(r, r));
    } else {
        assert(c.contains(zv));
        assert(le(zv, r));
    }
}

/// The conditional policy keeps the newest row: writing any rows onto an
/// empty key stores the one that strictly dominates the others, in
/// whatever order they arrive.
pub proof fn lemma_conditional_latest_wins<R>(rows: Seq<R>, le: spec_fn(R, R) -> bool, m: R)
    requires
        le_wf(le),
        rows.contains(m),
        forall|i: int| 0 <= i < rows.len() ==> le(#[trigger] rows[i], m),
        forall|i: int| 0 <= i < rows.len() && le(m, #[trigger] rows[i]) ==> rows[i] == m,
    ensures
        apply_rows(ConflictPolicy::ConditionalUpdate, None, rows, le) == Some(m),
{
    lemma_apply_rows_bounds(ConflictPolicy::ConditionalUpdate, None::<R>, rows, le);
    let w = apply_rows(ConflictPolicy::ConditionalUpdate, None::<R>, rows, le);
    let wv = w->0;
    assert(rows.contains(wv));
    let i = choose|i: int| 0 <= i < rows.len() && rows[i] == wv;
    let j = choose|j: int| 0 <= j < rows.len() && rows[j] == m;
    assert(le(rows[j], wv));
    assert(le(m, wv));
    assert(wv == m);
}

} // verus!
