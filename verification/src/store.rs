//! The persisted tables and what a commit does to them.
//!
//! Each table is keyed by identity. A commit upserts three batches in one
//! atomic step: a row whose identity is new is inserted; for a row whose
//! identity is already there the mutable columns are overwritten and the rest
//! of the stored row stays as it was. Rows are never deleted.

use crate::identity::EventKind;
use crate::indexer::Batches;
use crate::models::{LiquidityRow, SwapRow};
use vstd::prelude::*;

verus! {

/// Why a commit did not happen. After any of these the store holds what it
/// held before the commit began.
#[derive(Clone, Copy, Debug, PartialEq, Eq, Structural)]
pub enum CommitError {
    /// No connection to the store could be had.
    StoreUnavailable,
    /// The batch of this kind names one identity twice.
    DuplicateIdentity(EventKind),
    /// The store refused the batch of this kind.
    UpsertFailed(EventKind),
    /// The store refused to make the transaction durable.
    TransactionFailed,
}

/// A table of swap rows, by identity.
pub type SwapTable = Map<Seq<char>, SwapRow>;

/// A table of liquidity rows, by identity.
pub type LiquidityTable = Map<Seq<char>, LiquidityRow>;

/// The three tables as a mathematical value.
pub ghost struct Tables {
    pub swaps: SwapTable,
    pub adds: LiquidityTable,
    pub removes: LiquidityTable,
}

/// The swap table after the upsert of one row. Both amounts are mutable, so
/// the stored row becomes the new one.
pub open spec fn upsert_swap(table: SwapTable, row: SwapRow) -> SwapTable {
    table.insert(row.id, row)
}

/// A liquidity table after the upsert of one row. On conflict only the two
/// liquidity figures are overwritten; pool and position stay as stored.
pub open spec fn upsert_liquidity(table: LiquidityTable, row: LiquidityRow) -> LiquidityTable {
    if table.contains_key(row.id) {
        table.insert(
            row.id,
            LiquidityRow {
                liquidity: row.liquidity,
                after_liquidity: row.after_liquidity,
                ..table[row.id]
            },
        )
    } else {
        table.insert(row.id, row)
    }
}

/// The swap table after the upsert of a batch, row by row.
pub open spec fn upsert_swaps(table: SwapTable, rows: Seq<SwapRow>) -> SwapTable
    decreases rows.len(),
{
    if rows.len() == 0 {
        table
    } else {
        upsert_swap(upsert_swaps(table, rows.drop_last()), rows.last())
    }
}

/// A liquidity table after the upsert of a batch, row by row.
pub open spec fn upsert_liquidities(table: LiquidityTable, rows: Seq<LiquidityRow>) -> LiquidityTable
    decreases rows.len(),
{
    if rows.len() == 0 {
        table
    } else {
        upsert_liquidity(upsert_liquidities(table, rows.drop_last()), rows.last())
    }
}

/// Whether no identity occurs twice in a batch of swap rows.
pub open spec fn distinct_swap_ids(rows: Seq<SwapRow>) -> bool {
    forall|i: int, j: int| 0 <= i < j < rows.len() ==> rows[i].id != rows[j].id
}

/// Whether no identity occurs twice in a batch of liquidity rows.
pub open spec fn distinct_liquidity_ids(rows: Seq<LiquidityRow>) -> bool {
    forall|i: int, j: int| 0 <= i < j < rows.len() ==> rows[i].id != rows[j].id
}

/// Whether every row of a swap table is stored under its own identity.
pub open spec fn swap_table_wf(table: SwapTable) -> bool {
    forall|id: Seq<char>| #[trigger] table.contains_key(id) ==> table[id].id == id
}

/// Whether every row of a liquidity table is stored under its own identity.
pub open spec fn liquidity_table_wf(table: LiquidityTable) -> bool {
    forall|id: Seq<char>| #[trigger] table.contains_key(id) ==> table[id].id == id
}

/// Whether every row of the three tables is stored under its own identity.
pub open spec fn tables_wf(tables: Tables) -> bool {
    swap_table_wf(tables.swaps) && liquidity_table_wf(tables.adds) && liquidity_table_wf(
        tables.removes,
    )
}

/// What a commit of three batches does to the tables. A batch that names an
/// identity twice is a constraint violation: the commit fails for the first
/// such batch, in the order swap, add-liquidity, remove-liquidity, and nothing
/// is written. Otherwise all three batches are upserted.
pub open spec fn commit_batches(tables: Tables, batches: Batches) -> Result<Tables, CommitError> {
    if !distinct_swap_ids(batches.swaps) {
        Err(CommitError::DuplicateIdentity(EventKind::Swap))
    } else if !distinct_liquidity_ids(batches.adds) {
        Err(CommitError::DuplicateIdentity(EventKind::AddLiquidity))
    } else if !distinct_liquidity_ids(batches.removes) {
        Err(CommitError::DuplicateIdentity(EventKind::RemoveLiquidity))
    } else {
        Ok(
            Tables {
                swaps: upsert_swaps(tables.swaps, batches.swaps),
                adds: upsert_liquidities(tables.adds, batches.adds),
                removes: upsert_liquidities(tables.removes, batches.removes),
            },
        )
    }
}

/// Whether a batch of swap rows holds a row with the identity `id`.
pub open spec fn has_swap_id(rows: Seq<SwapRow>, id: Seq<char>) -> bool {
    exists|i: int| 0 <= i < rows.len() && #[trigger] rows[i].id == id
}

/// Whether a batch of liquidity rows holds a row with the identity `id`.
pub open spec fn has_liquidity_id(rows: Seq<LiquidityRow>, id: Seq<char>) -> bool {
    exists|i: int| 0 <= i < rows.len() && #[trigger] rows[i].id == id
}

/// The liquidity row stored after the upsert of `row` into `table`.
pub open spec fn merged_liquidity(table: LiquidityTable, row: LiquidityRow) -> LiquidityRow {
    if table.contains_key(row.id) {
        LiquidityRow {
            liquidity: row.liquidity,
            after_liquidity: row.after_liquidity,
            ..table[row.id]
        }
    } else {
        row
    }
}

/// What the swap table holds under `id` after a batch without repeated
/// identities: the row of the batch with that identity, if there is one, and
/// what it held before otherwise.
pub proof fn lemma_upsert_swaps_at(table: SwapTable, rows: Seq<SwapRow>, id: Seq<char>)
    requires
        distinct_swap_ids(rows),
    ensures
        upsert_swaps(table, rows).contains_key(id) <==> table.contains_key(id) || has_swap_id(
            rows,
            id,
        ),
        forall|i: int|
            0 <= i < rows.len() && #[trigger] rows[i].id == id ==> upsert_swaps(table, rows)[id]
                == rows[i],
        !has_swap_id(rows, id) ==> upsert_swaps(table, rows)[id] == table[id],
    decreases rows.len(),
{
    if rows.len() > 0 {
        let front = rows.drop_last();
        let last = rows.len() - 1;
        lemma_upsert_swaps_at(table, front, id);
        if rows[last].id == id {
            assert(has_swap_id(rows, id));
        } else {
            if has_swap_id(front, id) {
                let i = choose|i: int| 0 <= i < front.len() && #[trigger] front[i].id == id;
                assert(rows[i].id == id);
            }
            if has_swap_id(rows, id) {
                let i = choose|i: int| 0 <= i < rows.len() && #[trigger] rows[i].id == id;
                assert(front[i].id == id);
            }
            assert forall|i: int| 0 <= i < rows.len() && #[trigger] rows[i].id == id implies
                upsert_swaps(table, rows)[id] == rows[i] by {
                assert(front[i].id == id);
            }
        }
    }
}

/// What a liquidity table holds under `id` after a batch without repeated
/// identities: the row of the batch with that identity, merged into what the
/// table held before, if there is one, and what it held before otherwise.
pub proof fn lemma_upsert_liquidities_at(
    table: LiquidityTable,
    rows: Seq<LiquidityRow>,
    id: Seq<char>,
)
    requires
        distinct_liquidity_ids(rows),
    ensures
        upsert_liquidities(table, rows).contains_key(id) <==> table.contains_key(id)
            || has_liquidity_id(rows, id),
        forall|i: int|
            0 <= i < rows.len() && #[trigger] rows[i].id == id ==> upsert_liquidities(
                table,
                rows,
            )[id] == merged_liquidity(table, rows[i]),
        !has_liquidity_id(rows, id) ==> upsert_liquidities(table, rows)[id] == table[id],
    decreases rows.len(),
{
    if rows.len() > 0 {
        let front = rows.drop_last();
        let last = rows.len() - 1;
        lemma_upsert_liquidities_at(table, front, id);
        if rows[last].id == id {
            assert(has_liquidity_id(rows, id));
            if has_liquidity_id(front, id) {
                let i = choose|i: int| 0 <= i < front.len() && #[trigger] front[i].id == id;
                assert(rows[i].id == rows[last].id);
            }
            assert forall|i: int| 0 <= i < rows.len() && #[trigger] rows[i].id == id implies i
                == last by {}
        } else {
            if has_liquidity_id(front, id) {
                let i = choose|i: int| 0 <= i < front.len() && #[trigger] front[i].id == id;
                assert(rows[i].id == id);
            }
            if has_liquidity_id(rows, id) {
                let i = choose|i: int| 0 <= i < rows.len() && #[trigger] rows[i].id == id;
                assert(front[i].id == id);
            }
            assert forall|i: int| 0 <= i < rows.len() && #[trigger] rows[i].id == id implies
                upsert_liquidities(table, rows)[id] == merged_liquidity(table, rows[i]) by {
                assert(front[i].id == id);
            }
        }
    }
}

/// Upserting a batch of swap rows a second time changes nothing.
pub proof fn lemma_upsert_swaps_idempotent(table: SwapTable, rows: Seq<SwapRow>)
    requires
        distinct_swap_ids(rows),
    ensures
        upsert_swaps(upsert_swaps(table, rows), rows) == upsert_swaps(table, rows),
{
    let once = upsert_swaps(table, rows);
    let twice = upsert_swaps(once, rows);
    assert forall|id: Seq<char>| #[trigger]
        twice.contains_key(id) == once.contains_key(id) && (once.contains_key(id) ==> twice[id]
            == once[id]) by {
        lemma_upsert_swaps_at(table, rows, id);
        lemma_upsert_swaps_at(once, rows, id);
        if has_swap_id(rows, id) {
            let i = choose|i: int| 0 <= i < rows.len() && #[trigger] rows[i].id == id;
        }
    }
    assert(twice =~= once);
}

/// Upserting a batch of liquidity rows a second time changes nothing.
pub proof fn lemma_upsert_liquidities_idempotent(table: LiquidityTable, rows: Seq<LiquidityRow>)
    requires
        distinct_liquidity_ids(rows),
    ensures
        upsert_liquidities(upsert_liquidities(table, rows), rows) == upsert_liquidities(
            table,
            rows,
        ),
{
    let once = upsert_liquidities(table, rows);
    let twice = upsert_liquidities(once, rows);
    assert forall|id: Seq<char>| #[trigger]
        twice.contains_key(id) == once.contains_key(id) && (once.contains_key(id) ==> twice[id]
            == once[id]) by {
        lemma_upsert_liquidities_at(table, rows, id);
        lemma_upsert_liquidities_at(once, rows, id);
        if has_liquidity_id(rows, id) {
            let i = choose|i: int| 0 <= i < rows.len() && #[trigger] rows[i].id == id;
        }
    }
    assert(twice =~= once);
}

/// Idempotence: committing the same batches a second time succeeds and leaves
/// the tables exactly as the first commit left them, with no further row.
pub proof fn lemma_commit_idempotent(tables: Tables, batches: Batches)
    requires
        commit_batches(tables, batches) is Ok,
    ensures
        commit_batches(commit_batches(tables, batches)->Ok_0, batches) == commit_batches(
            tables,
            batches,
        ),
{
    lemma_upsert_swaps_idempotent(tables.swaps, batches.swaps);
    lemma_upsert_liquidities_idempotent(tables.adds, batches.adds);
    lemma_upsert_liquidities_idempotent(tables.removes, batches.removes);
}

/// A commit keeps every row under its own identity.
pub proof fn lemma_commit_keeps_tables_wf(tables: Tables, batches: Batches)
    requires
        tables_wf(tables),
        commit_batches(tables, batches) is Ok,
    ensures
        tables_wf(commit_batches(tables, batches)->Ok_0),
{
    let after = commit_batches(tables, batches)->Ok_0;
    assert forall|id: Seq<char>| #[trigger] after.swaps.contains_key(id) implies after.swaps[id].id
        == id by {
        lemma_upsert_swaps_at(tables.swaps, batches.swaps, id);
        if has_swap_id(batches.swaps, id) {
            let i = choose|i: int| 0 <= i < batches.swaps.len() && #[trigger] batches.swaps[i].id == id;
        }
    }
    assert forall|id: Seq<char>| #[trigger] after.adds.contains_key(id) implies after.adds[id].id
        == id by {
        lemma_upsert_liquidities_at(tables.adds, batches.adds, id);
        if has_liquidity_id(batches.adds, id) {
            let i = choose|i: int| 0 <= i < batches.adds.len() && #[trigger] batches.adds[i].id == id;
        }
    }
    assert forall|id: Seq<char>| #[trigger]
        after.removes.contains_key(id) implies after.removes[id].id == id by {
        lemma_upsert_liquidities_at(tables.removes, batches.removes, id);
        if has_liquidity_id(batches.removes, id) {
            let i = choose|i: int|
                0 <= i < batches.removes.len() && #[trigger] batches.removes[i].id == id;
        }
    }
}

/// Rows are never deleted: what a table held before a commit it holds after
/// it, under the same identity.
pub proof fn lemma_commit_keeps_rows(tables: Tables, batches: Batches, id: Seq<char>)
    requires
        commit_batches(tables, batches) is Ok,
    ensures
        tables.swaps.contains_key(id) ==> commit_batches(tables, batches)->Ok_0.swaps.contains_key(
            id,
        ),
        tables.adds.contains_key(id) ==> commit_batches(tables, batches)->Ok_0.adds.contains_key(
            id,
        ),
        tables.removes.contains_key(id) ==> commit_batches(
            tables,
            batches,
        )->Ok_0.removes.contains_key(id),
{
    lemma_upsert_swaps_at(tables.swaps, batches.swaps, id);
    lemma_upsert_liquidities_at(tables.adds, batches.adds, id);
    lemma_upsert_liquidities_at(tables.removes, batches.removes, id);
}

} // verus!
