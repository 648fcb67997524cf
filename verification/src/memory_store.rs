//! A store that keeps the three tables in memory.

use crate::identity::EventKind;
use crate::indexer::batches_of;
use crate::models::{
    CetusAddLiquidityEvent, CetusRemoveLiquidityEvent, CetusSwapEvent, LiquidityRow, SwapRow,
};
use crate::store::{
    commit_batches, tables_wf, distinct_liquidity_ids, distinct_swap_ids, has_liquidity_id, has_swap_id,
    upsert_liquidities, upsert_liquidity, upsert_swap, upsert_swaps, CommitError, LiquidityTable,
    SwapTable, Tables,
};
use vstd::prelude::*;

verus! {

/// The table that holds the given swap rows, none of which repeats an
/// identity, each under its identity.
pub open spec fn swap_table_of(rows: Seq<SwapRow>) -> SwapTable {
    Map::new(
        |id: Seq<char>| has_swap_id(rows, id),
        |id: Seq<char>| rows[choose|i: int| 0 <= i < rows.len() && #[trigger] rows[i].id == id],
    )
}

/// The table that holds the given liquidity rows, none of which repeats an
/// identity, each under its identity.
pub open spec fn liquidity_table_of(rows: Seq<LiquidityRow>) -> LiquidityTable {
    Map::new(
        |id: Seq<char>| has_liquidity_id(rows, id),
        |id: Seq<char>| rows[choose|i: int| 0 <= i < rows.len() && #[trigger] rows[i].id == id],
    )
}

proof fn lemma_swap_table_push(rows: Seq<SwapRow>, row: SwapRow)
    requires
        distinct_swap_ids(rows),
        !has_swap_id(rows, row.id),
    ensures
        distinct_swap_ids(rows.push(row)),
        swap_table_of(rows.push(row)) == upsert_swap(swap_table_of(rows), row),
{
    let longer = rows.push(row);
    assert forall|i: int, j: int| 0 <= i < j < longer.len() implies longer[i].id
        != longer[j].id by {
        if j == rows.len() {
            assert(rows[i].id != row.id);
        }
    }
    assert forall|id: Seq<char>|
        has_swap_id(longer, id) == (has_swap_id(rows, id) || id == row.id) by {
        if has_swap_id(rows, id) {
            let i = choose|i: int| 0 <= i < rows.len() && #[trigger] rows[i].id == id;
            assert(longer[i].id == id);
        }
        if id == row.id {
            assert(longer[rows.len() as int].id == id);
        }
        if has_swap_id(longer, id) {
            let i = choose|i: int| 0 <= i < longer.len() && #[trigger] longer[i].id == id;
            if i < rows.len() {
                assert(rows[i].id == id);
            }
        }
    }
    assert forall|id: Seq<char>| has_swap_id(longer, id) implies #[trigger] swap_table_of(
        longer,
    )[id] == upsert_swap(swap_table_of(rows), row)[id] by {
        let i = choose|i: int| 0 <= i < longer.len() && #[trigger] longer[i].id == id;
        if id != row.id {
            let k = choose|k: int| 0 <= k < rows.len() && #[trigger] rows[k].id == id;
            assert(longer[k].id == id);
            assert(i == k);
        } else {
            if i < rows.len() {
                assert(rows[i].id == id);
            }
        }
    }
    assert(swap_table_of(longer) =~= upsert_swap(swap_table_of(rows), row));
}

proof fn lemma_swap_table_update(rows: Seq<SwapRow>, at: int, row: SwapRow)
    requires
        distinct_swap_ids(rows),
        0 <= at < rows.len(),
        rows[at].id == row.id,
    ensures
        distinct_swap_ids(rows.update(at, row)),
        swap_table_of(rows.update(at, row)) == upsert_swap(swap_table_of(rows), row),
{
    let changed = rows.update(at, row);
    assert forall|i: int, j: int| 0 <= i < j < changed.len() implies changed[i].id
        != changed[j].id by {
        assert(rows[i].id != rows[j].id);
    }
    assert forall|id: Seq<char>| has_swap_id(changed, id) == has_swap_id(rows, id) by {
        if has_swap_id(rows, id) {
            let i = choose|i: int| 0 <= i < rows.len() && #[trigger] rows[i].id == id;
            assert(changed[i].id == id);
        }
        if has_swap_id(changed, id) {
            let i = choose|i: int| 0 <= i < changed.len() && #[trigger] changed[i].id == id;
            assert(rows[i].id == id);
        }
    }
    assert(has_swap_id(rows, row.id));
    assert forall|id: Seq<char>| has_swap_id(changed, id) implies #[trigger] swap_table_of(
        changed,
    )[id] == upsert_swap(swap_table_of(rows), row)[id] by {
        let i = choose|i: int| 0 <= i < changed.len() && #[trigger] changed[i].id == id;
        if id != row.id {
            let k = choose|k: int| 0 <= k < rows.len() && #[trigger] rows[k].id == id;
            assert(changed[k].id == id);
            assert(i == k);
        } else {
            assert(changed[at].id == id);
            assert(i == at);
        }
    }
    assert(swap_table_of(changed) =~= upsert_swap(swap_table_of(rows), row));
}

/// The index of the row with the identity `id`, if the table has one.
fn find_swap(table: &Vec<CetusSwapEvent>, id: &String) -> (found: Option<usize>)
    ensures
        match found {
            Some(i) => i < table.len() && table.deep_view()[i as int].id == id@,
            None => !has_swap_id(table.deep_view(), id@),
        },
{
    let mut i: usize = 0;
    while i < table.len()
        invariant
            i <= table.len(),
            forall|j: int| 0 <= j < i ==> (#[trigger] table.deep_view()[j]).id != id@,
        decreases table.len() - i,
    {
        if table[i].id == *id {
            return Some(i);
        }
        i = i + 1;
    }
    None
}

/// A copy of a swap row.
fn copy_swap(row: &CetusSwapEvent) -> (copy: CetusSwapEvent)
    ensures
        copy@ == row@,
{
    CetusSwapEvent { id: row.id.clone(), amount_in: row.amount_in, amount_out: row.amount_out }
}

/// Whether no identity occurs twice in the batch.
fn swap_ids_distinct(rows: &Vec<CetusSwapEvent>) -> (distinct: bool)
    ensures
        distinct == distinct_swap_ids(rows.deep_view()),
{
    let mut j: usize = 0;
    while j < rows.len()
        invariant
            j <= rows.len(),
            forall|a: int, b: int|
                0 <= a < b < j ==> rows.deep_view()[a].id != rows.deep_view()[b].id,
        decreases rows.len() - j,
    {
        let mut i: usize = 0;
        while i < j
            invariant
                i <= j < rows.len(),
                forall|a: int| 0 <= a < i ==> rows.deep_view()[a].id != rows.deep_view()[j as int].id,
            decreases j - i,
        {
            if rows[i].id == rows[j].id {
                assert(rows.deep_view()[i as int].id == rows.deep_view()[j as int].id);
                return false;
            }
            i = i + 1;
        }
        j = j + 1;
    }
    true
}

/// Upserts the rows of a batch into the table, one after the other.
fn upsert_swap_rows(table: &mut Vec<CetusSwapEvent>, rows: &Vec<CetusSwapEvent>)
    requires
        distinct_swap_ids(old(table).deep_view()),
    ensures
        distinct_swap_ids(final(table).deep_view()),
        swap_table_of(final(table).deep_view()) == upsert_swaps(
            swap_table_of(old(table).deep_view()),
            rows.deep_view(),
        ),
{
    let ghost start = swap_table_of(table.deep_view());
    let ghost all = rows.deep_view();
    let mut k: usize = 0;
    while k < rows.len()
        invariant
            k <= rows.len(),
            all == rows.deep_view(),
            distinct_swap_ids(table.deep_view()),
            swap_table_of(table.deep_view()) == upsert_swaps(start, all.take(k as int)),
        decreases rows.len() - k,
    {
        let row = copy_swap(&rows[k]);
        let ghost before = table.deep_view();
        proof {
            assert(all.take(k + 1).drop_last() =~= all.take(k as int));
            assert(all.take(k + 1).last() == row@);
        }
        match find_swap(table, &row.id) {
            Some(i) => {
                proof {
                    lemma_swap_table_update(before, i as int, row@);
                }
                table[i] = row;
                assert(table.deep_view() =~= before.update(i as int, row@));
            },
            None => {
                proof {
                    lemma_swap_table_push(before, row@);
                }
                table.push(row);
                assert(table.deep_view() =~= before.push(row@));
            },
        }
        k = k + 1;
    }
    proof {
        assert(all.take(k as int) =~= all);
    }
}

/// A stored liquidity row, of either liquidity table.
struct LiquidityEntry {
    id: String,
    liquidity: String,
    after_liquidity: String,
    pool: String,
    position: String,
}

impl View for LiquidityEntry {
    type V = LiquidityRow;

    closed spec fn view(&self) -> LiquidityRow {
        LiquidityRow {
            id: self.id@,
            liquidity: self.liquidity@,
            after_liquidity: self.after_liquidity@,
            pool: self.pool@,
            position: self.position@,
        }
    }
}

impl DeepView for LiquidityEntry {
    type V = LiquidityRow;

    closed spec fn deep_view(&self) -> LiquidityRow {
        self@
    }
}

proof fn lemma_liquidity_table_push(rows: Seq<LiquidityRow>, row: LiquidityRow)
    requires
        distinct_liquidity_ids(rows),
        !has_liquidity_id(rows, row.id),
    ensures
        distinct_liquidity_ids(rows.push(row)),
        liquidity_table_of(rows.push(row)) == upsert_liquidity(liquidity_table_of(rows), row),
{
    let longer = rows.push(row);
    assert forall|i: int, j: int| 0 <= i < j < longer.len() implies longer[i].id
        != longer[j].id by {
        if j == rows.len() {
            assert(rows[i].id != row.id);
        }
    }
    assert forall|id: Seq<char>|
        has_liquidity_id(longer, id) == (has_liquidity_id(rows, id) || id == row.id) by {
        if has_liquidity_id(rows, id) {
            let i = choose|i: int| 0 <= i < rows.len() && #[trigger] rows[i].id == id;
            assert(longer[i].id == id);
        }
        if id == row.id {
            assert(longer[rows.len() as int].id == id);
        }
        if has_liquidity_id(longer, id) {
            let i = choose|i: int| 0 <= i < longer.len() && #[trigger] longer[i].id == id;
            if i < rows.len() {
                assert(rows[i].id == id);
            }
        }
    }
    assert forall|id: Seq<char>| has_liquidity_id(longer, id) implies #[trigger] liquidity_table_of(
        longer,
    )[id] == upsert_liquidity(liquidity_table_of(rows), row)[id] by {
        let i = choose|i: int| 0 <= i < longer.len() && #[trigger] longer[i].id == id;
        if id != row.id {
            let k = choose|k: int| 0 <= k < rows.len() && #[trigger] rows[k].id == id;
            assert(longer[k].id == id);
            assert(i == k);
        } else {
            if i < rows.len() {
                assert(rows[i].id == id);
            }
        }
    }
    assert(liquidity_table_of(longer) =~= upsert_liquidity(liquidity_table_of(rows), row));
}

proof fn lemma_liquidity_table_update(rows: Seq<LiquidityRow>, at: int, row: LiquidityRow)
    requires
        distinct_liquidity_ids(rows),
        0 <= at < rows.len(),
        rows[at].id == row.id,
    ensures
        distinct_liquidity_ids(
            rows.update(
                at,
                LiquidityRow {
                    liquidity: row.liquidity,
                    after_liquidity: row.after_liquidity,
                    ..rows[at]
                },
            ),
        ),
        liquidity_table_of(
            rows.update(
                at,
                LiquidityRow {
                    liquidity: row.liquidity,
                    after_liquidity: row.after_liquidity,
                    ..rows[at]
                },
            ),
        ) == upsert_liquidity(liquidity_table_of(rows), row),
{
    let merged = LiquidityRow {
        liquidity: row.liquidity,
        after_liquidity: row.after_liquidity,
        ..rows[at]
    };
    let changed = rows.update(at, merged);
    let table = liquidity_table_of(rows);
    assert forall|i: int, j: int| 0 <= i < j < changed.len() implies changed[i].id
        != changed[j].id by {
        assert(rows[i].id != rows[j].id);
    }
    assert forall|id: Seq<char>| has_liquidity_id(changed, id) == has_liquidity_id(rows, id) by {
        if has_liquidity_id(rows, id) {
            let i = choose|i: int| 0 <= i < rows.len() && #[trigger] rows[i].id == id;
            assert(changed[i].id == id);
        }
        if has_liquidity_id(changed, id) {
            let i = choose|i: int| 0 <= i < changed.len() && #[trigger] changed[i].id == id;
            assert(rows[i].id == id);
        }
    }
    assert(has_liquidity_id(rows, row.id));
    let stored = choose|k: int| 0 <= k < rows.len() && #[trigger] rows[k].id == row.id;
    assert(stored == at);
    assert(table[row.id] == rows[at]);
    assert forall|id: Seq<char>| has_liquidity_id(changed, id) implies #[trigger] liquidity_table_of(
        changed,
    )[id] == upsert_liquidity(table, row)[id] by {
        let i = choose|i: int| 0 <= i < changed.len() && #[trigger] changed[i].id == id;
        if id != row.id {
            let k = choose|k: int| 0 <= k < rows.len() && #[trigger] rows[k].id == id;
            assert(changed[k].id == id);
            assert(i == k);
        } else {
            assert(changed[at].id == id);
            assert(i == at);
        }
    }
    assert(liquidity_table_of(changed) =~= upsert_liquidity(table, row));
}

/// The index of the row with the identity `id`, if the table has one.
fn find_liquidity(table: &Vec<LiquidityEntry>, id: &String) -> (found: Option<usize>)
    ensures
        match found {
            Some(i) => i < table.len() && table.deep_view()[i as int].id == id@,
            None => !has_liquidity_id(table.deep_view(), id@),
        },
{
    let mut i: usize = 0;
    while i < table.len()
        invariant
            i <= table.len(),
            forall|j: int| 0 <= j < i ==> (#[trigger] table.deep_view()[j]).id != id@,
        decreases table.len() - i,
    {
        if table[i].id == *id {
            return Some(i);
        }
        i = i + 1;
    }
    None
}

/// Whether no identity occurs twice in the batch.
fn liquidity_ids_distinct(rows: &Vec<LiquidityEntry>) -> (distinct: bool)
    ensures
        distinct == distinct_liquidity_ids(rows.deep_view()),
{
    let mut j: usize = 0;
    while j < rows.len()
        invariant
            j <= rows.len(),
            forall|a: int, b: int|
                0 <= a < b < j ==> rows.deep_view()[a].id != rows.deep_view()[b].id,
        decreases rows.len() - j,
    {
        let mut i: usize = 0;
        while i < j
            invariant
                i <= j < rows.len(),
                forall|a: int| 0 <= a < i ==> rows.deep_view()[a].id != rows.deep_view()[j as int].id,
            decreases j - i,
        {
            if rows[i].id == rows[j].id {
                assert(rows.deep_view()[i as int].id == rows.deep_view()[j as int].id);
                return false;
            }
            i = i + 1;
        }
        j = j + 1;
    }
    true
}

/// The rows of an add-liquidity batch in the form in which they are stored.
fn entries_of_adds(rows: &Vec<CetusAddLiquidityEvent>) -> (entries: Vec<LiquidityEntry>)
    ensures
        entries.deep_view() == rows.deep_view(),
{
    let mut entries: Vec<LiquidityEntry> = Vec::new();
    let mut i: usize = 0;
    while i < rows.len()
        invariant
            i <= rows.len(),
            entries.len() == i,
            forall|j: int| 0 <= j < i ==> entries.deep_view()[j] == rows.deep_view()[j],
        decreases rows.len() - i,
    {
        let row = &rows[i];
        let ghost earlier = entries.deep_view();
        let entry = LiquidityEntry {
            id: row.id.clone(),
            liquidity: row.liquidity.clone(),
            after_liquidity: row.after_liquidity.clone(),
            pool: row.pool.clone(),
            position: row.position.clone(),
        };
        assert(entry@ == row@);
        entries.push(entry);
        assert(entries.deep_view() =~= earlier.push(row@));
        i = i + 1;
    }
    assert(entries.deep_view() =~= rows.deep_view());
    entries
}

/// The rows of a remove-liquidity batch in the form in which they are stored.
fn entries_of_removes(rows: &Vec<CetusRemoveLiquidityEvent>) -> (entries: Vec<LiquidityEntry>)
    ensures
        entries.deep_view() == rows.deep_view(),
{
    let mut entries: Vec<LiquidityEntry> = Vec::new();
    let mut i: usize = 0;
    while i < rows.len()
        invariant
            i <= rows.len(),
            entries.len() == i,
            forall|j: int| 0 <= j < i ==> entries.deep_view()[j] == rows.deep_view()[j],
        decreases rows.len() - i,
    {
        let row = &rows[i];
        let ghost earlier = entries.deep_view();
        let entry = LiquidityEntry {
            id: row.id.clone(),
            liquidity: row.liquidity.clone(),
            after_liquidity: row.after_liquidity.clone(),
            pool: row.pool.clone(),
            position: row.position.clone(),
        };
        assert(entry@ == row@);
        entries.push(entry);
        assert(entries.deep_view() =~= earlier.push(row@));
        i = i + 1;
    }
    assert(entries.deep_view() =~= rows.deep_view());
    entries
}

/// Upserts the rows of a batch into the table, one after the other.
fn upsert_liquidity_rows(table: &mut Vec<LiquidityEntry>, rows: &Vec<LiquidityEntry>)
    requires
        distinct_liquidity_ids(old(table).deep_view()),
    ensures
        distinct_liquidity_ids(final(table).deep_view()),
        liquidity_table_of(final(table).deep_view()) == upsert_liquidities(
            liquidity_table_of(old(table).deep_view()),
            rows.deep_view(),
        ),
{
    let ghost start = liquidity_table_of(table.deep_view());
    let ghost all = rows.deep_view();
    let mut k: usize = 0;
    while k < rows.len()
        invariant
            k <= rows.len(),
            all == rows.deep_view(),
            distinct_liquidity_ids(table.deep_view()),
            liquidity_table_of(table.deep_view()) == upsert_liquidities(start, all.take(k as int)),
        decreases rows.len() - k,
    {
        let row = &rows[k];
        let ghost before = table.deep_view();
        proof {
            assert(all.take(k + 1).drop_last() =~= all.take(k as int));
            assert(all.take(k + 1).last() == row@);
        }
        match find_liquidity(table, &row.id) {
            Some(i) => {
                proof {
                    lemma_liquidity_table_update(before, i as int, row@);
                }
                let entry = LiquidityEntry {
                    id: table[i].id.clone(),
                    liquidity: row.liquidity.clone(),
                    after_liquidity: row.after_liquidity.clone(),
                    pool: table[i].pool.clone(),
                    position: table[i].position.clone(),
                };
                let ghost merged = entry@;
                table[i] = entry;
                assert(table.deep_view() =~= before.update(i as int, merged));
            },
            None => {
                proof {
                    lemma_liquidity_table_push(before, row@);
                }
                let entry = LiquidityEntry {
                    id: row.id.clone(),
                    liquidity: row.liquidity.clone(),
                    after_liquidity: row.after_liquidity.clone(),
                    pool: row.pool.clone(),
                    position: row.position.clone(),
                };
                assert(entry@ == row@);
                table.push(entry);
                assert(table.deep_view() =~= before.push(row@));
            },
        }
        k = k + 1;
    }
    proof {
        assert(all.take(k as int) =~= all);
    }
}

/// The three tables, kept in memory.
pub struct MemoryStore {
    swaps: Vec<CetusSwapEvent>,
    adds: Vec<LiquidityEntry>,
    removes: Vec<LiquidityEntry>,
}

impl View for MemoryStore {
    type V = Tables;

    closed spec fn view(&self) -> Tables {
        Tables {
            swaps: swap_table_of(self.swaps.deep_view()),
            adds: liquidity_table_of(self.adds.deep_view()),
            removes: liquidity_table_of(self.removes.deep_view()),
        }
    }
}

/// The view of a row that may be missing.
pub open spec fn swap_view(row: Option<CetusSwapEvent>) -> Option<SwapRow> {
    match row {
        Some(r) => Some(r@),
        None => None,
    }
}

/// The view of a row that may be missing.
pub open spec fn add_view(row: Option<CetusAddLiquidityEvent>) -> Option<LiquidityRow> {
    match row {
        Some(r) => Some(r@),
        None => None,
    }
}

/// The view of a row that may be missing.
pub open spec fn remove_view(row: Option<CetusRemoveLiquidityEvent>) -> Option<LiquidityRow> {
    match row {
        Some(r) => Some(r@),
        None => None,
    }
}

/// The row that a swap table holds under `id`, if any.
pub open spec fn swap_at(table: SwapTable, id: Seq<char>) -> Option<SwapRow> {
    if table.contains_key(id) {
        Some(table[id])
    } else {
        None
    }
}

/// The row that a liquidity table holds under `id`, if any.
pub open spec fn liquidity_at(table: LiquidityTable, id: Seq<char>) -> Option<LiquidityRow> {
    if table.contains_key(id) {
        Some(table[id])
    } else {
        None
    }
}

proof fn lemma_swap_table_len(rows: Seq<SwapRow>)
    requires
        distinct_swap_ids(rows),
    ensures
        swap_table_of(rows).dom().finite(),
        swap_table_of(rows).dom().len() == rows.len(),
    decreases rows.len(),
{
    if rows.len() == 0 {
        assert(swap_table_of(rows).dom() =~= Set::<Seq<char>>::empty());
    } else {
        let front = rows.drop_last();
        lemma_swap_table_len(front);
        assert(!has_swap_id(front, rows.last().id)) by {
            if has_swap_id(front, rows.last().id) {
                let i = choose|i: int|
                    0 <= i < front.len() && #[trigger] front[i].id == rows.last().id;
                assert(rows[i].id == rows[rows.len() - 1].id);
            }
        }
        lemma_swap_table_push(front, rows.last());
        assert(front.push(rows.last()) =~= rows);
        assert(swap_table_of(rows).dom() =~= swap_table_of(front).dom().insert(rows.last().id));
    }
}

proof fn lemma_liquidity_table_len(rows: Seq<LiquidityRow>)
    requires
        distinct_liquidity_ids(rows),
    ensures
        liquidity_table_of(rows).dom().finite(),
        liquidity_table_of(rows).dom().len() == rows.len(),
    decreases rows.len(),
{
    if rows.len() == 0 {
        assert(liquidity_table_of(rows).dom() =~= Set::<Seq<char>>::empty());
    } else {
        let front = rows.drop_last();
        lemma_liquidity_table_len(front);
        assert(!has_liquidity_id(front, rows.last().id)) by {
            if has_liquidity_id(front, rows.last().id) {
                let i = choose|i: int|
                    0 <= i < front.len() && #[trigger] front[i].id == rows.last().id;
                assert(rows[i].id == rows[rows.len() - 1].id);
            }
        }
        lemma_liquidity_table_push(front, rows.last());
        assert(front.push(rows.last()) =~= rows);
        assert(liquidity_table_of(rows).dom() =~= liquidity_table_of(front).dom().insert(
            rows.last().id,
        ));
    }
}

impl MemoryStore {
    /// Whether no table holds an identity twice.
    pub closed spec fn wf(&self) -> bool {
        &&& distinct_swap_ids(self.swaps.deep_view())
        &&& distinct_liquidity_ids(self.adds.deep_view())
        &&& distinct_liquidity_ids(self.removes.deep_view())
    }

    /// In a well-formed store every row is kept under its own identity.
    pub proof fn lemma_rows_under_their_identity(&self)
        requires
            self.wf(),
        ensures
            tables_wf(self@),
    {
        let swaps = self.swaps.deep_view();
        assert forall|id: Seq<char>| #[trigger] self@.swaps.contains_key(id) implies self@.swaps[id].id
            == id by {
            let i = choose|i: int| 0 <= i < swaps.len() && #[trigger] swaps[i].id == id;
        }
        let adds = self.adds.deep_view();
        assert forall|id: Seq<char>| #[trigger] self@.adds.contains_key(id) implies self@.adds[id].id
            == id by {
            let i = choose|i: int| 0 <= i < adds.len() && #[trigger] adds[i].id == id;
        }
        let removes = self.removes.deep_view();
        assert forall|id: Seq<char>| #[trigger]
            self@.removes.contains_key(id) implies self@.removes[id].id == id by {
            let i = choose|i: int| 0 <= i < removes.len() && #[trigger] removes[i].id == id;
        }
    }

    /// A store with three empty tables.
    pub fn new() -> (store: MemoryStore)
        ensures
            store.wf(),
            store@ == (Tables { swaps: Map::empty(), adds: Map::empty(), removes: Map::empty() }),
    {
        let store = MemoryStore { swaps: Vec::new(), adds: Vec::new(), removes: Vec::new() };
        assert(store@.swaps =~= Map::<Seq<char>, SwapRow>::empty());
        assert(store@.adds =~= Map::<Seq<char>, LiquidityRow>::empty());
        assert(store@.removes =~= Map::<Seq<char>, LiquidityRow>::empty());
        store
    }

    /// Commits three batches in one atomic step: either all of them are
    /// upserted, or the store is left as it was and the error says why.
    pub fn commit(
        &mut self,
        swap_events: &Vec<CetusSwapEvent>,
        add_liquidity_events: &Vec<CetusAddLiquidityEvent>,
        remove_liquidity_events: &Vec<CetusRemoveLiquidityEvent>,
    ) -> (r: Result<(), CommitError>)
        requires
            old(self).wf(),
        ensures
            final(self).wf(),
            match commit_batches(
                old(self)@,
                batches_of(swap_events, add_liquidity_events, remove_liquidity_events),
            ) {
                Ok(tables) => r is Ok && final(self)@ == tables,
                Err(e) => r == Err::<(), CommitError>(e) && final(self)@ == old(self)@,
            },
    {
        if !swap_ids_distinct(swap_events) {
            return Err(CommitError::DuplicateIdentity(EventKind::Swap));
        }
        let adds = entries_of_adds(add_liquidity_events);
        if !liquidity_ids_distinct(&adds) {
            return Err(CommitError::DuplicateIdentity(EventKind::AddLiquidity));
        }
        let removes = entries_of_removes(remove_liquidity_events);
        if !liquidity_ids_distinct(&removes) {
            return Err(CommitError::DuplicateIdentity(EventKind::RemoveLiquidity));
        }
        upsert_swap_rows(&mut self.swaps, swap_events);
        upsert_liquidity_rows(&mut self.adds, &adds);
        upsert_liquidity_rows(&mut self.removes, &removes);
        Ok(())
    }

    /// The number of rows in the swap table.
    pub fn swap_count(&self) -> (n: usize)
        requires
            self.wf(),
        ensures
            self@.swaps.dom().finite(),
            n == self@.swaps.dom().len(),
    {
        proof {
            lemma_swap_table_len(self.swaps.deep_view());
        }
        self.swaps.len()
    }

    /// The number of rows in the add-liquidity table.
    pub fn add_liquidity_count(&self) -> (n: usize)
        requires
            self.wf(),
        ensures
            self@.adds.dom().finite(),
            n == self@.adds.dom().len(),
    {
        proof {
            lemma_liquidity_table_len(self.adds.deep_view());
        }
        self.adds.len()
    }

    /// The number of rows in the remove-liquidity table.
    pub fn remove_liquidity_count(&self) -> (n: usize)
        requires
            self.wf(),
        ensures
            self@.removes.dom().finite(),
            n == self@.removes.dom().len(),
    {
        proof {
            lemma_liquidity_table_len(self.removes.deep_view());
        }
        self.removes.len()
    }

    /// The swap row stored under `id`, if any.
    pub fn swap(&self, id: &str) -> (row: Option<CetusSwapEvent>)
        requires
            self.wf(),
        ensures
            swap_view(row) == swap_at(self@.swaps, id@),
    {
        let key = id.to_owned();
        match find_swap(&self.swaps, &key) {
            Some(i) => {
                assert(self.swaps.deep_view()[i as int].id == id@);
                Some(copy_swap(&self.swaps[i]))
            },
            None => None,
        }
    }

    /// The add-liquidity row stored under `id`, if any.
    pub fn add_liquidity(&self, id: &str) -> (row: Option<CetusAddLiquidityEvent>)
        requires
            self.wf(),
        ensures
            add_view(row) == liquidity_at(self@.adds, id@),
    {
        let key = id.to_owned();
        match find_liquidity(&self.adds, &key) {
            Some(i) => {
                assert(self.adds.deep_view()[i as int].id == id@);
                let entry = &self.adds[i];
                Some(
                    CetusAddLiquidityEvent {
                        id: entry.id.clone(),
                        liquidity: entry.liquidity.clone(),
                        after_liquidity: entry.after_liquidity.clone(),
                        pool: entry.pool.clone(),
                        position: entry.position.clone(),
                    },
                )
            },
            None => None,
        }
    }

    /// The remove-liquidity row stored under `id`, if any.
    pub fn remove_liquidity(&self, id: &str) -> (row: Option<CetusRemoveLiquidityEvent>)
        requires
            self.wf(),
        ensures
            remove_view(row) == liquidity_at(self@.removes, id@),
    {
        let key = id.to_owned();
        match find_liquidity(&self.removes, &key) {
            Some(i) => {
                assert(self.removes.deep_view()[i as int].id == id@);
                let entry = &self.removes[i];
                Some(
                    CetusRemoveLiquidityEvent {
                        id: entry.id.clone(),
                        liquidity: entry.liquidity.clone(),
                        after_liquidity: entry.after_liquidity.clone(),
                        pool: entry.pool.clone(),
                        position: entry.position.clone(),
                    },
                )
            },
            None => None,
        }
    }
}

} // verus!
