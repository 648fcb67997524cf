//! What the read side computes from a request and from the persisted rows:
//! the window of a page, the pattern of a filter, the volume statistics.

use crate::models::{CetusAddLiquidityEvent, CetusRemoveLiquidityEvent, CetusSwapEvent, SwapRow};
use vstd::prelude::*;
use vstd::string::*;

verus! {

/// The page that is shown when a request names none.
pub const DEFAULT_PAGE: i64 = 1;

/// The number of rows on a page when a request names none.
pub const DEFAULT_PER_PAGE: i64 = 20;

/// The paging parameters of a request.
#[derive(Clone, Copy, Debug, PartialEq, Eq)]
pub struct PaginationParams {
    pub page: Option<i64>,
    pub per_page: Option<i64>,
}

/// The parameters of a request that filters by a part of the identity.
#[derive(Clone, Debug, PartialEq, Eq)]
pub struct PoolFilterParams {
    pub id_contains: String,
    pub page: Option<i64>,
    pub per_page: Option<i64>,
}

/// The rows that a page shows: `per_page` rows after the first `offset`.
#[derive(Clone, Copy, Debug, PartialEq, Eq, Structural)]
pub struct PageWindow {
    pub page: i64,
    pub per_page: i64,
    pub offset: i64,
}

/// The window of a request. A missing page is page 1, a missing page size is
/// 20, and the offset is `(page - 1) * per_page`. There is no window where
/// that product is outside the signed 64-bit range.
pub open spec fn page_window(page: Option<i64>, per_page: Option<i64>) -> Option<PageWindow> {
    let p = if page is Some {
        page->0
    } else {
        DEFAULT_PAGE
    };
    let n = if per_page is Some {
        per_page->0
    } else {
        DEFAULT_PER_PAGE
    };
    let offset = (p - 1) * n;
    if i64::MIN <= offset <= i64::MAX {
        Some(PageWindow { page: p, per_page: n, offset: offset as i64 })
    } else {
        None
    }
}

/// The pattern that matches every text that contains `part`: `part` between
/// two `%`.
pub open spec fn like_pattern(part: Seq<char>) -> Seq<char> {
    seq!['%'] + part + seq!['%']
}

/// Computes the window of a request.
pub fn window_of(page: Option<i64>, per_page: Option<i64>) -> (w: Option<PageWindow>)
    ensures
        w == page_window(page, per_page),
{
    let p: i64 = match page {
        Some(v) => v,
        None => DEFAULT_PAGE,
    };
    let n: i64 = match per_page {
        Some(v) => v,
        None => DEFAULT_PER_PAGE,
    };
    let before: i128 = p as i128 - 1;
    let size: i128 = n as i128;
    assert(-0x8000_0000_0000_0001 * 0x8000_0000_0000_0000 <= before * size
        <= 0x8000_0000_0000_0001 * 0x8000_0000_0000_0000) by (nonlinear_arith)
        requires
            -0x8000_0000_0000_0001 <= before <= 0x8000_0000_0000_0000,
            -0x8000_0000_0000_0000 <= size <= 0x8000_0000_0000_0000,
    ;
    let offset: i128 = before * size;
    if offset < i64::MIN as i128 || offset > i64::MAX as i128 {
        None
    } else {
        Some(PageWindow { page: p, per_page: n, offset: offset as i64 })
    }
}

impl PaginationParams {
    /// The window of the request.
    pub fn window(&self) -> (w: Option<PageWindow>)
        ensures
            w == page_window(self.page, self.per_page),
    {
        window_of(self.page, self.per_page)
    }
}

impl PoolFilterParams {
    /// The window of the request.
    pub fn window(&self) -> (w: Option<PageWindow>)
        ensures
            w == page_window(self.page, self.per_page),
    {
        window_of(self.page, self.per_page)
    }

    /// The pattern that the identities on the page must match.
    pub fn like_pattern(&self) -> (pattern: String)
        ensures
            pattern@ == like_pattern(self.id_contains@),
    {
        let mut pattern = String::new();
        pattern.push('%');
        pattern.append(self.id_contains.as_str());
        pattern.push('%');
        assert(pattern@ =~= like_pattern(self.id_contains@));
        pattern
    }
}

/// One page of the swap table.
#[derive(Clone, Debug, PartialEq, Eq)]
pub struct SwapsResponse {
    pub swaps: Vec<CetusSwapEvent>,
    pub total: i64,
    pub page: i64,
    pub per_page: i64,
}

/// One page of the add-liquidity table.
#[derive(Clone, Debug, PartialEq, Eq)]
pub struct AddLiquidityResponse {
    pub events: Vec<CetusAddLiquidityEvent>,
    pub total: i64,
    pub page: i64,
    pub per_page: i64,
}

/// One page of the remove-liquidity table.
#[derive(Clone, Debug, PartialEq, Eq)]
pub struct RemoveLiquidityResponse {
    pub events: Vec<CetusRemoveLiquidityEvent>,
    pub total: i64,
    pub page: i64,
    pub per_page: i64,
}

/// The number of rows in each table.
#[derive(Clone, Copy, Debug, PartialEq, Eq, Structural)]
pub struct StatsResponse {
    pub total_swaps: i64,
    pub total_add_liquidity: i64,
    pub total_remove_liquidity: i64,
}

impl PageWindow {
    /// The answer to a request for this window of the swap table: the rows of
    /// the window and the number of rows that the request matches in all.
    pub fn swaps(&self, swaps: Vec<CetusSwapEvent>, total: i64) -> (response: SwapsResponse)
        ensures
            response.swaps == swaps,
            response.total == total,
            response.page == self.page,
            response.per_page == self.per_page,
    {
        SwapsResponse { swaps, total, page: self.page, per_page: self.per_page }
    }

    /// The answer to a request for this window of the add-liquidity table.
    pub fn add_liquidity(&self, events: Vec<CetusAddLiquidityEvent>, total: i64) -> (response:
        AddLiquidityResponse)
        ensures
            response.events == events,
            response.total == total,
            response.page == self.page,
            response.per_page == self.per_page,
    {
        AddLiquidityResponse { events, total, page: self.page, per_page: self.per_page }
    }

    /// The answer to a request for this window of the remove-liquidity table.
    pub fn remove_liquidity(&self, events: Vec<CetusRemoveLiquidityEvent>, total: i64) -> (response:
        RemoveLiquidityResponse)
        ensures
            response.events == events,
            response.total == total,
            response.page == self.page,
            response.per_page == self.per_page,
    {
        RemoveLiquidityResponse { events, total, page: self.page, per_page: self.per_page }
    }
}

impl StatsResponse {
    /// The statistics made of the three row counts.
    pub fn new(total_swaps: i64, total_add_liquidity: i64, total_remove_liquidity: i64) -> (stats:
        StatsResponse)
        ensures
            stats == (StatsResponse { total_swaps, total_add_liquidity, total_remove_liquidity }),
    {
        StatsResponse { total_swaps, total_add_liquidity, total_remove_liquidity }
    }
}

/// The position of the first `-` in `s`, or the length of `s` if it has none.
pub open spec fn first_dash(s: Seq<char>) -> int
    decreases s.len(),
{
    if s.len() == 0 {
        0
    } else if s[0] == '-' {
        0
    } else {
        1 + first_dash(s.skip(1))
    }
}

/// The second of the parts into which `-` splits an identity: what stands
/// between the first `-` and the next one, or the end. An identity without
/// `-` has no second part.
pub open spec fn pool_segment(id: Seq<char>) -> Option<Seq<char>> {
    let first = first_dash(id);
    if first >= id.len() {
        None
    } else {
        let rest = id.skip(first + 1);
        Some(rest.take(first_dash(rest)))
    }
}

/// `first_dash` is the position before which there is no `-` and at which
/// there is one, or the text ends.
pub proof fn lemma_first_dash(s: Seq<char>, at: int)
    requires
        0 <= at <= s.len(),
        forall|i: int| 0 <= i < at ==> s[i] != '-',
        at < s.len() ==> s[at] == '-',
    ensures
        first_dash(s) == at,
    decreases s.len(),
{
    if s.len() > 0 && at > 0 {
        let rest = s.skip(1);
        assert forall|i: int| 0 <= i < at - 1 implies rest[i] != '-' by {
            assert(rest[i] == s[i + 1]);
        }
        lemma_first_dash(rest, at - 1);
    }
}

/// The second of the parts into which `-` splits `id`, if there is one.
pub fn pool_segment_of(id: &str) -> (segment: Option<String>)
    ensures
        match segment {
            Some(part) => pool_segment(id@) == Some(part@),
            None => pool_segment(id@) is None,
        },
{
    let mut part = String::new();
    let mut dashes: u8 = 0;
    let ghost first: int = 0;
    let ghost second: int = 0;
    for c in it: id.chars()
        invariant
            it.seq() == id@,
            dashes <= 2,
            dashes == 0 ==> (forall|j: int| 0 <= j < it.index() ==> id@[j] != '-') && part@.len()
                == 0,
            dashes >= 1 ==> 0 <= first < it.index() && id@[first] == '-' && (forall|j: int|
                0 <= j < first ==> id@[j] != '-'),
            dashes == 1 ==> (forall|j: int| first < j < it.index() ==> id@[j] != '-') && part@
                == id@.subrange(first + 1, it.index() as int),
            dashes == 2 ==> first < second < it.index() && id@[second] == '-' && (forall|j: int|
                first < j < second ==> id@[j] != '-') && part@ == id@.subrange(first + 1, second),
    {
        let ghost i = it.index() as int;
        assert(id@[i] == c);
        if c == '-' {
            if dashes == 0 {
                dashes = 1;
                proof {
                    first = i;
                }
                assert(part@ =~= id@.subrange(first + 1, i + 1));
            } else if dashes == 1 {
                dashes = 2;
                proof {
                    second = i;
                }
            }
        } else if dashes == 1 {
            part.push(c);
            assert(part@ =~= id@.subrange(first + 1, i + 1));
        }
    }
    if dashes == 0 {
        proof {
            lemma_first_dash(id@, id@.len() as int);
        }
        None
    } else {
        proof {
            lemma_first_dash(id@, first);
            let rest = id@.skip(first + 1);
            if dashes == 1 {
                lemma_first_dash(rest, rest.len() as int);
                assert(rest.take(rest.len() as int) =~= part@);
            } else {
                lemma_first_dash(rest, second - first - 1);
                assert(rest.take(second - first - 1) =~= part@);
            }
        }
        Some(part)
    }
}

/// The volume of the swaps of one pool.
#[derive(Clone, Debug, PartialEq, Eq)]
pub struct PoolVolumeStats {
    pub pool_id: String,
    pub volume_in: i64,
    pub volume_out: i64,
    pub swap_count: i64,
}

/// The volume of all swaps, in total and pool by pool.
#[derive(Clone, Debug, PartialEq, Eq)]
pub struct VolumeStatsResponse {
    pub total_volume_in: i64,
    pub total_volume_out: i64,
    pub pool_stats: Vec<PoolVolumeStats>,
}

/// The volume of one pool as a mathematical value.
pub ghost struct PoolVolume {
    pub pool_id: Seq<char>,
    pub volume_in: i64,
    pub volume_out: i64,
    pub swap_count: i64,
}

/// The volume statistics as a mathematical value.
pub ghost struct VolumeStats {
    pub total_volume_in: i64,
    pub total_volume_out: i64,
    pub pool_stats: Seq<PoolVolume>,
}

impl View for PoolVolumeStats {
    type V = PoolVolume;

    open spec fn view(&self) -> PoolVolume {
        PoolVolume {
            pool_id: self.pool_id@,
            volume_in: self.volume_in,
            volume_out: self.volume_out,
            swap_count: self.swap_count,
        }
    }
}

impl DeepView for PoolVolumeStats {
    type V = PoolVolume;

    open spec fn deep_view(&self) -> PoolVolume {
        self@
    }
}

impl View for VolumeStatsResponse {
    type V = VolumeStats;

    open spec fn view(&self) -> VolumeStats {
        VolumeStats {
            total_volume_in: self.total_volume_in,
            total_volume_out: self.total_volume_out,
            pool_stats: self.pool_stats.deep_view(),
        }
    }
}

/// Sums over a set of swap rows, as unbounded numbers.
pub ghost struct Totals {
    pub volume_in: int,
    pub volume_out: int,
    pub swap_count: int,
}

/// The sums over no row.
pub open spec fn no_totals() -> Totals {
    Totals { volume_in: 0, volume_out: 0, swap_count: 0 }
}

/// The sums with one more row.
pub open spec fn with_row(sums: Totals, row: SwapRow) -> Totals {
    Totals {
        volume_in: sums.volume_in + row.amount_in,
        volume_out: sums.volume_out + row.amount_out,
        swap_count: sums.swap_count + 1,
    }
}

/// The sums over all rows.
pub open spec fn totals(rows: Seq<SwapRow>) -> Totals
    decreases rows.len(),
{
    if rows.len() == 0 {
        no_totals()
    } else {
        with_row(totals(rows.drop_last()), rows.last())
    }
}

/// The sums over the rows of the pool `pool`: those whose identity has
/// `pool` as its second part.
pub open spec fn pool_totals(rows: Seq<SwapRow>, pool: Seq<char>) -> Totals
    decreases rows.len(),
{
    if rows.len() == 0 {
        no_totals()
    } else if pool_segment(rows.last().id) == Some(pool) {
        with_row(pool_totals(rows.drop_last(), pool), rows.last())
    } else {
        pool_totals(rows.drop_last(), pool)
    }
}

/// Whether the sums can be given as signed 64-bit numbers.
pub open spec fn fits(sums: Totals) -> bool {
    &&& i64::MIN <= sums.volume_in <= i64::MAX
    &&& i64::MIN <= sums.volume_out <= i64::MAX
    &&& sums.swap_count <= i64::MAX
}

/// Whether the two grand totals can be given as signed 64-bit numbers.
pub open spec fn grand_totals_fit(rows: Seq<SwapRow>) -> bool {
    &&& i64::MIN <= totals(rows).volume_in <= i64::MAX
    &&& i64::MIN <= totals(rows).volume_out <= i64::MAX
}

/// Whether all the statistics of the rows can be given as signed 64-bit
/// numbers: the grand totals and the sums of every pool.
pub open spec fn volumes_fit(rows: Seq<SwapRow>) -> bool {
    grand_totals_fit(rows) && forall|pool: Seq<char>| fits(#[trigger] pool_totals(rows, pool))
}

/// Whether some row belongs to the pool `pool`.
pub open spec fn occurs(rows: Seq<SwapRow>, pool: Seq<char>) -> bool {
    exists|i: int| 0 <= i < rows.len() && pool_segment(#[trigger] rows[i].id) == Some(pool)
}

/// Whether the statistics have an entry for the pool `pool`.
pub open spec fn listed(entries: Seq<PoolVolume>, pool: Seq<char>) -> bool {
    exists|k: int| 0 <= k < entries.len() && (#[trigger] entries[k]).pool_id == pool
}

/// Whether an entry gives the sums of a pool that has rows.
pub open spec fn entry_of(rows: Seq<SwapRow>, entry: PoolVolume) -> bool {
    &&& occurs(rows, entry.pool_id)
    &&& entry.volume_in == pool_totals(rows, entry.pool_id).volume_in
    &&& entry.volume_out == pool_totals(rows, entry.pool_id).volume_out
    &&& entry.swap_count == pool_totals(rows, entry.pool_id).swap_count
}

/// Whether `stats` are the volume statistics of `rows`: the grand totals;
/// one entry for each pool that has rows, with the sums of that pool; no pool
/// twice; the entries in descending order of incoming volume. Entries with
/// equal incoming volume may stand in any order.
pub open spec fn is_volume_stats(rows: Seq<SwapRow>, stats: VolumeStats) -> bool {
    &&& stats.total_volume_in == totals(rows).volume_in
    &&& stats.total_volume_out == totals(rows).volume_out
    &&& forall|k: int|
        0 <= k < stats.pool_stats.len() ==> entry_of(rows, #[trigger] stats.pool_stats[k])
    &&& forall|i: int|
        0 <= i < rows.len() && pool_segment(rows[i].id) is Some ==> listed(
            stats.pool_stats,
            pool_segment((#[trigger] rows[i]).id)->0,
        )
    &&& forall|a: int, b: int|
        0 <= a < b < stats.pool_stats.len() ==> stats.pool_stats[a].pool_id
            != stats.pool_stats[b].pool_id
    &&& forall|a: int, b: int|
        0 <= a < b < stats.pool_stats.len() ==> stats.pool_stats[a].volume_in
            >= stats.pool_stats[b].volume_in
}

/// Sums over `n` rows lie within `n` times the range of an amount.
pub open spec fn within(sums: Totals, n: int) -> bool {
    &&& 0 <= sums.swap_count <= n
    &&& i64::MIN * n <= sums.volume_in <= i64::MAX * n
    &&& i64::MIN * n <= sums.volume_out <= i64::MAX * n
}

proof fn lemma_totals_within(rows: Seq<SwapRow>)
    ensures
        within(totals(rows), rows.len() as int),
        totals(rows).swap_count == rows.len(),
    decreases rows.len(),
{
    if rows.len() > 0 {
        lemma_totals_within(rows.drop_last());
    }
}

proof fn lemma_pool_totals_within(rows: Seq<SwapRow>, pool: Seq<char>)
    ensures
        within(pool_totals(rows, pool), rows.len() as int),
    decreases rows.len(),
{
    if rows.len() > 0 {
        lemma_pool_totals_within(rows.drop_last(), pool);
    }
}

/// A pool without rows has sums of zero.
proof fn lemma_pool_absent(rows: Seq<SwapRow>, pool: Seq<char>)
    requires
        !occurs(rows, pool),
    ensures
        pool_totals(rows, pool) == no_totals(),
    decreases rows.len(),
{
    if rows.len() > 0 {
        let front = rows.drop_last();
        assert(pool_segment(rows[rows.len() - 1].id) != Some(pool));
        if occurs(front, pool) {
            let i = choose|i: int|
                0 <= i < front.len() && pool_segment(#[trigger] front[i].id) == Some(pool);
            assert(rows[i] == front[i]);
        }
        lemma_pool_absent(front, pool);
    }
}

/// The running sums of one pool.
struct PoolAccumulator {
    pool_id: String,
    volume_in: i128,
    volume_out: i128,
    swap_count: usize,
}

/// Whether the accumulator holds the sums of its pool over `rows`, and the
/// pool has rows.
spec fn accumulated(rows: Seq<SwapRow>, acc: PoolAccumulator) -> bool {
    &&& occurs(rows, acc.pool_id@)
    &&& acc.volume_in == pool_totals(rows, acc.pool_id@).volume_in
    &&& acc.volume_out == pool_totals(rows, acc.pool_id@).volume_out
    &&& acc.swap_count == pool_totals(rows, acc.pool_id@).swap_count
}

/// Whether one of the accumulators is for the pool `pool`.
spec fn grouped(groups: Seq<PoolAccumulator>, pool: Seq<char>) -> bool {
    exists|k: int| 0 <= k < groups.len() && (#[trigger] groups[k]).pool_id@ == pool
}

/// Whether the accumulators are those of `rows`: one for each pool that has
/// rows, none twice, each with the sums of its pool.
spec fn groups_of(rows: Seq<SwapRow>, groups: Seq<PoolAccumulator>) -> bool {
    &&& forall|k: int| 0 <= k < groups.len() ==> accumulated(rows, #[trigger] groups[k])
    &&& forall|a: int, b: int|
        0 <= a < b < groups.len() ==> groups[a].pool_id@ != groups[b].pool_id@
    &&& forall|i: int|
        0 <= i < rows.len() && pool_segment(rows[i].id) is Some ==> grouped(
            groups,
            pool_segment((#[trigger] rows[i]).id)->0,
        )
}

/// The index of the accumulator of the pool `pool`, if there is one.
fn find_group(groups: &Vec<PoolAccumulator>, pool: &String) -> (found: Option<usize>)
    ensures
        match found {
            Some(k) => k < groups.len() && groups@[k as int].pool_id@ == pool@,
            None => !grouped(groups@, pool@),
        },
{
    let mut k: usize = 0;
    while k < groups.len()
        invariant
            k <= groups.len(),
            forall|j: int| 0 <= j < k ==> (#[trigger] groups@[j]).pool_id@ != pool@,
        decreases groups.len() - k,
    {
        if groups[k].pool_id == *pool {
            return Some(k);
        }
        k = k + 1;
    }
    None
}

/// Adds one more row to the accumulators.
fn accumulate(groups: &mut Vec<PoolAccumulator>, row: &CetusSwapEvent, Ghost(seen): Ghost<Seq<SwapRow>>)
    requires
        groups_of(seen, old(groups)@),
        seen.len() < usize::MAX,
    ensures
        groups_of(seen.push(row@), final(groups)@),
{
    let ghost after = seen.push(row@);
    let ghost before = groups@;
    proof {
        assert(after.drop_last() =~= seen);
        assert(after.last() == row@);
        assert forall|pool: Seq<char>| occurs(seen, pool) implies occurs(after, pool) by {
            let i = choose|i: int|
                0 <= i < seen.len() && pool_segment(#[trigger] seen[i].id) == Some(pool);
            assert(after[i] == seen[i]);
        }
    }
    match pool_segment_of(row.id.as_str()) {
        Some(pool) => {
            proof {
                assert(pool_segment(after[seen.len() as int].id) == Some(pool@));
                assert(occurs(after, pool@));
                lemma_pool_totals_within(seen, pool@);
            }
            match find_group(groups, &pool) {
                Some(k) => {
                    let updated = PoolAccumulator {
                        pool_id: pool,
                        volume_in: groups[k].volume_in + row.amount_in as i128,
                        volume_out: groups[k].volume_out + row.amount_out as i128,
                        swap_count: groups[k].swap_count + 1,
                    };
                    groups[k] = updated;
                    proof {
                        assert forall|j: int| 0 <= j < groups@.len() implies accumulated(
                            after,
                            #[trigger] groups@[j],
                        ) by {
                            if j != k {
                                assert(groups@[j] == before[j]);
                                assert(accumulated(seen, before[j]));
                                assert(before[j].pool_id@ != before[k as int].pool_id@);
                            }
                        }
                        assert forall|a: int, b: int| 0 <= a < b < groups@.len() implies groups@[a].pool_id@
                            != groups@[b].pool_id@ by {
                            assert(before[a].pool_id@ != before[b].pool_id@);
                        }
                        assert forall|i: int|
                            0 <= i < after.len() && pool_segment(after[i].id) is Some implies grouped(
                            groups@,
                            pool_segment((#[trigger] after[i]).id)->0,
                        ) by {
                            let wanted = pool_segment(after[i].id)->0;
                            if i < seen.len() {
                                assert(after[i] == seen[i]);
                                assert(grouped(before, wanted));
                                let j = choose|j: int|
                                    0 <= j < before.len() && (#[trigger] before[j]).pool_id@
                                        == wanted;
                                assert(groups@[j].pool_id@ == wanted);
                            } else {
                                assert(groups@[k as int].pool_id@ == wanted);
                            }
                        }
                    }
                },
                None => {
                    proof {
                        if occurs(seen, pool@) {
                            let i = choose|i: int|
                                0 <= i < seen.len() && pool_segment(#[trigger] seen[i].id) == Some(
                                    pool@,
                                );
                            assert(grouped(before, pool_segment(seen[i].id)->0));
                        }
                        lemma_pool_absent(seen, pool@);
                    }
                    let fresh = PoolAccumulator {
                        pool_id: pool,
                        volume_in: row.amount_in as i128,
                        volume_out: row.amount_out as i128,
                        swap_count: 1,
                    };
                    groups.push(fresh);
                    proof {
                        let added = before.len() as int;
                        assert forall|j: int| 0 <= j < groups@.len() implies accumulated(
                            after,
                            #[trigger] groups@[j],
                        ) by {
                            if j < added {
                                assert(groups@[j] == before[j]);
                                assert(accumulated(seen, before[j]));
                                assert(grouped(before, before[j].pool_id@));
                            }
                        }
                        assert forall|a: int, b: int| 0 <= a < b < groups@.len() implies groups@[a].pool_id@
                            != groups@[b].pool_id@ by {
                            if b < added {
                                assert(before[a].pool_id@ != before[b].pool_id@);
                            } else {
                                assert(grouped(before, before[a].pool_id@));
                            }
                        }
                        assert forall|i: int|
                            0 <= i < after.len() && pool_segment(after[i].id) is Some implies grouped(
                            groups@,
                            pool_segment((#[trigger] after[i]).id)->0,
                        ) by {
                            let wanted = pool_segment(after[i].id)->0;
                            if i < seen.len() {
                                assert(after[i] == seen[i]);
                                assert(grouped(before, wanted));
                                let j = choose|j: int|
                                    0 <= j < before.len() && (#[trigger] before[j]).pool_id@
                                        == wanted;
                                assert(groups@[j].pool_id@ == wanted);
                            } else {
                                assert(groups@[added].pool_id@ == wanted);
                            }
                        }
                    }
                },
            }
        },
        None => {
            proof {
                assert forall|j: int| 0 <= j < groups@.len() implies accumulated(
                    after,
                    #[trigger] groups@[j],
                ) by {
                    assert(accumulated(seen, before[j]));
                }
                assert forall|i: int|
                    0 <= i < after.len() && pool_segment(after[i].id) is Some implies grouped(
                    groups@,
                    pool_segment((#[trigger] after[i]).id)->0,
                ) by {
                    assert(after[i] == seen[i]);
                }
            }
        },
    }
}

/// Whether the entries are sorted by incoming volume, largest first.
spec fn descending(entries: Seq<PoolVolumeStats>) -> bool {
    forall|a: int, b: int|
        0 <= a < b < entries.len() ==> entries[a].volume_in >= entries[b].volume_in
}

/// Whether no two entries are for the same pool.
spec fn one_entry_per_pool(entries: Seq<PoolVolumeStats>) -> bool {
    forall|a: int, b: int| 0 <= a < b < entries.len() ==> entries[a].pool_id@ != entries[b].pool_id@
}

/// Whether one of the entries is for the pool `pool`.
spec fn has_entry(entries: Seq<PoolVolumeStats>, pool: Seq<char>) -> bool {
    exists|m: int| 0 <= m < entries.len() && (#[trigger] entries[m]).pool_id@ == pool
}

/// Puts `entry` into the sorted entries, behind every entry whose incoming
/// volume is at least as large.
fn insert_sorted(
    sorted: &mut Vec<PoolVolumeStats>,
    entry: PoolVolumeStats,
    Ghost(rows): Ghost<Seq<SwapRow>>,
)
    requires
        descending(old(sorted)@),
        one_entry_per_pool(old(sorted)@),
        !has_entry(old(sorted)@, entry.pool_id@),
        forall|m: int| 0 <= m < old(sorted)@.len() ==> entry_of(rows, (#[trigger] old(sorted)@[m])@),
        entry_of(rows, entry@),
    ensures
        descending(final(sorted)@),
        one_entry_per_pool(final(sorted)@),
        forall|m: int| 0 <= m < final(sorted)@.len() ==> entry_of(rows, (#[trigger] final(sorted)@[m])@),
        has_entry(final(sorted)@, entry.pool_id@),
        forall|pool: Seq<char>| has_entry(old(sorted)@, pool) ==> has_entry(final(sorted)@, pool),
        forall|pool: Seq<char>|
            has_entry(final(sorted)@, pool) ==> has_entry(old(sorted)@, pool) || pool
                == entry.pool_id@,
{
    let ghost before = sorted@;
    let ghost added = entry;
    let mut at: usize = 0;
    while at < sorted.len() && sorted[at].volume_in >= entry.volume_in
        invariant
            at <= sorted.len(),
            sorted@ == before,
            forall|m: int| 0 <= m < at ==> before[m].volume_in >= entry.volume_in,
        decreases sorted.len() - at,
    {
        at = at + 1;
    }
    sorted.insert(at, entry);
    proof {
        let after = sorted@;
        assert(after == before.insert(at as int, added));
        assert(after.len() == before.len() + 1);
        assert forall|m: int| 0 <= m < after.len() implies #[trigger] after[m] == (if m < at {
            before[m]
        } else if m == at {
            added
        } else {
            before[m - 1]
        }) by {}
        assert forall|a: int, b: int| 0 <= a < b < after.len() implies after[a].volume_in
            >= after[b].volume_in by {
            if a < at && b > at {
                assert(before[a].volume_in >= before[b - 1].volume_in) by {
                    if a < b - 1 {
                    }
                }
            }
            if a == at && b > at {
                assert(before[at as int].volume_in < added.volume_in);
                if at < b - 1 {
                    assert(before[at as int].volume_in >= before[b - 1].volume_in);
                }
            }
            if a > at {
                assert(before[a - 1].volume_in >= before[b - 1].volume_in);
            }
        }
        assert forall|a: int, b: int| 0 <= a < b < after.len() implies after[a].pool_id@
            != after[b].pool_id@ by {
            if a != at && b != at {
                let x = if a < at { a } else { a - 1 };
                let y = if b < at { b } else { b - 1 };
                assert(before[x].pool_id@ != before[y].pool_id@);
            } else if a == at {
                assert(before[b - 1].pool_id@ != added.pool_id@);
            } else {
                assert(before[a].pool_id@ != added.pool_id@);
            }
        }
        assert forall|m: int| 0 <= m < after.len() implies entry_of(rows, (#[trigger] after[m])@) by {
            if m < at {
                assert(entry_of(rows, before[m]@));
            } else if m > at {
                assert(entry_of(rows, before[m - 1]@));
            }
        }
        assert(after[at as int].pool_id@ == added.pool_id@);
        assert forall|pool: Seq<char>| has_entry(before, pool) implies has_entry(after, pool) by {
            let m = choose|m: int| 0 <= m < before.len() && (#[trigger] before[m]).pool_id@ == pool;
            if m < at {
                assert(after[m].pool_id@ == pool);
            } else {
                assert(after[m + 1].pool_id@ == pool);
            }
        }
        assert forall|pool: Seq<char>| has_entry(after, pool) implies has_entry(before, pool)
            || pool == added.pool_id@ by {
            let m = choose|m: int| 0 <= m < after.len() && (#[trigger] after[m]).pool_id@ == pool;
            if m < at {
                assert(before[m].pool_id@ == pool);
            } else if m > at {
                assert(before[m - 1].pool_id@ == pool);
            }
        }
    }
}

/// The volume statistics of the swap rows: the grand totals, and for each
/// pool the sums of its rows, the pools in descending order of incoming
/// volume. The pool of a row is the second of the parts into which `-` splits
/// its identity; a row whose identity has no `-` counts for the grand totals
/// only. There are no statistics where a sum is outside the signed 64-bit
/// range.
pub fn volume_stats(swaps: &Vec<CetusSwapEvent>) -> (stats: Option<VolumeStatsResponse>)
    ensures
        stats is Some <==> volumes_fit(swaps.deep_view()),
        stats is Some ==> is_volume_stats(swaps.deep_view(), stats->0@),
{
    let ghost rows = swaps.deep_view();
    let mut total_volume_in: i128 = 0;
    let mut total_volume_out: i128 = 0;
    let mut groups: Vec<PoolAccumulator> = Vec::new();
    let mut i: usize = 0;
    while i < swaps.len()
        invariant
            i <= swaps.len(),
            rows == swaps.deep_view(),
            total_volume_in == totals(rows.take(i as int)).volume_in,
            total_volume_out == totals(rows.take(i as int)).volume_out,
            groups_of(rows.take(i as int), groups@),
        decreases swaps.len() - i,
    {
        let row = &swaps[i];
        proof {
            lemma_totals_within(rows.take(i as int));
            assert(rows.take(i + 1).drop_last() =~= rows.take(i as int));
            assert(rows.take(i + 1).last() == row@);
            assert(rows.take(i as int).push(row@) =~= rows.take(i + 1));
        }
        total_volume_in = total_volume_in + row.amount_in as i128;
        total_volume_out = total_volume_out + row.amount_out as i128;
        accumulate(&mut groups, row, Ghost(rows.take(i as int)));
        i = i + 1;
    }
    proof {
        assert(rows.take(i as int) =~= rows);
    }
    if total_volume_in < i64::MIN as i128 || total_volume_in > i64::MAX as i128 || total_volume_out
        < i64::MIN as i128 || total_volume_out > i64::MAX as i128 {
        return None;
    }
    let mut pool_stats: Vec<PoolVolumeStats> = Vec::new();
    let mut k: usize = 0;
    while k < groups.len()
        invariant
            k <= groups.len(),
            rows == swaps.deep_view(),
            groups_of(rows, groups@),
            descending(pool_stats@),
            one_entry_per_pool(pool_stats@),
            forall|m: int| 0 <= m < pool_stats@.len() ==> entry_of(rows, (#[trigger] pool_stats@[m])@),
            forall|j: int| 0 <= j < k ==> has_entry(pool_stats@, (#[trigger] groups@[j]).pool_id@),
            forall|pool: Seq<char>|
                has_entry(pool_stats@, pool) ==> exists|j: int|
                    0 <= j < k && (#[trigger] groups@[j]).pool_id@ == pool,
        decreases groups.len() - k,
    {
        let group = &groups[k];
        proof {
            assert(accumulated(rows, groups@[k as int]));
        }
        if group.volume_in < i64::MIN as i128 || group.volume_in > i64::MAX as i128
            || group.volume_out < i64::MIN as i128 || group.volume_out > i64::MAX as i128
            || group.swap_count as u64 > i64::MAX as u64 {
            proof {
                assert(!fits(pool_totals(rows, group.pool_id@)));
            }
            return None;
        }
        let entry = PoolVolumeStats {
            pool_id: group.pool_id.clone(),
            volume_in: group.volume_in as i64,
            volume_out: group.volume_out as i64,
            swap_count: group.swap_count as i64,
        };
        proof {
            assert(entry_of(rows, entry@));
            if has_entry(pool_stats@, entry.pool_id@) {
                let j = choose|j: int|
                    0 <= j < k && (#[trigger] groups@[j]).pool_id@ == entry.pool_id@;
                assert(groups@[j].pool_id@ != groups@[k as int].pool_id@);
            }
        }
        let ghost earlier = pool_stats@;
        insert_sorted(&mut pool_stats, entry, Ghost(rows));
        proof {
            assert forall|j: int| 0 <= j < k + 1 implies has_entry(
                pool_stats@,
                (#[trigger] groups@[j]).pool_id@,
            ) by {
                if j < k {
                    assert(has_entry(earlier, groups@[j].pool_id@));
                }
            }
            assert forall|pool: Seq<char>| has_entry(pool_stats@, pool) implies exists|j: int|
                0 <= j < k + 1 && (#[trigger] groups@[j]).pool_id@ == pool by {
                if has_entry(earlier, pool) {
                    let j = choose|j: int| 0 <= j < k && (#[trigger] groups@[j]).pool_id@ == pool;
                    assert(0 <= j < k + 1 && groups@[j].pool_id@ == pool);
                } else {
                    assert(groups@[k as int].pool_id@ == pool);
                }
            }
        }
        k = k + 1;
    }
    let stats = VolumeStatsResponse {
        total_volume_in: total_volume_in as i64,
        total_volume_out: total_volume_out as i64,
        pool_stats,
    };
    proof {
        let entries = stats@.pool_stats;
        assert forall|m: int| 0 <= m < entries.len() implies #[trigger] entries[m]
            == stats.pool_stats@[m]@ by {}
        assert forall|m: int| 0 <= m < entries.len() implies entry_of(rows, #[trigger] entries[m]) by {
            assert(entry_of(rows, stats.pool_stats@[m]@));
        }
        assert forall|i: int|
            0 <= i < rows.len() && pool_segment(rows[i].id) is Some implies listed(
            entries,
            pool_segment((#[trigger] rows[i]).id)->0,
        ) by {
            let pool = pool_segment(rows[i].id)->0;
            assert(grouped(groups@, pool));
            let j = choose|j: int| 0 <= j < groups@.len() && (#[trigger] groups@[j]).pool_id@ == pool;
            assert(has_entry(stats.pool_stats@, groups@[j].pool_id@));
            let m = choose|m: int|
                0 <= m < stats.pool_stats@.len() && (#[trigger] stats.pool_stats@[m]).pool_id@
                    == pool;
            assert(entries[m].pool_id == pool);
        }
        assert forall|a: int, b: int| 0 <= a < b < entries.len() implies entries[a].pool_id
            != entries[b].pool_id by {
            assert(stats.pool_stats@[a].pool_id@ != stats.pool_stats@[b].pool_id@);
        }
        assert forall|a: int, b: int| 0 <= a < b < entries.len() implies entries[a].volume_in
            >= entries[b].volume_in by {
            assert(stats.pool_stats@[a].volume_in >= stats.pool_stats@[b].volume_in);
        }
        assert forall|pool: Seq<char>| fits(#[trigger] pool_totals(rows, pool)) by {
            if occurs(rows, pool) {
                let i = choose|i: int|
                    0 <= i < rows.len() && pool_segment(#[trigger] rows[i].id) == Some(pool);
                assert(listed(entries, pool_segment(rows[i].id)->0));
                let m = choose|m: int| 0 <= m < entries.len() && (#[trigger] entries[m]).pool_id == pool;
                assert(entry_of(rows, entries[m]));
            } else {
                lemma_pool_absent(rows, pool);
            }
        }
    }
    Some(stats)
}

} // verus!
