use cetus_indexer::api::{
    pool_segment_of, volume_stats, window_of, AddLiquidityResponse, PageWindow, PaginationParams,
    PoolFilterParams, PoolVolumeStats, RemoveLiquidityResponse, StatsResponse, SwapsResponse,
    VolumeStatsResponse, DEFAULT_PAGE, DEFAULT_PER_PAGE,
};
use cetus_indexer::models::{CetusRemoveLiquidityEvent, CetusSwapEvent};
use std::collections::HashMap;

fn swap(id: &str, amount_in: i64, amount_out: i64) -> CetusSwapEvent {
    CetusSwapEvent { id: id.to_string(), amount_in, amount_out }
}

fn pool(pool_id: &str, volume_in: i64, volume_out: i64, swap_count: i64) -> PoolVolumeStats {
    PoolVolumeStats { pool_id: pool_id.to_string(), volume_in, volume_out, swap_count }
}

#[test]
fn window_defaults_to_the_first_page_of_twenty() {
    assert_eq!(DEFAULT_PAGE, 1);
    assert_eq!(DEFAULT_PER_PAGE, 20);
    assert_eq!(
        PaginationParams { page: None, per_page: None }.window(),
        Some(PageWindow { page: 1, per_page: 20, offset: 0 })
    );
    assert_eq!(
        PaginationParams { page: Some(4), per_page: None }.window(),
        Some(PageWindow { page: 4, per_page: 20, offset: 60 })
    );
    assert_eq!(
        PaginationParams { page: None, per_page: Some(7) }.window(),
        Some(PageWindow { page: 1, per_page: 7, offset: 0 })
    );
}

#[test]
fn window_offset_is_pages_before_times_page_size() {
    assert_eq!(window_of(Some(3), Some(50)), Some(PageWindow { page: 3, per_page: 50, offset: 100 }));
    assert_eq!(window_of(Some(0), Some(20)), Some(PageWindow { page: 0, per_page: 20, offset: -20 }));
    assert_eq!(window_of(Some(-2), Some(-5)), Some(PageWindow { page: -2, per_page: -5, offset: 15 }));
    assert_eq!(
        window_of(Some(i64::MIN), Some(0)),
        Some(PageWindow { page: i64::MIN, per_page: 0, offset: 0 })
    );
    assert_eq!(
        window_of(Some(2), Some(i64::MAX)),
        Some(PageWindow { page: 2, per_page: i64::MAX, offset: i64::MAX })
    );
    assert_eq!(
        window_of(Some(0), Some(i64::MIN)),
        None
    );
    assert_eq!(
        window_of(Some(2), Some(i64::MIN)),
        Some(PageWindow { page: 2, per_page: i64::MIN, offset: i64::MIN })
    );
}

#[test]
fn window_is_missing_where_the_offset_overflows() {
    assert_eq!(window_of(Some(i64::MAX), Some(i64::MAX)), None);
    assert_eq!(window_of(Some(3), Some(i64::MAX)), None);
    assert_eq!(window_of(Some(i64::MIN), Some(1)), None);
    assert_eq!(window_of(Some(i64::MIN), None), None);
}

#[test]
fn filter_pattern_wraps_the_text_in_percent_signs() {
    let params = |text: &str| PoolFilterParams {
        id_contains: text.to_string(),
        page: Some(2),
        per_page: Some(10),
    };
    assert_eq!(params("0xabc").like_pattern(), "%0xabc%");
    assert_eq!(params("").like_pattern(), "%%");
    assert_eq!(params("a%b").like_pattern(), "%a%b%");
    assert_eq!(params("x").window(), Some(PageWindow { page: 2, per_page: 10, offset: 10 }));
}

#[test]
fn pool_segment_is_the_second_part() {
    assert_eq!(pool_segment_of("0xpkg-DIGEST-swap-0"), Some("DIGEST".to_string()));
    assert_eq!(pool_segment_of("a-b"), Some("b".to_string()));
    assert_eq!(pool_segment_of("a-"), Some(String::new()));
    assert_eq!(pool_segment_of("-b"), Some("b".to_string()));
    assert_eq!(pool_segment_of("a--b"), Some(String::new()));
    assert_eq!(pool_segment_of("-"), Some(String::new()));
    assert_eq!(pool_segment_of("abc"), None);
    assert_eq!(pool_segment_of(""), None);
    assert_eq!(pool_segment_of("é-ü-ß"), Some("ü".to_string()));
}

#[test]
fn pool_segment_agrees_with_split() {
    let alphabet = ['a', '-', 'b'];
    for len in 0..7u32 {
        for code in 0..3u32.pow(len) {
            let mut text = String::new();
            let mut rest = code;
            for _ in 0..len {
                text.push(alphabet[(rest % 3) as usize]);
                rest /= 3;
            }
            assert_eq!(
                pool_segment_of(&text),
                text.split('-').nth(1).map(|part| part.to_string()),
                "{:?}",
                text
            );
        }
    }
}

#[test]
fn volume_of_no_rows() {
    assert_eq!(
        volume_stats(&vec![]),
        Some(VolumeStatsResponse { total_volume_in: 0, total_volume_out: 0, pool_stats: vec![] })
    );
}

#[test]
fn volume_is_summed_per_pool_and_sorted_by_incoming_volume() {
    let rows = vec![
        swap("p-A-swap-0", 10, 1),
        swap("p-B-swap-0", 100, 2),
        swap("p-A-swap-1", 20, 3),
        swap("nodash", 5, 5),
        swap("p-C-swap-0", 50, 4),
        swap("q-B-swap-7", 1, 1),
    ];
    assert_eq!(
        volume_stats(&rows),
        Some(VolumeStatsResponse {
            total_volume_in: 186,
            total_volume_out: 16,
            pool_stats: vec![pool("B", 101, 3, 2), pool("C", 50, 4, 1), pool("A", 30, 4, 2)],
        })
    );
}

#[test]
fn volume_with_negative_amounts() {
    let rows = vec![swap("x-A", -5, 7), swap("x-B", -1, -1), swap("x-A", 2, -10)];
    assert_eq!(
        volume_stats(&rows),
        Some(VolumeStatsResponse {
            total_volume_in: -4,
            total_volume_out: -4,
            pool_stats: vec![pool("B", -1, -1, 1), pool("A", -3, -3, 2)],
        })
    );
}

#[test]
fn volume_with_equal_incoming_volumes_lists_every_pool_once() {
    let rows = vec![swap("x-A", 5, 1), swap("x-B", 5, 2), swap("x-C", 9, 3), swap("x-D", 5, 4)];
    let stats = volume_stats(&rows).unwrap();
    assert_eq!(stats.pool_stats.len(), 4);
    assert_eq!(stats.pool_stats[0], pool("C", 9, 3, 1));
    let mut rest: Vec<String> = stats.pool_stats[1..].iter().map(|p| p.pool_id.clone()).collect();
    rest.sort();
    assert_eq!(rest, vec!["A".to_string(), "B".to_string(), "D".to_string()]);
    assert!(stats.pool_stats[1..].iter().all(|p| p.volume_in == 5 && p.swap_count == 1));
}

#[test]
fn volume_is_missing_where_a_total_overflows() {
    assert_eq!(volume_stats(&vec![swap("x-A", i64::MAX, 0), swap("x-B", 1, 0)]), None);
    assert_eq!(volume_stats(&vec![swap("x-A", 0, i64::MIN), swap("y-A", 0, -1)]), None);
    assert_eq!(volume_stats(&vec![swap("nodash", i64::MAX, 0), swap("none", i64::MAX, 0)]), None);
}

#[test]
fn volume_is_missing_where_the_sum_of_a_pool_overflows() {
    let rows = vec![swap("x-A", i64::MAX, 0), swap("x-A", i64::MAX, 0), swap("x-B", i64::MIN, 0), swap("x-B", i64::MIN, 0), swap("x-C", 2, 0)];
    assert_eq!(volume_stats(&rows), None);
}

#[test]
fn volume_survives_an_overflow_that_later_rows_undo() {
    let rows = vec![swap("x-A", i64::MAX, 0), swap("x-A", i64::MAX, 0), swap("x-A", i64::MIN, 0)];
    assert_eq!(
        volume_stats(&rows),
        Some(VolumeStatsResponse {
            total_volume_in: i64::MAX - 1,
            total_volume_out: 0,
            pool_stats: vec![pool("A", i64::MAX - 1, 0, 3)],
        })
    );
}

#[test]
fn volume_agrees_with_a_hash_map() {
    let mut state: u64 = 12345;
    let mut rows = Vec::new();
    for n in 0..300 {
        state = state.wrapping_mul(6364136223846793005).wrapping_add(1442695040888963407);
        let pool = (state >> 60) % 11;
        let id = if pool == 10 { format!("row{}", n) } else { format!("pkg-pool{}-swap-{}", pool, n) };
        rows.push(swap(&id, ((state >> 20) % 1000) as i64 - 200, ((state >> 40) % 1000) as i64));
    }
    let stats = volume_stats(&rows).unwrap();
    let mut expected: HashMap<String, (i64, i64, i64)> = HashMap::new();
    let mut total = (0i64, 0i64);
    for row in &rows {
        total.0 += row.amount_in;
        total.1 += row.amount_out;
        if let Some(part) = row.id.split('-').nth(1) {
            let entry = expected.entry(part.to_string()).or_insert((0, 0, 0));
            entry.0 += row.amount_in;
            entry.1 += row.amount_out;
            entry.2 += 1;
        }
    }
    assert_eq!((stats.total_volume_in, stats.total_volume_out), total);
    assert_eq!(stats.pool_stats.len(), expected.len());
    for entry in &stats.pool_stats {
        assert_eq!(
            expected.get(&entry.pool_id),
            Some(&(entry.volume_in, entry.volume_out, entry.swap_count))
        );
    }
    for pair in stats.pool_stats.windows(2) {
        assert!(pair[0].volume_in >= pair[1].volume_in);
    }
}

#[test]
fn responses_echo_the_window() {
    let window = window_of(Some(3), Some(2)).unwrap();
    let rows = vec![swap("a-b", 1, 2)];
    let response = window.swaps(rows.clone(), 17);
    assert_eq!(response, SwapsResponse { swaps: rows, total: 17, page: 3, per_page: 2 });
    let response = window.add_liquidity(vec![], 0);
    assert_eq!(response, AddLiquidityResponse { events: vec![], total: 0, page: 3, per_page: 2 });
    let remove = CetusRemoveLiquidityEvent {
        id: "r".to_string(),
        liquidity: "1".to_string(),
        after_liquidity: "0".to_string(),
        pool: "p".to_string(),
        position: "q".to_string(),
    };
    let response = window.remove_liquidity(vec![remove.clone()], 9);
    assert_eq!(
        response,
        RemoveLiquidityResponse { events: vec![remove], total: 9, page: 3, per_page: 2 }
    );
    assert_eq!(
        StatsResponse::new(1, 2, 3),
        StatsResponse { total_swaps: 1, total_add_liquidity: 2, total_remove_liquidity: 3 }
    );
}
