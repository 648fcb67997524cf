use cetus_indexer::decode::DecodeError;
use cetus_indexer::failures::DecodeFailure;
use cetus_indexer::identity::EventKind;
use cetus_indexer::indexer::{
    cetus_package_id, configured_event_types, CetusIndexer, CheckpointData, CheckpointTransaction,
    ConfigError, Event,
};
use cetus_indexer::memory_store::MemoryStore;
use cetus_indexer::models::{CetusAddLiquidityEvent, CetusRemoveLiquidityEvent, CetusSwapEvent};
use cetus_indexer::object_id::ObjectId;
use cetus_indexer::store::CommitError;
use cetus_indexer::type_tag::StructTag;
use cetus_indexer::worker::{
    commit_result, plan_commit, CetusIndexerWorker, StoreOutcome, UpsertStatement,
};

const PACKAGE_TEXT: &str = "0x1eabed72c53feb3805120a081dc15963c204dc8d091542592abaf7a35689b2fb";

fn pool_tag(name: &str) -> StructTag {
    StructTag::new(cetus_package_id(), "pool", name)
}

fn swap_payload(amount_in: u64, amount_out: u64) -> Vec<u8> {
    bcs::to_bytes(&(
        true,
        [0x11u8; 32],
        [0x22u8; 32],
        amount_in,
        amount_out,
        1u64,
        2u64,
        3u64,
        4u64,
        5u128,
        6u128,
        7u64,
    ))
    .unwrap()
}

fn liquidity_payload(liquidity: u128, after_liquidity: u128) -> Vec<u8> {
    bcs::to_bytes(&([0x33u8; 32], [0x44u8; 32], -10i32, 10i32, liquidity, after_liquidity, 8u64, 9u64))
        .unwrap()
}

fn event(name: &str, contents: Vec<u8>) -> Event {
    Event { package_id: cetus_package_id(), type_: pool_tag(name), contents }
}

fn transaction(digest: &str, events: Vec<Event>) -> CheckpointTransaction {
    CheckpointTransaction { digest: digest.to_string(), events: Some(events) }
}

fn checkpoint(transactions: Vec<CheckpointTransaction>) -> CheckpointData {
    CheckpointData { sequence_number: 42, transactions }
}

fn liquidity_add(id: &str, liquidity: &str, after: &str) -> CetusAddLiquidityEvent {
    CetusAddLiquidityEvent {
        id: id.to_string(),
        liquidity: liquidity.to_string(),
        after_liquidity: after.to_string(),
        pool: format!("0x{}", "33".repeat(32)),
        position: format!("0x{}", "44".repeat(32)),
    }
}

#[test]
fn default_package_is_the_known_one() {
    assert_eq!(cetus_package_id().to_hex_literal(), PACKAGE_TEXT);
}

#[test]
fn default_registry_resolves_the_three_pool_events() {
    let indexer = CetusIndexer::default();
    assert_eq!(indexer.resolve(&pool_tag("SwapEvent")), Some(EventKind::Swap));
    assert_eq!(indexer.resolve(&pool_tag("AddLiquidityEvent")), Some(EventKind::AddLiquidity));
    assert_eq!(
        indexer.resolve(&pool_tag("RemoveLiquidityEvent")),
        Some(EventKind::RemoveLiquidity)
    );
}

#[test]
fn unregistered_types_resolve_to_nothing() {
    let indexer = CetusIndexer::default();
    assert_eq!(indexer.resolve(&pool_tag("CollectFeeEvent")), None);
    assert_eq!(indexer.resolve(&StructTag::new(cetus_package_id(), "factory", "SwapEvent")), None);
    assert_eq!(indexer.resolve(&StructTag::new(ObjectId::new([0; 32]), "pool", "SwapEvent")), None);
    let mut generic = pool_tag("SwapEvent");
    generic.type_params.push("0x2::sui::SUI".to_string());
    assert_eq!(indexer.resolve(&generic), None);
}

#[test]
fn type_arguments_take_part_in_the_comparison() {
    let mut a = pool_tag("SwapEvent");
    a.type_params.push("u64".to_string());
    let mut b = pool_tag("SwapEvent");
    b.type_params.push("u64".to_string());
    assert!(a.same_as(&b));
    b.type_params.push("bool".to_string());
    assert!(!a.same_as(&b));
    a.type_params.push("u8".to_string());
    assert!(!a.same_as(&b));
    let indexer = CetusIndexer::new(a, pool_tag("A"), pool_tag("R"));
    assert_eq!(indexer.resolve(&b), None);
}

#[test]
fn first_registered_kind_wins() {
    let indexer = CetusIndexer::new(pool_tag("E"), pool_tag("E"), pool_tag("E"));
    assert_eq!(indexer.resolve(&pool_tag("E")), Some(EventKind::Swap));
    let indexer = CetusIndexer::new(pool_tag("S"), pool_tag("E"), pool_tag("E"));
    assert_eq!(indexer.resolve(&pool_tag("E")), Some(EventKind::AddLiquidity));
}

#[test]
fn registry_from_parsed_tags() {
    let indexer = CetusIndexer::from_parsed(
        Some(pool_tag("S")),
        Some(pool_tag("A")),
        Some(pool_tag("R")),
    )
    .ok()
    .unwrap();
    assert_eq!(indexer.resolve(&pool_tag("S")), Some(EventKind::Swap));
    assert_eq!(indexer.resolve(&pool_tag("A")), Some(EventKind::AddLiquidity));
    assert_eq!(indexer.resolve(&pool_tag("R")), Some(EventKind::RemoveLiquidity));
    assert_eq!(indexer.resolve(&pool_tag("SwapEvent")), None);
}

#[test]
fn malformed_identifier_stops_construction() {
    let failed = |r: Result<CetusIndexer, ConfigError>| r.err().unwrap();
    assert_eq!(
        failed(CetusIndexer::from_parsed(None, Some(pool_tag("A")), Some(pool_tag("R")))),
        ConfigError::MalformedTypeTag(EventKind::Swap)
    );
    assert_eq!(
        failed(CetusIndexer::from_parsed(Some(pool_tag("S")), None, Some(pool_tag("R")))),
        ConfigError::MalformedTypeTag(EventKind::AddLiquidity)
    );
    assert_eq!(
        failed(CetusIndexer::from_parsed(Some(pool_tag("S")), Some(pool_tag("A")), None)),
        ConfigError::MalformedTypeTag(EventKind::RemoveLiquidity)
    );
    assert_eq!(
        failed(CetusIndexer::from_parsed(None, None, None)),
        ConfigError::MalformedTypeTag(EventKind::Swap)
    );
}

#[test]
fn overrides_count_only_when_all_three_are_given() {
    let s = |t: &str| Some(t.to_string());
    assert_eq!(
        configured_event_types(s("a"), s("b"), s("c")),
        Some(("a".to_string(), "b".to_string(), "c".to_string()))
    );
    assert_eq!(configured_event_types(None, s("b"), s("c")), None);
    assert_eq!(configured_event_types(s("a"), None, s("c")), None);
    assert_eq!(configured_event_types(s("a"), s("b"), None), None);
    assert_eq!(configured_event_types(None, None, None), None);
}

#[test]
fn checkpoint_without_matching_events_yields_nothing() {
    let indexer = CetusIndexer::default();
    let data = checkpoint(vec![
        transaction("tx1", vec![event("CollectFeeEvent", swap_payload(1, 2))]),
        CheckpointTransaction { digest: "tx2".to_string(), events: None },
        transaction("tx3", vec![]),
    ]);
    let (swaps, adds, removes) = indexer.process_checkpoint(&data);
    assert!(swaps.is_empty());
    assert!(adds.is_empty());
    assert!(removes.is_empty());
    let plan = plan_commit(swaps, adds, removes);
    assert!(plan.is_empty());
    let mut store = MemoryStore::new();
    assert_eq!(store.commit(&vec![], &vec![], &vec![]), Ok(()));
    assert_eq!(store.swap_count(), 0);
    assert_eq!(store.add_liquidity_count(), 0);
    assert_eq!(store.remove_liquidity_count(), 0);
}

#[test]
fn empty_checkpoint_yields_nothing() {
    let (swaps, adds, removes) = CetusIndexer::default().process_checkpoint(&checkpoint(vec![]));
    assert!(swaps.is_empty() && adds.is_empty() && removes.is_empty());
}

#[test]
fn two_swaps_in_one_transaction_get_ordinals_zero_and_one() {
    let data = checkpoint(vec![transaction(
        "Dg1",
        vec![event("SwapEvent", swap_payload(1, 2)), event("SwapEvent", swap_payload(3, 4))],
    )]);
    let (swaps, _, _) = CetusIndexer::default().process_checkpoint(&data);
    assert_eq!(
        swaps,
        vec![
            CetusSwapEvent {
                id: format!("{}-Dg1-swap-0", PACKAGE_TEXT),
                amount_in: 1,
                amount_out: 2
            },
            CetusSwapEvent {
                id: format!("{}-Dg1-swap-1", PACKAGE_TEXT),
                amount_in: 3,
                amount_out: 4
            },
        ]
    );
}

#[test]
fn ordinals_count_per_kind_and_start_again_in_each_transaction() {
    let data = checkpoint(vec![
        transaction(
            "T1",
            vec![
                event("AddLiquidityEvent", liquidity_payload(10, 11)),
                event("SwapEvent", swap_payload(1, 2)),
                event("RemoveLiquidityEvent", liquidity_payload(20, 21)),
                event("Other", vec![]),
                event("AddLiquidityEvent", liquidity_payload(12, 13)),
                event("SwapEvent", swap_payload(3, 4)),
            ],
        ),
        CheckpointTransaction { digest: "T2".to_string(), events: None },
        transaction(
            "T3",
            vec![
                event("SwapEvent", swap_payload(5, 6)),
                event("RemoveLiquidityEvent", liquidity_payload(22, 23)),
            ],
        ),
    ]);
    let (swaps, adds, removes) = CetusIndexer::default().process_checkpoint(&data);
    let ids = |v: Vec<String>| v;
    assert_eq!(
        ids(swaps.iter().map(|r| r.id.clone()).collect()),
        vec![
            format!("{}-T1-swap-0", PACKAGE_TEXT),
            format!("{}-T1-swap-1", PACKAGE_TEXT),
            format!("{}-T3-swap-0", PACKAGE_TEXT),
        ]
    );
    assert_eq!(swaps.iter().map(|r| r.amount_in).collect::<Vec<i64>>(), vec![1, 3, 5]);
    assert_eq!(
        adds,
        vec![
            liquidity_add(&format!("{}-T1-add-0", PACKAGE_TEXT), "10", "11"),
            liquidity_add(&format!("{}-T1-add-1", PACKAGE_TEXT), "12", "13"),
        ]
    );
    assert_eq!(
        ids(removes.iter().map(|r| r.id.clone()).collect()),
        vec![
            format!("{}-T1-remove-0", PACKAGE_TEXT),
            format!("{}-T3-remove-0", PACKAGE_TEXT),
        ]
    );
    assert_eq!(removes[1].liquidity, "22");
    assert_eq!(removes[1].after_liquidity, "23");
}

#[test]
fn identity_starts_with_the_emitting_package() {
    let mut e = event("SwapEvent", swap_payload(1, 2));
    e.package_id = ObjectId::new([0xab; 32]);
    let data = checkpoint(vec![transaction("D", vec![e])]);
    let (swaps, _, _) = CetusIndexer::default().process_checkpoint(&data);
    assert_eq!(swaps[0].id, format!("0x{}-D-swap-0", "ab".repeat(32)));
}

#[test]
fn malformed_event_is_dropped_and_the_rest_goes_on() {
    let mut truncated = liquidity_payload(1, 2);
    truncated.truncate(50);
    let data = checkpoint(vec![transaction(
        "Tx",
        vec![event("AddLiquidityEvent", truncated), event("SwapEvent", swap_payload(100, 95))],
    )]);
    let (swaps, adds, removes) = CetusIndexer::default().process_checkpoint(&data);
    assert_eq!(swaps.len(), 1);
    assert_eq!(swaps[0].amount_in, 100);
    assert_eq!(swaps[0].amount_out, 95);
    assert!(adds.is_empty());
    assert!(removes.is_empty());
    let mut store = MemoryStore::new();
    assert_eq!(store.commit(&swaps, &adds, &removes), Ok(()));
    assert_eq!(store.swap_count(), 1);
    assert_eq!(store.add_liquidity_count(), 0);
    assert_eq!(store.remove_liquidity_count(), 0);
    assert_eq!(
        store.swap(&format!("{}-Tx-swap-0", PACKAGE_TEXT)),
        Some(CetusSwapEvent {
            id: format!("{}-Tx-swap-0", PACKAGE_TEXT),
            amount_in: 100,
            amount_out: 95
        })
    );
}

#[test]
fn dropped_event_takes_no_ordinal() {
    let mut bad_flag = swap_payload(1, 1);
    bad_flag[0] = 9;
    let mut too_long = swap_payload(2, 2);
    too_long.push(0);
    let data = checkpoint(vec![transaction(
        "Tx",
        vec![
            event("SwapEvent", bad_flag),
            event("SwapEvent", swap_payload(10, 20)),
            event("SwapEvent", too_long),
            event("SwapEvent", swap_payload(u64::MAX, 1)),
            event("SwapEvent", swap_payload(30, 40)),
        ],
    )]);
    let (swaps, _, _) = CetusIndexer::default().process_checkpoint(&data);
    assert_eq!(
        swaps,
        vec![
            CetusSwapEvent { id: format!("{}-Tx-swap-0", PACKAGE_TEXT), amount_in: 10, amount_out: 20 },
            CetusSwapEvent { id: format!("{}-Tx-swap-1", PACKAGE_TEXT), amount_in: 30, amount_out: 40 },
        ]
    );
}

#[test]
fn process_transaction_appends_to_the_batches() {
    let indexer = CetusIndexer::default();
    let mut swaps = vec![CetusSwapEvent { id: "old".to_string(), amount_in: 0, amount_out: 0 }];
    let mut adds: Vec<CetusAddLiquidityEvent> = vec![];
    let mut removes: Vec<CetusRemoveLiquidityEvent> = vec![];
    let tx = transaction(
        "Q",
        vec![event("SwapEvent", swap_payload(1, 2)), event("RemoveLiquidityEvent", liquidity_payload(3, 4))],
    );
    indexer.process_transaction(&tx, &mut swaps, &mut adds, &mut removes);
    assert_eq!(swaps.len(), 2);
    assert_eq!(swaps[0].id, "old");
    assert_eq!(swaps[1].id, format!("{}-Q-swap-0", PACKAGE_TEXT));
    assert!(adds.is_empty());
    assert_eq!(removes.len(), 1);
    assert_eq!(removes[0].id, format!("{}-Q-remove-0", PACKAGE_TEXT));
}

#[test]
fn reprocessing_a_checkpoint_changes_nothing() {
    let data = checkpoint(vec![
        transaction(
            "A",
            vec![
                event("SwapEvent", swap_payload(1, 2)),
                event("SwapEvent", swap_payload(3, 4)),
                event("AddLiquidityEvent", liquidity_payload(5, 6)),
            ],
        ),
        transaction("B", vec![event("RemoveLiquidityEvent", liquidity_payload(7, 8))]),
    ]);
    let indexer = CetusIndexer::default();
    let mut store = MemoryStore::new();
    let first = indexer.process_checkpoint(&data);
    assert_eq!(store.commit(&first.0, &first.1, &first.2), Ok(()));
    let counts = (store.swap_count(), store.add_liquidity_count(), store.remove_liquidity_count());
    assert_eq!(counts, (2, 1, 1));
    let swap_row = store.swap(&first.0[1].id);
    let add_row = store.add_liquidity(&first.1[0].id);
    let remove_row = store.remove_liquidity(&first.2[0].id);
    let second = indexer.process_checkpoint(&data);
    assert_eq!(first, second);
    assert_eq!(store.commit(&second.0, &second.1, &second.2), Ok(()));
    assert_eq!(
        (store.swap_count(), store.add_liquidity_count(), store.remove_liquidity_count()),
        counts
    );
    assert_eq!(store.swap(&first.0[1].id), swap_row);
    assert_eq!(store.add_liquidity(&first.1[0].id), add_row);
    assert_eq!(store.remove_liquidity(&first.2[0].id), remove_row);
    assert_eq!(swap_row.unwrap().amount_in, 3);
}

#[test]
fn largest_liquidity_is_persisted_as_the_same_text() {
    let max: u128 = 340282366920938463463374607431768211455;
    let data = checkpoint(vec![transaction(
        "L",
        vec![
            event("AddLiquidityEvent", liquidity_payload(max, max - 1)),
            event("RemoveLiquidityEvent", liquidity_payload(max, 0)),
        ],
    )]);
    let (swaps, adds, removes) = CetusIndexer::default().process_checkpoint(&data);
    assert_eq!(adds[0].liquidity, "340282366920938463463374607431768211455");
    let mut store = MemoryStore::new();
    assert_eq!(store.commit(&swaps, &adds, &removes), Ok(()));
    let stored = store.add_liquidity(&format!("{}-L-add-0", PACKAGE_TEXT)).unwrap();
    assert_eq!(stored.liquidity, "340282366920938463463374607431768211455");
    assert_eq!(stored.after_liquidity, "340282366920938463463374607431768211454");
    let stored = store.remove_liquidity(&format!("{}-L-remove-0", PACKAGE_TEXT)).unwrap();
    assert_eq!(stored.liquidity, "340282366920938463463374607431768211455");
    assert_eq!(stored.after_liquidity, "0");
}

#[test]
fn upsert_overwrites_the_mutable_columns_only() {
    let mut store = MemoryStore::new();
    let first = liquidity_add("k", "1", "2");
    assert_eq!(store.commit(&vec![], &vec![first.clone()], &vec![]), Ok(()));
    let later = CetusAddLiquidityEvent {
        id: "k".to_string(),
        liquidity: "10".to_string(),
        after_liquidity: "20".to_string(),
        pool: "other pool".to_string(),
        position: "other position".to_string(),
    };
    assert_eq!(store.commit(&vec![], &vec![later], &vec![]), Ok(()));
    assert_eq!(store.add_liquidity_count(), 1);
    assert_eq!(
        store.add_liquidity("k"),
        Some(CetusAddLiquidityEvent {
            id: "k".to_string(),
            liquidity: "10".to_string(),
            after_liquidity: "20".to_string(),
            pool: first.pool,
            position: first.position,
        })
    );
    let swap = |a, b| CetusSwapEvent { id: "s".to_string(), amount_in: a, amount_out: b };
    assert_eq!(store.commit(&vec![swap(1, 2)], &vec![], &vec![]), Ok(()));
    assert_eq!(store.commit(&vec![swap(3, 4)], &vec![], &vec![]), Ok(()));
    assert_eq!(store.swap_count(), 1);
    assert_eq!(store.swap("s"), Some(swap(3, 4)));
    assert_eq!(store.swap("t"), None);
    assert_eq!(store.remove_liquidity("k"), None);
}

#[test]
fn the_two_liquidity_tables_are_separate() {
    let mut store = MemoryStore::new();
    let remove = CetusRemoveLiquidityEvent {
        id: "k".to_string(),
        liquidity: "5".to_string(),
        after_liquidity: "0".to_string(),
        pool: "p".to_string(),
        position: "q".to_string(),
    };
    assert_eq!(store.commit(&vec![], &vec![liquidity_add("k", "1", "2")], &vec![remove.clone()]), Ok(()));
    assert_eq!(store.add_liquidity("k"), Some(liquidity_add("k", "1", "2")));
    assert_eq!(store.remove_liquidity("k"), Some(remove));
}

#[test]
fn repeated_identity_fails_the_commit_and_writes_nothing() {
    let swap = |id: &str, a| CetusSwapEvent { id: id.to_string(), amount_in: a, amount_out: a };
    let mut store = MemoryStore::new();
    assert_eq!(store.commit(&vec![swap("kept", 1)], &vec![], &vec![]), Ok(()));
    assert_eq!(
        store.commit(&vec![swap("a", 2), swap("b", 3), swap("a", 4)], &vec![], &vec![]),
        Err(CommitError::DuplicateIdentity(EventKind::Swap))
    );
    assert_eq!(store.swap_count(), 1);
    assert_eq!(
        store.commit(
            &vec![swap("new", 5)],
            &vec![liquidity_add("x", "1", "1"), liquidity_add("x", "2", "2")],
            &vec![]
        ),
        Err(CommitError::DuplicateIdentity(EventKind::AddLiquidity))
    );
    assert_eq!(store.swap_count(), 1);
    assert_eq!(store.swap("new"), None);
    assert_eq!(store.add_liquidity_count(), 0);
    let remove = |id: &str| CetusRemoveLiquidityEvent {
        id: id.to_string(),
        liquidity: "1".to_string(),
        after_liquidity: "1".to_string(),
        pool: "p".to_string(),
        position: "q".to_string(),
    };
    assert_eq!(
        store.commit(
            &vec![swap("new", 5)],
            &vec![liquidity_add("x", "1", "1")],
            &vec![remove("r"), remove("r")]
        ),
        Err(CommitError::DuplicateIdentity(EventKind::RemoveLiquidity))
    );
    assert_eq!(store.swap("new"), None);
    assert_eq!(store.add_liquidity("x"), None);
    assert_eq!(store.swap("kept"), Some(swap("kept", 1)));
}

#[test]
fn transactions_with_one_digest_collide() {
    let data = checkpoint(vec![
        transaction("same", vec![event("SwapEvent", swap_payload(1, 2))]),
        transaction("same", vec![event("SwapEvent", swap_payload(3, 4))]),
    ]);
    let (swaps, adds, removes) = CetusIndexer::default().process_checkpoint(&data);
    assert_eq!(swaps.len(), 2);
    assert_eq!(swaps[0].id, swaps[1].id);
    let mut store = MemoryStore::new();
    assert_eq!(
        store.commit(&swaps, &adds, &removes),
        Err(CommitError::DuplicateIdentity(EventKind::Swap))
    );
    assert_eq!(store.swap_count(), 0);
}

#[test]
fn plan_holds_the_batches_that_are_not_empty() {
    let swap = CetusSwapEvent { id: "s".to_string(), amount_in: 1, amount_out: 2 };
    let remove = CetusRemoveLiquidityEvent {
        id: "r".to_string(),
        liquidity: "1".to_string(),
        after_liquidity: "0".to_string(),
        pool: "p".to_string(),
        position: "q".to_string(),
    };
    assert_eq!(plan_commit(vec![], vec![], vec![]), vec![]);
    assert_eq!(
        plan_commit(vec![swap.clone()], vec![], vec![remove.clone()]),
        vec![
            UpsertStatement::Swaps(vec![swap.clone()]),
            UpsertStatement::RemoveLiquidity(vec![remove.clone()])
        ]
    );
    assert_eq!(
        plan_commit(vec![swap.clone()], vec![liquidity_add("a", "1", "2")], vec![remove.clone()]),
        vec![
            UpsertStatement::Swaps(vec![swap]),
            UpsertStatement::AddLiquidity(vec![liquidity_add("a", "1", "2")]),
            UpsertStatement::RemoveLiquidity(vec![remove])
        ]
    );
}

#[test]
fn worker_plans_the_commit_of_a_checkpoint() {
    let worker = CetusIndexerWorker::new(CetusIndexer::default());
    let data = checkpoint(vec![transaction(
        "W",
        vec![event("AddLiquidityEvent", liquidity_payload(1, 2)), event("Unknown", vec![1, 2, 3])],
    )]);
    assert_eq!(
        worker.process_checkpoint(&data),
        vec![UpsertStatement::AddLiquidity(vec![liquidity_add(
            &format!("{}-W-add-0", PACKAGE_TEXT),
            "1",
            "2"
        )])]
    );
    assert_eq!(worker.process_checkpoint(&checkpoint(vec![])), vec![]);
}

#[test]
fn outcome_of_the_store_becomes_the_result() {
    let swap = CetusSwapEvent { id: "s".to_string(), amount_in: 1, amount_out: 2 };
    let plan = plan_commit(vec![swap], vec![liquidity_add("a", "1", "2")], vec![]);
    assert_eq!(commit_result(&plan, StoreOutcome::Committed), Ok(()));
    assert_eq!(commit_result(&plan, StoreOutcome::Unavailable), Err(CommitError::StoreUnavailable));
    assert_eq!(
        commit_result(&plan, StoreOutcome::StatementFailed(0)),
        Err(CommitError::UpsertFailed(EventKind::Swap))
    );
    assert_eq!(
        commit_result(&plan, StoreOutcome::StatementFailed(1)),
        Err(CommitError::UpsertFailed(EventKind::AddLiquidity))
    );
    assert_eq!(
        commit_result(&plan, StoreOutcome::StatementFailed(2)),
        Err(CommitError::TransactionFailed)
    );
    assert_eq!(
        commit_result(&plan, StoreOutcome::TransactionFailed),
        Err(CommitError::TransactionFailed)
    );
    let remove = CetusRemoveLiquidityEvent {
        id: "r".to_string(),
        liquidity: "1".to_string(),
        after_liquidity: "0".to_string(),
        pool: "p".to_string(),
        position: "q".to_string(),
    };
    let plan = plan_commit(vec![], vec![], vec![remove]);
    assert_eq!(
        commit_result(&plan, StoreOutcome::StatementFailed(0)),
        Err(CommitError::UpsertFailed(EventKind::RemoveLiquidity))
    );
}

#[test]
fn registry_knows_whether_its_types_differ() {
    assert!(CetusIndexer::default().has_distinct_types());
    assert!(CetusIndexer::new(pool_tag("S"), pool_tag("A"), pool_tag("R")).has_distinct_types());
    assert!(!CetusIndexer::new(pool_tag("S"), pool_tag("S"), pool_tag("R")).has_distinct_types());
    assert!(!CetusIndexer::new(pool_tag("S"), pool_tag("A"), pool_tag("S")).has_distinct_types());
    assert!(!CetusIndexer::new(pool_tag("S"), pool_tag("A"), pool_tag("A")).has_distinct_types());
}

#[test]
fn dropped_events_are_reported_with_their_place_and_reason() {
    let mut bad_flag = swap_payload(1, 1);
    bad_flag[0] = 9;
    let mut too_long = liquidity_payload(2, 2);
    too_long.push(0);
    let data = checkpoint(vec![
        transaction("ok", vec![event("SwapEvent", swap_payload(1, 2))]),
        CheckpointTransaction { digest: "none".to_string(), events: None },
        transaction(
            "mixed",
            vec![
                event("Unknown", vec![]),
                event("SwapEvent", bad_flag),
                event("AddLiquidityEvent", liquidity_payload(1, 2)),
                event("AddLiquidityEvent", too_long),
                event("RemoveLiquidityEvent", vec![1, 2, 3]),
                event("SwapEvent", swap_payload(1, u64::MAX)),
                event("SwapEvent", swap_payload(3, 4)),
            ],
        ),
    ]);
    let indexer = CetusIndexer::default();
    let failure = |event, kind, error| DecodeFailure { transaction: 2, event, kind, error };
    assert_eq!(
        indexer.decode_failures(&data),
        vec![
            failure(1, EventKind::Swap, DecodeError::InvalidBool),
            failure(3, EventKind::AddLiquidity, DecodeError::TrailingBytes),
            failure(4, EventKind::RemoveLiquidity, DecodeError::UnexpectedEnd),
            failure(5, EventKind::Swap, DecodeError::AmountOutOfRange),
        ]
    );
    let (swaps, adds, removes) = indexer.process_checkpoint(&data);
    assert_eq!((swaps.len(), adds.len(), removes.len()), (2, 1, 0));
    assert_eq!(swaps[1].id, format!("{}-mixed-swap-0", PACKAGE_TEXT));
    assert_eq!(indexer.decode_failures(&checkpoint(vec![])), vec![]);
    assert_eq!(indexer.check_event(&event("SwapEvent", swap_payload(1, 2))), None);
    assert_eq!(indexer.check_event(&event("Other", vec![])), None);
    assert_eq!(
        indexer.check_event(&event("SwapEvent", vec![])),
        Some((EventKind::Swap, DecodeError::UnexpectedEnd))
    );
}
