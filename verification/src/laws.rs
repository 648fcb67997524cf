//! What holds of extraction and commit together.

use crate::identity::{identity, lemma_identity_injective, EventKind};
use crate::indexer::{
    extract_events, extract_transaction, extract_transactions, join_batches, no_batches,
    record_event, resolve_kind, CheckpointData, EventView, Registry, TransactionView,
};
use crate::models::{LiquidityRow, SwapRow};
use crate::store::{
    commit_batches, distinct_liquidity_ids, distinct_swap_ids, lemma_commit_idempotent,
    CommitError, Tables,
};
use crate::worker::commit_plan;
use vstd::prelude::*;

verus! {

/// Whether no event of the transactions has a registered type.
pub open spec fn nothing_registered(registry: Registry, transactions: Seq<TransactionView>) -> bool {
    forall|t: int, e: int|
        0 <= t < transactions.len() && transactions[t].events is Some && 0 <= e
            < transactions[t].events->0.len() ==> resolve_kind(
            registry,
            (#[trigger] transactions[t].events->0[e]).type_,
        ) is None
}

/// Whether every emitting package of the transactions has an identifier of 32
/// bytes.
pub open spec fn packages_wf(transactions: Seq<TransactionView>) -> bool {
    forall|t: int, e: int|
        0 <= t < transactions.len() && transactions[t].events is Some && 0 <= e
            < transactions[t].events->0.len() ==> (
        #[trigger] transactions[t].events->0[e]).package_id.len() == 32
}

/// Whether no two of the transactions have the same digest.
pub open spec fn distinct_digests(transactions: Seq<TransactionView>) -> bool {
    forall|a: int, b: int|
        0 <= a < b < transactions.len() ==> transactions[a].digest != transactions[b].digest
}

proof fn lemma_events_unregistered(registry: Registry, digest: Seq<char>, events: Seq<EventView>)
    requires
        forall|e: int| 0 <= e < events.len() ==> resolve_kind(registry, (#[trigger] events[e]).type_) is None,
    ensures
        extract_events(registry, digest, events) == no_batches(),
    decreases events.len(),
{
    if events.len() > 0 {
        let front = events.drop_last();
        assert forall|e: int| 0 <= e < front.len() implies resolve_kind(
            registry,
            (#[trigger] front[e]).type_,
        ) is None by {
            assert(front[e] == events[e]);
        }
        lemma_events_unregistered(registry, digest, front);
        assert(events.last() == events[events.len() - 1]);
    }
}

/// A checkpoint without an event of a registered type yields three empty
/// batches; their commit has no statement and leaves the tables as they are.
pub proof fn lemma_nothing_to_extract(
    registry: Registry,
    transactions: Seq<TransactionView>,
    tables: Tables,
)
    requires
        nothing_registered(registry, transactions),
    ensures
        extract_transactions(registry, transactions) == no_batches(),
        commit_plan(extract_transactions(registry, transactions)).len() == 0,
        commit_batches(tables, extract_transactions(registry, transactions)) == Ok::<
            Tables,
            CommitError,
        >(tables),
    decreases transactions.len(),
{
    if transactions.len() > 0 {
        let front = transactions.drop_last();
        let last = transactions.len() - 1;
        assert forall|t: int, e: int|
            0 <= t < front.len() && front[t].events is Some && 0 <= e
                < front[t].events->0.len() implies resolve_kind(
            registry,
            (#[trigger] front[t].events->0[e]).type_,
        ) is None by {
            assert(front[t] == transactions[t]);
            assert(resolve_kind(registry, transactions[t].events->0[e].type_) is None);
        }
        lemma_nothing_to_extract(registry, front, tables);
        assert(transactions.last() == transactions[last]);
        if transactions[last].events is Some {
            let events = transactions[last].events->0;
            assert forall|e: int| 0 <= e < events.len() implies resolve_kind(
                registry,
                (#[trigger] events[e]).type_,
            ) is None by {
                assert(resolve_kind(registry, transactions[last].events->0[e].type_) is None);
            }
            lemma_events_unregistered(registry, transactions[last].digest, events);
        }
        assert(extract_transaction(registry, transactions[last]) == no_batches());
        assert(extract_transactions(registry, transactions) =~~= no_batches());
    }
}

/// The identities of a batch of swap rows.
pub open spec fn swap_ids(rows: Seq<SwapRow>) -> Seq<Seq<char>> {
    Seq::new(rows.len(), |i: int| rows[i].id)
}

/// The identities of a batch of liquidity rows.
pub open spec fn liquidity_ids(rows: Seq<LiquidityRow>) -> Seq<Seq<char>> {
    Seq::new(rows.len(), |i: int| rows[i].id)
}

/// Whether `id` is the identity of the event number `ordinal` of kind `kind`
/// in the transaction with digest `digest`, for some emitting package.
pub open spec fn issued(id: Seq<char>, digest: Seq<char>, kind: EventKind, ordinal: nat) -> bool {
    exists|package: Seq<u8>|
        package.len() == 32 && id == #[trigger] identity(package, digest, kind, ordinal)
}

/// Whether the identities are those of the events of kind `kind` of one
/// transaction, numbered from zero in their order.
pub open spec fn numbered(ids: Seq<Seq<char>>, digest: Seq<char>, kind: EventKind) -> bool {
    forall|j: int| 0 <= j < ids.len() ==> issued(#[trigger] ids[j], digest, kind, j as nat)
}

/// Whether `id` was issued for one of the digests.
pub open spec fn issued_for_one(id: Seq<char>, digests: Seq<Seq<char>>, kind: EventKind) -> bool {
    exists|t: int, n: nat| 0 <= t < digests.len() && #[trigger] issued(id, digests[t], kind, n)
}

/// Whether each of the identities was issued for one of the digests.
pub open spec fn issued_for(ids: Seq<Seq<char>>, digests: Seq<Seq<char>>, kind: EventKind) -> bool {
    forall|i: int| 0 <= i < ids.len() ==> issued_for_one(#[trigger] ids[i], digests, kind)
}

/// Whether no text occurs twice.
pub open spec fn all_distinct(texts: Seq<Seq<char>>) -> bool {
    forall|a: int, b: int| 0 <= a < b < texts.len() ==> texts[a] != texts[b]
}

/// The digests of the transactions, in order.
pub open spec fn digests_of(transactions: Seq<TransactionView>) -> Seq<Seq<char>> {
    Seq::new(transactions.len(), |t: int| transactions[t].digest)
}

/// Within one transaction the rows of each kind carry the ordinals 0, 1, 2
/// and so on, in the order of the events: the first swap row ends in
/// `-swap-0`, the second in `-swap-1`.
pub proof fn lemma_events_numbered(registry: Registry, digest: Seq<char>, events: Seq<EventView>)
    requires
        forall|e: int| 0 <= e < events.len() ==> (#[trigger] events[e]).package_id.len() == 32,
    ensures
        numbered(swap_ids(extract_events(registry, digest, events).swaps), digest, EventKind::Swap),
        numbered(
            liquidity_ids(extract_events(registry, digest, events).adds),
            digest,
            EventKind::AddLiquidity,
        ),
        numbered(
            liquidity_ids(extract_events(registry, digest, events).removes),
            digest,
            EventKind::RemoveLiquidity,
        ),
    decreases events.len(),
{
    if events.len() > 0 {
        let front = events.drop_last();
        let event = events.last();
        assert(event == events[events.len() - 1]);
        assert forall|e: int| 0 <= e < front.len() implies (#[trigger] front[e]).package_id.len()
            == 32 by {
            assert(front[e] == events[e]);
        }
        lemma_events_numbered(registry, digest, front);
        let before = extract_events(registry, digest, front);
        let after = record_event(registry, digest, event, before);
        assert(after == extract_events(registry, digest, events));
        let s0 = swap_ids(before.swaps);
        let s1 = swap_ids(after.swaps);
        assert forall|j: int| 0 <= j < s1.len() implies issued(
            #[trigger] s1[j],
            digest,
            EventKind::Swap,
            j as nat,
        ) by {
            if j < s0.len() {
                assert(s1[j] == s0[j]);
            } else {
                assert(s1[j] == identity(event.package_id, digest, EventKind::Swap, j as nat));
            }
        }
        let a0 = liquidity_ids(before.adds);
        let a1 = liquidity_ids(after.adds);
        assert forall|j: int| 0 <= j < a1.len() implies issued(
            #[trigger] a1[j],
            digest,
            EventKind::AddLiquidity,
            j as nat,
        ) by {
            if j < a0.len() {
                assert(a1[j] == a0[j]);
            } else {
                assert(a1[j] == identity(
                    event.package_id,
                    digest,
                    EventKind::AddLiquidity,
                    j as nat,
                ));
            }
        }
        let r0 = liquidity_ids(before.removes);
        let r1 = liquidity_ids(after.removes);
        assert forall|j: int| 0 <= j < r1.len() implies issued(
            #[trigger] r1[j],
            digest,
            EventKind::RemoveLiquidity,
            j as nat,
        ) by {
            if j < r0.len() {
                assert(r1[j] == r0[j]);
            } else {
                assert(r1[j] == identity(
                    event.package_id,
                    digest,
                    EventKind::RemoveLiquidity,
                    j as nat,
                ));
            }
        }
    }
}

proof fn lemma_issued_once(
    id: Seq<char>,
    d1: Seq<char>,
    n1: nat,
    d2: Seq<char>,
    n2: nat,
    kind: EventKind,
)
    requires
        issued(id, d1, kind, n1),
        issued(id, d2, kind, n2),
    ensures
        d1 == d2,
        n1 == n2,
{
    let pa = choose|p: Seq<u8>| p.len() == 32 && id == #[trigger] identity(p, d1, kind, n1);
    let pb = choose|p: Seq<u8>| p.len() == 32 && id == #[trigger] identity(p, d2, kind, n2);
    lemma_identity_injective(pa, d1, kind, n1, pb, d2, kind, n2);
}

proof fn lemma_join_distinct(
    front: Seq<Seq<char>>,
    last: Seq<Seq<char>>,
    digests: Seq<Seq<char>>,
    kind: EventKind,
)
    requires
        digests.len() > 0,
        all_distinct(digests),
        all_distinct(front),
        issued_for(front, digests.drop_last(), kind),
        numbered(last, digests.last(), kind),
    ensures
        all_distinct(front + last),
        issued_for(front + last, digests, kind),
{
    let all = front + last;
    let earlier = digests.drop_last();
    let own = digests.len() - 1;
    assert forall|i: int| 0 <= i < all.len() implies issued_for_one(
        #[trigger] all[i],
        digests,
        kind,
    ) by {
        if i < front.len() {
            assert(all[i] == front[i]);
            assert(issued_for_one(front[i], earlier, kind));
            let (t, n) = choose|t: int, n: nat|
                0 <= t < earlier.len() && #[trigger] issued(front[i], earlier[t], kind, n);
            assert(earlier[t] == digests[t]);
            assert(issued(all[i], digests[t], kind, n));
        } else {
            let j = i - front.len();
            assert(all[i] == last[j]);
            assert(issued(last[j], digests[own], kind, j as nat));
        }
    }
    assert forall|a: int, b: int| 0 <= a < b < all.len() implies all[a] != all[b] by {
        if b < front.len() {
            assert(all[a] == front[a] && all[b] == front[b]);
        } else if a >= front.len() {
            let ja = a - front.len();
            let jb = b - front.len();
            assert(all[a] == last[ja] && all[b] == last[jb]);
            assert(issued(last[ja], digests[own], kind, ja as nat));
            assert(issued(last[jb], digests[own], kind, jb as nat));
            if all[a] == all[b] {
                lemma_issued_once(all[a], digests[own], ja as nat, digests[own], jb as nat, kind);
            }
        } else {
            let jb = b - front.len();
            assert(all[a] == front[a] && all[b] == last[jb]);
            assert(issued_for_one(front[a], earlier, kind));
            let (t, n) = choose|t: int, n: nat|
                0 <= t < earlier.len() && #[trigger] issued(front[a], earlier[t], kind, n);
            assert(earlier[t] == digests[t]);
            assert(issued(last[jb], digests[own], kind, jb as nat));
            if all[a] == all[b] {
                lemma_issued_once(all[a], digests[t], n, digests[own], jb as nat, kind);
                assert(digests[t] != digests[own]);
            }
        }
    }
}

proof fn lemma_transactions_distinct(registry: Registry, transactions: Seq<TransactionView>)
    requires
        packages_wf(transactions),
        distinct_digests(transactions),
    ensures
        all_distinct(swap_ids(extract_transactions(registry, transactions).swaps)),
        all_distinct(liquidity_ids(extract_transactions(registry, transactions).adds)),
        all_distinct(liquidity_ids(extract_transactions(registry, transactions).removes)),
        issued_for(
            swap_ids(extract_transactions(registry, transactions).swaps),
            digests_of(transactions),
            EventKind::Swap,
        ),
        issued_for(
            liquidity_ids(extract_transactions(registry, transactions).adds),
            digests_of(transactions),
            EventKind::AddLiquidity,
        ),
        issued_for(
            liquidity_ids(extract_transactions(registry, transactions).removes),
            digests_of(transactions),
            EventKind::RemoveLiquidity,
        ),
    decreases transactions.len(),
{
    if transactions.len() > 0 {
        let front = transactions.drop_last();
        let own = transactions.len() - 1;
        let tx = transactions.last();
        assert(tx == transactions[own]);
        assert forall|t: int, e: int|
            0 <= t < front.len() && front[t].events is Some && 0 <= e
                < front[t].events->0.len() implies (#[trigger] front[t].events->0[e]).package_id.len()
            == 32 by {
            assert(front[t] == transactions[t]);
            assert(transactions[t].events->0[e].package_id.len() == 32);
        }
        assert forall|a: int, b: int| 0 <= a < b < front.len() implies front[a].digest
            != front[b].digest by {
            assert(transactions[a].digest != transactions[b].digest);
        }
        lemma_transactions_distinct(registry, front);
        let digests = digests_of(transactions);
        assert(digests.drop_last() =~= digests_of(front));
        assert(digests.last() == tx.digest);
        assert forall|a: int, b: int| 0 <= a < b < digests.len() implies digests[a]
            != digests[b] by {
            assert(transactions[a].digest != transactions[b].digest);
        }
        let before = extract_transactions(registry, front);
        let added = extract_transaction(registry, tx);
        if tx.events is Some {
            let events = tx.events->0;
            assert forall|e: int| 0 <= e < events.len() implies (#[trigger] events[e]).package_id.len()
                == 32 by {
                assert(transactions[own].events->0[e].package_id.len() == 32);
            }
            lemma_events_numbered(registry, tx.digest, events);
        }
        assert(numbered(swap_ids(added.swaps), tx.digest, EventKind::Swap));
        assert(numbered(liquidity_ids(added.adds), tx.digest, EventKind::AddLiquidity));
        assert(numbered(liquidity_ids(added.removes), tx.digest, EventKind::RemoveLiquidity));
        let after = extract_transactions(registry, transactions);
        assert(swap_ids(after.swaps) =~= swap_ids(before.swaps) + swap_ids(added.swaps));
        assert(liquidity_ids(after.adds) =~= liquidity_ids(before.adds) + liquidity_ids(
            added.adds,
        ));
        assert(liquidity_ids(after.removes) =~= liquidity_ids(before.removes) + liquidity_ids(
            added.removes,
        ));
        lemma_join_distinct(
            swap_ids(before.swaps),
            swap_ids(added.swaps),
            digests,
            EventKind::Swap,
        );
        lemma_join_distinct(
            liquidity_ids(before.adds),
            liquidity_ids(added.adds),
            digests,
            EventKind::AddLiquidity,
        );
        lemma_join_distinct(
            liquidity_ids(before.removes),
            liquidity_ids(added.removes),
            digests,
            EventKind::RemoveLiquidity,
        );
    }
}

/// Identities are unique within a checkpoint, table by table: where no two
/// transactions share a digest, no batch names an identity twice.
pub proof fn lemma_identities_unique(registry: Registry, transactions: Seq<TransactionView>)
    requires
        packages_wf(transactions),
        distinct_digests(transactions),
    ensures
        distinct_swap_ids(extract_transactions(registry, transactions).swaps),
        distinct_liquidity_ids(extract_transactions(registry, transactions).adds),
        distinct_liquidity_ids(extract_transactions(registry, transactions).removes),
{
    lemma_transactions_distinct(registry, transactions);
    let b = extract_transactions(registry, transactions);
    assert forall|i: int, j: int| 0 <= i < j < b.swaps.len() implies b.swaps[i].id
        != b.swaps[j].id by {
        assert(swap_ids(b.swaps)[i] != swap_ids(b.swaps)[j]);
    }
    assert forall|i: int, j: int| 0 <= i < j < b.adds.len() implies b.adds[i].id
        != b.adds[j].id by {
        assert(liquidity_ids(b.adds)[i] != liquidity_ids(b.adds)[j]);
    }
    assert forall|i: int, j: int| 0 <= i < j < b.removes.len() implies b.removes[i].id
        != b.removes[j].id by {
        assert(liquidity_ids(b.removes)[i] != liquidity_ids(b.removes)[j]);
    }
}

/// Reprocessing is idempotent. Extraction is a function of the checkpoint, so
/// a second run yields the same batches; where no two transactions share a
/// digest their commit succeeds, and committing them again succeeds too and
/// leaves the tables exactly as the first commit left them.
pub proof fn lemma_reprocessing_idempotent(
    registry: Registry,
    transactions: Seq<TransactionView>,
    tables: Tables,
)
    requires
        packages_wf(transactions),
        distinct_digests(transactions),
    ensures
        commit_batches(tables, extract_transactions(registry, transactions)) is Ok,
        commit_batches(
            commit_batches(tables, extract_transactions(registry, transactions))->Ok_0,
            extract_transactions(registry, transactions),
        ) == commit_batches(tables, extract_transactions(registry, transactions)),
{
    lemma_identities_unique(registry, transactions);
    lemma_commit_idempotent(tables, extract_transactions(registry, transactions));
}

/// The package identifiers of a checkpoint that was built in memory have
/// their 32 bytes.
pub proof fn lemma_checkpoint_packages_wf(data: CheckpointData)
    ensures
        packages_wf(data@.transactions),
{
    broadcast use vstd::array::group_array_axioms;

    let transactions = data@.transactions;
    assert forall|t: int, e: int|
        0 <= t < transactions.len() && transactions[t].events is Some && 0 <= e
            < transactions[t].events->0.len() implies (
    #[trigger] transactions[t].events->0[e]).package_id.len() == 32 by {
        let tx = data.transactions@[t];
        assert(transactions[t] == tx@);
        let events = tx.events->0;
        assert(transactions[t].events->0[e] == events@[e]@);
        assert(events@[e].package_id.bytes@.len() == 32);
    }
}

/// Transactions are extracted independently and in order: the batches of a
/// run of transactions are those of any first part of it followed by those of
/// the rest.
pub proof fn lemma_extraction_in_order(
    registry: Registry,
    first: Seq<TransactionView>,
    rest: Seq<TransactionView>,
)
    ensures
        extract_transactions(registry, first + rest) == join_batches(
            extract_transactions(registry, first),
            extract_transactions(registry, rest),
        ),
    decreases rest.len(),
{
    let all = first + rest;
    if rest.len() == 0 {
        assert(all =~= first);
        let whole = extract_transactions(registry, first);
        let joined = join_batches(whole, no_batches());
        assert(joined.swaps =~= whole.swaps);
        assert(joined.adds =~= whole.adds);
        assert(joined.removes =~= whole.removes);
    } else {
        assert(all.drop_last() =~= first + rest.drop_last());
        assert(all.last() == rest.last());
        lemma_extraction_in_order(registry, first, rest.drop_last());
        let a = extract_transactions(registry, first);
        let b = extract_transactions(registry, rest.drop_last());
        let c = extract_transaction(registry, rest.last());
        let left = join_batches(join_batches(a, b), c);
        let right = join_batches(a, join_batches(b, c));
        assert(left.swaps =~= right.swaps);
        assert(left.adds =~= right.adds);
        assert(left.removes =~= right.removes);
    }
}

} // verus!
