//! The events that extraction leaves out because they do not decode.
//!
//! An event of a registered type whose payload cannot be decoded, or whose
//! amounts the store cannot hold, is dropped without stopping the checkpoint.
//! It is reported here, so that a lost event can be told from an event that
//! never was.

use crate::decode::{
    parse_liquidity_event, parse_swap_event, AddLiquidityEventData, DecodeError, SwapEventData,
};
use crate::identity::EventKind;
use crate::indexer::{
    extract_events, record_event, resolve_kind, Batches, CetusIndexer, CheckpointData,
    CheckpointTransaction, EventView, Registry, TransactionView,
};
use vstd::prelude::*;

verus! {

/// An event that was dropped: where it stands in the checkpoint, the kind it
/// was registered for, and why it could not be recorded.
#[derive(Clone, Copy, Debug, PartialEq, Eq, Structural)]
pub struct DecodeFailure {
    /// Position of the transaction in the checkpoint.
    pub transaction: usize,
    /// Position of the event in the transaction.
    pub event: usize,
    pub kind: EventKind,
    pub error: DecodeError,
}

/// Why an event is dropped, with the kind it is registered for; `None` for
/// an event that is recorded and for one of no registered type.
pub open spec fn event_failure(registry: Registry, event: EventView) -> Option<
    (EventKind, DecodeError),
> {
    match resolve_kind(registry, event.type_) {
        Some(EventKind::Swap) => match parse_swap_event(event.contents) {
            Ok(fields) => if fields.amount_in > i64::MAX || fields.amount_out > i64::MAX {
                Some((EventKind::Swap, DecodeError::AmountOutOfRange))
            } else {
                None
            },
            Err(e) => Some((EventKind::Swap, e)),
        },
        Some(EventKind::AddLiquidity) => match parse_liquidity_event(event.contents) {
            Ok(_) => None,
            Err(e) => Some((EventKind::AddLiquidity, e)),
        },
        Some(EventKind::RemoveLiquidity) => match parse_liquidity_event(event.contents) {
            Ok(_) => None,
            Err(e) => Some((EventKind::RemoveLiquidity, e)),
        },
        None => None,
    }
}

/// The dropped events among `events`, the events of the transaction at
/// position `transaction`, in their order.
pub open spec fn failures_in_events(
    registry: Registry,
    transaction: usize,
    events: Seq<EventView>,
) -> Seq<DecodeFailure>
    decreases events.len(),
{
    if events.len() == 0 {
        Seq::empty()
    } else {
        let earlier = failures_in_events(registry, transaction, events.drop_last());
        match event_failure(registry, events.last()) {
            Some((kind, error)) => earlier.push(
                DecodeFailure { transaction, event: (events.len() - 1) as usize, kind, error },
            ),
            None => earlier,
        }
    }
}

/// The dropped events of one transaction.
pub open spec fn failures_in_transaction(
    registry: Registry,
    at: usize,
    transaction: TransactionView,
) -> Seq<DecodeFailure> {
    match transaction.events {
        Some(events) => failures_in_events(registry, at, events),
        None => Seq::empty(),
    }
}

/// The dropped events of a run of transactions, in the order of the
/// transactions and, within one, of its events.
pub open spec fn failures_in(registry: Registry, transactions: Seq<TransactionView>) -> Seq<
    DecodeFailure,
>
    decreases transactions.len(),
{
    if transactions.len() == 0 {
        Seq::empty()
    } else {
        failures_in(registry, transactions.drop_last()) + failures_in_transaction(
            registry,
            (transactions.len() - 1) as usize,
            transactions.last(),
        )
    }
}

/// Every event of a registered type is either recorded or reported, never
/// both: a reported event leaves the batches as they are, and any other event
/// of a registered type adds one row to the batch of its kind and nothing to
/// the others.
pub proof fn lemma_recorded_or_reported(
    registry: Registry,
    digest: Seq<char>,
    event: EventView,
    before: Batches,
)
    ensures
        event_failure(registry, event) is Some ==> record_event(registry, digest, event, before)
            == before,
        resolve_kind(registry, event.type_) is None ==> record_event(
            registry,
            digest,
            event,
            before,
        ) == before,
        resolve_kind(registry, event.type_) is Some && event_failure(registry, event) is None ==> {
            let after = record_event(registry, digest, event, before);
            let kind = resolve_kind(registry, event.type_)->0;
            &&& after.swaps.len() == before.swaps.len() + (if kind == EventKind::Swap {
                1int
            } else {
                0int
            })
            &&& after.adds.len() == before.adds.len() + (if kind == EventKind::AddLiquidity {
                1int
            } else {
                0int
            })
            &&& after.removes.len() == before.removes.len() + (if kind
                == EventKind::RemoveLiquidity {
                1int
            } else {
                0int
            })
            &&& after.swaps.take(before.swaps.len() as int) == before.swaps
            &&& after.adds.take(before.adds.len() as int) == before.adds
            &&& after.removes.take(before.removes.len() as int) == before.removes
        },
{
    let after = record_event(registry, digest, event, before);
    assert(after.swaps.take(before.swaps.len() as int) =~= before.swaps);
    assert(after.adds.take(before.adds.len() as int) =~= before.adds);
    assert(after.removes.take(before.removes.len() as int) =~= before.removes);
}

impl CetusIndexer {
    /// Why `event` would be dropped, if it would be.
    pub fn check_event(&self, event: &crate::indexer::Event) -> (failure: Option<
        (EventKind, DecodeError),
    >)
        ensures
            failure == event_failure(self@, event@),
    {
        match self.resolve(&event.type_) {
            Some(EventKind::Swap) => match SwapEventData::decode(event.contents.as_slice()) {
                Ok(data) => {
                    if data.amount_in > i64::MAX as u64 || data.amount_out > i64::MAX as u64 {
                        Some((EventKind::Swap, DecodeError::AmountOutOfRange))
                    } else {
                        None
                    }
                },
                Err(e) => Some((EventKind::Swap, e)),
            },
            Some(EventKind::AddLiquidity) => match AddLiquidityEventData::decode(
                event.contents.as_slice(),
            ) {
                Ok(_) => None,
                Err(e) => Some((EventKind::AddLiquidity, e)),
            },
            Some(EventKind::RemoveLiquidity) => match AddLiquidityEventData::decode(
                event.contents.as_slice(),
            ) {
                Ok(_) => None,
                Err(e) => Some((EventKind::RemoveLiquidity, e)),
            },
            None => None,
        }
    }

    /// The events of the checkpoint that extraction drops, in the order in
    /// which it meets them.
    pub fn decode_failures(&self, data: &CheckpointData) -> (failures: Vec<DecodeFailure>)
        ensures
            failures@ == failures_in(self@, data@.transactions),
            forall|k: int|
                0 <= k < failures@.len() ==> names_dropped_event(
                    self@,
                    data@.transactions,
                    #[trigger] failures@[k],
                ),
    {
        let mut failures: Vec<DecodeFailure> = Vec::new();
        let ghost all = data.transactions.deep_view();
        let mut t: usize = 0;
        while t < data.transactions.len()
            invariant
                t <= data.transactions.len(),
                all == data.transactions.deep_view(),
                failures@ == failures_in(self@, all.take(t as int)),
            decreases data.transactions.len() - t,
        {
            let transaction: &CheckpointTransaction = &data.transactions[t];
            let ghost before = failures@;
            proof {
                assert(all.take(t + 1).drop_last() =~= all.take(t as int));
                assert(all.take(t + 1).last() == transaction@);
            }
            match &transaction.events {
                Some(events) => {
                    let ghost views = events.deep_view();
                    let mut e: usize = 0;
                    while e < events.len()
                        invariant
                            e <= events.len(),
                            views == events.deep_view(),
                            failures@ == before + failures_in_events(self@, t, views.take(e as int)),
                        decreases events.len() - e,
                    {
                        proof {
                            assert(views.take(e + 1).drop_last() =~= views.take(e as int));
                            assert(views.take(e + 1).last() == events@[e as int]@);
                        }
                        match self.check_event(&events[e]) {
                            Some((kind, error)) => {
                                failures.push(DecodeFailure { transaction: t, event: e, kind, error });
                            },
                            None => {},
                        }
                        e = e + 1;
                    }
                    proof {
                        assert(views.take(e as int) =~= views);
                    }
                },
                None => {
                    assert(failures@ =~= before + Seq::<DecodeFailure>::empty());
                },
            }
            t = t + 1;
        }
        proof {
            assert(all.take(t as int) =~= all);
            assert forall|i: int| 0 <= i < all.len() && (#[trigger] all[i]).events is Some implies
                all[i].events->0.len() <= usize::MAX by {
                let tx = data.transactions@[i];
                assert(all[i] == tx@);
                assert(tx.events->0.deep_view().len() == tx.events->0.len());
            }
            assert forall|k: int| 0 <= k < failures@.len() implies names_dropped_event(
                self@,
                all,
                #[trigger] failures@[k],
            ) by {
                lemma_failures_named(self@, all, k);
            }
        }
        failures
    }
}

/// The number of events of a registered type among `events`.
pub open spec fn registered_count(registry: Registry, events: Seq<EventView>) -> nat
    decreases events.len(),
{
    if events.len() == 0 {
        0
    } else {
        registered_count(registry, events.drop_last()) + (if resolve_kind(
            registry,
            events.last().type_,
        ) is Some {
            1nat
        } else {
            0nat
        })
    }
}

/// No event is lost without a trace: the rows of the three batches of a
/// transaction and its reported failures together are as many as its events
/// of a registered type.
pub proof fn lemma_events_accounted(
    registry: Registry,
    digest: Seq<char>,
    at: usize,
    events: Seq<EventView>,
)
    ensures
        extract_events(registry, digest, events).swaps.len() + extract_events(
            registry,
            digest,
            events,
        ).adds.len() + extract_events(registry, digest, events).removes.len() + failures_in_events(
            registry,
            at,
            events,
        ).len() == registered_count(registry, events),
    decreases events.len(),
{
    if events.len() > 0 {
        let front = events.drop_last();
        lemma_events_accounted(registry, digest, at, front);
        lemma_recorded_or_reported(
            registry,
            digest,
            events.last(),
            extract_events(registry, digest, front),
        );
    }
}

/// Whether a reported failure names an event of the transactions: its
/// positions lie within the checkpoint, the event is of a registered type
/// and is dropped for the reported reason.
pub open spec fn names_dropped_event(
    registry: Registry,
    transactions: Seq<TransactionView>,
    failure: DecodeFailure,
) -> bool {
    &&& failure.transaction < transactions.len()
    &&& transactions[failure.transaction as int].events is Some
    &&& failure.event < transactions[failure.transaction as int].events->0.len()
    &&& event_failure(
        registry,
        transactions[failure.transaction as int].events->0[failure.event as int],
    ) == Some((failure.kind, failure.error))
}

proof fn lemma_event_failures_named(
    registry: Registry,
    at: usize,
    events: Seq<EventView>,
    k: int,
)
    requires
        events.len() <= usize::MAX,
        0 <= k < failures_in_events(registry, at, events).len(),
    ensures
        failures_in_events(registry, at, events)[k].transaction == at,
        failures_in_events(registry, at, events)[k].event < events.len(),
        event_failure(registry, events[failures_in_events(registry, at, events)[k].event as int])
            == Some(
            (
                failures_in_events(registry, at, events)[k].kind,
                failures_in_events(registry, at, events)[k].error,
            ),
        ),
    decreases events.len(),
{
    if events.len() > 0 {
        let front = events.drop_last();
        let earlier = failures_in_events(registry, at, front);
        if k < earlier.len() {
            lemma_event_failures_named(registry, at, front, k);
            assert(front[earlier[k].event as int] == events[earlier[k].event as int]);
        }
    }
}

/// Every reported failure names an event of the checkpoint that is dropped,
/// with the reason for which it is dropped.
pub proof fn lemma_failures_named(registry: Registry, transactions: Seq<TransactionView>, k: int)
    requires
        transactions.len() <= usize::MAX,
        forall|t: int|
            0 <= t < transactions.len() && (#[trigger] transactions[t]).events is Some
                ==> transactions[t].events->0.len() <= usize::MAX,
        0 <= k < failures_in(registry, transactions).len(),
    ensures
        names_dropped_event(registry, transactions, failures_in(registry, transactions)[k]),
    decreases transactions.len(),
{
    if transactions.len() > 0 {
        let front = transactions.drop_last();
        let last = (transactions.len() - 1) as usize;
        let earlier = failures_in(registry, front);
        assert forall|t: int| 0 <= t < front.len() && (#[trigger] front[t]).events is Some implies
            front[t].events->0.len() <= usize::MAX by {
            assert(front[t] == transactions[t]);
        }
        if k < earlier.len() {
            lemma_failures_named(registry, front, k);
            assert(front[earlier[k].transaction as int] == transactions[earlier[k].transaction as int]);
        } else {
            let tx = transactions.last();
            assert(tx == transactions[last as int]);
            assert(tx.events is Some);
            lemma_event_failures_named(registry, last, tx.events->0, k - earlier.len());
        }
    }
}

} // verus!
