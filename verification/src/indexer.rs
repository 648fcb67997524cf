//! Extraction of the indexed events from a checkpoint.

use crate::decode::{
    parse_liquidity_event, parse_swap_event, AddLiquidityEventData, RemoveLiquidityEventData,
    SwapEventData,
};
use crate::identity::{assign_identity, identity, EventKind};
use crate::models::{
    liquidity_row, swap_row, CetusAddLiquidityEvent, CetusRemoveLiquidityEvent, CetusSwapEvent,
    LiquidityRow, SwapRow,
};
use crate::object_id::ObjectId;
use crate::type_tag::{StructTag, StructTagView};
use vstd::prelude::*;

verus! {

/// An event that a transaction emitted.
#[derive(Clone, Debug, PartialEq, Eq)]
pub struct Event {
    /// The package whose code emitted the event.
    pub package_id: ObjectId,
    /// The declared type of the event.
    pub type_: StructTag,
    /// The payload, in canonical binary encoding.
    pub contents: Vec<u8>,
}

/// A transaction of a checkpoint, with the events it emitted, if any.
#[derive(Clone, Debug, PartialEq, Eq)]
pub struct CheckpointTransaction {
    /// The digest of the transaction, as text.
    pub digest: String,
    /// The events of the transaction, in the order of emission.
    pub events: Option<Vec<Event>>,
}

/// A checkpoint: an ordered batch of finalized transactions.
#[derive(Clone, Debug, PartialEq, Eq)]
pub struct CheckpointData {
    pub sequence_number: u64,
    pub transactions: Vec<CheckpointTransaction>,
}

/// An event as a mathematical value.
pub ghost struct EventView {
    pub package_id: Seq<u8>,
    pub type_: StructTagView,
    pub contents: Seq<u8>,
}

/// A transaction as a mathematical value.
pub ghost struct TransactionView {
    pub digest: Seq<char>,
    pub events: Option<Seq<EventView>>,
}

/// A checkpoint as a mathematical value.
pub ghost struct CheckpointView {
    pub sequence_number: u64,
    pub transactions: Seq<TransactionView>,
}

impl View for Event {
    type V = EventView;

    open spec fn view(&self) -> EventView {
        EventView { package_id: self.package_id@, type_: self.type_@, contents: self.contents@ }
    }
}

impl DeepView for Event {
    type V = EventView;

    open spec fn deep_view(&self) -> EventView {
        self@
    }
}

impl View for CheckpointTransaction {
    type V = TransactionView;

    open spec fn view(&self) -> TransactionView {
        TransactionView {
            digest: self.digest@,
            events: match self.events {
                Some(events) => Some(events.deep_view()),
                None => None,
            },
        }
    }
}

impl DeepView for CheckpointTransaction {
    type V = TransactionView;

    open spec fn deep_view(&self) -> TransactionView {
        self@
    }
}

impl View for CheckpointData {
    type V = CheckpointView;

    open spec fn view(&self) -> CheckpointView {
        CheckpointView {
            sequence_number: self.sequence_number,
            transactions: self.transactions.deep_view(),
        }
    }
}

/// The registry of event types: which type tag marks which kind of event.
pub struct CetusIndexer {
    swap_event_type: StructTag,
    add_liquidity_event_type: StructTag,
    remove_liquidity_event_type: StructTag,
}

/// A registry as a mathematical value.
pub ghost struct Registry {
    pub swap: StructTagView,
    pub add_liquidity: StructTagView,
    pub remove_liquidity: StructTagView,
}

impl View for CetusIndexer {
    type V = Registry;

    closed spec fn view(&self) -> Registry {
        Registry {
            swap: self.swap_event_type@,
            add_liquidity: self.add_liquidity_event_type@,
            remove_liquidity: self.remove_liquidity_event_type@,
        }
    }
}

/// The kind that a type tag is registered for. The tags are tried in the
/// order swap, add-liquidity, remove-liquidity and the first match decides,
/// so a tag has at most one kind; a tag that is not registered has none.
pub open spec fn resolve_kind(registry: Registry, type_: StructTagView) -> Option<EventKind> {
    if type_ == registry.swap {
        Some(EventKind::Swap)
    } else if type_ == registry.add_liquidity {
        Some(EventKind::AddLiquidity)
    } else if type_ == registry.remove_liquidity {
        Some(EventKind::RemoveLiquidity)
    } else {
        None
    }
}

/// The three batches of rows that extraction yields, one per table.
pub ghost struct Batches {
    pub swaps: Seq<SwapRow>,
    pub adds: Seq<LiquidityRow>,
    pub removes: Seq<LiquidityRow>,
}

/// Three empty batches.
pub open spec fn no_batches() -> Batches {
    Batches { swaps: Seq::empty(), adds: Seq::empty(), removes: Seq::empty() }
}

/// The batches `first` followed, table by table, by the batches `second`.
pub open spec fn join_batches(first: Batches, second: Batches) -> Batches {
    Batches {
        swaps: first.swaps + second.swaps,
        adds: first.adds + second.adds,
        removes: first.removes + second.removes,
    }
}

/// The batches of a transaction after one more of its events. `before` holds
/// the rows of the earlier events of the same transaction, so the length of a
/// batch is the ordinal of the next row of that kind. An event of no
/// registered type, one whose payload does not decode, and a swap whose
/// amounts the store cannot hold leave the batches as they are.
pub open spec fn record_event(
    registry: Registry,
    digest: Seq<char>,
    event: EventView,
    before: Batches,
) -> Batches {
    match resolve_kind(registry, event.type_) {
        Some(EventKind::Swap) => match parse_swap_event(event.contents) {
            Ok(fields) => match swap_row(
                identity(event.package_id, digest, EventKind::Swap, before.swaps.len()),
                fields,
            ) {
                Ok(row) => Batches { swaps: before.swaps.push(row), ..before },
                Err(_) => before,
            },
            Err(_) => before,
        },
        Some(EventKind::AddLiquidity) => match parse_liquidity_event(event.contents) {
            Ok(fields) => Batches {
                adds: before.adds.push(
                    liquidity_row(
                        identity(
                            event.package_id,
                            digest,
                            EventKind::AddLiquidity,
                            before.adds.len(),
                        ),
                        fields,
                    ),
                ),
                ..before
            },
            Err(_) => before,
        },
        Some(EventKind::RemoveLiquidity) => match parse_liquidity_event(event.contents) {
            Ok(fields) => Batches {
                removes: before.removes.push(
                    liquidity_row(
                        identity(
                            event.package_id,
                            digest,
                            EventKind::RemoveLiquidity,
                            before.removes.len(),
                        ),
                        fields,
                    ),
                ),
                ..before
            },
            Err(_) => before,
        },
        None => before,
    }
}

/// The batches of the events `events` of the transaction with digest
/// `digest`, in the order of the events.
pub open spec fn extract_events(registry: Registry, digest: Seq<char>, events: Seq<EventView>) -> Batches
    decreases events.len(),
{
    if events.len() == 0 {
        no_batches()
    } else {
        record_event(
            registry,
            digest,
            events.last(),
            extract_events(registry, digest, events.drop_last()),
        )
    }
}

/// The batches of one transaction. A transaction without events has none.
pub open spec fn extract_transaction(registry: Registry, transaction: TransactionView) -> Batches {
    match transaction.events {
        Some(events) => extract_events(registry, transaction.digest, events),
        None => no_batches(),
    }
}

/// The batches of a run of transactions: those of each transaction, in the
/// order of the transactions.
pub open spec fn extract_transactions(registry: Registry, transactions: Seq<TransactionView>) -> Batches
    decreases transactions.len(),
{
    if transactions.len() == 0 {
        no_batches()
    } else {
        join_batches(
            extract_transactions(registry, transactions.drop_last()),
            extract_transaction(registry, transactions.last()),
        )
    }
}

impl CetusIndexer {
    /// The registry that marks swaps by `swap_event_type`, liquidity additions
    /// by `add_liquidity_event_type` and liquidity removals by
    /// `remove_liquidity_event_type`.
    pub fn new(
        swap_event_type: StructTag,
        add_liquidity_event_type: StructTag,
        remove_liquidity_event_type: StructTag,
    ) -> (indexer: CetusIndexer)
        ensures
            indexer@ == (Registry {
                swap: swap_event_type@,
                add_liquidity: add_liquidity_event_type@,
                remove_liquidity: remove_liquidity_event_type@,
            }),
    {
        CetusIndexer { swap_event_type, add_liquidity_event_type, remove_liquidity_event_type }
    }

    /// The kind of event that `type_` is registered for, if any.
    pub fn resolve(&self, type_: &StructTag) -> (kind: Option<EventKind>)
        ensures
            kind == resolve_kind(self@, type_@),
    {
        if type_.same_as(&self.swap_event_type) {
            Some(EventKind::Swap)
        } else if type_.same_as(&self.add_liquidity_event_type) {
            Some(EventKind::AddLiquidity)
        } else if type_.same_as(&self.remove_liquidity_event_type) {
            Some(EventKind::RemoveLiquidity)
        } else {
            None
        }
    }
}

/// The rows of three batches as mathematical values.
pub open spec fn batches_of(
    swaps: &Vec<CetusSwapEvent>,
    adds: &Vec<CetusAddLiquidityEvent>,
    removes: &Vec<CetusRemoveLiquidityEvent>,
) -> Batches {
    Batches { swaps: swaps.deep_view(), adds: adds.deep_view(), removes: removes.deep_view() }
}

impl CetusIndexer {
    /// Extracts the indexed events of a checkpoint: for each transaction in
    /// order, for each of its events in order, the row of the event if its
    /// type is registered and its payload decodes. An event that fails to
    /// decode is left out and the rest of the checkpoint is still processed.
    pub fn process_checkpoint(&self, data: &CheckpointData) -> (batches: (
        Vec<CetusSwapEvent>,
        Vec<CetusAddLiquidityEvent>,
        Vec<CetusRemoveLiquidityEvent>,
    ))
        ensures
            batches_of(&batches.0, &batches.1, &batches.2) == extract_transactions(
                self@,
                data@.transactions,
            ),
    {
        let mut swap_events: Vec<CetusSwapEvent> = Vec::new();
        let mut add_liquidity_events: Vec<CetusAddLiquidityEvent> = Vec::new();
        let mut remove_liquidity_events: Vec<CetusRemoveLiquidityEvent> = Vec::new();
        let ghost all = data.transactions.deep_view();
        assert(batches_of(&swap_events, &add_liquidity_events, &remove_liquidity_events)
            == no_batches()) by {
            assert(swap_events.deep_view() =~= Seq::<SwapRow>::empty());
            assert(add_liquidity_events.deep_view() =~= Seq::<LiquidityRow>::empty());
            assert(remove_liquidity_events.deep_view() =~= Seq::<LiquidityRow>::empty());
        }
        let mut i: usize = 0;
        while i < data.transactions.len()
            invariant
                i <= data.transactions.len(),
                all == data.transactions.deep_view(),
                batches_of(&swap_events, &add_liquidity_events, &remove_liquidity_events)
                    == extract_transactions(self@, all.take(i as int)),
            decreases data.transactions.len() - i,
        {
            proof {
                assert(all.take(i + 1).drop_last() =~= all.take(i as int));
                assert(all.take(i + 1).last() == data.transactions@[i as int]@);
            }
            self.process_transaction(
                &data.transactions[i],
                &mut swap_events,
                &mut add_liquidity_events,
                &mut remove_liquidity_events,
            );
            i = i + 1;
        }
        proof {
            assert(all.take(i as int) =~= all);
        }
        (swap_events, add_liquidity_events, remove_liquidity_events)
    }

    /// Appends the rows of one transaction to the three batches.
    pub fn process_transaction(
        &self,
        transaction: &CheckpointTransaction,
        swap_events: &mut Vec<CetusSwapEvent>,
        add_liquidity_events: &mut Vec<CetusAddLiquidityEvent>,
        remove_liquidity_events: &mut Vec<CetusRemoveLiquidityEvent>,
    )
        ensures
            batches_of(final(swap_events), final(add_liquidity_events), final(remove_liquidity_events))
                == join_batches(
                batches_of(old(swap_events), old(add_liquidity_events), old(remove_liquidity_events)),
                extract_transaction(self@, transaction@),
            ),
    {
        let ghost base = batches_of(swap_events, add_liquidity_events, remove_liquidity_events);
        match &transaction.events {
            Some(events) => {
                let ghost all = events.deep_view();
                let ghost digest = transaction.digest@;
                let mut swap_count: u64 = 0;
                let mut add_liquidity_count: u64 = 0;
                let mut remove_liquidity_count: u64 = 0;
                let mut i: usize = 0;
                assert(batches_of(swap_events, add_liquidity_events, remove_liquidity_events)
                    =~~= join_batches(base, no_batches()));
                while i < events.len()
                    invariant
                        i <= events.len(),
                        all == events.deep_view(),
                        digest == transaction.digest@,
                        batches_of(swap_events, add_liquidity_events, remove_liquidity_events)
                            == join_batches(base, extract_events(self@, digest, all.take(i as int))),
                        swap_count == extract_events(self@, digest, all.take(i as int)).swaps.len(),
                        add_liquidity_count == extract_events(
                            self@,
                            digest,
                            all.take(i as int),
                        ).adds.len(),
                        remove_liquidity_count == extract_events(
                            self@,
                            digest,
                            all.take(i as int),
                        ).removes.len(),
                        swap_count <= i,
                        add_liquidity_count <= i,
                        remove_liquidity_count <= i,
                    decreases events.len() - i,
                {
                    let event = &events[i];
                    let ghost before = extract_events(self@, digest, all.take(i as int));
                    proof {
                        assert(all.take(i + 1).drop_last() =~= all.take(i as int));
                        assert(all.take(i + 1).last() == event@);
                    }
                    match self.resolve(&event.type_) {
                        Some(EventKind::Swap) => {
                            match SwapEventData::decode(event.contents.as_slice()) {
                                Ok(swap_data) => {
                                    let unique_id = assign_identity(
                                        &event.package_id,
                                        transaction.digest.as_str(),
                                        EventKind::Swap,
                                        swap_count,
                                    );
                                    match CetusSwapEvent::from_event(unique_id, &swap_data) {
                                        Ok(row) => {
                                            let ghost earlier = swap_events.deep_view();
                                            swap_events.push(row);
                                            swap_count = swap_count + 1;
                                            assert(swap_events.deep_view() =~= earlier.push(row@));
                                            assert(swap_events.deep_view() =~= base.swaps
                                                + before.swaps.push(row@));
                                        },
                                        Err(_) => {},
                                    }
                                },
                                Err(_) => {},
                            }
                        },
                        Some(EventKind::AddLiquidity) => {
                            match AddLiquidityEventData::decode(event.contents.as_slice()) {
                                Ok(data) => {
                                    let unique_id = assign_identity(
                                        &event.package_id,
                                        transaction.digest.as_str(),
                                        EventKind::AddLiquidity,
                                        add_liquidity_count,
                                    );
                                    let row = CetusAddLiquidityEvent::from_event(unique_id, &data);
                                    let ghost earlier = add_liquidity_events.deep_view();
                                    let ghost added = row@;
                                    add_liquidity_events.push(row);
                                    add_liquidity_count = add_liquidity_count + 1;
                                    assert(add_liquidity_events.deep_view() =~= earlier.push(added));
                                    assert(add_liquidity_events.deep_view() =~= base.adds
                                        + before.adds.push(added));
                                },
                                Err(_) => {},
                            }
                        },
                        Some(EventKind::RemoveLiquidity) => {
                            match RemoveLiquidityEventData::decode(event.contents.as_slice()) {
                                Ok(data) => {
                                    let unique_id = assign_identity(
                                        &event.package_id,
                                        transaction.digest.as_str(),
                                        EventKind::RemoveLiquidity,
                                        remove_liquidity_count,
                                    );
                                    let row = CetusRemoveLiquidityEvent::from_event(
                                        unique_id,
                                        &data,
                                    );
                                    let ghost earlier = remove_liquidity_events.deep_view();
                                    let ghost added = row@;
                                    remove_liquidity_events.push(row);
                                    remove_liquidity_count = remove_liquidity_count + 1;
                                    assert(remove_liquidity_events.deep_view() =~= earlier.push(
                                        added,
                                    ));
                                    assert(remove_liquidity_events.deep_view() =~= base.removes
                                        + before.removes.push(added));
                                },
                                Err(_) => {},
                            }
                        },
                        None => {},
                    }
                    i = i + 1;
                }
                proof {
                    assert(all.take(i as int) =~= all);
                }
            },
            None => {
                assert(batches_of(swap_events, add_liquidity_events, remove_liquidity_events)
                    =~~= join_batches(base, no_batches()));
            },
        }
    }
}

/// Why a registry could not be built.
#[derive(Clone, Copy, Debug, PartialEq, Eq, Structural)]
pub enum ConfigError {
    /// The type identifier configured for this kind is no structured type tag.
    MalformedTypeTag(EventKind),
}

/// The address of the package that defines the pool events.
pub open spec fn cetus_package() -> Seq<u8> {
    seq![
        0x1eu8, 0xab, 0xed, 0x72, 0xc5, 0x3f, 0xeb, 0x38, 0x05, 0x12, 0x0a, 0x08, 0x1d, 0xc1, 0x59,
        0x63, 0xc2, 0x04, 0xdc, 0x8d, 0x09, 0x15, 0x42, 0x59, 0x2a, 0xba, 0xf7, 0xa3, 0x56, 0x89,
        0xb2, 0xfb,
    ]
}

/// The tag of the type `name` of the module `pool` of that package.
pub open spec fn pool_type(name: Seq<char>) -> StructTagView {
    StructTagView {
        address: cetus_package(),
        module: "pool"@,
        name,
        type_params: Seq::empty(),
    }
}

/// The registry that is used when none is configured.
pub open spec fn default_registry() -> Registry {
    Registry {
        swap: pool_type("SwapEvent"@),
        add_liquidity: pool_type("AddLiquidityEvent"@),
        remove_liquidity: pool_type("RemoveLiquidityEvent"@),
    }
}

/// The view of a type tag that may be missing.
pub open spec fn tag_view(tag: Option<StructTag>) -> Option<StructTagView> {
    match tag {
        Some(t) => Some(t@),
        None => None,
    }
}

/// The registry made of three configured type tags, each of which is missing
/// if its text could not be parsed. The first kind without a tag, in the order
/// swap, add-liquidity, remove-liquidity, is the one reported.
pub open spec fn configured_registry(
    swap: Option<StructTagView>,
    add_liquidity: Option<StructTagView>,
    remove_liquidity: Option<StructTagView>,
) -> Result<Registry, ConfigError> {
    if swap is None {
        Err(ConfigError::MalformedTypeTag(EventKind::Swap))
    } else if add_liquidity is None {
        Err(ConfigError::MalformedTypeTag(EventKind::AddLiquidity))
    } else if remove_liquidity is None {
        Err(ConfigError::MalformedTypeTag(EventKind::RemoveLiquidity))
    } else {
        Ok(
            Registry {
                swap: swap->0,
                add_liquidity: add_liquidity->0,
                remove_liquidity: remove_liquidity->0,
            },
        )
    }
}

/// The view of a construction result.
pub open spec fn registry_result(r: Result<CetusIndexer, ConfigError>) -> Result<
    Registry,
    ConfigError,
> {
    match r {
        Ok(indexer) => Ok(indexer@),
        Err(e) => Err(e),
    }
}

/// The address of the package that defines the pool events.
pub fn cetus_package_id() -> (id: ObjectId)
    ensures
        id@ == cetus_package(),
{
    let bytes: [u8; 32] = [
        0x1e, 0xab, 0xed, 0x72, 0xc5, 0x3f, 0xeb, 0x38, 0x05, 0x12, 0x0a, 0x08, 0x1d, 0xc1, 0x59,
        0x63, 0xc2, 0x04, 0xdc, 0x8d, 0x09, 0x15, 0x42, 0x59, 0x2a, 0xba, 0xf7, 0xa3, 0x56, 0x89,
        0xb2, 0xfb,
    ];
    assert(bytes@ =~= cetus_package());
    ObjectId::new(bytes)
}

impl CetusIndexer {
    /// Builds the registry from the outcome of parsing the three configured
    /// type identifiers.
    pub fn from_parsed(
        swap_event_type: Option<StructTag>,
        add_liquidity_event_type: Option<StructTag>,
        remove_liquidity_event_type: Option<StructTag>,
    ) -> (r: Result<CetusIndexer, ConfigError>)
        ensures
            registry_result(r) == configured_registry(
                tag_view(swap_event_type),
                tag_view(add_liquidity_event_type),
                tag_view(remove_liquidity_event_type),
            ),
    {
        let swap = match swap_event_type {
            Some(tag) => tag,
            None => {
                return Err(ConfigError::MalformedTypeTag(EventKind::Swap));
            },
        };
        let add = match add_liquidity_event_type {
            Some(tag) => tag,
            None => {
                return Err(ConfigError::MalformedTypeTag(EventKind::AddLiquidity));
            },
        };
        let remove = match remove_liquidity_event_type {
            Some(tag) => tag,
            None => {
                return Err(ConfigError::MalformedTypeTag(EventKind::RemoveLiquidity));
            },
        };
        Ok(CetusIndexer::new(swap, add, remove))
    }
}

impl Default for CetusIndexer {
    /// The registry of the pool events of the known package.
    fn default() -> (indexer: CetusIndexer)
        ensures
            indexer@ == default_registry(),
    {
        CetusIndexer::new(
            StructTag::new(cetus_package_id(), "pool", "SwapEvent"),
            StructTag::new(cetus_package_id(), "pool", "AddLiquidityEvent"),
            StructTag::new(cetus_package_id(), "pool", "RemoveLiquidityEvent"),
        )
    }
}

/// The three type identifiers to configure the registry with: the overrides
/// if all three are given, none (the defaults are to be used) otherwise.
pub fn configured_event_types(
    swap_event_type: Option<String>,
    add_liquidity_event_type: Option<String>,
    remove_liquidity_event_type: Option<String>,
) -> (chosen: Option<(String, String, String)>)
    ensures
        chosen is Some <==> swap_event_type is Some && add_liquidity_event_type is Some
            && remove_liquidity_event_type is Some,
        chosen is Some ==> chosen->0 == (
            swap_event_type->0,
            add_liquidity_event_type->0,
            remove_liquidity_event_type->0,
        ),
{
    match (swap_event_type, add_liquidity_event_type, remove_liquidity_event_type) {
        (Some(swap), Some(add), Some(remove)) => Some((swap, add, remove)),
        _ => None,
    }
}

/// The type tag that a registry holds for a kind.
pub open spec fn type_of(registry: Registry, kind: EventKind) -> StructTagView {
    match kind {
        EventKind::Swap => registry.swap,
        EventKind::AddLiquidity => registry.add_liquidity,
        EventKind::RemoveLiquidity => registry.remove_liquidity,
    }
}

/// Whether the three type tags of a registry differ from each other.
pub open spec fn distinct_types(registry: Registry) -> bool {
    &&& registry.swap != registry.add_liquidity
    &&& registry.swap != registry.remove_liquidity
    &&& registry.add_liquidity != registry.remove_liquidity
}

/// In a registry of three different type tags, a tag resolves to a kind
/// exactly when it is the tag registered for that kind.
pub proof fn lemma_resolve_exact(registry: Registry, type_: StructTagView, kind: EventKind)
    requires
        distinct_types(registry),
    ensures
        resolve_kind(registry, type_) == Some(kind) <==> type_ == type_of(registry, kind),
{
}

/// Whatever the registry, a tag resolves to at most one kind, and only to a
/// kind that it is registered for.
pub proof fn lemma_resolve_registered(registry: Registry, type_: StructTagView)
    ensures
        resolve_kind(registry, type_) is Some ==> type_ == type_of(
            registry,
            resolve_kind(registry, type_)->0,
        ),
        resolve_kind(registry, type_) is None <==> type_ != registry.swap && type_
            != registry.add_liquidity && type_ != registry.remove_liquidity,
{
}

/// The three type tags of the default registry differ from each other.
pub proof fn lemma_default_registry_distinct()
    ensures
        distinct_types(default_registry()),
{
    reveal_strlit("SwapEvent");
    reveal_strlit("AddLiquidityEvent");
    reveal_strlit("RemoveLiquidityEvent");
    assert("SwapEvent"@.len() == 9);
    assert("AddLiquidityEvent"@.len() == 17);
    assert("RemoveLiquidityEvent"@.len() == 20);
}

impl CetusIndexer {
    /// Whether the three registered type tags differ from each other.
    pub fn has_distinct_types(&self) -> (distinct: bool)
        ensures
            distinct == distinct_types(self@),
    {
        !self.swap_event_type.same_as(&self.add_liquidity_event_type)
            && !self.swap_event_type.same_as(&self.remove_liquidity_event_type)
            && !self.add_liquidity_event_type.same_as(&self.remove_liquidity_event_type)
    }
}

} // verus!
