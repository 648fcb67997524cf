//! The steps of processing one checkpoint: what to write, and what the
//! outcome of the write means.
//!
//! The worker decides; the caller performs. `process_checkpoint` turns a
//! checkpoint into the statements of one transaction. The caller runs them
//! against the store, all or none, and hands the outcome to `commit_result`.

use crate::identity::EventKind;
use crate::indexer::{batches_of, extract_transactions, Batches, CetusIndexer, CheckpointData};
use crate::models::{
    CetusAddLiquidityEvent, CetusRemoveLiquidityEvent, CetusSwapEvent, LiquidityRow, SwapRow,
};
use crate::store::{
    commit_batches, upsert_liquidities, upsert_swaps, CommitError, Tables,
};
use vstd::prelude::*;

verus! {

/// One bulk upsert: the rows of one batch, for the table of their kind.
#[derive(Clone, Debug, PartialEq, Eq)]
pub enum UpsertStatement {
    Swaps(Vec<CetusSwapEvent>),
    AddLiquidity(Vec<CetusAddLiquidityEvent>),
    RemoveLiquidity(Vec<CetusRemoveLiquidityEvent>),
}

/// A bulk upsert as a mathematical value.
pub ghost enum Statement {
    Swaps(Seq<SwapRow>),
    AddLiquidity(Seq<LiquidityRow>),
    RemoveLiquidity(Seq<LiquidityRow>),
}

impl View for UpsertStatement {
    type V = Statement;

    open spec fn view(&self) -> Statement {
        match self {
            UpsertStatement::Swaps(rows) => Statement::Swaps(rows.deep_view()),
            UpsertStatement::AddLiquidity(rows) => Statement::AddLiquidity(rows.deep_view()),
            UpsertStatement::RemoveLiquidity(rows) => Statement::RemoveLiquidity(rows.deep_view()),
        }
    }
}

impl DeepView for UpsertStatement {
    type V = Statement;

    open spec fn deep_view(&self) -> Statement {
        self@
    }
}

/// The kind of event whose table a statement writes to.
pub open spec fn statement_kind(statement: Statement) -> EventKind {
    match statement {
        Statement::Swaps(_) => EventKind::Swap,
        Statement::AddLiquidity(_) => EventKind::AddLiquidity,
        Statement::RemoveLiquidity(_) => EventKind::RemoveLiquidity,
    }
}

/// The statements of the transaction that commits three batches: one for
/// each batch that is not empty, in the order swap, add-liquidity,
/// remove-liquidity. No statement means that no transaction is opened.
pub open spec fn commit_plan(batches: Batches) -> Seq<Statement> {
    (if batches.swaps.len() > 0 {
        seq![Statement::Swaps(batches.swaps)]
    } else {
        Seq::empty()
    }) + (if batches.adds.len() > 0 {
        seq![Statement::AddLiquidity(batches.adds)]
    } else {
        Seq::empty()
    }) + (if batches.removes.len() > 0 {
        seq![Statement::RemoveLiquidity(batches.removes)]
    } else {
        Seq::empty()
    })
}

/// The tables after one statement.
pub open spec fn apply_statement(tables: Tables, statement: Statement) -> Tables {
    match statement {
        Statement::Swaps(rows) => Tables { swaps: upsert_swaps(tables.swaps, rows), ..tables },
        Statement::AddLiquidity(rows) => Tables {
            adds: upsert_liquidities(tables.adds, rows),
            ..tables
        },
        Statement::RemoveLiquidity(rows) => Tables {
            removes: upsert_liquidities(tables.removes, rows),
            ..tables
        },
    }
}

/// The tables after a run of statements.
pub open spec fn apply_statements(tables: Tables, statements: Seq<Statement>) -> Tables
    decreases statements.len(),
{
    if statements.len() == 0 {
        tables
    } else {
        apply_statement(apply_statements(tables, statements.drop_last()), statements.last())
    }
}

/// What the store reported after it was asked to run the statements of a
/// plan in one transaction.
#[derive(Clone, Copy, Debug, PartialEq, Eq, Structural)]
pub enum StoreOutcome {
    /// Every statement ran and the transaction is durable.
    Committed,
    /// No connection could be had; nothing ran.
    Unavailable,
    /// The statement at this position of the plan failed; the transaction was
    /// rolled back.
    StatementFailed(usize),
    /// Every statement ran but the transaction could not be made durable.
    TransactionFailed,
}

/// What an outcome means for the checkpoint. Anything but `Committed` is an
/// error, fatal for this attempt at the checkpoint. A failed statement is
/// reported with the kind of its table; a position outside the plan names no
/// statement and is reported as a failed transaction.
pub open spec fn outcome_result(plan: Seq<Statement>, outcome: StoreOutcome) -> Result<
    (),
    CommitError,
> {
    match outcome {
        StoreOutcome::Committed => Ok(()),
        StoreOutcome::Unavailable => Err(CommitError::StoreUnavailable),
        StoreOutcome::StatementFailed(at) => if at < plan.len() {
            Err(CommitError::UpsertFailed(statement_kind(plan[at as int])))
        } else {
            Err(CommitError::TransactionFailed)
        },
        StoreOutcome::TransactionFailed => Err(CommitError::TransactionFailed),
    }
}

/// Running the plan of three batches, statement by statement, writes exactly
/// what the commit of the batches writes.
pub proof fn lemma_plan_commits_batches(tables: Tables, batches: Batches)
    requires
        commit_batches(tables, batches) is Ok,
    ensures
        apply_statements(tables, commit_plan(batches)) == commit_batches(tables, batches)->Ok_0,
{
    let s1 = if batches.swaps.len() > 0 {
        seq![Statement::Swaps(batches.swaps)]
    } else {
        Seq::empty()
    };
    let s2 = if batches.adds.len() > 0 {
        seq![Statement::AddLiquidity(batches.adds)]
    } else {
        Seq::empty()
    };
    let s3 = if batches.removes.len() > 0 {
        seq![Statement::RemoveLiquidity(batches.removes)]
    } else {
        Seq::empty()
    };
    let t1 = Tables { swaps: upsert_swaps(tables.swaps, batches.swaps), ..tables };
    let t2 = Tables { adds: upsert_liquidities(tables.adds, batches.adds), ..t1 };
    let t3 = Tables { removes: upsert_liquidities(tables.removes, batches.removes), ..t2 };
    assert(apply_statements(tables, Seq::<Statement>::empty()) == tables);
    assert(apply_statements(tables, s1) == t1) by {
        if batches.swaps.len() > 0 {
            assert(s1.drop_last() =~= Seq::<Statement>::empty());
            assert(s1.last() == Statement::Swaps(batches.swaps));
        } else {
            assert(upsert_swaps(tables.swaps, batches.swaps) == tables.swaps);
        }
    }
    assert(apply_statements(tables, s1 + s2) == t2) by {
        if batches.adds.len() > 0 {
            assert((s1 + s2).drop_last() =~= s1);
            assert((s1 + s2).last() == Statement::AddLiquidity(batches.adds));
        } else {
            assert(s1 + s2 =~= s1);
            assert(upsert_liquidities(tables.adds, batches.adds) == tables.adds);
        }
    }
    assert(apply_statements(tables, s1 + s2 + s3) == t3) by {
        if batches.removes.len() > 0 {
            assert((s1 + s2 + s3).drop_last() =~= s1 + s2);
            assert((s1 + s2 + s3).last() == Statement::RemoveLiquidity(batches.removes));
        } else {
            assert(s1 + s2 + s3 =~= s1 + s2);
            assert(upsert_liquidities(tables.removes, batches.removes) == tables.removes);
        }
    }
}

/// A plan is empty exactly when all three batches are: then a commit opens no
/// transaction and changes nothing.
pub proof fn lemma_empty_plan(tables: Tables, batches: Batches)
    ensures
        commit_plan(batches).len() == 0 <==> batches.swaps.len() == 0 && batches.adds.len() == 0
            && batches.removes.len() == 0,
        commit_plan(batches).len() == 0 ==> commit_batches(tables, batches) == Ok::<
            Tables,
            CommitError,
        >(tables),
{
    if commit_plan(batches).len() == 0 {
        assert(upsert_swaps(tables.swaps, batches.swaps) == tables.swaps);
        assert(upsert_liquidities(tables.adds, batches.adds) == tables.adds);
        assert(upsert_liquidities(tables.removes, batches.removes) == tables.removes);
    }
}

/// The statements that commit three batches.
pub fn plan_commit(
    swap_events: Vec<CetusSwapEvent>,
    add_liquidity_events: Vec<CetusAddLiquidityEvent>,
    remove_liquidity_events: Vec<CetusRemoveLiquidityEvent>,
) -> (plan: Vec<UpsertStatement>)
    ensures
        plan.deep_view() == commit_plan(
            batches_of(&swap_events, &add_liquidity_events, &remove_liquidity_events),
        ),
{
    let ghost batches = batches_of(&swap_events, &add_liquidity_events, &remove_liquidity_events);
    let mut plan: Vec<UpsertStatement> = Vec::new();
    if !swap_events.is_empty() {
        plan.push(UpsertStatement::Swaps(swap_events));
    }
    if !add_liquidity_events.is_empty() {
        plan.push(UpsertStatement::AddLiquidity(add_liquidity_events));
    }
    if !remove_liquidity_events.is_empty() {
        plan.push(UpsertStatement::RemoveLiquidity(remove_liquidity_events));
    }
    assert(plan.deep_view() =~= commit_plan(batches));
    plan
}

/// What the outcome that the store reported means for the checkpoint.
pub fn commit_result(plan: &Vec<UpsertStatement>, outcome: StoreOutcome) -> (r: Result<
    (),
    CommitError,
>)
    ensures
        r == outcome_result(plan.deep_view(), outcome),
{
    match outcome {
        StoreOutcome::Committed => Ok(()),
        StoreOutcome::Unavailable => Err(CommitError::StoreUnavailable),
        StoreOutcome::StatementFailed(at) => {
            if at < plan.len() {
                let kind = match &plan[at] {
                    UpsertStatement::Swaps(_) => EventKind::Swap,
                    UpsertStatement::AddLiquidity(_) => EventKind::AddLiquidity,
                    UpsertStatement::RemoveLiquidity(_) => EventKind::RemoveLiquidity,
                };
                assert(plan.deep_view()[at as int] == plan@[at as int]@);
                Err(CommitError::UpsertFailed(kind))
            } else {
                Err(CommitError::TransactionFailed)
            }
        },
        StoreOutcome::TransactionFailed => Err(CommitError::TransactionFailed),
    }
}

/// Processes checkpoints with one registry of event types.
pub struct CetusIndexerWorker {
    pub indexer: CetusIndexer,
}

impl CetusIndexerWorker {
    /// A worker that extracts with `indexer`.
    pub fn new(indexer: CetusIndexer) -> (worker: CetusIndexerWorker)
        ensures
            worker.indexer == indexer,
    {
        CetusIndexerWorker { indexer }
    }

    /// The statements that persist the events of `checkpoint`: the plan for
    /// the three batches that extraction yields.
    pub fn process_checkpoint(&self, checkpoint: &CheckpointData) -> (plan: Vec<UpsertStatement>)
        ensures
            plan.deep_view() == commit_plan(
                extract_transactions(self.indexer@, checkpoint@.transactions),
            ),
    {
        let (swap_events, add_liquidity_events, remove_liquidity_events) =
            self.indexer.process_checkpoint(checkpoint);
        plan_commit(swap_events, add_liquidity_events, remove_liquidity_events)
    }
}

} // verus!
