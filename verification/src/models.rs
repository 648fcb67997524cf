//! The records that are persisted, one type per table.

use crate::decode::{
    AddLiquidityEventData, DecodeError, LiquidityFields, RemoveLiquidityEventData, SwapEventData,
    SwapFields,
};
use crate::object_id::object_id_text;
use crate::text::{decimal, decimal_string};
use vstd::prelude::*;

verus! {

/// A row of the swap table.
#[derive(Clone, Debug, PartialEq, Eq)]
pub struct CetusSwapEvent {
    pub id: String,
    pub amount_in: i64,
    pub amount_out: i64,
}

/// A row of the add-liquidity table.
#[derive(Clone, Debug, PartialEq, Eq)]
pub struct CetusAddLiquidityEvent {
    pub id: String,
    pub liquidity: String,
    pub after_liquidity: String,
    pub pool: String,
    pub position: String,
}

/// A row of the remove-liquidity table.
#[derive(Clone, Debug, PartialEq, Eq)]
pub struct CetusRemoveLiquidityEvent {
    pub id: String,
    pub liquidity: String,
    pub after_liquidity: String,
    pub pool: String,
    pub position: String,
}

/// A swap row as a mathematical value.
pub ghost struct SwapRow {
    pub id: Seq<char>,
    pub amount_in: i64,
    pub amount_out: i64,
}

/// An add-liquidity or remove-liquidity row as a mathematical value.
pub ghost struct LiquidityRow {
    pub id: Seq<char>,
    pub liquidity: Seq<char>,
    pub after_liquidity: Seq<char>,
    pub pool: Seq<char>,
    pub position: Seq<char>,
}

impl View for CetusSwapEvent {
    type V = SwapRow;

    open spec fn view(&self) -> SwapRow {
        SwapRow { id: self.id@, amount_in: self.amount_in, amount_out: self.amount_out }
    }
}

impl DeepView for CetusSwapEvent {
    type V = SwapRow;

    open spec fn deep_view(&self) -> SwapRow {
        self@
    }
}

impl View for CetusAddLiquidityEvent {
    type V = LiquidityRow;

    open spec fn view(&self) -> LiquidityRow {
        LiquidityRow {
            id: self.id@,
            liquidity: self.liquidity@,
            after_liquidity: self.after_liquidity@,
            pool: self.pool@,
            position: self.position@,
        }
    }
}

impl DeepView for CetusAddLiquidityEvent {
    type V = LiquidityRow;

    open spec fn deep_view(&self) -> LiquidityRow {
        self@
    }
}

impl View for CetusRemoveLiquidityEvent {
    type V = LiquidityRow;

    open spec fn view(&self) -> LiquidityRow {
        LiquidityRow {
            id: self.id@,
            liquidity: self.liquidity@,
            after_liquidity: self.after_liquidity@,
            pool: self.pool@,
            position: self.position@,
        }
    }
}

impl DeepView for CetusRemoveLiquidityEvent {
    type V = LiquidityRow;

    open spec fn deep_view(&self) -> LiquidityRow {
        self@
    }
}

/// The swap row of a decoded event. The store keeps amounts in signed 64-bit
/// columns; an amount above `i64::MAX` is refused, never wrapped around.
pub open spec fn swap_row(id: Seq<char>, event: SwapFields) -> Result<SwapRow, DecodeError> {
    if event.amount_in > i64::MAX || event.amount_out > i64::MAX {
        Err(DecodeError::AmountOutOfRange)
    } else {
        Ok(SwapRow { id, amount_in: event.amount_in as i64, amount_out: event.amount_out as i64 })
    }
}

/// The liquidity row of a decoded event. The 128-bit quantities are kept as
/// decimal text, the identifiers as hexadecimal text.
pub open spec fn liquidity_row(id: Seq<char>, event: LiquidityFields) -> LiquidityRow {
    LiquidityRow {
        id,
        liquidity: decimal(event.liquidity as nat),
        after_liquidity: decimal(event.after_liquidity as nat),
        pool: object_id_text(event.pool),
        position: object_id_text(event.position),
    }
}

/// The view of a conversion result.
pub open spec fn swap_row_result(r: Result<CetusSwapEvent, DecodeError>) -> Result<
    SwapRow,
    DecodeError,
> {
    match r {
        Ok(row) => Ok(row@),
        Err(e) => Err(e),
    }
}

impl CetusSwapEvent {
    /// The row that records `event` under the identity `id`.
    pub fn from_event(id: String, event: &SwapEventData) -> (r: Result<CetusSwapEvent, DecodeError>)
        ensures
            swap_row_result(r) == swap_row(id@, event@),
    {
        if event.amount_in > i64::MAX as u64 || event.amount_out > i64::MAX as u64 {
            return Err(DecodeError::AmountOutOfRange);
        }
        Ok(
            CetusSwapEvent {
                id,
                amount_in: event.amount_in as i64,
                amount_out: event.amount_out as i64,
            },
        )
    }
}

impl CetusAddLiquidityEvent {
    /// The row that records `event` under the identity `id`.
    pub fn from_event(id: String, event: &AddLiquidityEventData) -> (row: CetusAddLiquidityEvent)
        ensures
            row@ == liquidity_row(id@, event@),
    {
        CetusAddLiquidityEvent {
            id,
            liquidity: decimal_string(event.liquidity),
            after_liquidity: decimal_string(event.after_liquidity),
            pool: event.pool.to_hex_literal(),
            position: event.position.to_hex_literal(),
        }
    }
}

impl CetusRemoveLiquidityEvent {
    /// The row that records `event` under the identity `id`.
    pub fn from_event(id: String, event: &RemoveLiquidityEventData) -> (row:
        CetusRemoveLiquidityEvent)
        ensures
            row@ == liquidity_row(id@, event@),
    {
        CetusRemoveLiquidityEvent {
            id,
            liquidity: decimal_string(event.liquidity),
            after_liquidity: decimal_string(event.after_liquidity),
            pool: event.pool.to_hex_literal(),
            position: event.position.to_hex_literal(),
        }
    }
}

} // verus!
