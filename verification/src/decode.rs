//! Decoding of event payloads from their canonical binary layout.
//!
//! A payload is the concatenation of its fields, in declaration order, with no
//! padding and no length prefix: a boolean is one byte (0 or 1), an integer is
//! little-endian at its natural width, an object identifier is its 32 bytes.
//! A payload must be consumed exactly: bytes left over are an error.

use crate::identity::EventKind;
use crate::object_id::ObjectId;
use crate::wire::{
    le_bytes, le_bytes_i32, le_i32, le_value, lemma_le_bytes_of_value, read_i32, read_u128, read_u64,
};
use vstd::prelude::*;

verus! {

/// Length in bytes of a swap event payload.
pub const SWAP_EVENT_LENGTH: usize = 153;

/// Length in bytes of an add-liquidity or remove-liquidity event payload.
pub const LIQUIDITY_EVENT_LENGTH: usize = 120;

/// Why a payload could not be decoded into a record.
#[derive(Clone, Copy, Debug, PartialEq, Eq, Structural)]
pub enum DecodeError {
    /// The payload ends before its last field does.
    UnexpectedEnd,
    /// The byte of a boolean field is neither 0 nor 1.
    InvalidBool,
    /// Bytes are left after the last field.
    TrailingBytes,
    /// An amount is above what the store's signed 64-bit column holds.
    AmountOutOfRange,
}

/// The fields of a swap event.
#[derive(Clone, Copy, Debug, PartialEq, Eq)]
pub struct SwapEventData {
    pub atob: bool,
    pub pool: ObjectId,
    pub partner: ObjectId,
    pub amount_in: u64,
    pub amount_out: u64,
    pub ref_amount: u64,
    pub fee_amount: u64,
    pub vault_a_amount: u64,
    pub vault_b_amount: u64,
    pub before_sqrt_price: u128,
    pub after_sqrt_price: u128,
    pub steps: u64,
}

/// The fields of an add-liquidity event.
#[derive(Clone, Copy, Debug, PartialEq, Eq)]
pub struct AddLiquidityEventData {
    pub pool: ObjectId,
    pub position: ObjectId,
    pub tick_lower: i32,
    pub tick_upper: i32,
    pub liquidity: u128,
    pub after_liquidity: u128,
    pub amount_a: u64,
    pub amount_b: u64,
}

/// The fields of a remove-liquidity event.
#[derive(Clone, Copy, Debug, PartialEq, Eq)]
pub struct RemoveLiquidityEventData {
    pub pool: ObjectId,
    pub position: ObjectId,
    pub tick_lower: i32,
    pub tick_upper: i32,
    pub liquidity: u128,
    pub after_liquidity: u128,
    pub amount_a: u64,
    pub amount_b: u64,
}

/// A swap event as a mathematical value.
pub ghost struct SwapFields {
    pub atob: bool,
    pub pool: Seq<u8>,
    pub partner: Seq<u8>,
    pub amount_in: u64,
    pub amount_out: u64,
    pub ref_amount: u64,
    pub fee_amount: u64,
    pub vault_a_amount: u64,
    pub vault_b_amount: u64,
    pub before_sqrt_price: u128,
    pub after_sqrt_price: u128,
    pub steps: u64,
}

/// An add-liquidity or remove-liquidity event as a mathematical value.
pub ghost struct LiquidityFields {
    pub pool: Seq<u8>,
    pub position: Seq<u8>,
    pub tick_lower: i32,
    pub tick_upper: i32,
    pub liquidity: u128,
    pub after_liquidity: u128,
    pub amount_a: u64,
    pub amount_b: u64,
}

impl View for SwapEventData {
    type V = SwapFields;

    open spec fn view(&self) -> SwapFields {
        SwapFields {
            atob: self.atob,
            pool: self.pool@,
            partner: self.partner@,
            amount_in: self.amount_in,
            amount_out: self.amount_out,
            ref_amount: self.ref_amount,
            fee_amount: self.fee_amount,
            vault_a_amount: self.vault_a_amount,
            vault_b_amount: self.vault_b_amount,
            before_sqrt_price: self.before_sqrt_price,
            after_sqrt_price: self.after_sqrt_price,
            steps: self.steps,
        }
    }
}

impl View for AddLiquidityEventData {
    type V = LiquidityFields;

    open spec fn view(&self) -> LiquidityFields {
        LiquidityFields {
            pool: self.pool@,
            position: self.position@,
            tick_lower: self.tick_lower,
            tick_upper: self.tick_upper,
            liquidity: self.liquidity,
            after_liquidity: self.after_liquidity,
            amount_a: self.amount_a,
            amount_b: self.amount_b,
        }
    }
}

impl View for RemoveLiquidityEventData {
    type V = LiquidityFields;

    open spec fn view(&self) -> LiquidityFields {
        LiquidityFields {
            pool: self.pool@,
            position: self.position@,
            tick_lower: self.tick_lower,
            tick_upper: self.tick_upper,
            liquidity: self.liquidity,
            after_liquidity: self.after_liquidity,
            amount_a: self.amount_a,
            amount_b: self.amount_b,
        }
    }
}

/// The unsigned number held by the `width` bytes of `bytes` from `start` on.
pub open spec fn uint_at(bytes: Seq<u8>, start: int, width: int) -> nat {
    le_value(bytes.subrange(start, start + width))
}

/// What a swap payload decodes to. The fields are read in order, so a bad
/// boolean in the first byte is reported even when the payload is too short.
pub open spec fn parse_swap_event(bytes: Seq<u8>) -> Result<SwapFields, DecodeError> {
    if bytes.len() == 0 {
        Err(DecodeError::UnexpectedEnd)
    } else if bytes[0] > 1 {
        Err(DecodeError::InvalidBool)
    } else if bytes.len() < SWAP_EVENT_LENGTH {
        Err(DecodeError::UnexpectedEnd)
    } else if bytes.len() > SWAP_EVENT_LENGTH {
        Err(DecodeError::TrailingBytes)
    } else {
        Ok(
            SwapFields {
                atob: bytes[0] == 1,
                pool: bytes.subrange(1, 33),
                partner: bytes.subrange(33, 65),
                amount_in: uint_at(bytes, 65, 8) as u64,
                amount_out: uint_at(bytes, 73, 8) as u64,
                ref_amount: uint_at(bytes, 81, 8) as u64,
                fee_amount: uint_at(bytes, 89, 8) as u64,
                vault_a_amount: uint_at(bytes, 97, 8) as u64,
                vault_b_amount: uint_at(bytes, 105, 8) as u64,
                before_sqrt_price: uint_at(bytes, 113, 16) as u128,
                after_sqrt_price: uint_at(bytes, 129, 16) as u128,
                steps: uint_at(bytes, 145, 8) as u64,
            },
        )
    }
}

/// What an add-liquidity or remove-liquidity payload decodes to.
pub open spec fn parse_liquidity_event(bytes: Seq<u8>) -> Result<LiquidityFields, DecodeError> {
    if bytes.len() < LIQUIDITY_EVENT_LENGTH {
        Err(DecodeError::UnexpectedEnd)
    } else if bytes.len() > LIQUIDITY_EVENT_LENGTH {
        Err(DecodeError::TrailingBytes)
    } else {
        Ok(
            LiquidityFields {
                pool: bytes.subrange(0, 32),
                position: bytes.subrange(32, 64),
                tick_lower: le_i32(bytes.subrange(64, 68)) as i32,
                tick_upper: le_i32(bytes.subrange(68, 72)) as i32,
                liquidity: uint_at(bytes, 72, 16) as u128,
                after_liquidity: uint_at(bytes, 88, 16) as u128,
                amount_a: uint_at(bytes, 104, 8) as u64,
                amount_b: uint_at(bytes, 112, 8) as u64,
            },
        )
    }
}

/// The payload of a swap event: the inverse of `parse_swap_event`.
pub open spec fn encode_swap_event(f: SwapFields) -> Seq<u8> {
    seq![if f.atob { 1u8 } else { 0u8 }] + f.pool + f.partner + le_bytes(f.amount_in as nat, 8)
        + le_bytes(f.amount_out as nat, 8) + le_bytes(f.ref_amount as nat, 8) + le_bytes(
        f.fee_amount as nat,
        8,
    ) + le_bytes(f.vault_a_amount as nat, 8) + le_bytes(f.vault_b_amount as nat, 8) + le_bytes(
        f.before_sqrt_price as nat,
        16,
    ) + le_bytes(f.after_sqrt_price as nat, 16) + le_bytes(f.steps as nat, 8)
}

/// The payload of an add-liquidity or remove-liquidity event: the inverse of
/// `parse_liquidity_event`.
pub open spec fn encode_liquidity_event(f: LiquidityFields) -> Seq<u8> {
    f.pool + f.position + le_bytes_i32(f.tick_lower as int) + le_bytes_i32(f.tick_upper as int)
        + le_bytes(f.liquidity as nat, 16) + le_bytes(f.after_liquidity as nat, 16) + le_bytes(
        f.amount_a as nat,
        8,
    ) + le_bytes(f.amount_b as nat, 8)
}

/// The view of a decoding result.
pub open spec fn swap_result_view(r: Result<SwapEventData, DecodeError>) -> Result<
    SwapFields,
    DecodeError,
> {
    match r {
        Ok(d) => Ok(d@),
        Err(e) => Err(e),
    }
}

impl SwapEventData {
    /// Decodes a swap event payload.
    pub fn decode(bytes: &[u8]) -> (r: Result<SwapEventData, DecodeError>)
        ensures
            swap_result_view(r) == parse_swap_event(bytes@),
    {
        if bytes.len() == 0 {
            return Err(DecodeError::UnexpectedEnd);
        }
        let flag: u8 = bytes[0];
        if flag > 1 {
            return Err(DecodeError::InvalidBool);
        }
        if bytes.len() < SWAP_EVENT_LENGTH {
            return Err(DecodeError::UnexpectedEnd);
        }
        if bytes.len() > SWAP_EVENT_LENGTH {
            return Err(DecodeError::TrailingBytes);
        }
        Ok(
            SwapEventData {
                atob: flag == 1,
                pool: ObjectId::from_slice(bytes, 1),
                partner: ObjectId::from_slice(bytes, 33),
                amount_in: read_u64(bytes, 65),
                amount_out: read_u64(bytes, 73),
                ref_amount: read_u64(bytes, 81),
                fee_amount: read_u64(bytes, 89),
                vault_a_amount: read_u64(bytes, 97),
                vault_b_amount: read_u64(bytes, 105),
                before_sqrt_price: read_u128(bytes, 113),
                after_sqrt_price: read_u128(bytes, 129),
                steps: read_u64(bytes, 145),
            },
        )
    }
}

/// The view of a decoding result.
pub open spec fn add_result_view(r: Result<AddLiquidityEventData, DecodeError>) -> Result<
    LiquidityFields,
    DecodeError,
> {
    match r {
        Ok(d) => Ok(d@),
        Err(e) => Err(e),
    }
}

/// The view of a decoding result.
pub open spec fn remove_result_view(r: Result<RemoveLiquidityEventData, DecodeError>) -> Result<
    LiquidityFields,
    DecodeError,
> {
    match r {
        Ok(d) => Ok(d@),
        Err(e) => Err(e),
    }
}

impl AddLiquidityEventData {
    /// Decodes an add-liquidity event payload.
    pub fn decode(bytes: &[u8]) -> (r: Result<AddLiquidityEventData, DecodeError>)
        ensures
            add_result_view(r) == parse_liquidity_event(bytes@),
    {
        if bytes.len() < LIQUIDITY_EVENT_LENGTH {
            return Err(DecodeError::UnexpectedEnd);
        }
        if bytes.len() > LIQUIDITY_EVENT_LENGTH {
            return Err(DecodeError::TrailingBytes);
        }
        Ok(
            AddLiquidityEventData {
                pool: ObjectId::from_slice(bytes, 0),
                position: ObjectId::from_slice(bytes, 32),
                tick_lower: read_i32(bytes, 64),
                tick_upper: read_i32(bytes, 68),
                liquidity: read_u128(bytes, 72),
                after_liquidity: read_u128(bytes, 88),
                amount_a: read_u64(bytes, 104),
                amount_b: read_u64(bytes, 112),
            },
        )
    }
}

impl RemoveLiquidityEventData {
    /// Decodes a remove-liquidity event payload.
    pub fn decode(bytes: &[u8]) -> (r: Result<RemoveLiquidityEventData, DecodeError>)
        ensures
            remove_result_view(r) == parse_liquidity_event(bytes@),
    {
        match AddLiquidityEventData::decode(bytes) {
            Ok(d) => Ok(
                RemoveLiquidityEventData {
                    pool: d.pool,
                    position: d.position,
                    tick_lower: d.tick_lower,
                    tick_upper: d.tick_upper,
                    liquidity: d.liquidity,
                    after_liquidity: d.after_liquidity,
                    amount_a: d.amount_a,
                    amount_b: d.amount_b,
                },
            ),
            Err(e) => Err(e),
        }
    }
}

/// Whether the identifiers of a swap event have their 32 bytes.
pub open spec fn swap_fields_wf(f: SwapFields) -> bool {
    f.pool.len() == 32 && f.partner.len() == 32
}

/// Whether the identifiers of a liquidity event have their 32 bytes.
pub open spec fn liquidity_fields_wf(f: LiquidityFields) -> bool {
    f.pool.len() == 32 && f.position.len() == 32
}

/// Round trip: decoding the payload of a swap event gives the event back.
pub proof fn lemma_swap_round_trip(f: SwapFields)
    requires
        swap_fields_wf(f),
    ensures
        encode_swap_event(f).len() == SWAP_EVENT_LENGTH,
        parse_swap_event(encode_swap_event(f)) == Ok::<SwapFields, DecodeError>(f),
{
    let b = encode_swap_event(f);
    crate::wire::lemma_pow256_widths();
    lemma_uint_field(f.amount_in as nat, 8);
    lemma_uint_field(f.amount_out as nat, 8);
    lemma_uint_field(f.ref_amount as nat, 8);
    lemma_uint_field(f.fee_amount as nat, 8);
    lemma_uint_field(f.vault_a_amount as nat, 8);
    lemma_uint_field(f.vault_b_amount as nat, 8);
    lemma_uint_field(f.before_sqrt_price as nat, 16);
    lemma_uint_field(f.after_sqrt_price as nat, 16);
    lemma_uint_field(f.steps as nat, 8);
    assert(b.len() == 153);
    assert(b.subrange(1, 33) =~= f.pool);
    assert(b.subrange(33, 65) =~= f.partner);
    assert(b.subrange(65, 73) =~= le_bytes(f.amount_in as nat, 8));
    assert(b.subrange(73, 81) =~= le_bytes(f.amount_out as nat, 8));
    assert(b.subrange(81, 89) =~= le_bytes(f.ref_amount as nat, 8));
    assert(b.subrange(89, 97) =~= le_bytes(f.fee_amount as nat, 8));
    assert(b.subrange(97, 105) =~= le_bytes(f.vault_a_amount as nat, 8));
    assert(b.subrange(105, 113) =~= le_bytes(f.vault_b_amount as nat, 8));
    assert(b.subrange(113, 129) =~= le_bytes(f.before_sqrt_price as nat, 16));
    assert(b.subrange(129, 145) =~= le_bytes(f.after_sqrt_price as nat, 16));
    assert(b.subrange(145, 153) =~= le_bytes(f.steps as nat, 8));
}

/// Round trip: decoding the payload of a liquidity event gives the event back.
pub proof fn lemma_liquidity_round_trip(f: LiquidityFields)
    requires
        liquidity_fields_wf(f),
    ensures
        encode_liquidity_event(f).len() == LIQUIDITY_EVENT_LENGTH,
        parse_liquidity_event(encode_liquidity_event(f)) == Ok::<LiquidityFields, DecodeError>(f),
{
    let b = encode_liquidity_event(f);
    crate::wire::lemma_pow256_widths();
    crate::wire::lemma_le_i32_round_trip(f.tick_lower as int);
    crate::wire::lemma_le_i32_round_trip(f.tick_upper as int);
    lemma_uint_field(f.liquidity as nat, 16);
    lemma_uint_field(f.after_liquidity as nat, 16);
    lemma_uint_field(f.amount_a as nat, 8);
    lemma_uint_field(f.amount_b as nat, 8);
    assert(b.len() == 120);
    assert(b.subrange(0, 32) =~= f.pool);
    assert(b.subrange(32, 64) =~= f.position);
    assert(b.subrange(64, 68) =~= le_bytes_i32(f.tick_lower as int));
    assert(b.subrange(68, 72) =~= le_bytes_i32(f.tick_upper as int));
    assert(b.subrange(72, 88) =~= le_bytes(f.liquidity as nat, 16));
    assert(b.subrange(88, 104) =~= le_bytes(f.after_liquidity as nat, 16));
    assert(b.subrange(104, 112) =~= le_bytes(f.amount_a as nat, 8));
    assert(b.subrange(112, 120) =~= le_bytes(f.amount_b as nat, 8));
}

/// A number that fits in `width` bytes is written in `width` bytes and read
/// back unchanged.
proof fn lemma_uint_field(v: nat, width: nat)
    requires
        v < crate::wire::pow256(width),
    ensures
        le_bytes(v, width).len() == width,
        le_value(le_bytes(v, width)) == v,
{
    crate::wire::lemma_le_bytes_len(v, width);
    crate::wire::lemma_le_round_trip(v, width);
}

/// A payload of the wrong length, or a swap payload whose first byte is no
/// boolean, is rejected.
pub proof fn lemma_malformed_rejected(bytes: Seq<u8>)
    ensures
        bytes.len() != SWAP_EVENT_LENGTH ==> parse_swap_event(bytes) is Err,
        bytes.len() > 0 && bytes[0] > 1 ==> parse_swap_event(bytes) == Err::<
            SwapFields,
            DecodeError,
        >(DecodeError::InvalidBool),
        bytes.len() != LIQUIDITY_EVENT_LENGTH ==> parse_liquidity_event(bytes) is Err,
        bytes.len() == SWAP_EVENT_LENGTH && bytes[0] <= 1 ==> parse_swap_event(bytes) is Ok,
        bytes.len() == LIQUIDITY_EVENT_LENGTH ==> parse_liquidity_event(bytes) is Ok,
{
}

/// A decoded event of any kind.
#[derive(Clone, Copy, Debug, PartialEq, Eq)]
pub enum DecodedEvent {
    Swap(SwapEventData),
    AddLiquidity(AddLiquidityEventData),
    RemoveLiquidity(RemoveLiquidityEventData),
}

/// A decoded event of any kind as a mathematical value.
pub ghost enum EventFields {
    Swap(SwapFields),
    AddLiquidity(LiquidityFields),
    RemoveLiquidity(LiquidityFields),
}

impl View for DecodedEvent {
    type V = EventFields;

    open spec fn view(&self) -> EventFields {
        match self {
            DecodedEvent::Swap(d) => EventFields::Swap(d@),
            DecodedEvent::AddLiquidity(d) => EventFields::AddLiquidity(d@),
            DecodedEvent::RemoveLiquidity(d) => EventFields::RemoveLiquidity(d@),
        }
    }
}

/// What a payload decodes to as an event of kind `kind`.
pub open spec fn parse_event(kind: EventKind, bytes: Seq<u8>) -> Result<EventFields, DecodeError> {
    match kind {
        EventKind::Swap => match parse_swap_event(bytes) {
            Ok(f) => Ok(EventFields::Swap(f)),
            Err(e) => Err(e),
        },
        EventKind::AddLiquidity => match parse_liquidity_event(bytes) {
            Ok(f) => Ok(EventFields::AddLiquidity(f)),
            Err(e) => Err(e),
        },
        EventKind::RemoveLiquidity => match parse_liquidity_event(bytes) {
            Ok(f) => Ok(EventFields::RemoveLiquidity(f)),
            Err(e) => Err(e),
        },
    }
}

/// The view of a decoding result.
pub open spec fn event_result_view(r: Result<DecodedEvent, DecodeError>) -> Result<
    EventFields,
    DecodeError,
> {
    match r {
        Ok(d) => Ok(d@),
        Err(e) => Err(e),
    }
}

/// Decodes the payload of an event of kind `kind`. Decoding is total: a
/// payload that does not have the layout of its kind gives an error.
pub fn decode(kind: EventKind, bytes: &[u8]) -> (r: Result<DecodedEvent, DecodeError>)
    ensures
        event_result_view(r) == parse_event(kind, bytes@),
{
    match kind {
        EventKind::Swap => match SwapEventData::decode(bytes) {
            Ok(d) => Ok(DecodedEvent::Swap(d)),
            Err(e) => Err(e),
        },
        EventKind::AddLiquidity => match AddLiquidityEventData::decode(bytes) {
            Ok(d) => Ok(DecodedEvent::AddLiquidity(d)),
            Err(e) => Err(e),
        },
        EventKind::RemoveLiquidity => match RemoveLiquidityEventData::decode(bytes) {
            Ok(d) => Ok(DecodedEvent::RemoveLiquidity(d)),
            Err(e) => Err(e),
        },
    }
}

/// The encoding is canonical: a swap payload that decodes is the payload of
/// the event it decodes to, so no two payloads decode to the same event.
pub proof fn lemma_swap_payload_canonical(bytes: Seq<u8>)
    requires
        parse_swap_event(bytes) is Ok,
    ensures
        encode_swap_event(parse_swap_event(bytes)->Ok_0) == bytes,
{
    crate::wire::lemma_pow256_widths();
    lemma_uint_at(bytes, 65, 8);
    lemma_uint_at(bytes, 73, 8);
    lemma_uint_at(bytes, 81, 8);
    lemma_uint_at(bytes, 89, 8);
    lemma_uint_at(bytes, 97, 8);
    lemma_uint_at(bytes, 105, 8);
    lemma_uint_at(bytes, 113, 16);
    lemma_uint_at(bytes, 129, 16);
    lemma_uint_at(bytes, 145, 8);
    assert(encode_swap_event(parse_swap_event(bytes)->Ok_0) =~= bytes);
}

/// The bytes of an unsigned field are the little-endian bytes of its value.
proof fn lemma_uint_at(bytes: Seq<u8>, start: int, width: int)
    requires
        0 <= start,
        0 <= width,
        start + width <= bytes.len(),
    ensures
        uint_at(bytes, start, width) < crate::wire::pow256(width as nat),
        le_bytes(uint_at(bytes, start, width), width as nat) == bytes.subrange(
            start,
            start + width,
        ),
{
    crate::wire::lemma_le_value_bound(bytes.subrange(start, start + width));
    lemma_le_bytes_of_value(bytes.subrange(start, start + width));
}

/// The encoding is canonical for liquidity events too.
pub proof fn lemma_liquidity_payload_canonical(bytes: Seq<u8>)
    requires
        parse_liquidity_event(bytes) is Ok,
    ensures
        encode_liquidity_event(parse_liquidity_event(bytes)->Ok_0) == bytes,
{
    crate::wire::lemma_pow256_widths();
    crate::wire::lemma_le_i32_bytes_of_value(bytes.subrange(64, 68));
    crate::wire::lemma_le_i32_bytes_of_value(bytes.subrange(68, 72));
    lemma_uint_at(bytes, 72, 16);
    lemma_uint_at(bytes, 88, 16);
    lemma_uint_at(bytes, 104, 8);
    lemma_uint_at(bytes, 112, 8);
    assert(encode_liquidity_event(parse_liquidity_event(bytes)->Ok_0) =~= bytes);
}

} // verus!
