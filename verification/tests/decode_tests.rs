use cetus_indexer::decode::{
    decode, AddLiquidityEventData, DecodeError, DecodedEvent, RemoveLiquidityEventData,
    SwapEventData, LIQUIDITY_EVENT_LENGTH, SWAP_EVENT_LENGTH,
};
use cetus_indexer::identity::EventKind;
use cetus_indexer::models::{CetusAddLiquidityEvent, CetusRemoveLiquidityEvent, CetusSwapEvent};
use cetus_indexer::object_id::ObjectId;

type SwapTuple = (bool, [u8; 32], [u8; 32], u64, u64, u64, u64, u64, u64, u128, u128, u64);
type LiquidityTuple = ([u8; 32], [u8; 32], i32, i32, u128, u128, u64, u64);

fn id_bytes(seed: u8) -> [u8; 32] {
    let mut bytes = [0u8; 32];
    for (i, b) in bytes.iter_mut().enumerate() {
        *b = seed.wrapping_mul(31).wrapping_add(i as u8);
    }
    bytes
}

fn sample_swap() -> SwapEventData {
    SwapEventData {
        atob: true,
        pool: ObjectId::new(id_bytes(1)),
        partner: ObjectId::new(id_bytes(2)),
        amount_in: 100,
        amount_out: 95,
        ref_amount: 3,
        fee_amount: 0x0102_0304_0506_0708,
        vault_a_amount: u64::MAX,
        vault_b_amount: 1 << 40,
        before_sqrt_price: u128::MAX,
        after_sqrt_price: 0x0102_0304_0506_0708_090a_0b0c_0d0e_0f10,
        steps: 7,
    }
}

fn swap_payload(d: &SwapEventData) -> Vec<u8> {
    let tuple: SwapTuple = (
        d.atob,
        d.pool.bytes,
        d.partner.bytes,
        d.amount_in,
        d.amount_out,
        d.ref_amount,
        d.fee_amount,
        d.vault_a_amount,
        d.vault_b_amount,
        d.before_sqrt_price,
        d.after_sqrt_price,
        d.steps,
    );
    bcs::to_bytes(&tuple).unwrap()
}

fn sample_add() -> AddLiquidityEventData {
    AddLiquidityEventData {
        pool: ObjectId::new(id_bytes(3)),
        position: ObjectId::new(id_bytes(4)),
        tick_lower: -443636,
        tick_upper: 443636,
        liquidity: u128::MAX,
        after_liquidity: 12345678901234567890123456789,
        amount_a: 5,
        amount_b: u64::MAX,
    }
}

fn liquidity_payload(d: &AddLiquidityEventData) -> Vec<u8> {
    let tuple: LiquidityTuple = (
        d.pool.bytes,
        d.position.bytes,
        d.tick_lower,
        d.tick_upper,
        d.liquidity,
        d.after_liquidity,
        d.amount_a,
        d.amount_b,
    );
    bcs::to_bytes(&tuple).unwrap()
}

#[test]
fn swap_payload_has_the_documented_length() {
    assert_eq!(swap_payload(&sample_swap()).len(), SWAP_EVENT_LENGTH);
    assert_eq!(SWAP_EVENT_LENGTH, 153);
    assert_eq!(liquidity_payload(&sample_add()).len(), LIQUIDITY_EVENT_LENGTH);
    assert_eq!(LIQUIDITY_EVENT_LENGTH, 120);
}

#[test]
fn swap_round_trip() {
    let event = sample_swap();
    assert_eq!(SwapEventData::decode(&swap_payload(&event)), Ok(event));
}

#[test]
fn swap_round_trip_false_flag_and_zeros() {
    let event = SwapEventData {
        atob: false,
        pool: ObjectId::new([0u8; 32]),
        partner: ObjectId::new([0xff; 32]),
        amount_in: 0,
        amount_out: 0,
        ref_amount: 0,
        fee_amount: 0,
        vault_a_amount: 0,
        vault_b_amount: 0,
        before_sqrt_price: 0,
        after_sqrt_price: 0,
        steps: 0,
    };
    assert_eq!(SwapEventData::decode(&swap_payload(&event)), Ok(event));
}

#[test]
fn swap_fields_sit_at_their_offsets() {
    let mut payload = vec![0u8; 153];
    payload[0] = 1;
    payload[1] = 0xaa;
    payload[32] = 0xbb;
    payload[33] = 0xcc;
    payload[64] = 0xdd;
    payload[65] = 100;
    payload[73] = 95;
    payload[74] = 1;
    payload[113] = 2;
    payload[144] = 0x80;
    payload[145] = 9;
    let event = SwapEventData::decode(&payload).unwrap();
    assert!(event.atob);
    assert_eq!(event.pool.bytes[0], 0xaa);
    assert_eq!(event.pool.bytes[31], 0xbb);
    assert_eq!(event.partner.bytes[0], 0xcc);
    assert_eq!(event.partner.bytes[31], 0xdd);
    assert_eq!(event.amount_in, 100);
    assert_eq!(event.amount_out, 95 + 256);
    assert_eq!(event.before_sqrt_price, 2);
    assert_eq!(event.after_sqrt_price, 0x80u128 << 120);
    assert_eq!(event.steps, 9);
}

#[test]
fn add_liquidity_round_trip() {
    let event = sample_add();
    assert_eq!(AddLiquidityEventData::decode(&liquidity_payload(&event)), Ok(event));
}

#[test]
fn remove_liquidity_round_trip() {
    let add = sample_add();
    let decoded = RemoveLiquidityEventData::decode(&liquidity_payload(&add)).unwrap();
    assert_eq!(decoded.pool, add.pool);
    assert_eq!(decoded.position, add.position);
    assert_eq!(decoded.tick_lower, -443636);
    assert_eq!(decoded.tick_upper, 443636);
    assert_eq!(decoded.liquidity, u128::MAX);
    assert_eq!(decoded.after_liquidity, 12345678901234567890123456789);
    assert_eq!(decoded.amount_a, 5);
    assert_eq!(decoded.amount_b, u64::MAX);
}

#[test]
fn ticks_at_the_ends_of_their_range() {
    let mut event = sample_add();
    event.tick_lower = i32::MIN;
    event.tick_upper = i32::MAX;
    assert_eq!(AddLiquidityEventData::decode(&liquidity_payload(&event)), Ok(event));
    event.tick_lower = -1;
    event.tick_upper = 0;
    assert_eq!(AddLiquidityEventData::decode(&liquidity_payload(&event)), Ok(event));
}

#[test]
fn empty_payload_is_truncated() {
    assert_eq!(SwapEventData::decode(&[]), Err(DecodeError::UnexpectedEnd));
    assert_eq!(AddLiquidityEventData::decode(&[]), Err(DecodeError::UnexpectedEnd));
    assert_eq!(RemoveLiquidityEventData::decode(&[]), Err(DecodeError::UnexpectedEnd));
}

#[test]
fn every_truncation_of_a_swap_is_rejected() {
    let payload = swap_payload(&sample_swap());
    for len in 0..payload.len() {
        assert_eq!(
            SwapEventData::decode(&payload[..len]),
            Err(DecodeError::UnexpectedEnd),
            "length {}",
            len
        );
        assert_eq!(
            bcs::from_bytes::<SwapTuple>(&payload[..len]),
            Err(bcs::Error::Eof),
            "length {}",
            len
        );
    }
}

#[test]
fn every_truncation_of_a_liquidity_event_is_rejected() {
    let payload = liquidity_payload(&sample_add());
    for len in 0..payload.len() {
        assert_eq!(
            AddLiquidityEventData::decode(&payload[..len]),
            Err(DecodeError::UnexpectedEnd)
        );
        assert_eq!(
            RemoveLiquidityEventData::decode(&payload[..len]),
            Err(DecodeError::UnexpectedEnd)
        );
    }
}

#[test]
fn wrong_boolean_is_rejected() {
    let mut payload = swap_payload(&sample_swap());
    for flag in 2..=255u8 {
        payload[0] = flag;
        assert_eq!(SwapEventData::decode(&payload), Err(DecodeError::InvalidBool));
    }
    payload[0] = 2;
    assert_eq!(bcs::from_bytes::<SwapTuple>(&payload), Err(bcs::Error::ExpectedBoolean));
}

#[test]
fn wrong_boolean_is_reported_before_truncation() {
    assert_eq!(SwapEventData::decode(&[7]), Err(DecodeError::InvalidBool));
    assert_eq!(bcs::from_bytes::<SwapTuple>(&[7]), Err(bcs::Error::ExpectedBoolean));
    assert_eq!(SwapEventData::decode(&[1]), Err(DecodeError::UnexpectedEnd));
}

#[test]
fn trailing_bytes_are_rejected() {
    let mut payload = swap_payload(&sample_swap());
    payload.push(0);
    assert_eq!(SwapEventData::decode(&payload), Err(DecodeError::TrailingBytes));
    assert_eq!(bcs::from_bytes::<SwapTuple>(&payload), Err(bcs::Error::RemainingInput));
    let mut payload = liquidity_payload(&sample_add());
    payload.push(0);
    assert_eq!(AddLiquidityEventData::decode(&payload), Err(DecodeError::TrailingBytes));
    assert_eq!(RemoveLiquidityEventData::decode(&payload), Err(DecodeError::TrailingBytes));
    assert_eq!(bcs::from_bytes::<LiquidityTuple>(&payload), Err(bcs::Error::RemainingInput));
}

#[test]
fn decoder_agrees_with_bcs_on_arbitrary_bytes() {
    let mut state: u64 = 0x9e37_79b9_7f4a_7c15;
    for round in 0..200 {
        let mut payload = vec![0u8; 153];
        for b in payload.iter_mut() {
            state = state.wrapping_mul(6364136223846793005).wrapping_add(1442695040888963407);
            *b = (state >> 56) as u8;
        }
        payload[0] = (round % 3) as u8;
        let ours = SwapEventData::decode(&payload);
        let theirs = bcs::from_bytes::<SwapTuple>(&payload);
        match (ours, theirs) {
            (Ok(d), Ok(t)) => {
                assert_eq!(swap_payload(&d), payload);
                assert_eq!(d.atob, t.0);
                assert_eq!(d.pool.bytes, t.1);
                assert_eq!(d.partner.bytes, t.2);
                assert_eq!(d.amount_in, t.3);
                assert_eq!(d.amount_out, t.4);
                assert_eq!(d.ref_amount, t.5);
                assert_eq!(d.fee_amount, t.6);
                assert_eq!(d.vault_a_amount, t.7);
                assert_eq!(d.vault_b_amount, t.8);
                assert_eq!(d.before_sqrt_price, t.9);
                assert_eq!(d.after_sqrt_price, t.10);
                assert_eq!(d.steps, t.11);
            }
            (Err(DecodeError::InvalidBool), Err(bcs::Error::ExpectedBoolean)) => {}
            (ours, theirs) => panic!("disagreement: {:?} against {:?}", ours, theirs),
        }
        let liquidity = &payload[..120];
        let ours = AddLiquidityEventData::decode(liquidity).unwrap();
        let theirs = bcs::from_bytes::<LiquidityTuple>(liquidity).unwrap();
        assert_eq!(ours.pool.bytes, theirs.0);
        assert_eq!(ours.position.bytes, theirs.1);
        assert_eq!(ours.tick_lower, theirs.2);
        assert_eq!(ours.tick_upper, theirs.3);
        assert_eq!(ours.liquidity, theirs.4);
        assert_eq!(ours.after_liquidity, theirs.5);
        assert_eq!(ours.amount_a, theirs.6);
        assert_eq!(ours.amount_b, theirs.7);
    }
}

#[test]
fn swap_row_keeps_the_amounts() {
    let row = CetusSwapEvent::from_event("id-0".to_string(), &sample_swap()).unwrap();
    assert_eq!(
        row,
        CetusSwapEvent { id: "id-0".to_string(), amount_in: 100, amount_out: 95 }
    );
}

#[test]
fn swap_row_takes_the_largest_signed_amount() {
    let mut event = sample_swap();
    event.amount_in = i64::MAX as u64;
    event.amount_out = 0;
    let row = CetusSwapEvent::from_event("x".to_string(), &event).unwrap();
    assert_eq!(row.amount_in, i64::MAX);
    assert_eq!(row.amount_out, 0);
}

#[test]
fn amount_above_the_signed_range_is_refused() {
    let mut event = sample_swap();
    event.amount_in = i64::MAX as u64 + 1;
    assert_eq!(
        CetusSwapEvent::from_event("x".to_string(), &event),
        Err(DecodeError::AmountOutOfRange)
    );
    event.amount_in = 1;
    event.amount_out = u64::MAX;
    assert_eq!(
        CetusSwapEvent::from_event("x".to_string(), &event),
        Err(DecodeError::AmountOutOfRange)
    );
}

#[test]
fn liquidity_row_renders_numbers_and_identifiers() {
    let mut event = sample_add();
    event.pool = ObjectId::new([0x01; 32]);
    event.position = ObjectId::new([0xab; 32]);
    let row = CetusAddLiquidityEvent::from_event("k".to_string(), &event);
    assert_eq!(row.id, "k");
    assert_eq!(row.liquidity, "340282366920938463463374607431768211455");
    assert_eq!(row.after_liquidity, "12345678901234567890123456789");
    assert_eq!(row.pool, format!("0x{}", "01".repeat(32)));
    assert_eq!(row.position, format!("0x{}", "ab".repeat(32)));
}

#[test]
fn remove_liquidity_row_renders_numbers_and_identifiers() {
    let event = RemoveLiquidityEventData {
        pool: ObjectId::new([0x00; 32]),
        position: ObjectId::new([0xf0; 32]),
        tick_lower: 0,
        tick_upper: 0,
        liquidity: 0,
        after_liquidity: 1000,
        amount_a: 0,
        amount_b: 0,
    };
    let row = CetusRemoveLiquidityEvent::from_event("r".to_string(), &event);
    assert_eq!(row.liquidity, "0");
    assert_eq!(row.after_liquidity, "1000");
    assert_eq!(row.pool, format!("0x{}", "00".repeat(32)));
    assert_eq!(row.position, format!("0x{}", "f0".repeat(32)));
}

#[test]
fn largest_liquidity_survives_decoding() {
    let mut event = sample_add();
    event.liquidity = 340282366920938463463374607431768211455;
    let decoded = AddLiquidityEventData::decode(&liquidity_payload(&event)).unwrap();
    let row = CetusAddLiquidityEvent::from_event("id".to_string(), &decoded);
    assert_eq!(row.liquidity, "340282366920938463463374607431768211455");
    assert_eq!(row.liquidity.parse::<u128>().unwrap(), u128::MAX);
}

#[test]
fn decode_by_kind() {
    let swap = sample_swap();
    let add = sample_add();
    assert_eq!(decode(EventKind::Swap, &swap_payload(&swap)), Ok(DecodedEvent::Swap(swap)));
    assert_eq!(
        decode(EventKind::AddLiquidity, &liquidity_payload(&add)),
        Ok(DecodedEvent::AddLiquidity(add))
    );
    match decode(EventKind::RemoveLiquidity, &liquidity_payload(&add)) {
        Ok(DecodedEvent::RemoveLiquidity(d)) => assert_eq!(d.liquidity, add.liquidity),
        other => panic!("unexpected {:?}", other),
    }
    assert_eq!(decode(EventKind::Swap, &liquidity_payload(&add)), Err(DecodeError::InvalidBool));
    let mut short = sample_add();
    short.pool = ObjectId::new([1; 32]);
    assert_eq!(
        decode(EventKind::Swap, &liquidity_payload(&short)),
        Err(DecodeError::UnexpectedEnd)
    );
    assert_eq!(
        decode(EventKind::AddLiquidity, &swap_payload(&swap)),
        Err(DecodeError::TrailingBytes)
    );
    assert_eq!(decode(EventKind::RemoveLiquidity, &[]), Err(DecodeError::UnexpectedEnd));
    assert_eq!(decode(EventKind::Swap, &[2]), Err(DecodeError::InvalidBool));
}
