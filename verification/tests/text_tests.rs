use cetus_indexer::identity::{assign_identity, EventKind};
use cetus_indexer::object_id::ObjectId;
use cetus_indexer::text::{decimal_string, push_decimal};
use cetus_indexer::wire::{read_i32, read_le, read_u128, read_u64};

#[test]
fn decimal_of_small_numbers() {
    assert_eq!(decimal_string(0), "0");
    assert_eq!(decimal_string(7), "7");
    assert_eq!(decimal_string(10), "10");
    assert_eq!(decimal_string(100), "100");
    assert_eq!(decimal_string(1234567890), "1234567890");
}

#[test]
fn decimal_of_the_largest_numbers() {
    assert_eq!(decimal_string(u64::MAX as u128), "18446744073709551615");
    assert_eq!(decimal_string(u128::MAX), "340282366920938463463374607431768211455");
}

#[test]
fn decimal_matches_the_standard_rendering() {
    let mut n: u128 = 1;
    while n < u128::MAX / 7 {
        assert_eq!(decimal_string(n), n.to_string());
        assert_eq!(decimal_string(n - 1), (n - 1).to_string());
        n *= 7;
    }
}

#[test]
fn decimal_reads_back_as_the_same_number() {
    for n in [0u128, 9, 10, 99, 1 << 64, u128::MAX - 1, u128::MAX] {
        assert_eq!(decimal_string(n).parse::<u128>().unwrap(), n);
    }
}

#[test]
fn push_decimal_appends() {
    let mut s = String::from("n=");
    push_decimal(&mut s, 42);
    push_decimal(&mut s, 0);
    assert_eq!(s, "n=420");
}

#[test]
fn object_id_text_is_full_length_lower_case_hex() {
    let mut bytes = [0u8; 32];
    bytes[31] = 2;
    assert_eq!(
        ObjectId::new(bytes).to_hex_literal(),
        "0x0000000000000000000000000000000000000000000000000000000000000002"
    );
    let mut bytes = [0u8; 32];
    for (i, b) in bytes.iter_mut().enumerate() {
        *b = (i as u8) * 8 + 7;
    }
    let text = ObjectId::new(bytes).to_hex_literal();
    assert_eq!(text.len(), 66);
    assert_eq!(text, format!("0x{}", hex::encode(bytes)));
    assert_eq!(
        text,
        "0x070f171f272f373f474f575f676f777f878f979fa7afb7bfc7cfd7dfe7eff7ff"
    );
}

#[test]
fn object_id_from_slice_takes_thirty_two_bytes() {
    let bytes: Vec<u8> = (0u8..40).collect();
    let id = ObjectId::from_slice(&bytes, 3);
    assert_eq!(id.bytes[0], 3);
    assert_eq!(id.bytes[31], 34);
    assert!(id.same_as(&ObjectId::from_slice(&bytes[3..], 0)));
    assert!(!id.same_as(&ObjectId::from_slice(&bytes, 4)));
}

#[test]
fn little_endian_readers() {
    let bytes: Vec<u8> = vec![0xff, 0x01, 0x02, 0x03, 0x04, 0x05, 0x06, 0x07, 0x08, 0, 0, 0, 0, 0, 0, 0, 0x80];
    assert_eq!(read_u64(&bytes, 1), 0x0807_0605_0403_0201);
    assert_eq!(read_u64(&bytes, 0), 0x0706_0504_0302_01ff);
    assert_eq!(read_u128(&bytes, 1), (0x80u128 << 120) | 0x0807_0605_0403_0201);
    assert_eq!(read_le(&bytes, 0, 0), 0);
    assert_eq!(read_le(&bytes, 0, 1), 0xff);
    assert_eq!(read_le(&bytes, 0, 3), 0x0201ff);
    assert_eq!(read_i32(&bytes, 1), 0x0403_0201);
    assert_eq!(read_i32(&[0xff, 0xff, 0xff, 0xff], 0), -1);
    assert_eq!(read_i32(&[0x00, 0x00, 0x00, 0x80], 0), i32::MIN);
    assert_eq!(read_i32(&[0xff, 0xff, 0xff, 0x7f], 0), i32::MAX);
    assert_eq!(read_i32(&[0x0c, 0x3b, 0xf9, 0xff], 0), -443636);
}

#[test]
fn identity_joins_package_digest_kind_and_ordinal() {
    let package = ObjectId::new([0x1e; 32]);
    let prefix = format!("0x{}-DiGeSt58", "1e".repeat(32));
    assert_eq!(
        assign_identity(&package, "DiGeSt58", EventKind::Swap, 0),
        format!("{}-swap-0", prefix)
    );
    assert_eq!(
        assign_identity(&package, "DiGeSt58", EventKind::AddLiquidity, 12),
        format!("{}-add-12", prefix)
    );
    assert_eq!(
        assign_identity(&package, "DiGeSt58", EventKind::RemoveLiquidity, u64::MAX),
        format!("{}-remove-18446744073709551615", prefix)
    );
}

#[test]
fn identity_is_the_same_on_every_call() {
    let package = ObjectId::new([9; 32]);
    let first = assign_identity(&package, "abc", EventKind::Swap, 3);
    let second = assign_identity(&package, "abc", EventKind::Swap, 3);
    assert_eq!(first, second);
}

#[test]
fn identities_of_two_ordinals_differ_only_in_the_suffix() {
    let package = ObjectId::new([9; 32]);
    let first = assign_identity(&package, "abc", EventKind::Swap, 0);
    let second = assign_identity(&package, "abc", EventKind::Swap, 1);
    assert_ne!(first, second);
    assert!(first.ends_with("-swap-0"));
    assert!(second.ends_with("-swap-1"));
    assert_eq!(first[..first.len() - 1], second[..second.len() - 1]);
}

#[test]
fn kind_tags() {
    assert_eq!(EventKind::Swap.tag(), "swap");
    assert_eq!(EventKind::AddLiquidity.tag(), "add");
    assert_eq!(EventKind::RemoveLiquidity.tag(), "remove");
}
