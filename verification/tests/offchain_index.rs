use kitties::dispatch::{DispatchError, Origin};
use kitties::offchain_index::{
    clears_after_read, decode_value, derive_key, encode_value, read_indexed_value, signer_ready,
    Event, OffchainAction, Pallet, StorageRetrievalError,
};
use kitties::scale::{push_option_u32, push_u32, push_u64, read_le};
use parity_scale_codec::Encode;

fn expected_key(block: u32) -> Vec<u8> {
    let mut k = b"node-template::storage::".to_vec();
    k.extend_from_slice(&block.encode());
    k
}

#[test]
fn derive_key_is_prefix_and_encoded_block() {
    assert_eq!(derive_key(5), expected_key(5));
    assert_eq!(derive_key(0x0102_0304), expected_key(0x0102_0304));
    assert_eq!(&derive_key(258)[24..], &[2, 1, 0, 0]);
    assert_ne!(derive_key(1), derive_key(256));
}

#[test]
fn encode_value_matches_scale() {
    let v = ([9u8; 32], 0x0102_0304_0506_0708u64);
    assert_eq!(encode_value(&v), v.encode());
    assert_eq!(encode_value(&v).len(), 40);
}

#[test]
fn decode_value_roundtrip_and_short_input() {
    let v = ([3u8; 32], 1_700_000_000_000u64);
    let mut bytes = encode_value(&v);
    assert_eq!(decode_value(&bytes), Some(v));
    bytes.push(77);
    assert_eq!(decode_value(&bytes), Some(v));
    assert_eq!(decode_value(&bytes[..39]), None);
}

#[test]
fn read_indexed_value_cases() {
    let v = ([1u8; 32], 42u64);
    assert_eq!(read_indexed_value(None), Ok(None));
    assert_eq!(read_indexed_value(Some(v.encode())), Ok(Some(v)));
    assert_eq!(read_indexed_value(Some(vec![1, 2, 3])), Err(StorageRetrievalError::Undecodable));
    assert!(clears_after_read(&Ok(Some(v))));
    assert!(!clears_after_read(&Ok(None)));
    assert!(!clears_after_read(&Err(StorageRetrievalError::Undecodable)));
}

#[test]
fn offchain_worker_alternates() {
    assert_eq!(Pallet::offchain_worker(1), OffchainAction::SubmitSignedData);
    assert_eq!(Pallet::offchain_worker(7), OffchainAction::SubmitSignedData);
    assert_eq!(Pallet::offchain_worker(8), OffchainAction::ReadAndClear(expected_key(7)));
    assert_eq!(Pallet::offchain_worker(2), OffchainAction::ReadAndClear(derive_key(1)));
}

#[test]
fn submit_data_writes_under_block_key() {
    let v = ([5u8; 32], 99u64);
    let w = Pallet::submit_data(Origin::Signed(4), 11, v).unwrap();
    assert_eq!(w.key, expected_key(11));
    assert_eq!(w.value, v.encode());
    assert_eq!(w.event, Event::WriteSignDataSuccess(expected_key(11), v));
    assert_eq!(Pallet::submit_data(Origin::Unsigned, 11, v).unwrap_err(), DispatchError::BadOrigin);
    assert_eq!(Pallet::submit_data(Origin::Root, 11, v).unwrap_err(), DispatchError::BadOrigin);
}

#[test]
fn value_submitted_at_odd_block_is_read_at_next() {
    let v = ([8u8; 32], 5u64);
    let w = Pallet::submit_data(Origin::Signed(1), 9, v).unwrap();
    match Pallet::offchain_worker(10) {
        OffchainAction::ReadAndClear(key) => {
            assert_eq!(key, w.key);
            assert_eq!(read_indexed_value(Some(w.value)), Ok(Some(v)));
        }
        other => panic!("unexpected action {:?}", other),
    }
}

#[test]
fn do_something_always_succeeds() {
    assert_eq!(Pallet::do_something(Origin::Unsigned), Ok(()));
    assert_eq!(Pallet::do_something(Origin::Signed(3)), Ok(()));
}

#[test]
fn signer_ready_reports_missing_accounts() {
    assert_eq!(signer_ready(true), Ok(()));
    assert_eq!(
        signer_ready(false),
        Err("No local accounts available. Consider adding one via `author_insertKey` RPC.")
    );
}

#[test]
fn scale_pieces_match_codec() {
    let mut out = Vec::new();
    push_u32(&mut out, 0xA1B2_C3D4);
    push_u64(&mut out, 0x1122_3344_5566_7788);
    push_option_u32(&mut out, None);
    push_option_u32(&mut out, Some(300));
    let expected = (0xA1B2_C3D4u32, 0x1122_3344_5566_7788u64, None::<u32>, Some(300u32)).encode();
    assert_eq!(out, expected);
    assert_eq!(read_le(&out, 4, 8), 0x1122_3344_5566_7788);
}
