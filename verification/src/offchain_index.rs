//! The off-chain indexing pallet: a signed call writes a value to the
//! off-chain index under a key derived from the block number, and the
//! off-chain worker alternates between submitting such a call (odd blocks)
//! and reading back, then clearing, what was written one block earlier
//! (even blocks).

use vstd::prelude::*;
use crate::dispatch::{ensure_signed, signer_of, DispatchError, Origin};
use crate::scale::{
    encoded_u32, encoded_u64, le_value, lemma_le_bytes_injective, lemma_le_bytes_len,
    lemma_le_roundtrip, lemma_pow256_values, lemma_le_bytes_index, lemma_le_value_bytes, pow256, push_bytes, push_u32, push_u64, read_le,
};

verus! {

/// Block numbers of the runtime.
pub type BlockNumber = u32;

/// A value the pallet indexes: 32 random bytes and a timestamp.
pub type IndexedValue = ([u8; 32], u64);

/// The events of the off-chain indexing pallet.
#[derive(Debug, PartialEq, Eq)]
pub enum Event {
    /// A value was written to the off-chain index under the key.
    WriteSignDataSuccess(Vec<u8>, IndexedValue),
}

/// Why a value read from off-chain storage could not be used.
#[derive(Clone, Copy, Debug, PartialEq, Eq, Structural)]
pub enum StorageRetrievalError {
    /// The stored bytes do not decode as a value.
    Undecodable,
}

/// What a successful `submit_data` call does: the bytes it writes to the
/// off-chain index, under which key, and the event it deposits.
#[derive(Debug)]
pub struct IndexWrite {
    pub key: Vec<u8>,
    pub value: Vec<u8>,
    pub event: Event,
}

/// What the off-chain worker does at a block.
#[derive(Debug, PartialEq, Eq)]
pub enum OffchainAction {
    /// Draw a random seed and a timestamp and submit them in a signed
    /// `submit_data` call.
    SubmitSignedData,
    /// Read the value stored under the key from persistent off-chain storage,
    /// and clear the key if the value decodes.
    ReadAndClear(Vec<u8>),
}

/// The pallet. It keeps no on-chain state.
pub struct Pallet;

/// The prefix of every key the pallet derives: the ASCII bytes of
/// `node-template::storage::`.
pub open spec fn key_prefix() -> Seq<u8> {
    seq![
        110u8, 111u8, 100u8, 101u8, 45u8, 116u8, 101u8, 109u8, 112u8, 108u8, 97u8, 116u8,
        101, 58, 58, 115, 116, 111, 114, 97, 103, 101, 58, 58,
    ]
}

/// The key for block `block_number`: the prefix, then the SCALE encoding
/// of the block number.
pub open spec fn storage_key(block_number: BlockNumber) -> Seq<u8> {
    key_prefix() + encoded_u32(block_number)
}

/// The SCALE encoding of an indexed value: its 32 bytes, then the timestamp.
pub open spec fn encoded_value(value: IndexedValue) -> Seq<u8> {
    value.0@ + encoded_u64(value.1)
}

/// Whether `bytes` decode as a value: SCALE decoding reads the first 40.
pub open spec fn decodable(bytes: Seq<u8>) -> bool {
    bytes.len() >= 40
}

/// The random bytes that `bytes` decode to.
pub open spec fn decoded_seed(bytes: Seq<u8>) -> Seq<u8> {
    bytes.subrange(0, 32)
}

/// The timestamp that `bytes` decode to.
pub open spec fn decoded_timestamp(bytes: Seq<u8>) -> nat {
    le_value(bytes.subrange(32, 40))
}

/// What the off-chain worker does at `block_number`.
pub open spec fn worker_reads(block_number: BlockNumber) -> Option<Seq<u8>> {
    if block_number % 2 != 0 {
        None
    } else {
        Some(storage_key((block_number - 1) as BlockNumber))
    }
}

/// The key under which the value of block `block_number` is indexed.
pub fn derive_key(block_number: BlockNumber) -> (key: Vec<u8>)
    ensures
        key@ == storage_key(block_number),
{
    let prefix: [u8; 24] = [
        110, 111, 100, 101, 45, 116, 101, 109, 112, 108, 97, 116,
        101, 58, 58, 115, 116, 111, 114, 97, 103, 101, 58, 58,
    ];
    assert(prefix@ =~= key_prefix());
    let mut key: Vec<u8> = Vec::new();
    push_bytes(&mut key, &prefix);
    push_u32(&mut key, block_number);
    assert(key@ =~= storage_key(block_number));
    key
}

/// The SCALE encoding of an indexed value.
pub fn encode_value(value: &IndexedValue) -> (bytes: Vec<u8>)
    ensures
        bytes@ == encoded_value(*value),
{
    let mut bytes: Vec<u8> = Vec::new();
    push_bytes(&mut bytes, &value.0);
    push_u64(&mut bytes, value.1);
    assert(bytes@ =~= encoded_value(*value));
    bytes
}

/// Decodes an indexed value from the start of `bytes`, if there are enough.
pub fn decode_value(bytes: &[u8]) -> (r: Option<IndexedValue>)
    ensures
        r is Some <==> decodable(bytes@),
        r matches Some(v) ==> v.0@ == decoded_seed(bytes@) && v.1 as nat == decoded_timestamp(
            bytes@,
        ),
{
    if bytes.len() < 40 {
        return None;
    }
    let mut seed = [0u8; 32];
    let mut i: usize = 0;
    while i < 32
        invariant
            i <= 32,
            bytes@.len() >= 40,
            seed@.len() == 32,
            forall|j: int| 0 <= j < i ==> #[trigger] seed@[j] == bytes@[j],
        decreases 32 - i,
    {
        seed[i] = bytes[i];
        i = i + 1;
    }
    assert(seed@ =~= decoded_seed(bytes@));
    let timestamp = read_le(bytes, 32, 8);
    Some((seed, timestamp))
}

/// Reads a value that off-chain storage returned: nothing stored gives
/// `Ok(None)`, bytes that decode give the value, other bytes an error.
pub fn read_indexed_value(stored: Option<Vec<u8>>) -> (r: Result<
    Option<IndexedValue>,
    StorageRetrievalError,
>)
    ensures
        stored is None ==> r == Ok::<Option<IndexedValue>, StorageRetrievalError>(None),
        stored matches Some(b) ==> {
            &&& !decodable(b@) ==> r == Err::<Option<IndexedValue>, StorageRetrievalError>(
                StorageRetrievalError::Undecodable,
            )
            &&& decodable(b@) ==> (r matches Ok(Some(v)) && v.0@ == decoded_seed(b@) && v.1 as nat
                == decoded_timestamp(b@))
        },
{
    match stored {
        None => Ok(None),
        Some(bytes) => match decode_value(bytes.as_slice()) {
            Some(v) => Ok(Some(v)),
            None => Err(StorageRetrievalError::Undecodable),
        },
    }
}

/// Whether the worker clears the key after a read: when a value was there
/// and decoded.
pub fn clears_after_read(read: &Result<Option<IndexedValue>, StorageRetrievalError>) -> (r: bool)
    ensures
        r == (read matches Ok(Some(_))),
{
    match read {
        Ok(Some(_)) => true,
        _ => false,
    }
}

/// Whether signed transactions can go out: they need a local account that
/// can sign; otherwise the message the pallet reports.
pub fn signer_ready(can_sign: bool) -> (r: Result<(), &'static str>)
    ensures
        r is Ok <==> can_sign,
        r matches Err(message) ==> message@ == (
        "No local accounts available. Consider adding one via `author_insertKey` RPC.")@,
{
    if !can_sign {
        return Err("No local accounts available. Consider adding one via `author_insertKey` RPC.");
    }
    Ok(())
}

impl Pallet {
    /// A call that does nothing and always succeeds.
    pub fn do_something(origin: Origin) -> (r: Result<(), DispatchError>)
        ensures
            r is Ok,
    {
        let _ = origin;
        Ok(())
    }

    /// A signed call at block `block_number` that writes `value` to the
    /// off-chain index under the key of that block and deposits an event.
    pub fn submit_data(origin: Origin, block_number: BlockNumber, value: IndexedValue) -> (r:
        Result<IndexWrite, DispatchError>)
        ensures
            signer_of(origin) is None ==> r == Err::<IndexWrite, DispatchError>(
                DispatchError::BadOrigin,
            ),
            signer_of(origin) is Some ==> (r matches Ok(w) && w.key@ == storage_key(block_number)
                && w.value@ == encoded_value(value) && (w.event matches Event::WriteSignDataSuccess(
                k,
                v,
            ) && k@ == storage_key(block_number) && v == value)),
    {
        let _who = match ensure_signed(origin) {
            Ok(who) => who,
            Err(e) => return Err(e),
        };
        let key = derive_key(block_number);
        let bytes = encode_value(&value);
        let event_key = derive_key(block_number);
        Ok(IndexWrite { key, value: bytes, event: Event::WriteSignDataSuccess(event_key, value) })
    }

    /// What the off-chain worker does at `block_number`: submit data at odd
    /// blocks, and at even ones read and clear the key of the block before.
    pub fn offchain_worker(block_number: BlockNumber) -> (action: OffchainAction)
        requires
            block_number != 0,
        ensures
            block_number % 2 != 0 ==> action == OffchainAction::SubmitSignedData,
            block_number % 2 == 0 ==> (action matches OffchainAction::ReadAndClear(k) && Some(k@)
                == worker_reads(block_number)),
    {
        if block_number % 2 != 0 {
            OffchainAction::SubmitSignedData
        } else {
            OffchainAction::ReadAndClear(derive_key(block_number - 1))
        }
    }
}


/// Different blocks get different keys.
pub proof fn law_derive_key_injective(a: BlockNumber, b: BlockNumber)
    requires
        storage_key(a) == storage_key(b),
    ensures
        a == b,
{
    lemma_pow256_values();
    lemma_le_bytes_len(a as nat, 4);
    lemma_le_bytes_len(b as nat, 4);
    assert(encoded_u32(a) =~= storage_key(a).subrange(24, 28));
    assert(encoded_u32(b) =~= storage_key(b).subrange(24, 28));
    lemma_le_bytes_injective(a as nat, b as nat, 4);
}

/// An encoded value decodes to itself.
pub proof fn law_indexed_value_roundtrip(value: IndexedValue)
    ensures
        decodable(encoded_value(value)),
        decoded_seed(encoded_value(value)) == value.0@,
        decoded_timestamp(encoded_value(value)) == value.1,
{
    lemma_pow256_values();
    lemma_le_roundtrip(value.1 as nat, 8);
    let e = encoded_value(value);
    assert(decoded_seed(e) =~= value.0@);
    assert(e.subrange(32, 40) =~= encoded_u64(value.1));
}

/// At an even block the worker reads the key under which a `submit_data`
/// call in the block before wrote its value.
pub proof fn law_worker_reads_previous_block(block_number: BlockNumber)
    requires
        block_number % 2 == 1,
        block_number < u32::MAX,
    ensures
        worker_reads((block_number + 1) as BlockNumber) == Some(storage_key(block_number)),
{
}


/// The bytes of an indexed value are its SCALE encoding: the 32 seed bytes
/// in order, then the 8 base-256 digits of the timestamp, least
/// significant first.
pub proof fn law_encoded_value_layout(value: IndexedValue)
    ensures
        encoded_value(value).len() == 40,
        forall|i: int| 0 <= i < 32 ==> #[trigger] encoded_value(value)[i] == value.0@[i],
        forall|i: int|
            32 <= i < 40 ==> #[trigger] encoded_value(value)[i] == ((value.1 as nat / pow256(
                (i - 32) as nat,
            )) % 256) as u8,
{
    let e = encoded_value(value);
    lemma_le_bytes_len(value.1 as nat, 8);
    assert(value.0@.len() == 32);
    assert forall|i: int| 32 <= i < 40 implies #[trigger] e[i] == ((value.1 as nat / pow256(
        (i - 32) as nat,
    )) % 256) as u8 by {
        lemma_le_bytes_index(value.1 as nat, 8, (i - 32) as nat);
        assert(e[i] == encoded_u64(value.1)[i - 32]);
    }
}

/// Decoding reads the seed as the first 32 bytes, in order, and the
/// timestamp as the number whose base-256 digits, least significant first,
/// are the next 8 bytes.
pub proof fn law_decoding_reads_bytes(bytes: Seq<u8>)
    requires
        decodable(bytes),
    ensures
        decoded_seed(bytes).len() == 32,
        forall|i: int| 0 <= i < 32 ==> #[trigger] decoded_seed(bytes)[i] == bytes[i],
        decoded_timestamp(bytes) < 0x1_0000_0000_0000_0000,
        forall|i: int|
            32 <= i < 40 ==> #[trigger] bytes[i] == ((decoded_timestamp(bytes) / pow256(
                (i - 32) as nat,
            )) % 256) as u8,
{
    let t = bytes.subrange(32, 40);
    lemma_le_value_bytes(t);
    lemma_pow256_values();
    assert forall|i: int| 32 <= i < 40 implies #[trigger] bytes[i] == ((decoded_timestamp(bytes)
        / pow256((i - 32) as nat)) % 256) as u8 by {
        lemma_le_bytes_index(le_value(t), 8, (i - 32) as nat);
        assert(t[i - 32] == bytes[i]);
    }
}

} // verus!
