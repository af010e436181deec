# kitties

Verified logic of two FRAME pallets, written in Verus.

- `src/kitties.rs` — the kitties pallet: `create`, `breed`, `transfer` and
  `mint` over a state of kitties, owners, per-account kitty lists, balances
  and events. Each call is specified exactly, including which error it ends
  with; a failed `create`, `breed` or `transfer` leaves the state
  unchanged, and these calls keep the pallet invariant (owners and lists
  agree, lists are bounded and free of repetitions, identifiers lie below
  the next one, balances fit). Part of that invariant is a type invariant of
  `Pallet`; the rest only a `mint` that fails on a full list can break.
- `src/currency.rs` — a reservable currency (free and reserved balances).
- `src/offchain_index.rs` — the off-chain indexing pallet: storage keys,
  the indexed value's encoding and decoding, `submit_data`, and what the
  off-chain worker does at each block.
- `src/scale.rs` — the little-endian SCALE encodings the pallets use.
- `src/hashing.rs` — the BLAKE2b-128 digest from `sp_io`, the one call into
  an outside crate.
- `app/` — runtime-side glue: off-chain storage access, signing keys,
  codec derives on copies of the library's types.
