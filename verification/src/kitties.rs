//! The kitties pallet: accounts create kitties with random DNA against a
//! reserve of funds, breed two of their kitties into a new one, and
//! transfer kitties to other accounts.
//!
//! The calls `create`, `breed` and `transfer` either succeed, or fail and
//! leave the state as it was. `mint` on its own, on an owner whose list is
//! full, writes the kitty and its owner before it fails.

use std::collections::HashMap;
use vstd::prelude::*;
use crate::currency::{
    account_of, balances_wf, reserved_view, total_of, unreserved_view, AccountData, Balance,
    Balances, law_reserve_keeps_totals, law_unreserve_keeps_totals,
};
use crate::dispatch::{ensure_signed, signer_of, AccountId, DispatchError, Origin};
use crate::hashing::{blake2_128, blake2_128_digest};
use crate::scale::{
    lemma_le_bytes_index, lemma_le_bytes_len, pow256, encoded_option_u32, encoded_u32, encoded_u64, push_bytes, push_option_u32, push_u32, push_u64,
};

verus! {

broadcast use vstd::std_specs::hash::group_hash_axioms;

/// Identifier of a kitty.
pub type KittyIndex = u32;

/// Block numbers of the runtime.
pub type BlockNumber = u32;

/// A kitty: its 16 bytes of DNA.
#[derive(Clone, Copy, Debug, PartialEq, Eq)]
pub struct Kitty(pub [u8; 16]);

/// The errors of the kitties pallet.
#[derive(Clone, Copy, Debug, PartialEq, Eq, Structural)]
pub enum Error {
    InvalidKittyId,
    NotOwner,
    SameKittyId,
    KittyIdOverflow,
    KittyCntOverflow,
    ExceedMaxKittyOwned,
    InvalidReserveAmount,
    NotEnoughBalance,
}

/// The events of the kitties pallet.
#[derive(Clone, Copy, Debug, PartialEq, Eq, Structural)]
pub enum Event {
    /// An account created a kitty.
    KittyCreated(AccountId, KittyIndex),
    /// An account bred a kitty.
    KittyBred(AccountId, KittyIndex),
    /// A kitty went from the first account to the second.
    KittyTransferred(AccountId, AccountId, KittyIndex),
}

/// The constants a runtime gives the pallet.
#[derive(Clone, Copy, Debug)]
pub struct Config {
    /// How many kitties one account may own.
    pub max_kitty_index: u32,
    /// What creating, breeding and transferring require the caller to be
    /// able to reserve, and what creating and transferring reserve.
    pub reserve_for_create_kitty: Balance,
}

/// The randomness that the chain offers a call: the random seed with the
/// block it belongs to, and the index of the extrinsic being executed.
#[derive(Clone, Copy, Debug)]
pub struct RandomnessSource {
    pub random_seed: [u8; 32],
    pub seed_block: BlockNumber,
    pub extrinsic_index: Option<u32>,
}

/// The starting value of the next kitty identifier.
#[allow(non_snake_case)]
pub fn GetDefaultValue() -> (r: KittyIndex)
    ensures
        r == 0,
{
    0
}

/// The storage of the pallet (and of the currency it reserves funds in).
struct Storage {
    config: Config,
    next_kitty_id: KittyIndex,
    kitties: HashMap<KittyIndex, Kitty>,
    kitty_owner: HashMap<KittyIndex, AccountId>,
    all_kitties: HashMap<AccountId, Vec<KittyIndex>>,
    currency: Balances,
    events: Vec<Event>,
}

/// The mathematical state of the pallet.
#[verifier::ext_equal]
pub struct PalletState {
    /// How many kitties one account may own.
    pub max_owned: u32,
    /// The amount that calls reserve.
    pub reserve: Balance,
    /// The identifier the next kitty gets.
    pub next_kitty_id: KittyIndex,
    /// The DNA of each kitty.
    pub kitties: Map<KittyIndex, Seq<u8>>,
    /// The owner of each kitty.
    pub owners: Map<KittyIndex, AccountId>,
    /// The kitties of each account, in the order it got them.
    pub owned: Map<AccountId, Seq<KittyIndex>>,
    /// The balances of all accounts.
    pub balances: Map<AccountId, AccountData>,
    /// The events deposited so far.
    pub events: Seq<Event>,
}

/// The kitties of `a` in `owned`; none where it has no entry.
pub open spec fn owned_in(owned: Map<AccountId, Seq<KittyIndex>>, a: AccountId) -> Seq<KittyIndex> {
    if owned.contains_key(a) {
        owned[a]
    } else {
        Seq::empty()
    }
}

/// The SCALE encoding of the payload that randomness is drawn from: the
/// random seed and its block, the sender, and the extrinsic index.
pub open spec fn random_payload(src: RandomnessSource, sender: AccountId) -> Seq<u8> {
    src.random_seed@ + encoded_u32(src.seed_block) + encoded_u64(sender) + encoded_option_u32(
        src.extrinsic_index,
    )
}

/// The 16 random bytes a call by `sender` draws.
pub open spec fn random_dna(src: RandomnessSource, sender: AccountId) -> Seq<u8> {
    blake2_128_digest(random_payload(src, sender))
}

/// One byte of a bred kitty: the bits of `a` where the selector is set,
/// and those of `b` where it is not.
pub open spec fn mix_byte(a: u8, b: u8, selector: u8) -> u8 {
    (a & selector) | (b & !selector)
}

/// The DNA bred from two parents with a selector.
pub open spec fn mixed_dna(dna_1: Seq<u8>, dna_2: Seq<u8>, selector: Seq<u8>) -> Seq<u8> {
    Seq::new(16, |i: int| mix_byte(dna_1[i], dna_2[i], selector[i]))
}

/// Every kitty's identifier lies below `next` and its DNA has 16 bytes.
pub open spec fn ids_below(kitties: Map<KittyIndex, Seq<u8>>, next: KittyIndex) -> bool {
    forall|k: KittyIndex| #[trigger] kitties.contains_key(k) ==> k < next && kitties[k].len() == 16
}

/// No list holds more than `max` kitties, nor one kitty twice.
pub open spec fn lists_bounded(owned: Map<AccountId, Seq<KittyIndex>>, max: u32) -> bool {
    forall|a: AccountId| #[trigger]
        owned.contains_key(a) ==> owned[a].len() <= max && owned[a].no_duplicates()
}

/// Every kitty in an account's list is owned by that account.
pub open spec fn lists_owned(
    owned: Map<AccountId, Seq<KittyIndex>>,
    owners: Map<KittyIndex, AccountId>,
) -> bool {
    forall|a: AccountId, k: KittyIndex| #[trigger]
        owned_in(owned, a).contains(k) ==> owners.contains_key(k) && owners[k] == a
}

/// Every kitty with an owner is in its owner's list.
pub open spec fn lists_complete(
    owned: Map<AccountId, Seq<KittyIndex>>,
    owners: Map<KittyIndex, AccountId>,
) -> bool {
    forall|k: KittyIndex| #[trigger] owners.contains_key(k) ==> owned_in(owned, owners[k]).contains(k)
}

impl PalletState {
    /// The kitties of `a`.
    pub open spec fn owned_by(self, a: AccountId) -> Seq<KittyIndex> {
        owned_in(self.owned, a)
    }

    /// Whether `a` owns kitty `k`.
    pub open spec fn owns(self, a: AccountId, k: KittyIndex) -> bool {
        self.owners.contains_key(k) && self.owners[k] == a
    }

    /// What holds of every state: owners and DNA are known for the same
    /// kitties, all below the next identifier; an account's list holds only
    /// kitties it owns, each once, and no more than allowed; balances fit.
    pub open spec fn wf_core(self) -> bool {
        &&& self.owners.dom() == self.kitties.dom()
        &&& ids_below(self.kitties, self.next_kitty_id)
        &&& lists_bounded(self.owned, self.max_owned)
        &&& lists_owned(self.owned, self.owners)
        &&& balances_wf(self.balances)
    }

    /// The invariant of the pallet: besides `wf_core`, every kitty is in
    /// its owner's list, so that the list of an account holds exactly the
    /// kitties it owns. Only a `mint` that fails on a full list breaks it.
    pub open spec fn wf(self) -> bool {
        &&& self.wf_core()
        &&& lists_complete(self.owned, self.owners)
    }

    /// The state with `b` as its balances.
    pub open spec fn with_balances(self, b: Map<AccountId, AccountData>) -> PalletState {
        PalletState { balances: b, ..self }
    }

    /// The state with `e` deposited.
    pub open spec fn with_event(self, e: Event) -> PalletState {
        PalletState { events: self.events.push(e), ..self }
    }

    /// Why minting a kitty for `owner` fails, if it does.
    pub open spec fn mint_failure(self, owner: AccountId) -> Option<Error> {
        if self.next_kitty_id == u32::MAX {
            Some(Error::InvalidKittyId)
        } else if self.owned_by(owner).len() >= self.max_owned {
            Some(Error::ExceedMaxKittyOwned)
        } else {
            None
        }
    }

    /// The state once a kitty with `dna` has the next identifier and `owner`
    /// as its owner and the next identifier has advanced, before the kitty
    /// is listed for its owner.
    pub open spec fn minted_unlisted(self, owner: AccountId, dna: Seq<u8>) -> PalletState {
        let id = self.next_kitty_id;
        PalletState {
            next_kitty_id: (id + 1) as KittyIndex,
            kitties: self.kitties.insert(id, dna),
            owners: self.owners.insert(id, owner),
            ..self
        }
    }

    /// The state after a kitty with `dna` is minted for `owner`: it gets the
    /// next identifier and goes to the end of the owner's list.
    pub open spec fn minted(self, owner: AccountId, dna: Seq<u8>) -> PalletState {
        let id = self.next_kitty_id;
        PalletState {
            next_kitty_id: (id + 1) as KittyIndex,
            kitties: self.kitties.insert(id, dna),
            owners: self.owners.insert(id, owner),
            owned: self.owned.insert(owner, self.owned_by(owner).push(id)),
            ..self
        }
    }

    /// Why a `create` call from `origin` fails, if it does.
    pub open spec fn create_failure(self, origin: Origin) -> Option<DispatchError> {
        match signer_of(origin) {
            None => Some(DispatchError::BadOrigin),
            Some(who) => if account_of(self.balances, who).free < self.reserve {
                Some(DispatchError::Module(Error::NotEnoughBalance))
            } else {
                match self.mint_failure(who) {
                    Some(e) => Some(DispatchError::Module(e)),
                    None => None,
                }
            },
        }
    }

    /// The state after `who` creates a kitty with `dna`.
    pub open spec fn created(self, who: AccountId, dna: Seq<u8>) -> PalletState {
        self.with_balances(reserved_view(self.balances, who, self.reserve)).minted(
            who,
            dna,
        ).with_event(Event::KittyCreated(who, self.next_kitty_id))
    }

    /// Why a `breed` call fails, if it does.
    pub open spec fn breed_failure(
        self,
        origin: Origin,
        kitty_id_1: KittyIndex,
        kitty_id_2: KittyIndex,
    ) -> Option<DispatchError> {
        match signer_of(origin) {
            None => Some(DispatchError::BadOrigin),
            Some(who) => if account_of(self.balances, who).free < self.reserve {
                Some(DispatchError::Module(Error::NotEnoughBalance))
            } else if kitty_id_1 == kitty_id_2 {
                Some(DispatchError::Module(Error::SameKittyId))
            } else if !self.kitties.contains_key(kitty_id_1) || !self.kitties.contains_key(
                kitty_id_2,
            ) {
                Some(DispatchError::Module(Error::InvalidKittyId))
            } else if !self.owns(who, kitty_id_1) || !self.owns(who, kitty_id_2) {
                Some(DispatchError::Module(Error::NotOwner))
            } else {
                match self.mint_failure(who) {
                    Some(e) => Some(DispatchError::Module(e)),
                    None => None,
                }
            },
        }
    }

    /// The state after `who` breeds kitties `kitty_id_1` and `kitty_id_2`
    /// with `selector`.
    pub open spec fn bred(
        self,
        who: AccountId,
        kitty_id_1: KittyIndex,
        kitty_id_2: KittyIndex,
        selector: Seq<u8>,
    ) -> PalletState {
        self.minted(
            who,
            mixed_dna(self.kitties[kitty_id_1], self.kitties[kitty_id_2], selector),
        ).with_event(Event::KittyBred(who, self.next_kitty_id))
    }

    /// The balances once `who` has handed its reserve over to `new_owner`.
    pub open spec fn transfer_balances(self, who: AccountId, new_owner: AccountId) -> Map<
        AccountId,
        AccountData,
    > {
        reserved_view(unreserved_view(self.balances, who, self.reserve), new_owner, self.reserve)
    }

    /// The kitty lists once `kitty_id` has left the list of `who` and gone
    /// to the end of that of `new_owner`.
    pub open spec fn transfer_owned(
        self,
        who: AccountId,
        new_owner: AccountId,
        kitty_id: KittyIndex,
    ) -> Map<AccountId, Seq<KittyIndex>> {
        let removed = self.owned.insert(who, self.owned_by(who).remove_value(kitty_id));
        removed.insert(new_owner, owned_in(removed, new_owner).push(kitty_id))
    }

    /// Whether the signer of `origin`, if it owns `kitty_id`, has it in its
    /// list: a transfer by it removes the kitty from there.
    pub open spec fn signer_lists_kitty(self, origin: Origin, kitty_id: KittyIndex) -> bool {
        match signer_of(origin) {
            Some(who) => self.owns(who, kitty_id) ==> self.owned_by(who).contains(kitty_id),
            None => true,
        }
    }

    /// Why a `transfer` call fails, if it does.
    pub open spec fn transfer_failure(
        self,
        origin: Origin,
        kitty_id: KittyIndex,
        new_owner: AccountId,
    ) -> Option<DispatchError> {
        match signer_of(origin) {
            None => Some(DispatchError::BadOrigin),
            Some(who) => if account_of(self.balances, who).free < self.reserve {
                Some(DispatchError::Module(Error::NotEnoughBalance))
            } else if !self.owns(who, kitty_id) {
                Some(DispatchError::Module(Error::NotOwner))
            } else if account_of(unreserved_view(self.balances, who, self.reserve), new_owner).free
                < self.reserve {
                Some(DispatchError::InsufficientBalance)
            } else if new_owner != who && self.owned_by(new_owner).len() >= self.max_owned {
                Some(DispatchError::Module(Error::ExceedMaxKittyOwned))
            } else {
                None
            },
        }
    }

    /// The state after `who` transfers `kitty_id` to `new_owner`.
    pub open spec fn transferred(
        self,
        who: AccountId,
        new_owner: AccountId,
        kitty_id: KittyIndex,
    ) -> PalletState {
        PalletState {
            balances: self.transfer_balances(who, new_owner),
            owners: self.owners.insert(kitty_id, new_owner),
            owned: self.transfer_owned(who, new_owner, kitty_id),
            events: self.events.push(Event::KittyTransferred(who, new_owner, kitty_id)),
            ..self
        }
    }
}

impl View for Storage {
    type V = PalletState;

    closed spec fn view(&self) -> PalletState {
        PalletState {
            max_owned: self.config.max_kitty_index,
            reserve: self.config.reserve_for_create_kitty,
            next_kitty_id: self.next_kitty_id,
            kitties: self.kitties@.map_values(|k: Kitty| k.0@),
            owners: self.kitty_owner@,
            owned: self.all_kitties@.map_values(|v: Vec<KittyIndex>| v@),
            balances: self.currency@,
            events: self.events@,
        }
    }
}

/// The DNA bred from two parents: each bit comes from the first parent
/// where the selector's bit is set, and from the second where it is not.
pub fn breed_dna(parent_1: &Kitty, parent_2: &Kitty, selector: &[u8; 16]) -> (dna: [u8; 16])
    ensures
        dna@ == mixed_dna(parent_1.0@, parent_2.0@, selector@),
{
    let mut data = [0u8; 16];
    let mut i: usize = 0;
    while i < 16
        invariant
            i <= 16,
            data@.len() == 16,
            forall|j: int| 0 <= j < i ==> #[trigger] data@[j] == mix_byte(
                parent_1.0@[j],
                parent_2.0@[j],
                selector@[j],
            ),
        decreases 16 - i,
    {
        data[i] = (parent_1.0[i] & selector[i]) | (parent_2.0[i] & !selector[i]);
        i = i + 1;
    }
    assert(data@ =~= mixed_dna(parent_1.0@, parent_2.0@, selector@));
    data
}

/// The 16 random bytes that a call by `sender` draws from `src`: the
/// BLAKE2b-128 digest of their SCALE encoding.
fn random_value(src: &RandomnessSource, sender: AccountId) -> (r: [u8; 16])
    ensures
        r@ == random_dna(*src, sender),
{
    let mut payload: Vec<u8> = Vec::new();
    push_bytes(&mut payload, &src.random_seed);
    push_u32(&mut payload, src.seed_block);
    push_u64(&mut payload, sender);
    push_option_u32(&mut payload, src.extrinsic_index);
    assert(payload@ =~= random_payload(*src, sender));
    blake2_128(payload.as_slice())
}

impl Storage {
    /// A pallet with no kitties, the given constants and balances.
    fn new(config: Config, currency: Balances) -> (p: Storage)
        ensures
            p@.wf(),
            p@.max_owned == config.max_kitty_index,
            p@.reserve == config.reserve_for_create_kitty,
            p@.next_kitty_id == 0,
            p@.kitties == Map::<KittyIndex, Seq<u8>>::empty(),
            p@.owners == Map::<KittyIndex, AccountId>::empty(),
            p@.owned == Map::<AccountId, Seq<KittyIndex>>::empty(),
            p@.balances == currency@,
            p@.events == Seq::<Event>::empty(),
    {
        proof {
            use_type_invariant(&currency);
            currency.lemma_inv_is_wf();
        }
        let p = Storage {
            config,
            next_kitty_id: GetDefaultValue(),
            kitties: HashMap::new(),
            kitty_owner: HashMap::new(),
            all_kitties: HashMap::new(),
            currency,
            events: Vec::new(),
        };
        assert(p@.kitties =~= Map::<KittyIndex, Seq<u8>>::empty());
        assert(p@.owned =~= Map::<AccountId, Seq<KittyIndex>>::empty());
        p
    }
}


impl Storage {
    /// The identifier the next kitty gets.
    fn next_kitty_id(&self) -> (r: KittyIndex)
        ensures
            r == self@.next_kitty_id,
    {
        self.next_kitty_id
    }

    /// The kitty with identifier `kitty_id`, if there is one.
    fn kitties(&self, kitty_id: KittyIndex) -> (r: Option<Kitty>)
        ensures
            r is Some <==> self@.kitties.contains_key(kitty_id),
            r matches Some(k) ==> k.0@ == self@.kitties[kitty_id],
    {
        match self.kitties.get(&kitty_id) {
            Some(k) => Some(*k),
            None => None,
        }
    }

    /// The owner of kitty `kitty_id`, if there is one.
    fn kitty_owner(&self, kitty_id: KittyIndex) -> (r: Option<AccountId>)
        ensures
            r == (if self@.owners.contains_key(kitty_id) {
                Some(self@.owners[kitty_id])
            } else {
                None::<AccountId>
            }),
    {
        match self.kitty_owner.get(&kitty_id) {
            Some(a) => Some(*a),
            None => None,
        }
    }

    /// The kitties of `who`, in the order it got them.
    fn all_kitties(&self, who: AccountId) -> (r: Vec<KittyIndex>)
        ensures
            r@ == self@.owned_by(who),
    {
        match self.all_kitties.get(&who) {
            Some(v) => {
                let mut out: Vec<KittyIndex> = Vec::new();
                let mut i: usize = 0;
                while i < v.len()
                    invariant
                        i <= v@.len(),
                        out@ == v@.subrange(0, i as int),
                    decreases v@.len() - i,
                {
                    out.push(v[i]);
                    i = i + 1;
                    assert(out@ =~= v@.subrange(0, i as int));
                }
                assert(v@.subrange(0, v@.len() as int) =~= v@);
                out
            },
            None => Vec::new(),
        }
    }

    /// The events deposited so far.
    fn events(&self) -> (r: &Vec<Event>)
        ensures
            r@ == self@.events,
    {
        &self.events
    }

    /// The balances of all accounts.
    fn currency(&self) -> (r: &Balances)
        ensures
            r@ == self@.balances,
    {
        &self.currency
    }

    /// The constants the pallet runs with.
    fn config(&self) -> (r: Config)
        ensures
            r.max_kitty_index == self@.max_owned,
            r.reserve_for_create_kitty == self@.reserve,
    {
        self.config
    }

    /// Sets the identifier the next kitty gets. It must lie above the
    /// identifiers of all kitties there are.
    fn set_next_kitty_id(&mut self, id: KittyIndex)
        requires
            old(self)@.wf_core(),
            forall|k: KittyIndex| #[trigger] old(self)@.kitties.contains_key(k) ==> k < id,
        ensures
            final(self)@.wf_core(),
            old(self)@.wf() ==> final(self)@.wf(),
            final(self)@ == (PalletState { next_kitty_id: id, ..old(self)@ }),
    {
        self.next_kitty_id = id;
        assert(self@ =~= (PalletState { next_kitty_id: id, ..old(self)@ }));
        assert forall|k: KittyIndex| #[trigger] self@.kitties.contains_key(k) implies k
            < self@.next_kitty_id && self@.kitties[k].len() == 16 by {
            assert(old(self)@.kitties.contains_key(k));
        }
    }

    /// The next identifier, unless it is the largest one.
    fn get_next_id(&self) -> (r: Result<KittyIndex, ()>)
        ensures
            r == (if self@.next_kitty_id == u32::MAX {
                Err::<KittyIndex, ()>(())
            } else {
                Ok::<KittyIndex, ()>(self@.next_kitty_id)
            }),
    {
        let kitty_id = self.next_kitty_id;
        if u32::MAX <= kitty_id {
            Err(())
        } else {
            Ok(kitty_id)
        }
    }

    /// The kitty with identifier `kitty_id`.
    fn get_kitty(&self, kitty_id: KittyIndex) -> (r: Result<Kitty, ()>)
        ensures
            r is Ok <==> self@.kitties.contains_key(kitty_id),
            r matches Ok(k) ==> k.0@ == self@.kitties[kitty_id],
    {
        match self.kitties(kitty_id) {
            Some(kitty) => Ok(kitty),
            None => Err(()),
        }
    }

    /// Mints a kitty with `dna` for `owner` under the next identifier, and
    /// returns that identifier. Fails with `InvalidKittyId`, changing
    /// nothing, when the next identifier is the largest one. When the owner
    /// already has as many kitties as allowed it fails with
    /// `ExceedMaxKittyOwned` after the kitty, its owner and the advanced next
    /// identifier have been written, but without listing the kitty for its
    /// owner: a call around it that fails on this error must drop its writes.
    fn mint(&mut self, owner: AccountId, dna: [u8; 16]) -> (r: Result<KittyIndex, Error>)
        requires
            old(self)@.wf_core(),
        ensures
            final(self)@.wf_core(),
            old(self)@.wf() && old(self)@.mint_failure(owner) != Some(Error::ExceedMaxKittyOwned)
                ==> final(self)@.wf(),
            match old(self)@.mint_failure(owner) {
                Some(Error::ExceedMaxKittyOwned) => r == Err::<KittyIndex, Error>(
                    Error::ExceedMaxKittyOwned,
                ) && final(self)@ == old(self)@.minted_unlisted(owner, dna@),
                Some(e) => r == Err::<KittyIndex, Error>(e) && final(self)@ == old(self)@,
                None => r == Ok::<KittyIndex, Error>(old(self)@.next_kitty_id) && final(self)@
                    == old(self)@.minted(owner, dna@),
            },
    {
        let kitty_id = match self.get_next_id() {
            Ok(id) => id,
            Err(()) => return Err(Error::InvalidKittyId),
        };
        let ghost pre = self@;
        self.kitties.insert(kitty_id, Kitty(dna));
        self.kitty_owner.insert(kitty_id, owner);
        self.next_kitty_id = kitty_id + 1;
        assert(self@.kitties =~= pre.kitties.insert(kitty_id, dna@));
        let count: usize = match self.all_kitties.get(&owner) {
            Some(v) => v.len(),
            None => 0,
        };
        if count as u64 >= self.config.max_kitty_index as u64 {
            assert(self@ =~= pre.minted_unlisted(owner, dna@));
            proof {
                lemma_minted_unlisted(pre, owner, dna@);
            }
            return Err(Error::ExceedMaxKittyOwned);
        }
        let mut list = match self.all_kitties.remove(&owner) {
            Some(v) => v,
            None => Vec::new(),
        };
        list.push(kitty_id);
        self.all_kitties.insert(owner, list);
        proof {
            assert(self@.owned =~= pre.owned.insert(owner, pre.owned_by(owner).push(kitty_id)));
            assert(self@ =~= pre.minted(owner, dna@));
            lemma_minted(pre, owner, dna@);
        }
        Ok(kitty_id)
    }
}

/// A kitty pushed onto a list without repetitions that lacks it leaves a
/// list without repetitions that holds exactly one more element.
pub proof fn lemma_push_fresh(l: Seq<KittyIndex>, x: KittyIndex)
    requires
        l.no_duplicates(),
        !l.contains(x),
    ensures
        l.push(x).no_duplicates(),
        forall|k: KittyIndex| #[trigger] l.push(x).contains(k) <==> (l.contains(k) || k == x),
{
    let p = l.push(x);
    assert forall|i: int, j: int| 0 <= i < p.len() && 0 <= j < p.len() && i != j implies p[i]
        != p[j] by {
        if i < l.len() && j < l.len() {
            assert(l[i] != l[j]);
        } else if i < l.len() {
            assert(l.contains(l[i]));
        } else {
            assert(l.contains(l[j]));
        }
    }
    assert forall|k: KittyIndex| #[trigger] p.contains(k) <==> (l.contains(k) || k == x) by {
        if p.contains(k) {
            let i = choose|i: int| 0 <= i < p.len() && p[i] == k;
            if i < l.len() {
                assert(l[i] == k);
            }
        }
        if l.contains(k) {
            let i = choose|i: int| 0 <= i < l.len() && l[i] == k;
            assert(p[i] == k);
        }
        if k == x {
            assert(p[l.len() as int] == x);
        }
    }
}

/// Minting keeps what holds of every state, and keeps lists complete.
pub proof fn lemma_minted(s: PalletState, owner: AccountId, dna: Seq<u8>)
    requires
        s.wf_core(),
        s.mint_failure(owner) is None,
        dna.len() == 16,
    ensures
        s.minted(owner, dna).wf_core(),
        lists_complete(s.owned, s.owners) ==> lists_complete(
            s.minted(owner, dna).owned,
            s.minted(owner, dna).owners,
        ),
{
    let n = s.minted(owner, dna);
    let id = s.next_kitty_id;
    let l = s.owned_by(owner);
    assert(!s.kitties.contains_key(id));
    assert(n.owners.dom() =~= n.kitties.dom());
    assert(!l.contains(id));
    if s.owned.contains_key(owner) {
        assert(s.owned[owner].no_duplicates());
    }
    lemma_push_fresh(l, id);
    assert(owned_in(n.owned, owner) == l.push(id));
    assert forall|a: AccountId| #[trigger] n.owned.contains_key(a) implies n.owned[a].len()
        <= n.max_owned && n.owned[a].no_duplicates() by {
        if a != owner {
            assert(n.owned[a] == s.owned[a]);
        }
    }
    assert forall|k: KittyIndex| #[trigger] n.kitties.contains_key(k) implies k < n.next_kitty_id
        && n.kitties[k].len() == 16 by {
        if k != id {
            assert(s.kitties.contains_key(k));
        }
    }
    assert forall|a: AccountId, k: KittyIndex| #[trigger]
        owned_in(n.owned, a).contains(k) implies n.owners.contains_key(k) && n.owners[k] == a by {
        if a == owner {
            if k != id {
                assert(l.contains(k));
            }
        } else {
            assert(owned_in(n.owned, a) == owned_in(s.owned, a));
            assert(s.owners.contains_key(k));
        }
    }
    if lists_complete(s.owned, s.owners) {
        assert forall|k: KittyIndex| #[trigger] n.owners.contains_key(k) implies owned_in(
            n.owned,
            n.owners[k],
        ).contains(k) by {
            if k != id {
                let b = s.owners[k];
                assert(owned_in(s.owned, b).contains(k));
                if b != owner {
                    assert(owned_in(n.owned, b) == owned_in(s.owned, b));
                }
            }
        }
    }
}

/// Writing a kitty and its owner without listing it keeps what holds of
/// every state.
pub proof fn lemma_minted_unlisted(s: PalletState, owner: AccountId, dna: Seq<u8>)
    requires
        s.wf_core(),
        s.next_kitty_id < u32::MAX,
        dna.len() == 16,
    ensures
        s.minted_unlisted(owner, dna).wf_core(),
{
    let n = s.minted_unlisted(owner, dna);
    let id = s.next_kitty_id;
    assert(n.owners.dom() =~= n.kitties.dom());
    assert forall|k: KittyIndex| #[trigger] n.kitties.contains_key(k) implies k < n.next_kitty_id
        && n.kitties[k].len() == 16 by {
        if k != id {
            assert(s.kitties.contains_key(k));
        }
    }
    assert forall|a: AccountId, k: KittyIndex| #[trigger]
        owned_in(n.owned, a).contains(k) implies n.owners.contains_key(k) && n.owners[k] == a by {
        assert(s.owners.contains_key(k));
    }
}

/// Minting keeps the pallet invariant.
pub proof fn law_mint_keeps_wf(s: PalletState, owner: AccountId, dna: Seq<u8>)
    requires
        s.wf(),
        s.mint_failure(owner) is None,
        dna.len() == 16,
    ensures
        s.minted(owner, dna).wf(),
{
    lemma_minted(s, owner, dna);
}


impl Storage {
    /// Whether minting for `owner` would succeed now; the error otherwise.
    fn can_mint(&self, owner: AccountId) -> (r: Result<(), Error>)
        ensures
            r == (match self@.mint_failure(owner) {
                Some(e) => Err::<(), Error>(e),
                None => Ok::<(), Error>(()),
            }),
    {
        match self.get_next_id() {
            Ok(_) => {},
            Err(()) => return Err(Error::InvalidKittyId),
        }
        let count: usize = match self.all_kitties.get(&owner) {
            Some(v) => v.len(),
            None => 0,
        };
        if count as u64 >= self.config.max_kitty_index as u64 {
            return Err(Error::ExceedMaxKittyOwned);
        }
        Ok(())
    }

    /// Moves `value` of `who` into reserve, keeping the invariant.
    fn reserve_funds(&mut self, who: AccountId, value: Balance) -> (r: Result<(), DispatchError>)
        requires
            old(self)@.wf_core(),
        ensures
            final(self)@.wf_core(),
            old(self)@.wf() ==> final(self)@.wf(),
            account_of(old(self)@.balances, who).free >= value ==> r is Ok && final(self)@
                == old(self)@.with_balances(reserved_view(old(self)@.balances, who, value)),
            account_of(old(self)@.balances, who).free < value ==> r == Err::<(), DispatchError>(
                DispatchError::InsufficientBalance,
            ) && final(self)@ == old(self)@,
    {
        let ghost pre = self@;
        let r = self.currency.reserve(who, value);
        assert(self@ =~= pre.with_balances(self.currency@));
        r
    }

    /// Moves up to `value` of `who` out of reserve, keeping the invariant.
    fn unreserve_funds(&mut self, who: AccountId, value: Balance)
        requires
            old(self)@.wf_core(),
        ensures
            final(self)@.wf_core(),
            old(self)@.wf() ==> final(self)@.wf(),
            final(self)@ == old(self)@.with_balances(unreserved_view(old(self)@.balances, who, value)),
    {
        let ghost pre = self@;
        let _ = self.currency.unreserve(who, value);
        assert(self@ =~= pre.with_balances(self.currency@));
    }

    /// Appends `event` to the deposited events.
    fn deposit_event(&mut self, event: Event)
        requires
            old(self)@.wf_core(),
        ensures
            final(self)@.wf_core(),
            old(self)@.wf() ==> final(self)@.wf(),
            final(self)@ == old(self)@.with_event(event),
    {
        let ghost pre = self@;
        self.events.push(event);
        assert(self@ =~= pre.with_event(event));
    }

    /// Creates a kitty for the signer of `origin`: reserves the configured
    /// amount of its funds and mints a kitty whose DNA is drawn from `src`.
    fn create(&mut self, origin: Origin, src: &RandomnessSource) -> (r: Result<(), DispatchError>)
        requires
            old(self)@.wf_core(),
        ensures
            final(self)@.wf_core(),
            old(self)@.wf() ==> final(self)@.wf(),
            match old(self)@.create_failure(origin) {
                Some(e) => r == Err::<(), DispatchError>(e) && final(self)@ == old(self)@,
                None => r is Ok && final(self)@ == old(self)@.created(
                    signer_of(origin)->0,
                    random_dna(*src, signer_of(origin)->0),
                ),
            },
    {
        let who = match ensure_signed(origin) {
            Ok(who) => who,
            Err(e) => return Err(e),
        };
        let kitty_price = self.config.reserve_for_create_kitty;
        if !self.currency.can_reserve(who, kitty_price) {
            return Err(DispatchError::Module(Error::NotEnoughBalance));
        }
        match self.can_mint(who) {
            Ok(()) => {},
            Err(e) => return Err(DispatchError::Module(e)),
        }
        match self.reserve_funds(who, kitty_price) {
            Ok(()) => {},
            Err(e) => return Err(e),
        }
        let dna = random_value(src, who);
        let kitty_id = match self.mint(who, dna) {
            Ok(id) => id,
            Err(e) => return Err(DispatchError::Module(e)),
        };
        self.deposit_event(Event::KittyCreated(who, kitty_id));
        Ok(())
    }

    /// Breeds a new kitty for the signer of `origin` from two kitties it
    /// owns: each bit of the new DNA comes from the first parent where a
    /// selector drawn from `src` has it set, and from the second elsewhere.
    fn breed(
        &mut self,
        origin: Origin,
        kitty_id_1: KittyIndex,
        kitty_id_2: KittyIndex,
        src: &RandomnessSource,
    ) -> (r: Result<(), DispatchError>)
        requires
            old(self)@.wf_core(),
        ensures
            final(self)@.wf_core(),
            old(self)@.wf() ==> final(self)@.wf(),
            match old(self)@.breed_failure(origin, kitty_id_1, kitty_id_2) {
                Some(e) => r == Err::<(), DispatchError>(e) && final(self)@ == old(self)@,
                None => r is Ok && final(self)@ == old(self)@.bred(
                    signer_of(origin)->0,
                    kitty_id_1,
                    kitty_id_2,
                    random_dna(*src, signer_of(origin)->0),
                ),
            },
    {
        let who = match ensure_signed(origin) {
            Ok(who) => who,
            Err(e) => return Err(e),
        };
        let kitty_price = self.config.reserve_for_create_kitty;
        if !self.currency.can_reserve(who, kitty_price) {
            return Err(DispatchError::Module(Error::NotEnoughBalance));
        }
        if kitty_id_1 == kitty_id_2 {
            return Err(DispatchError::Module(Error::SameKittyId));
        }
        let kitty_1 = match self.get_kitty(kitty_id_1) {
            Ok(k) => k,
            Err(()) => return Err(DispatchError::Module(Error::InvalidKittyId)),
        };
        let kitty_2 = match self.get_kitty(kitty_id_2) {
            Ok(k) => k,
            Err(()) => return Err(DispatchError::Module(Error::InvalidKittyId)),
        };
        match self.kitty_owner(kitty_id_1) {
            Some(owner) if owner == who => {},
            _ => return Err(DispatchError::Module(Error::NotOwner)),
        }
        match self.kitty_owner(kitty_id_2) {
            Some(owner) if owner == who => {},
            _ => return Err(DispatchError::Module(Error::NotOwner)),
        }
        match self.can_mint(who) {
            Ok(()) => {},
            Err(e) => return Err(DispatchError::Module(e)),
        }
        let selector = random_value(src, who);
        let data = breed_dna(&kitty_1, &kitty_2, &selector);
        let kitty_id = match self.mint(who, data) {
            Ok(id) => id,
            Err(e) => return Err(DispatchError::Module(e)),
        };
        self.deposit_event(Event::KittyBred(who, kitty_id));
        Ok(())
    }
}


/// The index of the first occurrence of `x` in `list`.
fn position(list: &Vec<KittyIndex>, x: KittyIndex) -> (i: usize)
    requires
        list@.contains(x),
    ensures
        i < list@.len(),
        list@[i as int] == x,
        list@.index_of_first(x) == Some(i as int),
{
    let mut i: usize = 0;
    while i < list.len()
        invariant
            i <= list@.len(),
            list@.contains(x),
            forall|j: int| 0 <= j < i ==> list@[j] != x,
        decreases list@.len() - i,
    {
        if list[i] == x {
            proof {
                list@.index_of_first_ensures(x);
                let first = list@.index_of_first(x)->0;
                assert(first == i);
            }
            return i;
        }
        i = i + 1;
    }
    proof {
        let j = choose|j: int| 0 <= j < list@.len() && list@[j] == x;
        assert(list@[j] == x);
    }
    0
}

/// Removing the one occurrence of `x` from a list without repetitions
/// leaves exactly the other elements, still without repetitions.
pub proof fn lemma_remove_value_unique(l: Seq<KittyIndex>, x: KittyIndex)
    requires
        l.no_duplicates(),
        l.contains(x),
    ensures
        l.remove_value(x).len() == l.len() - 1,
        l.remove_value(x).no_duplicates(),
        forall|k: KittyIndex| #[trigger]
            l.remove_value(x).contains(k) <==> (l.contains(k) && k != x),
{
    l.index_of_first_ensures(x);
    let i = l.index_of_first(x)->0;
    let r = l.remove(i);
    assert(l.remove_value(x) == r);
    assert forall|k: KittyIndex| #[trigger] r.contains(k) <==> (l.contains(k) && k != x) by {
        if r.contains(k) {
            let j = choose|j: int| 0 <= j < r.len() && r[j] == k;
            if j < i {
                assert(l[j] == k);
                assert(j != i);
            } else {
                assert(l[j + 1] == k);
                assert(j + 1 != i);
            }
        }
        if l.contains(k) && k != x {
            let j = choose|j: int| 0 <= j < l.len() && l[j] == k;
            assert(j != i);
            if j < i {
                assert(r[j] == k);
            } else {
                assert(r[j - 1] == k);
            }
        }
    }
    assert forall|a: int, b: int| 0 <= a < r.len() && 0 <= b < r.len() && a != b implies r[a]
        != r[b] by {
        let a1 = if a < i { a } else { a + 1 };
        let b1 = if b < i { b } else { b + 1 };
        assert(r[a] == l[a1]);
        assert(r[b] == l[b1]);
    }
}

/// A transfer keeps what holds of every state, and keeps lists complete.
pub proof fn lemma_transferred(
    s: PalletState,
    who: AccountId,
    new_owner: AccountId,
    kitty_id: KittyIndex,
)
    requires
        s.wf_core(),
        s.transfer_failure(Origin::Signed(who), kitty_id, new_owner) is None,
        s.owned_by(who).contains(kitty_id),
    ensures
        s.transferred(who, new_owner, kitty_id).wf_core(),
        lists_complete(s.owned, s.owners) ==> lists_complete(
            s.transferred(who, new_owner, kitty_id).owned,
            s.transferred(who, new_owner, kitty_id).owners,
        ),
{
    let n = s.transferred(who, new_owner, kitty_id);
    law_unreserve_keeps_totals(s.balances, who, s.reserve);
    law_reserve_keeps_totals(unreserved_view(s.balances, who, s.reserve), new_owner, s.reserve);
    assert(n.owners.dom() =~= n.kitties.dom());
    let l = s.owned_by(who);
    assert(s.owned.contains_key(who));
    assert(s.owned[who].no_duplicates());
    lemma_remove_value_unique(l, kitty_id);
    let removed = s.owned.insert(who, l.remove_value(kitty_id));
    let target = owned_in(removed, new_owner);
    if new_owner != who {
        assert(target == s.owned_by(new_owner));
        if s.owned.contains_key(new_owner) {
            assert(s.owned[new_owner].no_duplicates());
        }
        if target.contains(kitty_id) {
            assert(s.owners[kitty_id] == new_owner);
        }
    }
    assert(!target.contains(kitty_id));
    lemma_push_fresh(target, kitty_id);
    assert(owned_in(n.owned, new_owner) == target.push(kitty_id));
    assert forall|a: AccountId| #[trigger] n.owned.contains_key(a) implies n.owned[a].len()
        <= n.max_owned && n.owned[a].no_duplicates() by {
        if a == new_owner {
        } else if a == who {
            assert(n.owned[a] == l.remove_value(kitty_id));
        } else {
            assert(n.owned[a] == s.owned[a]);
        }
    }
    assert forall|a: AccountId, k: KittyIndex| #[trigger]
        owned_in(n.owned, a).contains(k) implies n.owners.contains_key(k) && n.owners[k] == a by {
        if a == new_owner {
            if k != kitty_id {
                assert(target.contains(k));
                if new_owner != who {
                    assert(owned_in(s.owned, new_owner).contains(k));
                } else {
                    assert(l.contains(k));
                }
            }
        } else if a == who {
            assert(owned_in(n.owned, a) == l.remove_value(kitty_id));
            assert(l.contains(k));
        } else {
            assert(owned_in(n.owned, a) == owned_in(s.owned, a));
            assert(s.owners.contains_key(k) && s.owners[k] == a);
        }
    }
    if lists_complete(s.owned, s.owners) {
        assert forall|k: KittyIndex| #[trigger] n.owners.contains_key(k) implies owned_in(
            n.owned,
            n.owners[k],
        ).contains(k) by {
            if k != kitty_id {
                let b = s.owners[k];
                assert(owned_in(s.owned, b).contains(k));
                if b == new_owner {
                    if new_owner == who {
                        assert(l.remove_value(kitty_id).contains(k));
                    }
                    assert(target.contains(k));
                } else if b == who {
                    assert(l.remove_value(kitty_id).contains(k));
                    assert(owned_in(n.owned, b) == l.remove_value(kitty_id));
                } else {
                    assert(owned_in(n.owned, b) == owned_in(s.owned, b));
                }
            }
        }
    }
    assert(ids_below(n.kitties, n.next_kitty_id));
}

/// A transfer keeps the pallet invariant.
pub proof fn law_transfer_keeps_wf(
    s: PalletState,
    who: AccountId,
    new_owner: AccountId,
    kitty_id: KittyIndex,
)
    requires
        s.wf(),
        s.transfer_failure(Origin::Signed(who), kitty_id, new_owner) is None,
    ensures
        s.transferred(who, new_owner, kitty_id).wf(),
{
    assert(s.owners.contains_key(kitty_id));
    assert(owned_in(s.owned, s.owners[kitty_id]).contains(kitty_id));
    lemma_transferred(s, who, new_owner, kitty_id);
}

impl Storage {
    /// Why `who` cannot transfer `kitty_id` to `new_owner`, if it cannot.
    fn transfer_check(&self, who: AccountId, kitty_id: KittyIndex, new_owner: AccountId) -> (r:
        Result<(), DispatchError>)
        requires
            self@.wf_core(),
        ensures
            r == (match self@.transfer_failure(Origin::Signed(who), kitty_id, new_owner) {
                Some(e) => Err::<(), DispatchError>(e),
                None => Ok::<(), DispatchError>(()),
            }),
    {
        let kitty_price = self.config.reserve_for_create_kitty;
        if !self.currency.can_reserve(who, kitty_price) {
            return Err(DispatchError::Module(Error::NotEnoughBalance));
        }
        let owned = match self.kitty_owner(kitty_id) {
            Some(owner) => owner == who,
            None => false,
        };
        if !owned {
            return Err(DispatchError::Module(Error::NotOwner));
        }
        // What the new owner can reserve once the signer's reserve is back.
        let who_free = self.currency.free_balance(who);
        let who_reserved = self.currency.reserved_balance(who);
        let returned = if who_reserved < kitty_price {
            who_reserved
        } else {
            kitty_price
        };
        proof {
            let m = self@.balances;
            if m.contains_key(who) {
                assert(m[who].free + m[who].reserved <= u128::MAX);
            }
        }
        let new_owner_free = if new_owner == who {
            who_free + returned
        } else {
            self.currency.free_balance(new_owner)
        };
        if new_owner_free < kitty_price {
            return Err(DispatchError::InsufficientBalance);
        }
        if new_owner != who {
            let count: usize = match self.all_kitties.get(&new_owner) {
                Some(v) => v.len(),
                None => 0,
            };
            if count as u64 >= self.config.max_kitty_index as u64 {
                return Err(DispatchError::Module(Error::ExceedMaxKittyOwned));
            }
        }
        Ok(())
    }

    /// Carries out a transfer that `transfer_check` allowed.
    fn apply_transfer(&mut self, who: AccountId, kitty_id: KittyIndex, new_owner: AccountId)
        requires
            old(self)@.wf_core(),
            old(self)@.transfer_failure(Origin::Signed(who), kitty_id, new_owner) is None,
            old(self)@.owned_by(who).contains(kitty_id),
        ensures
            final(self)@.wf_core(),
            old(self)@.wf() ==> final(self)@.wf(),
            final(self)@ == old(self)@.transferred(who, new_owner, kitty_id),
    {
        let ghost pre = self@;
        proof {
            lemma_transferred(pre, who, new_owner, kitty_id);
        }
        let kitty_price = self.config.reserve_for_create_kitty;
        self.unreserve_funds(who, kitty_price);
        let _ = self.reserve_funds(new_owner, kitty_price);
        assert(self@.balances == pre.transfer_balances(who, new_owner));
        self.kitty_owner.insert(kitty_id, new_owner);
        let mut list = match self.all_kitties.remove(&who) {
            Some(v) => v,
            None => Vec::new(),
        };
        assert(list@ == pre.owned_by(who));
        let index = position(&list, kitty_id);
        list.remove(index);
        self.all_kitties.insert(who, list);
        let ghost removed = pre.owned.insert(who, pre.owned_by(who).remove_value(kitty_id));
        assert(self.all_kitties@.map_values(|v: Vec<KittyIndex>| v@) =~= removed);
        let mut list = match self.all_kitties.remove(&new_owner) {
            Some(v) => v,
            None => Vec::new(),
        };
        assert(list@ == owned_in(removed, new_owner));
        list.push(kitty_id);
        self.all_kitties.insert(new_owner, list);
        proof {
            assert(self@.owned =~= pre.transfer_owned(who, new_owner, kitty_id));
            assert(self@.owners =~= pre.owners.insert(kitty_id, new_owner));
        }
        self.events.push(Event::KittyTransferred(who, new_owner, kitty_id));
        assert(self@ =~= pre.transferred(who, new_owner, kitty_id));
    }

    /// Transfers kitty `kitty_id` from the signer of `origin`, who must own
    /// it, to `new_owner`; the reserve moves from the signer to the new owner.
    fn transfer(&mut self, origin: Origin, kitty_id: KittyIndex, new_owner: AccountId) -> (r:
        Result<(), DispatchError>)
        requires
            old(self)@.wf_core(),
            old(self)@.signer_lists_kitty(origin, kitty_id),
        ensures
            final(self)@.wf_core(),
            old(self)@.wf() ==> final(self)@.wf(),
            match old(self)@.transfer_failure(origin, kitty_id, new_owner) {
                Some(e) => r == Err::<(), DispatchError>(e) && final(self)@ == old(self)@,
                None => r is Ok && final(self)@ == old(self)@.transferred(
                    signer_of(origin)->0,
                    new_owner,
                    kitty_id,
                ),
            },
    {
        let who = match ensure_signed(origin) {
            Ok(who) => who,
            Err(e) => return Err(e),
        };
        match self.transfer_check(who, kitty_id, new_owner) {
            Ok(()) => {},
            Err(e) => return Err(e),
        }
        self.apply_transfer(who, kitty_id, new_owner);
        Ok(())
    }
}


/// A created kitty gets the next identifier, which no kitty had; it has the
/// drawn DNA, belongs to the creator and ends the creator's list; the
/// creator's reserve grows by the configured amount and the event says so.
pub proof fn law_create_registers_kitty(s: PalletState, who: AccountId, dna: Seq<u8>)
    requires
        s.wf(),
        s.create_failure(Origin::Signed(who)) is None,
    ensures
        ({
            let n = s.created(who, dna);
            let id = s.next_kitty_id;
            &&& !s.kitties.contains_key(id)
            &&& n.next_kitty_id == id + 1
            &&& n.kitties.contains_key(id) && n.kitties[id] == dna
            &&& n.owns(who, id)
            &&& n.owned_by(who) == s.owned_by(who).push(id)
            &&& account_of(n.balances, who).reserved == account_of(s.balances, who).reserved
                + s.reserve
            &&& account_of(n.balances, who).free == account_of(s.balances, who).free - s.reserve
            &&& n.events == s.events.push(Event::KittyCreated(who, id))
        }),
{
}

/// Breeding mints a kitty for the breeder whose DNA mixes its parents', and
/// leaves all balances as they were.
pub proof fn law_breed_registers_kitty(
    s: PalletState,
    who: AccountId,
    kitty_id_1: KittyIndex,
    kitty_id_2: KittyIndex,
    selector: Seq<u8>,
)
    requires
        s.wf(),
        s.breed_failure(Origin::Signed(who), kitty_id_1, kitty_id_2) is None,
    ensures
        ({
            let n = s.bred(who, kitty_id_1, kitty_id_2, selector);
            let id = s.next_kitty_id;
            &&& !s.kitties.contains_key(id)
            &&& n.next_kitty_id == id + 1
            &&& n.kitties[id] == mixed_dna(s.kitties[kitty_id_1], s.kitties[kitty_id_2], selector)
            &&& n.owns(who, id)
            &&& n.owns(who, kitty_id_1) && n.owns(who, kitty_id_2)
            &&& n.balances == s.balances
            &&& n.events == s.events.push(Event::KittyBred(who, id))
        }),
{
}

/// After a transfer the new owner owns the kitty and has it in its list,
/// the old owner (if another account) no longer has it, and no kitty is
/// created or changed.
pub proof fn law_transfer_moves_kitty(
    s: PalletState,
    who: AccountId,
    new_owner: AccountId,
    kitty_id: KittyIndex,
)
    requires
        s.wf(),
        s.transfer_failure(Origin::Signed(who), kitty_id, new_owner) is None,
    ensures
        ({
            let n = s.transferred(who, new_owner, kitty_id);
            &&& n.owns(new_owner, kitty_id)
            &&& n.owned_by(new_owner).contains(kitty_id)
            &&& who != new_owner ==> !n.owned_by(who).contains(kitty_id)
            &&& who != new_owner ==> n.owned_by(who).len() == s.owned_by(who).len() - 1
            &&& who != new_owner ==> n.owned_by(new_owner).len() == s.owned_by(new_owner).len() + 1
            &&& who == new_owner ==> n.owned_by(who).len() == s.owned_by(who).len()
            &&& n.kitties == s.kitties
            &&& n.next_kitty_id == s.next_kitty_id
            &&& n.events == s.events.push(Event::KittyTransferred(who, new_owner, kitty_id))
        }),
{
    law_transfer_keeps_wf(s, who, new_owner, kitty_id);
    let n = s.transferred(who, new_owner, kitty_id);
    let l = s.owned_by(who);
    assert(l.contains(kitty_id));
    assert(s.owned.contains_key(who));
    lemma_remove_value_unique(l, kitty_id);
    assert(owned_in(n.owned, new_owner).contains(kitty_id) <==> (n.owners.contains_key(kitty_id)
        && n.owners[kitty_id] == new_owner));
    assert(owned_in(n.owned, who).contains(kitty_id) <==> (n.owners.contains_key(kitty_id)
        && n.owners[kitty_id] == who));
}

/// No call creates or destroys funds: after a successful create, breed or
/// transfer every account holds the same total of free and reserved funds.
pub proof fn law_calls_keep_totals(
    s: PalletState,
    who: AccountId,
    new_owner: AccountId,
    kitty_id: KittyIndex,
    kitty_id_2: KittyIndex,
    dna: Seq<u8>,
)
    requires
        s.wf(),
    ensures
        s.create_failure(Origin::Signed(who)) is None ==> forall|a: AccountId| #[trigger]
            total_of(s.created(who, dna).balances, a) == total_of(s.balances, a),
        s.breed_failure(Origin::Signed(who), kitty_id, kitty_id_2) is None ==> forall|a: AccountId|
            #[trigger] total_of(s.bred(who, kitty_id, kitty_id_2, dna).balances, a) == total_of(
                s.balances,
                a,
            ),
        s.transfer_failure(Origin::Signed(who), kitty_id, new_owner) is None ==> forall|
            a: AccountId,
        | #[trigger] total_of(s.transferred(who, new_owner, kitty_id).balances, a) == total_of(
            s.balances,
            a,
        ),
{
    if s.create_failure(Origin::Signed(who)) is None {
        law_reserve_keeps_totals(s.balances, who, s.reserve);
    }
    if s.transfer_failure(Origin::Signed(who), kitty_id, new_owner) is None {
        let m = unreserved_view(s.balances, who, s.reserve);
        law_unreserve_keeps_totals(s.balances, who, s.reserve);
        law_reserve_keeps_totals(m, new_owner, s.reserve);
    }
}

/// Each bit of a bred kitty's DNA is its first parent's where the selector
/// has the bit set, and its second parent's where it has not.
pub proof fn law_bred_bits_come_from_parents(dna_1: Seq<u8>, dna_2: Seq<u8>, selector: Seq<u8>)
    ensures
        mixed_dna(dna_1, dna_2, selector).len() == 16,
        forall|i: int|
            0 <= i < 16 ==> (#[trigger] mixed_dna(dna_1, dna_2, selector)[i] & selector[i]) == (
            dna_1[i] & selector[i]) && (mixed_dna(dna_1, dna_2, selector)[i] & !selector[i]) == (
            dna_2[i] & !selector[i]),
{
    assert forall|i: int| 0 <= i < 16 implies (#[trigger] mixed_dna(dna_1, dna_2, selector)[i]
        & selector[i]) == (dna_1[i] & selector[i]) && (mixed_dna(dna_1, dna_2, selector)[i]
        & !selector[i]) == (dna_2[i] & !selector[i]) by {
        let a = dna_1[i];
        let b = dna_2[i];
        let sel = selector[i];
        assert(((a & sel) | (b & !sel)) & sel == a & sel) by (bit_vector);
        assert(((a & sel) | (b & !sel)) & !sel == b & !sel) by (bit_vector);
    }
}

/// Breeding a kitty with itself, whatever the selector, gives its own DNA.
pub proof fn law_breeding_identical_dna(dna: Seq<u8>, selector: Seq<u8>)
    requires
        dna.len() == 16,
    ensures
        mixed_dna(dna, dna, selector) == dna,
{
    assert forall|i: int| 0 <= i < 16 implies #[trigger] mixed_dna(dna, dna, selector)[i]
        == dna[i] by {
        let a = dna[i];
        let sel = selector[i];
        assert((a & sel) | (a & !sel) == a) by (bit_vector);
    }
    assert(mixed_dna(dna, dna, selector) =~= dna);
}


impl Storage {
    /// Storage with nothing in it.
    fn empty() -> (e: Storage)
        ensures
            e@.wf(),
    {
        Storage::new(Config { max_kitty_index: 0, reserve_for_create_kitty: 0 }, Balances::new())
    }
}

/// The kitties pallet.
pub struct Pallet {
    storage: Storage,
}

impl View for Pallet {
    type V = PalletState;

    closed spec fn view(&self) -> PalletState {
        self.storage@
    }
}

impl Pallet {
    /// What holds of the pallet's state at all times.
    #[verifier::type_invariant]
    spec fn inv(self) -> bool {
        self.storage@.wf_core()
    }

    /// The pallet invariant.
    pub open spec fn wf(&self) -> bool {
        self@.wf()
    }

    /// Takes the storage out, leaving empty storage in its place.
    fn take_storage(&mut self) -> (st: Storage)
        ensures
            st@ == old(self)@,
            st@.wf_core(),
    {
        proof {
            use_type_invariant(&*self);
        }
        let mut st = Storage::empty();
        std::mem::swap(&mut st, &mut self.storage);
        st
    }

    /// A pallet with no kitties, the given constants and balances.
    pub fn new(config: Config, currency: Balances) -> (p: Pallet)
        ensures
            p.wf(),
            p@.max_owned == config.max_kitty_index,
            p@.reserve == config.reserve_for_create_kitty,
            p@.next_kitty_id == 0,
            p@.kitties == Map::<KittyIndex, Seq<u8>>::empty(),
            p@.owners == Map::<KittyIndex, AccountId>::empty(),
            p@.owned == Map::<AccountId, Seq<KittyIndex>>::empty(),
            p@.balances == currency@,
            p@.events == Seq::<Event>::empty(),
    {
        Pallet { storage: Storage::new(config, currency) }
    }

    /// The identifier the next kitty gets.
    pub fn next_kitty_id(&self) -> (r: KittyIndex)
        ensures
            r == self@.next_kitty_id,
    {
        self.storage.next_kitty_id()
    }

    /// The kitty with identifier `kitty_id`, if there is one.
    pub fn kitties(&self, kitty_id: KittyIndex) -> (r: Option<Kitty>)
        ensures
            r is Some <==> self@.kitties.contains_key(kitty_id),
            r matches Some(k) ==> k.0@ == self@.kitties[kitty_id],
    {
        self.storage.kitties(kitty_id)
    }

    /// The owner of kitty `kitty_id`, if there is one.
    pub fn kitty_owner(&self, kitty_id: KittyIndex) -> (r: Option<AccountId>)
        ensures
            r == (if self@.owners.contains_key(kitty_id) {
                Some(self@.owners[kitty_id])
            } else {
                None::<AccountId>
            }),
    {
        self.storage.kitty_owner(kitty_id)
    }

    /// The kitties of `who`, in the order it got them.
    pub fn all_kitties(&self, who: AccountId) -> (r: Vec<KittyIndex>)
        ensures
            r@ == self@.owned_by(who),
    {
        self.storage.all_kitties(who)
    }

    /// The events deposited so far.
    pub fn events(&self) -> (r: &Vec<Event>)
        ensures
            r@ == self@.events,
    {
        self.storage.events()
    }

    /// The balances of all accounts.
    pub fn currency(&self) -> (r: &Balances)
        ensures
            r@ == self@.balances,
    {
        self.storage.currency()
    }

    /// The constants the pallet runs with.
    pub fn config(&self) -> (r: Config)
        ensures
            r.max_kitty_index == self@.max_owned,
            r.reserve_for_create_kitty == self@.reserve,
    {
        self.storage.config()
    }

    /// Sets the identifier the next kitty gets. It must lie above the
    /// identifiers of all kitties there are.
    pub fn set_next_kitty_id(&mut self, id: KittyIndex)
        requires
            forall|k: KittyIndex| #[trigger] old(self)@.kitties.contains_key(k) ==> k < id,
        ensures
            old(self).wf() ==> final(self).wf(),
            final(self)@ == (PalletState { next_kitty_id: id, ..old(self)@ }),
    {
        let mut st = self.take_storage();
        st.set_next_kitty_id(id);
        self.storage = st;
    }

    /// Mints a kitty with `dna` for `owner` under the next identifier, and
    /// returns that identifier. Fails with `InvalidKittyId`, changing
    /// nothing, when the next identifier is the largest one. When the owner
    /// already has as many kitties as allowed it fails with
    /// `ExceedMaxKittyOwned` after the kitty, its owner and the advanced next
    /// identifier have been written, but without listing the kitty for its
    /// owner: a call around it that fails on this error must drop its writes.
    pub fn mint(&mut self, owner: AccountId, dna: [u8; 16]) -> (r: Result<KittyIndex, Error>)
        ensures
            old(self).wf() && old(self)@.mint_failure(owner) != Some(Error::ExceedMaxKittyOwned)
                ==> final(self).wf(),
            match old(self)@.mint_failure(owner) {
                Some(Error::ExceedMaxKittyOwned) => r == Err::<KittyIndex, Error>(
                    Error::ExceedMaxKittyOwned,
                ) && final(self)@ == old(self)@.minted_unlisted(owner, dna@),
                Some(e) => r == Err::<KittyIndex, Error>(e) && final(self)@ == old(self)@,
                None => r == Ok::<KittyIndex, Error>(old(self)@.next_kitty_id) && final(self)@
                    == old(self)@.minted(owner, dna@),
            },
    {
        let mut st = self.take_storage();
        let r = st.mint(owner, dna);
        self.storage = st;
        r
    }

    /// Creates a kitty for the signer of `origin`: reserves the configured
    /// amount of its funds and mints a kitty whose DNA is drawn from `src`.
    pub fn create(&mut self, origin: Origin, src: &RandomnessSource) -> (r: Result<(), DispatchError>)
        ensures
            old(self).wf() ==> final(self).wf(),
            match old(self)@.create_failure(origin) {
                Some(e) => r == Err::<(), DispatchError>(e) && final(self)@ == old(self)@,
                None => r is Ok && final(self)@ == old(self)@.created(
                    signer_of(origin)->0,
                    random_dna(*src, signer_of(origin)->0),
                ),
            },
    {
        let mut st = self.take_storage();
        let r = st.create(origin, src);
        self.storage = st;
        r
    }

    /// Breeds a new kitty for the signer of `origin` from two kitties it
    /// owns: each bit of the new DNA comes from the first parent where a
    /// selector drawn from `src` has it set, and from the second elsewhere.
    pub fn breed(
        &mut self,
        origin: Origin,
        kitty_id_1: KittyIndex,
        kitty_id_2: KittyIndex,
        src: &RandomnessSource,
    ) -> (r: Result<(), DispatchError>)
        ensures
            old(self).wf() ==> final(self).wf(),
            match old(self)@.breed_failure(origin, kitty_id_1, kitty_id_2) {
                Some(e) => r == Err::<(), DispatchError>(e) && final(self)@ == old(self)@,
                None => r is Ok && final(self)@ == old(self)@.bred(
                    signer_of(origin)->0,
                    kitty_id_1,
                    kitty_id_2,
                    random_dna(*src, signer_of(origin)->0),
                ),
            },
    {
        let mut st = self.take_storage();
        let r = st.breed(origin, kitty_id_1, kitty_id_2, src);
        self.storage = st;
        r
    }

    /// Transfers kitty `kitty_id` from the signer of `origin`, who must own
    /// it, to `new_owner`; the reserve moves from the signer to the new owner.
    /// The signer's list must hold the kitty if the signer owns it, which
    /// the pallet invariant guarantees.
    pub fn transfer(&mut self, origin: Origin, kitty_id: KittyIndex, new_owner: AccountId) -> (r:
        Result<(), DispatchError>)
        requires
            old(self)@.signer_lists_kitty(origin, kitty_id),
        ensures
            old(self).wf() ==> final(self).wf(),
            match old(self)@.transfer_failure(origin, kitty_id, new_owner) {
                Some(e) => r == Err::<(), DispatchError>(e) && final(self)@ == old(self)@,
                None => r is Ok && final(self)@ == old(self)@.transferred(
                    signer_of(origin)->0,
                    new_owner,
                    kitty_id,
                ),
            },
    {
        let mut st = self.take_storage();
        let r = st.transfer(origin, kitty_id, new_owner);
        self.storage = st;
        r
    }
}


/// The bytes a call by `sender` draws its randomness from are the SCALE
/// encoding of ((seed, seed block), sender, extrinsic index): the 32 seed
/// bytes in order, then the base-256 digits of the seed block (4), of the
/// sender (8), least significant first, then a tag byte 0 for no extrinsic
/// index, or 1 followed by the index's 4 digits.
pub proof fn law_random_payload_layout(src: RandomnessSource, sender: AccountId)
    ensures
        ({
            let p = random_payload(src, sender);
            &&& p.len() == (if src.extrinsic_index is Some {
                49int
            } else {
                45int
            })
            &&& forall|i: int| 0 <= i < 32 ==> #[trigger] p[i] == src.random_seed@[i]
            &&& forall|i: int|
                32 <= i < 36 ==> #[trigger] p[i] == ((src.seed_block as nat / pow256(
                    (i - 32) as nat,
                )) % 256) as u8
            &&& forall|i: int|
                36 <= i < 44 ==> #[trigger] p[i] == ((sender as nat / pow256((i - 36) as nat))
                    % 256) as u8
            &&& src.extrinsic_index is None ==> p[44] == 0
            &&& src.extrinsic_index matches Some(x) ==> p[44] == 1 && forall|i: int|
                45 <= i < 49 ==> #[trigger] p[i] == ((x as nat / pow256((i - 45) as nat)) % 256)
                    as u8
        }),
{
    let p = random_payload(src, sender);
    let seed = src.random_seed@;
    let eb = encoded_u32(src.seed_block);
    let es = encoded_u64(sender);
    let eo = encoded_option_u32(src.extrinsic_index);
    lemma_le_bytes_len(src.seed_block as nat, 4);
    lemma_le_bytes_len(sender as nat, 8);
    assert(seed.len() == 32);
    assert(p == seed + eb + es + eo);
    assert forall|i: int| 32 <= i < 36 implies #[trigger] p[i] == ((src.seed_block as nat / pow256(
        (i - 32) as nat,
    )) % 256) as u8 by {
        lemma_le_bytes_index(src.seed_block as nat, 4, (i - 32) as nat);
        assert(p[i] == eb[i - 32]);
    }
    assert forall|i: int| 36 <= i < 44 implies #[trigger] p[i] == ((sender as nat / pow256(
        (i - 36) as nat,
    )) % 256) as u8 by {
        lemma_le_bytes_index(sender as nat, 8, (i - 36) as nat);
        assert(p[i] == es[i - 36]);
    }
    assert(p[44] == eo[0]);
    if let Some(x) = src.extrinsic_index {
        lemma_le_bytes_len(x as nat, 4);
        assert forall|i: int| 45 <= i < 49 implies #[trigger] p[i] == ((x as nat / pow256(
            (i - 45) as nat,
        )) % 256) as u8 by {
            lemma_le_bytes_index(x as nat, 4, (i - 45) as nat);
            assert(p[i] == eo[i - 44]);
        }
    }
}

/// Creating, breeding and transferring all require the signer's free
/// balance, and nothing else of its funds, to cover the reserve amount:
/// below it each call fails with `NotEnoughBalance` (and so changes
/// nothing), whatever the signer holds in reserve; at or above it none of
/// them fails for that reason.
pub proof fn law_calls_need_free_balance(
    s: PalletState,
    who: AccountId,
    kitty_id_1: KittyIndex,
    kitty_id_2: KittyIndex,
    new_owner: AccountId,
)
    ensures
        account_of(s.balances, who).free < s.reserve ==> {
            &&& s.create_failure(Origin::Signed(who)) == Some(
                DispatchError::Module(Error::NotEnoughBalance),
            )
            &&& s.breed_failure(Origin::Signed(who), kitty_id_1, kitty_id_2) == Some(
                DispatchError::Module(Error::NotEnoughBalance),
            )
            &&& s.transfer_failure(Origin::Signed(who), kitty_id_1, new_owner) == Some(
                DispatchError::Module(Error::NotEnoughBalance),
            )
        },
        account_of(s.balances, who).free >= s.reserve ==> {
            &&& s.create_failure(Origin::Signed(who)) != Some(
                DispatchError::Module(Error::NotEnoughBalance),
            )
            &&& s.breed_failure(Origin::Signed(who), kitty_id_1, kitty_id_2) != Some(
                DispatchError::Module(Error::NotEnoughBalance),
            )
            &&& s.transfer_failure(Origin::Signed(who), kitty_id_1, new_owner) != Some(
                DispatchError::Module(Error::NotEnoughBalance),
            )
        },
{
}

/// A transfer takes the kitty out of the signer's list and keeps the other
/// kitties there in their order; it appends the kitty to the new owner's
/// list; every other account's list stays as it was.
pub proof fn law_transfer_list_order(
    s: PalletState,
    who: AccountId,
    new_owner: AccountId,
    kitty_id: KittyIndex,
)
    requires
        s.wf(),
        s.transfer_failure(Origin::Signed(who), kitty_id, new_owner) is None,
    ensures
        exists|i: int|
            0 <= i < s.owned_by(who).len() && s.owned_by(who)[i] == kitty_id && ({
                let l = s.owned_by(who);
                let rest = l.subrange(0, i) + l.subrange(i + 1, l.len() as int);
                let n = s.transferred(who, new_owner, kitty_id);
                &&& who != new_owner ==> n.owned_by(who) == rest && n.owned_by(new_owner)
                    == s.owned_by(new_owner).push(kitty_id)
                &&& who == new_owner ==> n.owned_by(who) == rest.push(kitty_id)
            }),
        forall|a: AccountId|
            a != who && a != new_owner ==> #[trigger] s.transferred(
                who,
                new_owner,
                kitty_id,
            ).owned_by(a) == s.owned_by(a),
{
    let l = s.owned_by(who);
    assert(s.owners.contains_key(kitty_id));
    assert(owned_in(s.owned, s.owners[kitty_id]).contains(kitty_id));
    l.index_of_first_ensures(kitty_id);
    let i = l.index_of_first(kitty_id)->0;
    assert(l.remove_value(kitty_id) == l.subrange(0, i) + l.subrange(i + 1, l.len() as int));
    assert(l[i] == kitty_id);
}

} // verus!
