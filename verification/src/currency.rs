//! A reservable currency: each account has a free and a reserved balance,
//! and funds move between the two.

use std::collections::HashMap;
use vstd::prelude::*;
use crate::dispatch::{AccountId, DispatchError};

verus! {

broadcast use vstd::std_specs::hash::group_hash_axioms;

/// Balance amounts.
pub type Balance = u128;

/// The free and the reserved balance of one account.
#[derive(Clone, Copy, Debug, PartialEq, Eq, Structural)]
pub struct AccountData {
    pub free: Balance,
    pub reserved: Balance,
}

/// The balances of all accounts. An account that holds nothing need not
/// have an entry.
pub struct Balances {
    accounts: HashMap<AccountId, AccountData>,
}

/// The account data of `who` in `m`, zero where it has no entry.
pub open spec fn account_of(m: Map<AccountId, AccountData>, who: AccountId) -> AccountData {
    if m.contains_key(who) {
        m[who]
    } else {
        AccountData { free: 0, reserved: 0 }
    }
}

/// Free plus reserved balance of `who` in `m`.
pub open spec fn total_of(m: Map<AccountId, AccountData>, who: AccountId) -> nat {
    (account_of(m, who).free + account_of(m, who).reserved) as nat
}

/// No account's free and reserved balance together exceed the balance type.
pub open spec fn balances_wf(m: Map<AccountId, AccountData>) -> bool {
    forall|a: AccountId|
        #![trigger m[a]]
        m.contains_key(a) ==> m[a].free + m[a].reserved <= u128::MAX
}

/// The accounts that a genesis list endows: each with its free balance and
/// nothing reserved; a later entry for the same account wins.
pub open spec fn genesis_accounts(endowed: Seq<(AccountId, Balance)>) -> Map<AccountId, AccountData>
    decreases endowed.len(),
{
    if endowed.len() == 0 {
        Map::empty()
    } else {
        let last = endowed.last();
        genesis_accounts(endowed.drop_last()).insert(
            last.0,
            AccountData { free: last.1, reserved: 0 },
        )
    }
}

/// The balances after `reserve(who, value)` succeeds.
pub open spec fn reserved_view(
    m: Map<AccountId, AccountData>,
    who: AccountId,
    value: Balance,
) -> Map<AccountId, AccountData> {
    if value == 0 {
        m
    } else {
        m.insert(
            who,
            AccountData {
                free: (account_of(m, who).free - value) as u128,
                reserved: (account_of(m, who).reserved + value) as u128,
            },
        )
    }
}

/// How much `unreserve(who, value)` moves back to the free balance.
pub open spec fn unreserve_amount(
    m: Map<AccountId, AccountData>,
    who: AccountId,
    value: Balance,
) -> Balance {
    if account_of(m, who).reserved < value {
        account_of(m, who).reserved
    } else {
        value
    }
}

/// The balances after `unreserve(who, value)`.
pub open spec fn unreserved_view(
    m: Map<AccountId, AccountData>,
    who: AccountId,
    value: Balance,
) -> Map<AccountId, AccountData> {
    let actual = unreserve_amount(m, who, value);
    if actual == 0 {
        m
    } else {
        m.insert(
            who,
            AccountData {
                free: (account_of(m, who).free + actual) as u128,
                reserved: (account_of(m, who).reserved - actual) as u128,
            },
        )
    }
}

impl View for Balances {
    type V = Map<AccountId, AccountData>;

    closed spec fn view(&self) -> Map<AccountId, AccountData> {
        self.accounts@
    }
}

impl Balances {
    /// No account's free and reserved balance together exceed the balance type.
    #[verifier::type_invariant]
    pub(crate) closed spec fn inv(self) -> bool {
        balances_wf(self.accounts@)
    }

    /// Sets the account data of `who`.
    fn set_account(&mut self, who: AccountId, data: AccountData)
        requires
            data.free + data.reserved <= u128::MAX,
        ensures
            final(self)@ == old(self)@.insert(who, data),
    {
        proof {
            use_type_invariant(&*self);
        }
        let mut accounts: HashMap<AccountId, AccountData> = HashMap::new();
        std::mem::swap(&mut accounts, &mut self.accounts);
        accounts.insert(who, data);
        self.accounts = accounts;
    }

    /// Balances in which no account holds anything.
    pub fn new() -> (b: Balances)
        ensures
            b@ == Map::<AccountId, AccountData>::empty(),
            balances_wf(b@),
    {
        Balances { accounts: HashMap::new() }
    }

    /// Balances in which each listed account has the listed free balance.
    pub fn from_genesis(endowed: &Vec<(AccountId, Balance)>) -> (b: Balances)
        ensures
            b@ == genesis_accounts(endowed@),
            balances_wf(b@),
    {
        let mut accounts: HashMap<AccountId, AccountData> = HashMap::new();
        let mut i: usize = 0;
        while i < endowed.len()
            invariant
                i <= endowed@.len(),
                accounts@ == genesis_accounts(endowed@.subrange(0, i as int)),
                balances_wf(accounts@),
            decreases endowed@.len() - i,
        {
            let (who, free) = endowed[i];
            accounts.insert(who, AccountData { free, reserved: 0 });
            proof {
                let pre = endowed@.subrange(0, i as int);
                let post = endowed@.subrange(0, i + 1);
                assert(post.drop_last() =~= pre);
            }
            i = i + 1;
        }
        assert(endowed@.subrange(0, endowed@.len() as int) =~= endowed@);
        Balances { accounts }
    }

    /// The free balance of `who`.
    pub fn free_balance(&self, who: AccountId) -> (r: Balance)
        ensures
            r == account_of(self@, who).free,
    {
        match self.accounts.get(&who) {
            Some(data) => data.free,
            None => 0,
        }
    }

    /// The reserved balance of `who`.
    pub fn reserved_balance(&self, who: AccountId) -> (r: Balance)
        ensures
            r == account_of(self@, who).reserved,
    {
        match self.accounts.get(&who) {
            Some(data) => data.reserved,
            None => 0,
        }
    }

    /// Whether `reserve(who, value)` would succeed now.
    pub fn can_reserve(&self, who: AccountId, value: Balance) -> (r: bool)
        ensures
            r == (account_of(self@, who).free >= value),
    {
        self.free_balance(who) >= value
    }

    /// Moves `value` from the free to the reserved balance of `who`. If the
    /// free balance is lower than `value`, nothing moves and the call fails.
    pub fn reserve(&mut self, who: AccountId, value: Balance) -> (r: Result<(), DispatchError>)
        ensures
            balances_wf(final(self)@),
            account_of(old(self)@, who).free >= value ==> r is Ok && final(self)@ == reserved_view(
                old(self)@,
                who,
                value,
            ),
            account_of(old(self)@, who).free < value ==> r == Err::<(), DispatchError>(
                DispatchError::InsufficientBalance,
            ) && final(self)@ == old(self)@,
    {
        proof {
            use_type_invariant(&*self);
        }
        if value == 0 {
            return Ok(());
        }
        let data = match self.accounts.get(&who) {
            Some(d) => *d,
            None => AccountData { free: 0, reserved: 0 },
        };
        if data.free < value {
            return Err(DispatchError::InsufficientBalance);
        }
        assert(data.free + data.reserved <= u128::MAX);
        let new_data = AccountData { free: data.free - value, reserved: data.reserved + value };
        self.set_account(who, new_data);
        Ok(())
    }

    /// Moves up to `value` from the reserved to the free balance of `who`,
    /// and returns the part of `value` that could not be moved.
    pub fn unreserve(&mut self, who: AccountId, value: Balance) -> (remaining: Balance)
        ensures
            balances_wf(final(self)@),
            final(self)@ == unreserved_view(old(self)@, who, value),
            remaining == value - unreserve_amount(old(self)@, who, value),
    {
        proof {
            use_type_invariant(&*self);
        }
        let data = match self.accounts.get(&who) {
            Some(d) => *d,
            None => AccountData { free: 0, reserved: 0 },
        };
        let actual = if data.reserved < value {
            data.reserved
        } else {
            value
        };
        if actual == 0 {
            return value;
        }
        assert(data.free + data.reserved <= u128::MAX);
        let new_data = AccountData { free: data.free + actual, reserved: data.reserved - actual };
        self.set_account(who, new_data);
        value - actual
    }
}

impl Balances {
    /// Every value of the type keeps the balances within the balance type.
    pub(crate) proof fn lemma_inv_is_wf(self)
        requires
            self.inv(),
        ensures
            balances_wf(self@),
    {
    }
}

/// Reserving keeps each account's total: funds only move within the account.
pub proof fn law_reserve_keeps_totals(m: Map<AccountId, AccountData>, who: AccountId, value: Balance)
    requires
        balances_wf(m),
        account_of(m, who).free >= value,
    ensures
        forall|a: AccountId| #[trigger] total_of(reserved_view(m, who, value), a) == total_of(m, a),
        balances_wf(reserved_view(m, who, value)),
{
}

/// Unreserving keeps each account's total: funds only move within the account.
pub proof fn law_unreserve_keeps_totals(m: Map<AccountId, AccountData>, who: AccountId, value: Balance)
    requires
        balances_wf(m),
    ensures
        forall|a: AccountId| #[trigger] total_of(unreserved_view(m, who, value), a) == total_of(m, a),
        balances_wf(unreserved_view(m, who, value)),
{
}

} // verus!
