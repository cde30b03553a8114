//! Per-account storage balances: deposits that pay for the contract-side
//! storage an account's operations take up.

use vstd::prelude::*;

use crate::error::OracleError;
use crate::types::AccountId;

verus! {

/// Price per byte of storage, in the chain's smallest token unit.
pub const STORAGE_PRICE_PER_BYTE: u128 = 10_000_000_000_000_000_000;

/// The smallest deposit that registers an account.
pub const STORAGE_MINIMUM_BALANCE: u128 = 10_000_000_000_000_000_000_000;

/// One account's storage balance.
#[derive(Clone, Copy, PartialEq, Eq, Structural, Debug)]
pub struct AccountStorageBalance {
    pub total: u128,
    pub available: u128,
}

/// A storage balance as reported to callers.
#[derive(Clone, Copy, PartialEq, Eq, Structural, Debug)]
pub struct StorageBalance {
    pub total: u128,
    pub available: u128,
}

/// The deposit bounds the contract reports.
#[derive(Clone, Copy, PartialEq, Eq, Structural, Debug)]
pub struct StorageBalanceBounds {
    pub min: u128,
    pub max: Option<u128>,
}

struct StorageEntry {
    account: AccountId,
    balance: AccountStorageBalance,
}

/// The balance the first entry for the account holds, if any.
spec fn storage_lookup(s: Seq<StorageEntry>, a: Seq<char>) -> Option<AccountStorageBalance>
    decreases s.len(),
{
    if s.len() == 0 {
        Option::<AccountStorageBalance>::None
    } else if s[0].account@ == a {
        Option::Some(s[0].balance)
    } else {
        storage_lookup(s.drop_first(), a)
    }
}

spec fn storage_keys_unique(s: Seq<StorageEntry>) -> bool {
    forall|i: int, j: int| 0 <= i < j < s.len() ==> s[i].account@ != s[j].account@
}

proof fn lemma_storage_lookup_at(s: Seq<StorageEntry>, k: int)
    requires
        0 <= k < s.len(),
        forall|j: int| 0 <= j < k ==> s[j].account@ != s[k].account@,
    ensures
        storage_lookup(s, s[k].account@) == Option::Some(s[k].balance),
    decreases k,
{
    if k > 0 {
        lemma_storage_lookup_at(s.drop_first(), k - 1);
    }
}

proof fn lemma_storage_lookup_absent(s: Seq<StorageEntry>, a: Seq<char>)
    requires
        forall|j: int| 0 <= j < s.len() ==> s[j].account@ != a,
    ensures
        storage_lookup(s, a) is None,
    decreases s.len(),
{
    if s.len() > 0 {
        lemma_storage_lookup_absent(s.drop_first(), a);
    }
}

proof fn lemma_storage_lookup_update(s: Seq<StorageEntry>, k: int, e: StorageEntry)
    requires
        0 <= k < s.len(),
        forall|j: int| 0 <= j < s.len() && j != k ==> s[j].account@ != s[k].account@,
        e.account@ == s[k].account@,
    ensures
        forall|a: Seq<char>|
            storage_lookup(s.update(k, e), a) == if a == e.account@ {
                Option::Some(e.balance)
            } else {
                storage_lookup(s, a)
            },
    decreases k,
{
    if k == 0 {
        assert(s.update(0, e).drop_first() =~= s.drop_first());
        assert forall|a: Seq<char>| a != e.account@ implies storage_lookup(s.update(0, e), a)
            == storage_lookup(s, a) by {
            assert(storage_lookup(s.update(0, e), a) == storage_lookup(
                s.update(0, e).drop_first(), a));
        }
    } else {
        lemma_storage_lookup_update(s.drop_first(), k - 1, e);
        assert(s.update(k, e).drop_first() =~= s.drop_first().update(k - 1, e));
        assert(s.update(k, e)[0] == s[0]);
        assert forall|a: Seq<char>|
            storage_lookup(s.update(k, e), a) == (if a == e.account@ {
                Option::Some(e.balance)
            } else {
                storage_lookup(s, a)
            }) by {
            assert(storage_lookup(s.drop_first().update(k - 1, e), a) == (if a == e.account@ {
                Option::Some(e.balance)
            } else {
                storage_lookup(s.drop_first(), a)
            }));
        }
    }
}

proof fn lemma_storage_lookup_push(s: Seq<StorageEntry>, e: StorageEntry)
    requires
        forall|j: int| 0 <= j < s.len() ==> s[j].account@ != e.account@,
    ensures
        forall|a: Seq<char>|
            storage_lookup(s.push(e), a) == if a == e.account@ {
                Option::Some(e.balance)
            } else {
                storage_lookup(s, a)
            },
    decreases s.len(),
{
    if s.len() == 0 {
        assert(s.push(e)[0] == e);
        assert(s.push(e).drop_first() =~= s);
    } else {
        lemma_storage_lookup_push(s.drop_first(), e);
        assert(s.push(e).drop_first() =~= s.drop_first().push(e));
        assert(s.push(e)[0] == s[0]);
        assert forall|a: Seq<char>|
            storage_lookup(s.push(e), a) == (if a == e.account@ {
                Option::Some(e.balance)
            } else {
                storage_lookup(s, a)
            }) by {
            assert(storage_lookup(s.drop_first().push(e), a) == (if a == e.account@ {
                Option::Some(e.balance)
            } else {
                storage_lookup(s.drop_first(), a)
            }));
        }
    }
}

/// Account to storage balance.
pub struct StorageAccounts {
    entries: Vec<StorageEntry>,
}

impl StorageAccounts {
    /// Keys are unique, so the lookup function describes the list exactly.
    pub closed spec fn wf(self) -> bool {
        storage_keys_unique(self.entries@)
    }

    /// The account's balance; a zero balance when it never deposited.
    pub closed spec fn balance_entry(self, a: Seq<char>) -> Option<AccountStorageBalance> {
        storage_lookup(self.entries@, a)
    }

    /// The account's balance, with the zero default folded in.
    pub open spec fn balance_of(self, a: Seq<char>) -> AccountStorageBalance {
        match self.balance_entry(a) {
            Option::Some(b) => b,
            Option::None => AccountStorageBalance { total: 0, available: 0 },
        }
    }

    /// An empty ledger.
    pub fn new() -> (r: Self)
        ensures
            r.wf(),
            forall|a: Seq<char>| r.balance_entry(a) is None,
    {
        let r = StorageAccounts { entries: Vec::new() };
        proof {
            assert forall|a: Seq<char>| r.balance_entry(a) is None by {
                lemma_storage_lookup_absent(r.entries@, a);
            }
        }
        r
    }

    /// Reads the account's balance, zero if it never deposited.
    #[verifier::loop_isolation(false)]
    pub fn get(&self, account: &AccountId) -> (r: AccountStorageBalance)
        requires
            self.wf(),
        ensures
            r == self.balance_of(account@),
    {
        let n = self.entries.len();
        let mut i: usize = 0;
        while i < n
            invariant
                0 <= i <= n,
                forall|j: int| 0 <= j < i ==> self.entries@[j].account@ != account@,
            decreases n - i,
        {
            if self.entries[i].account == *account {
                proof {
                    lemma_storage_lookup_at(self.entries@, i as int);
                }
                return self.entries[i].balance;
            }
            i = i + 1;
        }
        proof {
            lemma_storage_lookup_absent(self.entries@, account@);
        }
        AccountStorageBalance { total: 0, available: 0 }
    }

    /// Whether the account ever deposited.
    #[verifier::loop_isolation(false)]
    pub fn entry_exists(&self, account: &AccountId) -> (r: bool)
        requires
            self.wf(),
        ensures
            r == self.balance_entry(account@) is Some,
    {
        let n = self.entries.len();
        let mut i: usize = 0;
        while i < n
            invariant
                0 <= i <= n,
                forall|j: int| 0 <= j < i ==> self.entries@[j].account@ != account@,
            decreases n - i,
        {
            if self.entries[i].account == *account {
                proof {
                    lemma_storage_lookup_at(self.entries@, i as int);
                }
                return true;
            }
            i = i + 1;
        }
        proof {
            lemma_storage_lookup_absent(self.entries@, account@);
        }
        false
    }

    /// Sets the account's balance, leaving every other account's unchanged.
    #[verifier::loop_isolation(false)]
    pub fn set(&mut self, account: &AccountId, balance: AccountStorageBalance)
        requires
            old(self).wf(),
        ensures
            final(self).wf(),
            final(self).balance_entry(account@) == Option::Some(balance),
            forall|a: Seq<char>|
                a != account@ ==> #[trigger] final(self).balance_entry(a) == old(
                    self).balance_entry(a),
    {
        let n = self.entries.len();
        let mut i: usize = 0;
        while i < n
            invariant
                0 <= i <= n,
                self == old(self),
                forall|j: int| 0 <= j < i ==> self.entries@[j].account@ != account@,
            decreases n - i,
        {
            if self.entries[i].account == *account {
                let key = self.entries[i].account.clone();
                let e = StorageEntry { account: key, balance };
                proof {
                    lemma_storage_lookup_update(self.entries@, i as int, e);
                }
                self.entries.set(i, e);
                return ;
            }
            i = i + 1;
        }
        let e = StorageEntry { account: account.clone(), balance };
        proof {
            lemma_storage_lookup_push(self.entries@, e);
        }
        self.entries.push(e);
    }
}

impl crate::Contract {
    /// Reads an account's storage balance; zero if it never deposited.
    pub fn get_storage_account(&self, account_id: &AccountId) -> (r: AccountStorageBalance)
        requires
            self.wf(),
        ensures
            r == self.accounts.balance_of(account_id@),
    {
        self.accounts.get(account_id)
    }

    /// Credits the attached deposit to the named account's storage balance
    /// (the caller's own, when none is named).
    pub fn storage_deposit(&mut self, caller: &AccountId, attached_deposit: u128,
        account_id: Option<AccountId>) -> (r: Result<StorageBalance, OracleError>)
        requires
            old(self).wf(),
        ensures
            final(self).wf(),
            ({
                let target = match account_id {
                    Option::Some(a) => a@,
                    Option::None => caller@,
                };
                let b = old(self).accounts.balance_of(target);
                &&& (r is Ok <==> b.total + attached_deposit <= u128::MAX && b.available
                    + attached_deposit <= u128::MAX)
                &&& (r matches Ok(nb) ==> ({
                    &&& nb.total == b.total + attached_deposit
                    &&& nb.available == b.available + attached_deposit
                    &&& final(self).accounts.balance_of(target).total == nb.total
                    &&& final(self).accounts.balance_of(target).available == nb.available
                    &&& (forall|a: Seq<char>|
                        a != target ==> #[trigger] final(self).accounts.balance_entry(a) == old(
                            self).accounts.balance_entry(a))
                    &&& final(self).configs == old(self).configs
                    &&& final(self).data_requests == old(self).data_requests
                    &&& final(self).whitelist == old(self).whitelist
                    &&& final(self).paused == old(self).paused
                }))
                &&& (r matches Err(e) ==> e == OracleError::Overflow && *final(self) == *old(
                    self))
            }),
    {
        let target = match account_id {
            Option::Some(a) => a,
            Option::None => caller.clone(),
        };
        let account = self.accounts.get(&target);
        let total = match account.total.checked_add(attached_deposit) {
            Option::Some(v) => v,
            Option::None => {
                return Err(OracleError::Overflow);
            },
        };
        let available = match account.available.checked_add(attached_deposit) {
            Option::Some(v) => v,
            Option::None => {
                return Err(OracleError::Overflow);
            },
        };
        let balance = AccountStorageBalance { total, available };
        self.accounts.set(&target, balance);
        Ok(StorageBalance { total, available })
    }

    /// Pays the caller back part of its storage balance. Requires the
    /// one-unit safety deposit and enough balance.
    pub fn storage_withdraw(&mut self, caller: &AccountId, attached_deposit: u128, amount: u128)
        -> (r: Result<StorageBalance, OracleError>)
        requires
            old(self).wf(),
        ensures
            final(self).wf(),
            ({
                let b = old(self).accounts.balance_of(caller@);
                &&& (r is Ok <==> attached_deposit == 1 && amount <= b.total && amount
                    <= b.available)
                &&& (r matches Ok(nb) ==> ({
                    &&& nb.total == b.total - amount
                    &&& nb.available == b.available - amount
                    &&& final(self).accounts.balance_of(caller@).total == nb.total
                    &&& final(self).accounts.balance_of(caller@).available == nb.available
                    &&& (forall|a: Seq<char>|
                        a != caller@ ==> #[trigger] final(self).accounts.balance_entry(a) == old(
                            self).accounts.balance_entry(a))
                    &&& final(self).configs == old(self).configs
                    &&& final(self).data_requests == old(self).data_requests
                    &&& final(self).whitelist == old(self).whitelist
                    &&& final(self).paused == old(self).paused
                }))
                &&& (r matches Err(e) ==> *final(self) == *old(self) && (e
                    == OracleError::OneYoctoRequired <==> attached_deposit != 1))
            }),
    {
        if attached_deposit != 1 {
            return Err(OracleError::OneYoctoRequired);
        }
        let account = self.accounts.get(caller);
        if amount > account.total || amount > account.available {
            return Err(OracleError::InsufficientStorageBalance);
        }
        let balance = AccountStorageBalance {
            total: account.total - amount,
            available: account.available - amount,
        };
        self.accounts.set(caller, balance);
        Ok(StorageBalance { total: balance.total, available: balance.available })
    }

    /// The deposit bounds the contract reports.
    pub fn storage_balance_bounds(&self) -> (r: StorageBalanceBounds)
        ensures
            r.min == STORAGE_MINIMUM_BALANCE,
            r.max is None,
    {
        StorageBalanceBounds { min: STORAGE_MINIMUM_BALANCE, max: Option::None }
    }

    /// The account's storage balance, if it ever deposited.
    pub fn storage_balance_of(&self, account_id: &AccountId) -> (r: Option<StorageBalance>)
        requires
            self.wf(),
        ensures
            match r {
                Option::Some(b) => self.accounts.balance_entry(account_id@) matches Option::Some(
                    e) && b.total == e.total && b.available == e.available,
                Option::None => self.accounts.balance_entry(account_id@) is None,
            },
    {
        let account = self.accounts.get(account_id);
        match self.accounts.entry_exists(account_id) {
            true => Option::Some(StorageBalance { total: account.total, available: account.available }),
            false => Option::None,
        }
    }

    /// Settles the storage an operation used against the sender's balance:
    /// growth is charged at the per-byte price, shrinkage is refunded.
    pub fn use_storage(&mut self, sender_id: &AccountId, current_storage_usage: u64,
        initial_storage_usage: u64, initial_available_balance: u128) -> (r: Result<
        (),
        OracleError,
    >)
        requires
            old(self).wf(),
        ensures
            final(self).wf(),
            current_storage_usage >= initial_storage_usage ==> ({
                let cost = (current_storage_usage - initial_storage_usage)
                    * STORAGE_PRICE_PER_BYTE;
                &&& (r is Ok <==> cost <= initial_available_balance)
                &&& (r matches Ok(_) ==> final(self).accounts.balance_of(sender_id@).available
                    == initial_available_balance - cost)
                &&& (r matches Err(e) ==> e == OracleError::InsufficientStorageBalance && *final(
                    self) == *old(self))
            }),
            current_storage_usage < initial_storage_usage ==> ({
                let refund = (initial_storage_usage - current_storage_usage)
                    * STORAGE_PRICE_PER_BYTE;
                &&& (r is Ok <==> initial_available_balance + refund <= u128::MAX)
                &&& (r matches Ok(_) ==> final(self).accounts.balance_of(sender_id@).available
                    == initial_available_balance + refund)
                &&& (r matches Err(e) ==> e == OracleError::Overflow && *final(self) == *old(
                    self))
            }),
            r is Ok ==> ({
                &&& final(self).accounts.balance_of(sender_id@).total == old(
                    self).accounts.balance_of(sender_id@).total
                &&& (forall|a: Seq<char>|
                    a != sender_id@ ==> #[trigger] final(self).accounts.balance_entry(a) == old(
                        self).accounts.balance_entry(a))
                &&& final(self).configs == old(self).configs
                &&& final(self).data_requests == old(self).data_requests
                &&& final(self).whitelist == old(self).whitelist
                &&& final(self).paused == old(self).paused
            }),
    {
        if current_storage_usage >= initial_storage_usage {
            let difference: u128 = (current_storage_usage - initial_storage_usage) as u128;
            proof {
                assert(difference * STORAGE_PRICE_PER_BYTE <= 0xffffffffffffffffu128
                    * STORAGE_PRICE_PER_BYTE) by (nonlinear_arith)
                    requires difference <= 0xffffffffffffffffu128;
            }
            let cost = difference * STORAGE_PRICE_PER_BYTE;
            let mut account = self.accounts.get(sender_id);
            if cost > initial_available_balance {
                return Err(OracleError::InsufficientStorageBalance);
            }
            account.available = initial_available_balance - cost;
            self.accounts.set(sender_id, account);
            Ok(())
        } else {
            let difference: u128 = (initial_storage_usage - current_storage_usage) as u128;
            proof {
                assert(difference * STORAGE_PRICE_PER_BYTE <= 0xffffffffffffffffu128
                    * STORAGE_PRICE_PER_BYTE) by (nonlinear_arith)
                    requires difference <= 0xffffffffffffffffu128;
            }
            let refund = difference * STORAGE_PRICE_PER_BYTE;
            let mut account = self.accounts.get(sender_id);
            match initial_available_balance.checked_add(refund) {
                Option::Some(v) => {
                    account.available = v;
                    self.accounts.set(sender_id, account);
                    Ok(())
                },
                Option::None => Err(OracleError::Overflow),
            }
        }
    }
}

} // verus!
