//! The active ledger: balances per account and the total supply, with the
//! mint and balance operations.
use crate::supply::{
    keys_unique, lemma_entry_le_total, lemma_map_of_dom, lemma_map_of_index, lemma_map_of_update,
    lemma_push_keeps_unique, lemma_total_insert, map_of, total_of,
};
use vstd::prelude::*;

verus! {

/// Smallest attached payment that a mint refuses to go through with: a mint
/// must carry strictly more than this many units.
pub const MIN_PAYMENT_UNITS: u128 = 1;

/// Why a call on the ledger was rejected. A rejected call changes nothing.
#[derive(Debug, Clone, Copy, PartialEq, Eq, Structural)]
pub enum LedgerError {
    /// `initialize` on a ledger that is already active.
    AlreadyInitialized,
    /// A mint whose attached payment is not above the minimal unit.
    InsufficientPayment,
    /// A mint or query on a ledger that was never initialized.
    NotInitialized,
    /// A mint that would take the total supply past the largest `u128`.
    SupplyOverflow,
}

/// An active ledger: one entry per account that was minted to, holding its
/// balance, and the total supply, which always equals the sum of the balances.
/// The host loads it before a call and saves it after (see `into_parts`).
pub struct MemeCoin {
    balances: Vec<(String, u128)>,
    total_supply: u128,
}

impl MemeCoin {
    /// The stored balances, by account identifier.
    pub closed spec fn balances(&self) -> Map<Seq<char>, u128> {
        map_of(self.balances@)
    }

    /// No account has two entries.
    pub closed spec fn entries_unique(&self) -> bool {
        keys_unique(self.balances@)
    }

    /// The total supply counter.
    pub closed spec fn supply(&self) -> u128 {
        self.total_supply
    }

    /// The balance of an account: the stored one, or zero if none is stored.
    pub open spec fn balance_of(&self, account: Seq<char>) -> nat {
        if self.balances().dom().contains(account) {
            self.balances()[account] as nat
        } else {
            0
        }
    }

    /// One entry per account, finitely many accounts, and the total supply is
    /// the sum of their balances.
    pub open spec fn wf(&self) -> bool {
        &&& self.entries_unique()
        &&& self.balances().dom().finite()
        &&& self.supply() == total_of(self.balances())
    }

    /// A successful mint of `amount` to `account` leads from `pre` to `post`:
    /// the account's balance and the total supply both grow by `amount`, and
    /// every other account keeps its balance. Neither sum wraps around.
    pub open spec fn minted(pre: &MemeCoin, post: &MemeCoin, account: Seq<char>, amount: u128) -> bool {
        &&& pre.balance_of(account) + amount <= u128::MAX
        &&& pre.supply() + amount <= u128::MAX
        &&& post.balances() == pre.balances().insert(account, (pre.balance_of(account) + amount) as u128)
        &&& post.supply() == pre.supply() + amount
    }

    /// A fresh active ledger: no balances and a total supply of zero. That a
    /// deployment is made active only once is guarded by `Deployment::initialize`.
    pub fn new() -> (r: MemeCoin)
        ensures
            r.wf(),
            r.balances().dom() =~= Set::empty(),
            r.supply() == 0,
    {
        let r = MemeCoin { balances: Vec::new(), total_supply: 0 };
        assert(r.balances() =~= Map::empty());
        r
    }

    /// Rebuilds an active ledger from the parts that `into_parts` handed out:
    /// entries with one per account, and the sum of their balances.
    pub fn from_parts(balances: Vec<(String, u128)>, total_supply: u128) -> (r: MemeCoin)
        requires
            keys_unique(balances@),
            total_supply == total_of(map_of(balances@)),
        ensures
            r.wf(),
            r.balances() == map_of(balances@),
            r.supply() == total_supply,
    {
        proof {
            lemma_map_of_dom(balances@, Seq::empty());
        }
        MemeCoin { balances, total_supply }
    }

    /// Hands out the parts for the host to persist: the entries and the total supply.
    pub fn into_parts(self) -> (r: (Vec<(String, u128)>, u128))
        requires
            self.wf(),
        ensures
            keys_unique(r.0@),
            map_of(r.0@) == self.balances(),
            r.1 == self.supply(),
            r.1 == total_of(map_of(r.0@)),
    {
        (self.balances, self.total_supply)
    }

    /// The index of the entry of `account_id`, if it has one.
    fn find(&self, account_id: &String) -> (r: Option<usize>)
        requires
            self.wf(),
        ensures
            match r {
                Some(i) => i < self.balances@.len() && self.balances@[i as int].0@ == account_id@,
                None => !self.balances().dom().contains(account_id@),
            },
    {
        let n = self.balances.len();
        let mut i: usize = 0;
        while i < n
            invariant
                n == self.balances@.len(),
                i <= n,
                forall|j: int| 0 <= j < i ==> (#[trigger] self.balances@[j]).0@ != account_id@,
            decreases n - i,
        {
            if self.balances[i].0 == *account_id {
                return Some(i);
            }
            i = i + 1;
        }
        proof {
            lemma_map_of_dom(self.balances@, account_id@);
        }
        None
    }

    /// Mints `amount` new tokens to `account_id`, gated on an attached payment
    /// of more than one unit. On success the account's balance (zero if it had
    /// none) and the total supply both grow by `amount`; on any error nothing
    /// changes.
    pub fn mint(&mut self, account_id: String, amount: u128, attached_payment: u128) -> (r: Result<(), LedgerError>)
        requires
            old(self).wf(),
        ensures
            final(self).wf(),
            attached_payment <= MIN_PAYMENT_UNITS ==> r == Err::<(), LedgerError>(LedgerError::InsufficientPayment),
            attached_payment > MIN_PAYMENT_UNITS && old(self).supply() + amount > u128::MAX
                ==> r == Err::<(), LedgerError>(LedgerError::SupplyOverflow),
            attached_payment > MIN_PAYMENT_UNITS && old(self).supply() + amount <= u128::MAX ==> r is Ok,
            r is Ok ==> MemeCoin::minted(old(self), final(self), account_id@, amount),
            r is Err ==> *final(self) == *old(self),
    {
        if attached_payment <= MIN_PAYMENT_UNITS {
            return Err(LedgerError::InsufficientPayment);
        }
        if amount > u128::MAX - self.total_supply {
            return Err(LedgerError::SupplyOverflow);
        }
        proof {
            lemma_map_of_dom(self.balances@, account_id@);
        }
        match self.find(&account_id) {
            Some(i) => {
                let current_balance = self.balances[i].1;
                proof {
                    lemma_map_of_index(self.balances@, i as int);
                    lemma_entry_le_total(self.balances(), account_id@);
                    lemma_total_insert(self.balances(), account_id@, (current_balance + amount) as u128);
                    lemma_map_of_update(self.balances@, i as int, (current_balance + amount) as u128);
                }
                self.balances[i].1 = current_balance + amount;
            },
            None => {
                proof {
                    lemma_total_insert(self.balances(), account_id@, amount);
                    lemma_push_keeps_unique(self.balances@, (account_id, amount));
                }
                self.balances.push((account_id, amount));
            },
        }
        self.total_supply = self.total_supply + amount;
        Ok(())
    }

    /// The balance of `account_id`: the stored one, or zero if it was never minted to.
    pub fn get_balance(&self, account_id: String) -> (r: u128)
        requires
            self.wf(),
        ensures
            r == self.balance_of(account_id@),
    {
        match self.find(&account_id) {
            Some(i) => {
                proof {
                    lemma_map_of_index(self.balances@, i as int);
                }
                self.balances[i].1
            },
            None => 0,
        }
    }

    /// The total supply: the sum of all balances.
    pub fn total_supply(&self) -> (r: u128)
        requires
            self.wf(),
        ensures
            r == self.supply(),
    {
        self.total_supply
    }
}

} // verus!
