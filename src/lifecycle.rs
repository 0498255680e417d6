//! The ledger's lifecycle: uninitialized until `initialize`, active after.
use crate::ledger::{LedgerError, MemeCoin, MIN_PAYMENT_UNITS};
use vstd::prelude::*;

verus! {

/// A deployed ledger, before or after its one initialization.
pub struct Deployment {
    ledger: Option<MemeCoin>,
}

impl Deployment {
    /// The active ledger, or `None` before initialization.
    pub closed spec fn active(&self) -> Option<MemeCoin> {
        self.ledger
    }

    /// An active ledger, if any, keeps its total supply equal to the sum of its balances.
    pub open spec fn wf(&self) -> bool {
        self.active() is Some ==> self.active()->Some_0.wf()
    }

    /// What `initialize` does: on an uninitialized deployment it succeeds and
    /// leaves an empty active ledger; on an active one it fails with
    /// `AlreadyInitialized` and changes nothing.
    pub open spec fn initialized(pre: &Deployment, post: &Deployment, r: Result<(), LedgerError>) -> bool {
        match pre.active() {
            Some(_) => r == Err::<(), LedgerError>(LedgerError::AlreadyInitialized) && *post == *pre,
            None => {
                &&& r is Ok
                &&& post.active() is Some
                &&& post.active()->Some_0.wf()
                &&& post.active()->Some_0.balances().dom() =~= Set::empty()
                &&& post.active()->Some_0.supply() == 0
            },
        }
    }

    /// A deployment that has not been initialized yet.
    pub fn uninitialized() -> (r: Deployment)
        ensures
            r.wf(),
            r.active() is None,
    {
        Deployment { ledger: None }
    }

    /// Makes the ledger active with no balances and a zero supply. A second
    /// call fails with `AlreadyInitialized` and leaves the state as it was.
    pub fn initialize(&mut self) -> (r: Result<(), LedgerError>)
        requires
            old(self).wf(),
        ensures
            final(self).wf(),
            Deployment::initialized(old(self), final(self), r),
    {
        if self.ledger.is_some() {
            return Err(LedgerError::AlreadyInitialized);
        }
        self.ledger = Some(MemeCoin::new());
        Ok(())
    }

    /// Initializing twice: the second call fails with `AlreadyInitialized`
    /// and leaves the state exactly as the first call left it.
    pub proof fn lemma_initialize_twice(
        s0: &Deployment,
        s1: &Deployment,
        s2: &Deployment,
        r1: Result<(), LedgerError>,
        r2: Result<(), LedgerError>,
    )
        requires
            Deployment::initialized(s0, s1, r1),
            Deployment::initialized(s1, s2, r2),
        ensures
            r2 == Err::<(), LedgerError>(LedgerError::AlreadyInitialized),
            *s2 == *s1,
    {
    }

    /// Mints on the active ledger (see `MemeCoin::mint`); fails with
    /// `NotInitialized` before initialization. An error changes nothing.
    pub fn mint(&mut self, account_id: String, amount: u128, attached_payment: u128) -> (r: Result<(), LedgerError>)
        requires
            old(self).wf(),
        ensures
            final(self).wf(),
            old(self).active() is None ==> r == Err::<(), LedgerError>(LedgerError::NotInitialized),
            old(self).active() is Some ==> {
                let pre = old(self).active()->Some_0;
                &&& final(self).active() is Some
                &&& attached_payment <= MIN_PAYMENT_UNITS ==> r == Err::<(), LedgerError>(LedgerError::InsufficientPayment)
                &&& attached_payment > MIN_PAYMENT_UNITS && pre.supply() + amount > u128::MAX
                    ==> r == Err::<(), LedgerError>(LedgerError::SupplyOverflow)
                &&& attached_payment > MIN_PAYMENT_UNITS && pre.supply() + amount <= u128::MAX ==> r is Ok
                &&& r is Ok ==> MemeCoin::minted(&pre, &final(self).active()->Some_0, account_id@, amount)
            },
            r is Err ==> *final(self) == *old(self),
    {
        match &mut self.ledger {
            Some(coin) => coin.mint(account_id, amount, attached_payment),
            None => Err(LedgerError::NotInitialized),
        }
    }

    /// The balance of `account_id` on the active ledger (zero if it was never
    /// minted to); `NotInitialized` before initialization.
    pub fn get_balance(&self, account_id: String) -> (r: Result<u128, LedgerError>)
        requires
            self.wf(),
        ensures
            match self.active() {
                Some(coin) => r == Ok::<u128, LedgerError>(coin.balance_of(account_id@) as u128),
                None => r == Err::<u128, LedgerError>(LedgerError::NotInitialized),
            },
    {
        match &self.ledger {
            Some(coin) => Ok(coin.get_balance(account_id)),
            None => Err(LedgerError::NotInitialized),
        }
    }

    /// The total supply of the active ledger; `NotInitialized` before initialization.
    pub fn total_supply(&self) -> (r: Result<u128, LedgerError>)
        requires
            self.wf(),
        ensures
            match self.active() {
                Some(coin) => r == Ok::<u128, LedgerError>(coin.supply()),
                None => r == Err::<u128, LedgerError>(LedgerError::NotInitialized),
            },
    {
        match &self.ledger {
            Some(coin) => Ok(coin.total_supply()),
            None => Err(LedgerError::NotInitialized),
        }
    }
}

} // verus!
