//! What holds of every run of successful mints on a ledger.
use crate::ledger::MemeCoin;
use crate::supply::{lemma_total_insert, total_of};
use vstd::prelude::*;

verus! {

/// Sum of a sequence of amounts.
pub open spec fn sum_of(amounts: Seq<u128>) -> int
    decreases amounts.len(),
{
    if amounts.len() == 0 {
        0
    } else {
        sum_of(amounts.drop_last()) + amounts.last()
    }
}

/// Sum of the amounts whose recipient is `account`.
pub open spec fn credited(recipients: Seq<Seq<char>>, amounts: Seq<u128>, account: Seq<char>) -> int
    decreases recipients.len(),
{
    if recipients.len() == 0 || amounts.len() == 0 {
        0
    } else {
        credited(recipients.drop_last(), amounts.drop_last(), account) + (if recipients.last()
            == account {
            amounts.last() as int
        } else {
            0int
        })
    }
}

/// `states` are the ledgers seen along a run of successful mints: the one
/// from `states[i]` to `states[i + 1]` minted `amounts[i]` to `recipients[i]`.
pub open spec fn mint_run(states: Seq<MemeCoin>, recipients: Seq<Seq<char>>, amounts: Seq<u128>) -> bool {
    &&& states.len() == recipients.len() + 1
    &&& amounts.len() == recipients.len()
    &&& forall|i: int|
        0 <= i < recipients.len() ==> #[trigger] MemeCoin::minted(
            &states[i],
            &states[i + 1],
            recipients[i],
            amounts[i],
        )
}

/// Dropping the last mint of a run leaves a run.
proof fn lemma_run_prefix(states: Seq<MemeCoin>, recipients: Seq<Seq<char>>, amounts: Seq<u128>)
    requires
        mint_run(states, recipients, amounts),
        recipients.len() > 0,
    ensures
        mint_run(states.drop_last(), recipients.drop_last(), amounts.drop_last()),
{
    let s = states.drop_last();
    assert forall|i: int| 0 <= i < recipients.len() - 1 implies #[trigger] MemeCoin::minted(
        &s[i],
        &s[i + 1],
        recipients.drop_last()[i],
        amounts.drop_last()[i],
    ) by {
        assert(MemeCoin::minted(&states[i], &states[i + 1], recipients[i], amounts[i]));
    }
}

/// After a run of successful mints, an account's balance is its balance at
/// the start plus every amount minted to it.
pub proof fn lemma_balance_after_run(
    states: Seq<MemeCoin>,
    recipients: Seq<Seq<char>>,
    amounts: Seq<u128>,
    account: Seq<char>,
)
    requires
        mint_run(states, recipients, amounts),
    ensures
        states.last().balance_of(account) == states[0].balance_of(account) + credited(
            recipients,
            amounts,
            account,
        ),
    decreases recipients.len(),
{
    let n = recipients.len() as int;
    if n > 0 {
        let s = states.drop_last();
        lemma_run_prefix(states, recipients, amounts);
        lemma_balance_after_run(s, recipients.drop_last(), amounts.drop_last(), account);
        assert(MemeCoin::minted(&states[n - 1], &states[n], recipients[n - 1], amounts[n - 1]));
    }
}

/// An account that no mint of the run went to keeps its balance; on a
/// ledger that started empty that balance is zero.
pub proof fn lemma_never_minted_is_zero(
    states: Seq<MemeCoin>,
    recipients: Seq<Seq<char>>,
    amounts: Seq<u128>,
    account: Seq<char>,
)
    requires
        mint_run(states, recipients, amounts),
        states[0].balances().dom() =~= Set::empty(),
        !recipients.contains(account),
    ensures
        states.last().balance_of(account) == 0,
{
    lemma_balance_after_run(states, recipients, amounts, account);
    lemma_credited_other(recipients, amounts, account);
}

proof fn lemma_credited_other(recipients: Seq<Seq<char>>, amounts: Seq<u128>, account: Seq<char>)
    requires
        !recipients.contains(account),
    ensures
        credited(recipients, amounts, account) == 0,
    decreases recipients.len(),
{
    if recipients.len() > 0 && amounts.len() > 0 {
        assert(!recipients.drop_last().contains(account)) by {
            if recipients.drop_last().contains(account) {
                let j = choose|j: int| 0 <= j < recipients.len() - 1 && recipients.drop_last()[j] == account;
                assert(recipients[j] == account);
            }
        }
        assert(recipients[recipients.len() - 1] != account);
        lemma_credited_other(recipients.drop_last(), amounts.drop_last(), account);
    }
}

proof fn lemma_credited_all(recipients: Seq<Seq<char>>, amounts: Seq<u128>, account: Seq<char>)
    requires
        amounts.len() == recipients.len(),
        forall|i: int| 0 <= i < recipients.len() ==> recipients[i] == account,
    ensures
        credited(recipients, amounts, account) == sum_of(amounts),
    decreases recipients.len(),
{
    if recipients.len() > 0 {
        lemma_credited_all(recipients.drop_last(), amounts.drop_last(), account);
    }
}

/// Successful mints of `a1, ..., an` to one account add up: its balance grows
/// by exactly `a1 + ... + an`, so on a ledger that started empty it is that sum.
pub proof fn lemma_mints_accumulate(
    states: Seq<MemeCoin>,
    recipients: Seq<Seq<char>>,
    amounts: Seq<u128>,
    account: Seq<char>,
)
    requires
        mint_run(states, recipients, amounts),
        forall|i: int| 0 <= i < recipients.len() ==> recipients[i] == account,
    ensures
        states.last().balance_of(account) == states[0].balance_of(account) + sum_of(amounts),
        states[0].balances().dom() =~= Set::empty() ==> states.last().balance_of(account) == sum_of(
            amounts,
        ),
{
    lemma_balance_after_run(states, recipients, amounts, account);
    lemma_credited_all(recipients, amounts, account);
}

/// Along a run of successful mints from a well-formed ledger, every ledger
/// seen stores finitely many accounts and keeps its total supply equal to the
/// sum of all balances.
pub proof fn lemma_supply_conserved(
    states: Seq<MemeCoin>,
    recipients: Seq<Seq<char>>,
    amounts: Seq<u128>,
)
    requires
        mint_run(states, recipients, amounts),
        states[0].wf(),
    ensures
        forall|i: int|
            0 <= i < states.len() ==> #[trigger] states[i].balances().dom().finite()
                && states[i].supply() == total_of(states[i].balances()),
    decreases recipients.len(),
{
    let n = recipients.len() as int;
    if n > 0 {
        let s = states.drop_last();
        lemma_run_prefix(states, recipients, amounts);
        lemma_supply_conserved(s, recipients.drop_last(), amounts.drop_last());
        let pre = states[n - 1];
        assert(s[n - 1] == pre);
        assert(MemeCoin::minted(&pre, &states[n], recipients[n - 1], amounts[n - 1]));
        lemma_total_insert(
            pre.balances(),
            recipients[n - 1],
            (pre.balance_of(recipients[n - 1]) + amounts[n - 1]) as u128,
        );
        assert forall|i: int| 0 <= i < states.len() implies #[trigger] states[i].balances().dom().finite()
            && states[i].supply() == total_of(states[i].balances()) by {
            if i < n {
                assert(states[i] == s[i]);
            }
        }
    }
}

} // verus!
