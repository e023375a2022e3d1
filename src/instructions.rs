//! The instructions of the lending pool on one bank: each accrues the bank,
//! finds the account's balance, changes it, and checks health where risk grows.
use crate::account::{
    change_is_sound, lemma_account_borrow_sound, lemma_account_deposit_sound, lemma_borrow_sound,
    lemma_deposit_sound, lemma_repay_all_sound, lemma_repay_sound, lemma_withdraw_all_sound,
    lemma_withdraw_only_sound, slots_wf, BalanceChange, spec_account_borrow, spec_account_deposit, spec_borrow, spec_deposit, spec_repay,
    spec_repay_all, spec_withdraw_all, spec_withdraw_only, Balance, LendingAccount,
    MarginfiAccount,
};
use crate::bank::{lemma_accrue_effects, Bank, BankConfig, BankOperationalState};
use crate::errors::MarginfiError;
use crate::fixed_point::{whole, Q};
use crate::risk::{check_account_health, spec_check_health, OracleEntry, RiskRequirementType};
use vstd::prelude::*;

verus! {

/// The administrative container of a set of banks.
#[derive(Debug)]
pub struct MarginfiGroup {
    pub admin: u64,
    pub paused: bool,
    pub banks: Vec<Bank>,
}

/// Changes an administrator may make to a group.
#[derive(Debug, Clone, Copy, PartialEq, Eq, Structural)]
pub struct GroupConfig {
    pub admin: Option<u64>,
    pub paused: Option<bool>,
}

pub open spec fn banks_wf(banks: Seq<Bank>) -> bool {
    forall|i: int| 0 <= i < banks.len() ==> (#[trigger] banks[i]).wf()
}

/// The native amount `n` as a fixed-point number.
pub open spec fn native(n: u64) -> Q {
    Q { bits: whole(n as int) as i128 }
}

/// The common first steps of an instruction on one bank of an account: the
/// signer must be the account's authority, the bank must exist, its interest
/// is accrued, and the account's slot for it is found (or, with `create`,
/// opened). Gives the accrued bank, the slot and the balance in it.
pub open spec fn spec_prepare(
    banks: Seq<Bank>,
    account: MarginfiAccount,
    signer: u64,
    bank_index: usize,
    now: i64,
    create: bool,
) -> Result<(Bank, int, Balance), MarginfiError> {
    if signer != account.authority {
        Err(MarginfiError::Unauthorized)
    } else if bank_index >= banks.len() {
        Err(MarginfiError::BankNotFound)
    } else {
        match banks[bank_index as int].spec_accrue_interest(now) {
            Err(e) => Err(e),
            Ok(b) => if create {
                match account.lending_account.spec_slot_for(bank_index) {
                    None => Err(MarginfiError::LendingAccountBalanceSlotsFull),
                    Some(i) => Ok((b, i, account.lending_account.spec_slot_balance(bank_index, i))),
                }
            } else {
                match account.lending_account.spec_find(bank_index) {
                    None => Err(MarginfiError::LendingAccountBalanceNotFound),
                    Some(i) => Ok((b, i, account.lending_account.slots()[i])),
                }
            },
        }
    }
}

/// How a call of a one-bank instruction relates to its specification `s`
/// (new bank, slot, new balance, result): on success the bank and the slot
/// take the new values and nothing else changes; on an error nothing changes.
pub open spec fn instruction_outcome<T>(
    s: Result<(Bank, int, Balance, T), MarginfiError>,
    r: Result<T, MarginfiError>,
    bank_index: usize,
    banks0: Seq<Bank>,
    account0: MarginfiAccount,
    banks1: Seq<Bank>,
    account1: MarginfiAccount,
) -> bool {
    match s {
        Ok(v) => {
            &&& r == Ok::<T, MarginfiError>(v.3)
            &&& banks1 == banks0.update(bank_index as int, v.0)
            &&& account1.lending_account.slots() == account0.lending_account.slots().update(v.1, v.2)
            &&& account1.group == account0.group
            &&& account1.authority == account0.authority
            &&& account1.account_flags == account0.account_flags
        },
        Err(e) => {
            &&& r == Err::<T, MarginfiError>(e)
            &&& banks1 == banks0
            &&& account1 == account0
        },
    }
}

/// Adds a health check of the account after the change `s` to it.
pub open spec fn with_health_check<T>(
    s: Result<(Bank, int, Balance, T), MarginfiError>,
    banks: Seq<Bank>,
    account: MarginfiAccount,
    bank_index: usize,
    oracles: Seq<OracleEntry>,
    now: i64,
) -> Result<(Bank, int, Balance, T), MarginfiError> {
    match s {
        Err(e) => Err(e),
        Ok(v) => match spec_check_health(
            account.account_flags,
            account.lending_account.slots().update(v.1, v.2),
            banks.update(bank_index as int, v.0),
            oracles,
            now,
            RiskRequirementType::Initial,
        ) {
            Err(e) => Err(e),
            Ok(_) => Ok(v),
        },
    }
}

/// Applies a balance operation's result to the prepared slot.
pub open spec fn then_change(
    p: Result<(Bank, int, Balance), MarginfiError>,
    c: Result<(Bank, Balance), MarginfiError>,
) -> Result<(Bank, int, Balance, ()), MarginfiError> {
    match p {
        Err(e) => Err(e),
        Ok(v) => match c {
            Err(e) => Err(e),
            Ok(w) => Ok((w.0, v.1, w.1, ())),
        },
    }
}

/// Like `then_change`, for operations that return a native amount.
pub open spec fn then_amount(
    p: Result<(Bank, int, Balance), MarginfiError>,
    c: Result<(Bank, Balance, u64), MarginfiError>,
) -> Result<(Bank, int, Balance, u64), MarginfiError> {
    match p {
        Err(e) => Err(e),
        Ok(v) => match c {
            Err(e) => Err(e),
            Ok(w) => Ok((w.0, v.1, w.1, w.2)),
        },
    }
}

pub open spec fn spec_bank_deposit(
    banks: Seq<Bank>,
    account: MarginfiAccount,
    signer: u64,
    bank_index: usize,
    amount: u64,
    now: i64,
) -> Result<(Bank, int, Balance, ()), MarginfiError> {
    let p = spec_prepare(banks, account, signer, bank_index, now, true);
    then_change(p, spec_account_deposit(p->Ok_0.0, p->Ok_0.2, native(amount)))
}

pub open spec fn spec_bank_withdraw(
    banks: Seq<Bank>,
    account: MarginfiAccount,
    signer: u64,
    bank_index: usize,
    amount: u64,
    now: i64,
    oracles: Seq<OracleEntry>,
) -> Result<(Bank, int, Balance, ()), MarginfiError> {
    let p = spec_prepare(banks, account, signer, bank_index, now, true);
    with_health_check(
        then_change(p, spec_account_borrow(p->Ok_0.0, p->Ok_0.2, native(amount))),
        banks,
        account,
        bank_index,
        oracles,
        now,
    )
}

pub open spec fn spec_lending_pool_deposit(
    banks: Seq<Bank>,
    account: MarginfiAccount,
    signer: u64,
    bank_index: usize,
    amount: u64,
    now: i64,
) -> Result<(Bank, int, Balance, ()), MarginfiError> {
    let p = spec_prepare(banks, account, signer, bank_index, now, true);
    then_change(p, spec_deposit(p->Ok_0.0, p->Ok_0.2, native(amount)))
}

pub open spec fn spec_lending_pool_borrow(
    banks: Seq<Bank>,
    account: MarginfiAccount,
    signer: u64,
    bank_index: usize,
    amount: u64,
    now: i64,
    oracles: Seq<OracleEntry>,
) -> Result<(Bank, int, Balance, ()), MarginfiError> {
    let p = spec_prepare(banks, account, signer, bank_index, now, true);
    with_health_check(
        then_change(p, spec_borrow(p->Ok_0.0, p->Ok_0.2, native(amount))),
        banks,
        account,
        bank_index,
        oracles,
        now,
    )
}

pub open spec fn spec_lending_pool_withdraw(
    banks: Seq<Bank>,
    account: MarginfiAccount,
    signer: u64,
    bank_index: usize,
    amount: u64,
    withdraw_all: bool,
    now: i64,
    oracles: Seq<OracleEntry>,
) -> Result<(Bank, int, Balance, u64), MarginfiError> {
    let p = spec_prepare(banks, account, signer, bank_index, now, false);
    let c = if withdraw_all {
        spec_withdraw_all(p->Ok_0.0, p->Ok_0.2)
    } else {
        match spec_withdraw_only(
            p->Ok_0.0,
            p->Ok_0.2,
            native(amount),
            MarginfiError::OperationWithdrawOnly,
        ) {
            Err(e) => Err(e),
            Ok(w) => Ok((w.0, w.1, amount)),
        }
    };
    with_health_check(then_amount(p, c), banks, account, bank_index, oracles, now)
}

pub open spec fn spec_lending_pool_repay(
    banks: Seq<Bank>,
    account: MarginfiAccount,
    signer: u64,
    bank_index: usize,
    amount: u64,
    repay_all: bool,
    now: i64,
) -> Result<(Bank, int, Balance, u64), MarginfiError> {
    let p = spec_prepare(banks, account, signer, bank_index, now, false);
    let c = if repay_all {
        spec_repay_all(p->Ok_0.0, p->Ok_0.2)
    } else {
        match spec_repay(p->Ok_0.0, p->Ok_0.2, native(amount)) {
            Err(e) => Err(e),
            Ok(w) => Ok((w.0, w.1, amount)),
        }
    };
    then_amount(p, c)
}

/// The common first steps of an instruction; see `spec_prepare`. Returns
/// the accrued bank, the slot, and the book with that slot found or opened.
fn prepare(
    banks: &Vec<Bank>,
    account: &MarginfiAccount,
    signer: u64,
    bank_index: usize,
    now: i64,
    create: bool,
) -> (r: Result<(Bank, usize, LendingAccount), MarginfiError>)
    requires
        banks_wf(banks@),
        account.lending_account.wf(),
    ensures
        match spec_prepare(banks@, *account, signer, bank_index, now, create) {
            Ok(p) => r is Ok && {
                let v = r->Ok_0;
                &&& v.0 == p.0
                &&& v.1 as int == p.1
                &&& v.2.slots() == account.lending_account.slots().update(p.1, p.2)
                &&& v.2.wf()
                &&& v.0.wf()
                &&& p.2.wf()
                &&& p.2.active
                &&& 0 <= p.1 < account.lending_account.slots().len()
            },
            Err(e) => r == Err::<(Bank, usize, LendingAccount), MarginfiError>(e),
        },
{
    if signer != account.authority {
        return Err(MarginfiError::Unauthorized);
    }
    if bank_index >= banks.len() {
        return Err(MarginfiError::BankNotFound);
    }
    let mut bank = banks[bank_index];
    proof {
        lemma_accrue_effects(bank, now);
    }
    bank.accrue_interest(now)?;
    let mut la = account.lending_account;
    if create {
        let i = la.find_or_create(bank_index)?;
        proof {
            assert(la.slots()[i as int].wf());
        }
        Ok((bank, i, la))
    } else {
        match la.find(bank_index) {
            Some(i) => {
                proof {
                    assert(la.slots().update(i as int, la.slots()[i as int]) =~= la.slots());
                    assert(la.slots()[i as int].wf());
                }
                Ok((bank, i, la))
            },
            None => Err(MarginfiError::LendingAccountBalanceNotFound),
        }
    }
}

/// Writing back a sound change keeps the banks and the book well formed.
proof fn lemma_commit_keeps_wf(
    banks: Seq<Bank>,
    bank_index: usize,
    bank: Bank,
    slots: Seq<Balance>,
    i: int,
    bal: Balance,
    c: BalanceChange,
)
    requires
        banks_wf(banks),
        bank_index < banks.len(),
        bank.wf(),
        0 <= i < slots.len(),
        slots_wf(slots),
        slots[i] == bal,
        bal.wf(),
        bal.active,
        change_is_sound(bank, bal, c),
        c is Ok,
    ensures
        banks_wf(banks.update(bank_index as int, c->Ok_0.0)),
        slots_wf(slots.update(i, c->Ok_0.1)),
{
    assert(slots.update(i, bal) =~= slots);
    crate::liquidation::lemma_update_keeps_wf(slots, i, bal, c->Ok_0.1);
    let nb = c->Ok_0.0;
    assert(nb.wf());
    assert forall|j: int| 0 <= j < banks.update(bank_index as int, nb).len() implies (#[trigger] banks.update(
        bank_index as int,
        nb,
    )[j]).wf() by {
        if j != bank_index as int {
            assert(banks[j].wf());
        }
    }
}

/// Writes a bank and a balance back after a successful change.
fn commit(
    group: &mut MarginfiGroup,
    account: &mut MarginfiAccount,
    bank_index: usize,
    bank: Bank,
    la: LendingAccount,
    i: usize,
    bal: Balance,
)
    requires
        bank_index < old(group).banks@.len(),
        i < la.slots().len(),
    ensures
        final(group).banks@ == old(group).banks@.update(bank_index as int, bank),
        final(account).lending_account.slots() == la.slots().update(i as int, bal),
        final(account).group == old(account).group,
        final(account).authority == old(account).authority,
        final(account).account_flags == old(account).account_flags,
        final(group).admin == old(group).admin,
        final(group).paused == old(group).paused,
{
    let mut la = la;
    la.balances[i] = bal;
    group.banks.set(bank_index, bank);
    account.lending_account = la;
}

/// Deposits `amount` native units into the account's balance in a bank,
/// paying down any debt there first. The caller moves the tokens from the
/// signer to the bank's liquidity vault.
pub fn bank_deposit(
    group: &mut MarginfiGroup,
    account: &mut MarginfiAccount,
    signer: u64,
    bank_index: usize,
    amount: u64,
    now: i64,
) -> (r: Result<(), MarginfiError>)
    requires
        banks_wf(old(group).banks@),
        old(account).lending_account.wf(),
    ensures
        instruction_outcome(
            spec_bank_deposit(old(group).banks@, *old(account), signer, bank_index, amount, now),
            r,
            bank_index,
            old(group).banks@,
            *old(account),
            final(group).banks@,
            *final(account),
        ),
        final(group).admin == old(group).admin,
        final(group).paused == old(group).paused,
        banks_wf(final(group).banks@),
        final(account).lending_account.wf(),
{
    let (mut bank, i, la) = prepare(&group.banks, account, signer, bank_index, now, true)?;
    let mut bal = la.balances[i];
    let amt = Q::from_u64(amount);
    let ghost b0 = bank;
    let ghost bal0 = bal;
    proof {
        lemma_account_deposit_sound(b0, bal0, amt);
    }
    bal.account_deposit(&mut bank, amt)?;
    proof {
        lemma_commit_keeps_wf(
            old(group).banks@,
            bank_index,
            b0,
            la.slots(),
            i as int,
            bal0,
            spec_account_deposit(b0, bal0, amt),
        );
        let p = spec_prepare(old(group).banks@, *old(account), signer, bank_index, now, true);
        assert(la.slots().update(i as int, bal) =~= old(account).lending_account.slots().update(
            p->Ok_0.1,
            bal,
        ));
    }
    commit(group, account, bank_index, bank, la, i, bal);
    Ok(())
}

/// Runs the initial health check on the account after a committed change
/// and undoes the change where it fails.
fn check_or_undo(
    group: &mut MarginfiGroup,
    account: &mut MarginfiAccount,
    bank_index: usize,
    saved_bank: Bank,
    saved_account: MarginfiAccount,
    oracles: &Vec<OracleEntry>,
    now: i64,
) -> (r: Result<(), MarginfiError>)
    requires
        bank_index < old(group).banks@.len(),
    ensures
        r == spec_check_health(
            old(account).account_flags,
            old(account).lending_account.slots(),
            old(group).banks@,
            oracles@,
            now,
            RiskRequirementType::Initial,
        ),
        r is Ok ==> *final(group) == *old(group) && *final(account) == *old(account),
        r is Err ==> final(group).banks@ == old(group).banks@.update(bank_index as int, saved_bank)
            && *final(account) == saved_account && final(group).admin == old(group).admin
            && final(group).paused == old(group).paused,
{
    match check_account_health(account, &group.banks, oracles, now, RiskRequirementType::Initial) {
        Ok(()) => Ok(()),
        Err(e) => {
            group.banks.set(bank_index, saved_bank);
            *account = saved_account;
            Err(e)
        },
    }
}

/// Withdraws `amount` native units from the account's balance in a bank,
/// borrowing what its deposits there do not cover, then checks the
/// account's initial health. The caller moves the tokens from the liquidity
/// vault to the destination.
pub fn bank_withdraw(
    group: &mut MarginfiGroup,
    account: &mut MarginfiAccount,
    signer: u64,
    bank_index: usize,
    amount: u64,
    now: i64,
    oracles: &Vec<OracleEntry>,
) -> (r: Result<(), MarginfiError>)
    requires
        banks_wf(old(group).banks@),
        old(account).lending_account.wf(),
    ensures
        instruction_outcome(
            spec_bank_withdraw(
                old(group).banks@,
                *old(account),
                signer,
                bank_index,
                amount,
                now,
                oracles@,
            ),
            r,
            bank_index,
            old(group).banks@,
            *old(account),
            final(group).banks@,
            *final(account),
        ),
        final(group).admin == old(group).admin,
        final(group).paused == old(group).paused,
        banks_wf(final(group).banks@),
        final(account).lending_account.wf(),
{
    let (mut bank, i, la) = prepare(&group.banks, account, signer, bank_index, now, true)?;
    let mut bal = la.balances[i];
    let amt = Q::from_u64(amount);
    let ghost b0 = bank;
    let ghost bal0 = bal;
    proof {
        lemma_account_borrow_sound(b0, bal0, amt);
    }
    bal.account_borrow(&mut bank, amt)?;
    proof {
        lemma_commit_keeps_wf(
            old(group).banks@,
            bank_index,
            b0,
            la.slots(),
            i as int,
            bal0,
            spec_account_borrow(b0, bal0, amt),
        );
        let p = spec_prepare(old(group).banks@, *old(account), signer, bank_index, now, true);
        assert(la.slots().update(i as int, bal) =~= old(account).lending_account.slots().update(
            p->Ok_0.1,
            bal,
        ));
    }
    let saved_bank = group.banks[bank_index];
    let saved_account = *account;
    commit(group, account, bank_index, bank, la, i, bal);
    let r = check_or_undo(group, account, bank_index, saved_bank, saved_account, oracles, now);
    proof {
        assert(old(group).banks@.update(bank_index as int, bank).update(bank_index as int, saved_bank)
            =~= old(group).banks@);
    }
    r
}

/// Deposits `amount` native units into a balance that holds no debt.
pub fn lending_pool_deposit(
    group: &mut MarginfiGroup,
    account: &mut MarginfiAccount,
    signer: u64,
    bank_index: usize,
    amount: u64,
    now: i64,
) -> (r: Result<(), MarginfiError>)
    requires
        banks_wf(old(group).banks@),
        old(account).lending_account.wf(),
    ensures
        instruction_outcome(
            spec_lending_pool_deposit(old(group).banks@, *old(account), signer, bank_index, amount, now),
            r,
            bank_index,
            old(group).banks@,
            *old(account),
            final(group).banks@,
            *final(account),
        ),
        final(group).admin == old(group).admin,
        final(group).paused == old(group).paused,
        banks_wf(final(group).banks@),
        final(account).lending_account.wf(),
{
    let (mut bank, i, la) = prepare(&group.banks, account, signer, bank_index, now, true)?;
    let mut bal = la.balances[i];
    let amt = Q::from_u64(amount);
    let ghost b0 = bank;
    let ghost bal0 = bal;
    proof {
        lemma_deposit_sound(b0, bal0, amt);
    }
    bal.deposit(&mut bank, amt)?;
    proof {
        lemma_commit_keeps_wf(
            old(group).banks@,
            bank_index,
            b0,
            la.slots(),
            i as int,
            bal0,
            spec_deposit(b0, bal0, amt),
        );
        let p = spec_prepare(old(group).banks@, *old(account), signer, bank_index, now, true);
        assert(la.slots().update(i as int, bal) =~= old(account).lending_account.slots().update(
            p->Ok_0.1,
            bal,
        ));
    }
    commit(group, account, bank_index, bank, la, i, bal);
    Ok(())
}

/// Borrows `amount` native units on a balance that holds no deposit, then
/// checks the account's initial health.
pub fn lending_pool_borrow(
    group: &mut MarginfiGroup,
    account: &mut MarginfiAccount,
    signer: u64,
    bank_index: usize,
    amount: u64,
    now: i64,
    oracles: &Vec<OracleEntry>,
) -> (r: Result<(), MarginfiError>)
    requires
        banks_wf(old(group).banks@),
        old(account).lending_account.wf(),
    ensures
        instruction_outcome(
            spec_lending_pool_borrow(
                old(group).banks@,
                *old(account),
                signer,
                bank_index,
                amount,
                now,
                oracles@,
            ),
            r,
            bank_index,
            old(group).banks@,
            *old(account),
            final(group).banks@,
            *final(account),
        ),
        final(group).admin == old(group).admin,
        final(group).paused == old(group).paused,
        banks_wf(final(group).banks@),
        final(account).lending_account.wf(),
{
    let (mut bank, i, la) = prepare(&group.banks, account, signer, bank_index, now, true)?;
    let mut bal = la.balances[i];
    let amt = Q::from_u64(amount);
    let ghost b0 = bank;
    let ghost bal0 = bal;
    proof {
        lemma_borrow_sound(b0, bal0, amt);
    }
    bal.borrow(&mut bank, amt)?;
    proof {
        lemma_commit_keeps_wf(
            old(group).banks@,
            bank_index,
            b0,
            la.slots(),
            i as int,
            bal0,
            spec_borrow(b0, bal0, amt),
        );
        let p = spec_prepare(old(group).banks@, *old(account), signer, bank_index, now, true);
        assert(la.slots().update(i as int, bal) =~= old(account).lending_account.slots().update(
            p->Ok_0.1,
            bal,
        ));
    }
    let saved_bank = group.banks[bank_index];
    let saved_account = *account;
    commit(group, account, bank_index, bank, la, i, bal);
    let r = check_or_undo(group, account, bank_index, saved_bank, saved_account, oracles, now);
    proof {
        assert(old(group).banks@.update(bank_index as int, bank).update(bank_index as int, saved_bank)
            =~= old(group).banks@);
    }
    r
}

/// Withdraws `amount` native units, or with `withdraw_all` every deposit
/// share, from the account's existing balance in a bank, then checks the
/// account's initial health. Returns the native amount to move out of the
/// liquidity vault.
pub fn lending_pool_withdraw(
    group: &mut MarginfiGroup,
    account: &mut MarginfiAccount,
    signer: u64,
    bank_index: usize,
    amount: u64,
    withdraw_all: Option<bool>,
    now: i64,
    oracles: &Vec<OracleEntry>,
) -> (r: Result<u64, MarginfiError>)
    requires
        banks_wf(old(group).banks@),
        old(account).lending_account.wf(),
    ensures
        instruction_outcome(
            spec_lending_pool_withdraw(
                old(group).banks@,
                *old(account),
                signer,
                bank_index,
                amount,
                withdraw_all == Some(true),
                now,
                oracles@,
            ),
            r,
            bank_index,
            old(group).banks@,
            *old(account),
            final(group).banks@,
            *final(account),
        ),
        final(group).admin == old(group).admin,
        final(group).paused == old(group).paused,
        banks_wf(final(group).banks@),
        final(account).lending_account.wf(),
{
    let all = match withdraw_all {
        Some(b) => b,
        None => false,
    };
    let (mut bank, i, la) = prepare(&group.banks, account, signer, bank_index, now, false)?;
    let mut bal = la.balances[i];
    let amt = Q::from_u64(amount);
    let ghost b0 = bank;
    let ghost bal0 = bal;
    let out = if all {
        proof {
            lemma_withdraw_all_sound(b0, bal0);
        }
        bal.withdraw_all(&mut bank)?
    } else {
        proof {
            lemma_withdraw_only_sound(b0, bal0, amt, MarginfiError::OperationWithdrawOnly);
        }
        bal.withdraw(&mut bank, amt)?;
        amount
    };
    proof {
        lemma_commit_keeps_wf(
            old(group).banks@,
            bank_index,
            b0,
            la.slots(),
            i as int,
            bal0,
            Ok((bank, bal)),
        );
        let p = spec_prepare(old(group).banks@, *old(account), signer, bank_index, now, false);
        assert(la.slots().update(i as int, bal) =~= old(account).lending_account.slots().update(
            p->Ok_0.1,
            bal,
        ));
    }
    let saved_bank = group.banks[bank_index];
    let saved_account = *account;
    commit(group, account, bank_index, bank, la, i, bal);
    let r = check_or_undo(group, account, bank_index, saved_bank, saved_account, oracles, now);
    proof {
        assert(old(group).banks@.update(bank_index as int, bank).update(bank_index as int, saved_bank)
            =~= old(group).banks@);
    }
    match r {
        Ok(()) => Ok(out),
        Err(e) => Err(e),
    }
}

/// Repays `amount` native units, or with `repay_all` the whole debt, of the
/// account's existing balance in a bank. Returns the native amount to move
/// from the signer into the liquidity vault.
pub fn lending_pool_repay(
    group: &mut MarginfiGroup,
    account: &mut MarginfiAccount,
    signer: u64,
    bank_index: usize,
    amount: u64,
    repay_all: Option<bool>,
    now: i64,
) -> (r: Result<u64, MarginfiError>)
    requires
        banks_wf(old(group).banks@),
        old(account).lending_account.wf(),
    ensures
        instruction_outcome(
            spec_lending_pool_repay(
                old(group).banks@,
                *old(account),
                signer,
                bank_index,
                amount,
                repay_all == Some(true),
                now,
            ),
            r,
            bank_index,
            old(group).banks@,
            *old(account),
            final(group).banks@,
            *final(account),
        ),
        final(group).admin == old(group).admin,
        final(group).paused == old(group).paused,
        banks_wf(final(group).banks@),
        final(account).lending_account.wf(),
{
    let all = match repay_all {
        Some(b) => b,
        None => false,
    };
    let (mut bank, i, la) = prepare(&group.banks, account, signer, bank_index, now, false)?;
    let mut bal = la.balances[i];
    let amt = Q::from_u64(amount);
    let ghost b0 = bank;
    let ghost bal0 = bal;
    let paid = if all {
        proof {
            lemma_repay_all_sound(b0, bal0);
        }
        bal.repay_all(&mut bank)?
    } else {
        proof {
            lemma_repay_sound(b0, bal0, amt);
        }
        bal.repay(&mut bank, amt)?;
        amount
    };
    proof {
        lemma_commit_keeps_wf(
            old(group).banks@,
            bank_index,
            b0,
            la.slots(),
            i as int,
            bal0,
            Ok((bank, bal)),
        );
        let p = spec_prepare(old(group).banks@, *old(account), signer, bank_index, now, false);
        assert(la.slots().update(i as int, bal) =~= old(account).lending_account.slots().update(
            p->Ok_0.1,
            bal,
        ));
    }
    commit(group, account, bank_index, bank, la, i, bal);
    Ok(paid)
}

/// Changes an administrator may make to a bank's configuration.
#[derive(Debug, Clone, Copy, PartialEq, Eq, Structural)]
pub struct BankConfigOpt {
    pub deposit_weight_init: Option<Q>,
    pub deposit_weight_maint: Option<Q>,
    pub liability_weight_init: Option<Q>,
    pub liability_weight_maint: Option<Q>,
    pub deposit_limit: Option<u64>,
    pub borrow_limit: Option<u64>,
    pub operational_state: Option<BankOperationalState>,
    pub oracle_key: Option<u64>,
}

/// Bump seeds of the three vaults of a bank and of their authorities.
#[derive(Debug, Clone, Copy, PartialEq, Eq, Structural)]
pub struct BankVaultBumps {
    pub liquidity_vault: u8,
    pub liquidity_vault_authority: u8,
    pub insurance_vault: u8,
    pub insurance_vault_authority: u8,
    pub fee_vault: u8,
    pub fee_vault_authority: u8,
}

pub open spec fn or_keep<T>(o: Option<T>, v: T) -> T {
    match o {
        Some(x) => x,
        None => v,
    }
}

/// The configuration with the given changes applied.
pub open spec fn spec_apply_config(c: BankConfig, o: BankConfigOpt) -> BankConfig {
    BankConfig {
        deposit_weight_init: or_keep(o.deposit_weight_init, c.deposit_weight_init),
        deposit_weight_maint: or_keep(o.deposit_weight_maint, c.deposit_weight_maint),
        liability_weight_init: or_keep(o.liability_weight_init, c.liability_weight_init),
        liability_weight_maint: or_keep(o.liability_weight_maint, c.liability_weight_maint),
        deposit_limit: or_keep(o.deposit_limit, c.deposit_limit),
        borrow_limit: or_keep(o.borrow_limit, c.borrow_limit),
        operational_state: or_keep(o.operational_state, c.operational_state),
        oracle_key: or_keep(o.oracle_key, c.oracle_key),
        interest_rate_config: c.interest_rate_config,
    }
}

fn keep<T: Copy>(o: Option<T>, v: T) -> (r: T)
    ensures
        r == or_keep(o, v),
{
    match o {
        Some(x) => x,
        None => v,
    }
}

/// A new bank for a mint, with both share values at one and nothing in it.
pub open spec fn spec_new_bank(
    group_key: u64,
    mint: u64,
    mint_decimals: u8,
    config: BankConfig,
    bumps: BankVaultBumps,
    now: i64,
) -> Bank {
    Bank {
        mint,
        mint_decimals,
        group: group_key,
        asset_share_value: Q { bits: 281474976710656 },
        liability_share_value: Q { bits: 281474976710656 },
        total_asset_shares: Q { bits: 0 },
        total_liability_shares: Q { bits: 0 },
        protocol_deposit_shares: Q { bits: 0 },
        last_update: now,
        config,
        liquidity_vault_bump: bumps.liquidity_vault,
        liquidity_vault_authority_bump: bumps.liquidity_vault_authority,
        insurance_vault_bump: bumps.insurance_vault,
        insurance_vault_authority_bump: bumps.insurance_vault_authority,
        fee_vault_bump: bumps.fee_vault,
        fee_vault_authority_bump: bumps.fee_vault_authority,
    }
}

/// A group administered by `admin`, not paused, without banks.
pub fn marginfi_group_initialize(admin: u64) -> (r: MarginfiGroup)
    ensures
        r.admin == admin,
        !r.paused,
        r.banks@.len() == 0,
{
    MarginfiGroup { admin, paused: false, banks: Vec::new() }
}

/// Applies an administrator's changes to the group.
pub fn marginfi_group_configure(group: &mut MarginfiGroup, signer: u64, config: GroupConfig) -> (r:
    Result<(), MarginfiError>)
    ensures
        final(group).banks@ == old(group).banks@,
        signer != old(group).admin ==> r == Err::<(), MarginfiError>(MarginfiError::Unauthorized)
            && final(group).admin == old(group).admin && final(group).paused == old(group).paused,
        signer == old(group).admin ==> r is Ok && final(group).admin == or_keep(
            config.admin,
            old(group).admin,
        ) && final(group).paused == or_keep(config.paused, old(group).paused),
{
    if signer != group.admin {
        return Err(MarginfiError::Unauthorized);
    }
    group.admin = keep(config.admin, group.admin);
    group.paused = keep(config.paused, group.paused);
    Ok(())
}

/// Adds a bank for a mint that has none yet, with a valid configuration.
/// Returns its index.
pub fn lending_pool_add_bank(
    group: &mut MarginfiGroup,
    group_key: u64,
    signer: u64,
    mint: u64,
    mint_decimals: u8,
    config: BankConfig,
    bumps: BankVaultBumps,
    now: i64,
) -> (r: Result<usize, MarginfiError>)
    requires
        banks_wf(old(group).banks@),
    ensures
        banks_wf(final(group).banks@),
        final(group).admin == old(group).admin,
        final(group).paused == old(group).paused,
        match r {
            Ok(i) => {
                &&& signer == old(group).admin
                &&& config.spec_valid()
                &&& forall|j: int| 0 <= j < old(group).banks@.len() ==> (#[trigger] old(group).banks@[j]).mint != mint
                &&& i == old(group).banks@.len()
                &&& final(group).banks@ == old(group).banks@.push(
                    spec_new_bank(group_key, mint, mint_decimals, config, bumps, now),
                )
            },
            Err(e) => {
                &&& final(group).banks@ == old(group).banks@
                &&& if signer != old(group).admin {
                    e == MarginfiError::Unauthorized
                } else if !config.spec_valid() {
                    e == MarginfiError::InvalidConfig
                } else {
                    e == MarginfiError::BankAlreadyExists && exists|j: int|
                        0 <= j < old(group).banks@.len() && (#[trigger] old(group).banks@[j]).mint == mint
                }
            },
        },
{
    if signer != group.admin {
        return Err(MarginfiError::Unauthorized);
    }
    config.validate()?;
    let mut j: usize = 0;
    while j < group.banks.len()
        invariant
            0 <= j <= group.banks@.len(),
            *group == *old(group),
            banks_wf(old(group).banks@),
            signer == old(group).admin,
            config.spec_valid(),
            forall|k: int| 0 <= k < j ==> (#[trigger] group.banks@[k]).mint != mint,
        decreases group.banks@.len() - j,
    {
        if group.banks[j].mint == mint {
            assert(old(group).banks@[j as int].mint == mint);
            return Err(MarginfiError::BankAlreadyExists);
        }
        j = j + 1;
    }
    let i = group.banks.len();
    let ghost before = group.banks@;
    group.banks.push(
        Bank {
            mint,
            mint_decimals,
            group: group_key,
            asset_share_value: Q::one(),
            liability_share_value: Q::one(),
            total_asset_shares: Q::zero(),
            total_liability_shares: Q::zero(),
            protocol_deposit_shares: Q::zero(),
            last_update: now,
            config,
            liquidity_vault_bump: bumps.liquidity_vault,
            liquidity_vault_authority_bump: bumps.liquidity_vault_authority,
            insurance_vault_bump: bumps.insurance_vault,
            insurance_vault_authority_bump: bumps.insurance_vault_authority,
            fee_vault_bump: bumps.fee_vault,
            fee_vault_authority_bump: bumps.fee_vault_authority,
        },
    );
    proof {
        assert forall|j: int| 0 <= j < group.banks@.len() implies (#[trigger] group.banks@[j]).wf() by {
            if j < before.len() {
                assert(before[j].wf());
            }
        }
    }
    Ok(i)
}

/// Applies an administrator's changes to a bank's configuration; the result
/// must be valid.
pub fn lending_pool_configure_bank(
    group: &mut MarginfiGroup,
    signer: u64,
    bank_index: usize,
    opt: BankConfigOpt,
) -> (r: Result<(), MarginfiError>)
    requires
        banks_wf(old(group).banks@),
    ensures
        banks_wf(final(group).banks@),
        final(group).admin == old(group).admin,
        final(group).paused == old(group).paused,
        match r {
            Ok(_) => {
                &&& signer == old(group).admin
                &&& bank_index < old(group).banks@.len()
                &&& spec_apply_config(old(group).banks@[bank_index as int].config, opt).spec_valid()
                &&& final(group).banks@ == old(group).banks@.update(
                    bank_index as int,
                    Bank {
                        config: spec_apply_config(old(group).banks@[bank_index as int].config, opt),
                        ..old(group).banks@[bank_index as int]
                    },
                )
            },
            Err(e) => {
                &&& final(group).banks@ == old(group).banks@
                &&& if signer != old(group).admin {
                    e == MarginfiError::Unauthorized
                } else if bank_index >= old(group).banks@.len() {
                    e == MarginfiError::BankNotFound
                } else {
                    e == MarginfiError::InvalidConfig && !spec_apply_config(
                        old(group).banks@[bank_index as int].config,
                        opt,
                    ).spec_valid()
                }
            },
        },
{
    if signer != group.admin {
        return Err(MarginfiError::Unauthorized);
    }
    if bank_index >= group.banks.len() {
        return Err(MarginfiError::BankNotFound);
    }
    let mut bank = group.banks[bank_index];
    let c = bank.config;
    let nc = BankConfig {
        deposit_weight_init: keep(opt.deposit_weight_init, c.deposit_weight_init),
        deposit_weight_maint: keep(opt.deposit_weight_maint, c.deposit_weight_maint),
        liability_weight_init: keep(opt.liability_weight_init, c.liability_weight_init),
        liability_weight_maint: keep(opt.liability_weight_maint, c.liability_weight_maint),
        deposit_limit: keep(opt.deposit_limit, c.deposit_limit),
        borrow_limit: keep(opt.borrow_limit, c.borrow_limit),
        operational_state: keep(opt.operational_state, c.operational_state),
        oracle_key: keep(opt.oracle_key, c.oracle_key),
        interest_rate_config: c.interest_rate_config,
    };
    nc.validate()?;
    bank.config = nc;
    let ghost before = group.banks@;
    group.banks.set(bank_index, bank);
    proof {
        assert forall|j: int| 0 <= j < group.banks@.len() implies (#[trigger] group.banks@[j]).wf() by {
            if j != bank_index as int {
                assert(before[j].wf());
            }
        }
    }
    Ok(())
}

/// Accrues a bank's interest up to `now`.
pub fn lending_pool_accrue_bank_interest(group: &mut MarginfiGroup, bank_index: usize, now: i64) -> (r:
    Result<(), MarginfiError>)
    requires
        banks_wf(old(group).banks@),
    ensures
        banks_wf(final(group).banks@),
        final(group).admin == old(group).admin,
        final(group).paused == old(group).paused,
        bank_index >= old(group).banks@.len() ==> r == Err::<(), MarginfiError>(
            MarginfiError::BankNotFound,
        ) && final(group).banks@ == old(group).banks@,
        bank_index < old(group).banks@.len() ==> match old(group).banks@[bank_index as int].spec_accrue_interest(now) {
            Ok(b) => r is Ok && final(group).banks@ == old(group).banks@.update(bank_index as int, b),
            Err(e) => r == Err::<(), MarginfiError>(e) && final(group).banks@ == old(group).banks@,
        },
{
    if bank_index >= group.banks.len() {
        return Err(MarginfiError::BankNotFound);
    }
    let mut bank = group.banks[bank_index];
    proof {
        lemma_accrue_effects(bank, now);
    }
    bank.accrue_interest(now)?;
    let ghost before = group.banks@;
    group.banks.set(bank_index, bank);
    proof {
        assert forall|j: int| 0 <= j < group.banks@.len() implies (#[trigger] group.banks@[j]).wf() by {
            if j != bank_index as int {
                assert(before[j].wf());
            }
        }
    }
    Ok(())
}

/// A new account of `authority` in a group, with every slot free.
pub fn marginfi_account_initialize(group_key: u64, authority: u64) -> (r: MarginfiAccount)
    ensures
        r.group == group_key,
        r.authority == authority,
        r.account_flags == 0,
        r.lending_account.wf(),
        forall|i: int| 0 <= i < r.lending_account.slots().len() ==> !(#[trigger] r.lending_account.slots()[i]).active,
{
    MarginfiAccount {
        group: group_key,
        authority,
        lending_account: LendingAccount::new(),
        account_flags: 0,
    }
}

} // verus!
