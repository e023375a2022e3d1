//! Resolution of bad debt: insurance first, then a loss shared by the
//! bank's depositors.
use crate::account::{Balance, MarginfiAccount, MAX_LENDING_ACCOUNT_BALANCES};
use crate::bank::{lemma_accrue_effects, Bank};
use crate::errors::MarginfiError;
use crate::fixed_point::{ceil_whole, div_ceil, mul_ceil, q_of, whole, Q};
use crate::instructions::{banks_wf, MarginfiGroup};
use crate::risk::{get_account_health_components, spec_health_components, OracleEntry, RiskRequirementType};
use vstd::prelude::*;

verus! {

/// Some active slot still holds debt.
pub open spec fn has_liability(slots: Seq<Balance>) -> bool {
    exists|i: int| 0 <= i < slots.len() && (#[trigger] slots[i]).active && slots[i].liability_shares.bits > 0
}

/// An account is bankrupt when its maintenance-weighted assets are not
/// positive, its unweighted assets are zero, and some debt remains.
pub open spec fn spec_check_bankrupt(
    slots: Seq<Balance>,
    banks: Seq<Bank>,
    oracles: Seq<OracleEntry>,
    now: i64,
) -> Result<(), MarginfiError> {
    match spec_health_components(slots, banks, oracles, now, RiskRequirementType::Maintenance) {
        Err(e) => Err(e),
        Ok(m) => match spec_health_components(slots, banks, oracles, now, RiskRequirementType::Equity) {
            Err(e) => Err(e),
            Ok(eq) => if m.0.bits <= 0 && eq.0.bits == 0 && has_liability(slots) {
                Ok(())
            } else {
                Err(MarginfiError::AccountNotBankrupt)
            },
        },
    }
}

/// Checks that an account is bankrupt; see `spec_check_bankrupt`.
pub fn check_account_bankrupt(
    account: &MarginfiAccount,
    banks: &Vec<Bank>,
    oracles: &Vec<OracleEntry>,
    now: i64,
) -> (r: Result<(), MarginfiError>)
    ensures
        r == spec_check_bankrupt(account.lending_account.slots(), banks@, oracles@, now),
{
    let m = get_account_health_components(
        &account.lending_account,
        banks,
        oracles,
        now,
        RiskRequirementType::Maintenance,
    )?;
    let eq = get_account_health_components(
        &account.lending_account,
        banks,
        oracles,
        now,
        RiskRequirementType::Equity,
    )?;
    let mut debt = false;
    let mut i: usize = 0;
    while i < MAX_LENDING_ACCOUNT_BALANCES
        invariant
            0 <= i <= MAX_LENDING_ACCOUNT_BALANCES,
            account.lending_account.slots().len() == MAX_LENDING_ACCOUNT_BALANCES,
            debt <==> exists|j: int|
                0 <= j < i && (#[trigger] account.lending_account.slots()[j]).active
                    && account.lending_account.slots()[j].liability_shares.bits > 0,
        decreases MAX_LENDING_ACCOUNT_BALANCES - i,
    {
        let b = account.lending_account.balances[i];
        if b.active && b.liability_shares.bits > 0 {
            debt = true;
        }
        i = i + 1;
    }
    if m.0.bits <= 0 && eq.0.bits == 0 && debt {
        Ok(())
    } else {
        Err(MarginfiError::AccountNotBankrupt)
    }
}

/// What resolving bad debt does to the bank: the debt leaves the borrow
/// total; `covered` native units come from the insurance fund; whatever the
/// insurance does not cover lowers the asset share value (the loss per share
/// rounded up), so that the depositors bear it pro rata.
pub open spec fn spec_write_off(bank: Bank, bal: Balance, covered: u64) -> Result<Bank, MarginfiError> {
    match q_of(mul_ceil(bal.liability_shares.bits as int, bank.liability_share_value.bits as int)) {
        Err(e) => Err(e),
        Ok(debt) => match bank.spec_change_liability_shares(
            Q { bits: (-bal.liability_shares.bits) as i128 },
        ) {
            Err(e) => Err(e),
            Ok(b) => {
                let shortfall = debt.bits - whole(covered as int);
                if shortfall <= 0 || bank.total_asset_shares.bits <= 0 {
                    Ok(b)
                } else {
                    match q_of(div_ceil(shortfall, bank.total_asset_shares.bits as int)) {
                        Err(e) => Err(e),
                        Ok(loss) => if bank.asset_share_value.bits - loss.bits <= 0 {
                            Err(MarginfiError::MathError)
                        } else {
                            Ok(
                                Bank {
                                    asset_share_value: Q {
                                        bits: (bank.asset_share_value.bits - loss.bits) as i128,
                                    },
                                    ..b
                                },
                            )
                        },
                    }
                }
            },
        },
    }
}

/// The native debt of a balance, rounded up.
pub open spec fn spec_bad_debt_native(bank: Bank, bal: Balance) -> Result<u64, MarginfiError> {
    match q_of(mul_ceil(bal.liability_shares.bits as int, bank.liability_share_value.bits as int)) {
        Err(e) => Err(e),
        Ok(debt) => if ceil_whole(debt.bits as int) > u64::MAX {
            Err(MarginfiError::MathError)
        } else {
            Ok(ceil_whole(debt.bits as int) as u64)
        },
    }
}

pub open spec fn min_u64(a: u64, b: u64) -> u64 {
    if a <= b {
        a
    } else {
        b
    }
}

/// Resolution of a bankrupt account's debt in one bank. Gives the new bank,
/// the slot, and the native amount that moves from the insurance vault to
/// the liquidity vault.
pub open spec fn spec_handle_bankruptcy(
    banks: Seq<Bank>,
    admin: u64,
    account: MarginfiAccount,
    signer: u64,
    bank_index: usize,
    insurance_vault_balance: u64,
    now: i64,
    oracles: Seq<OracleEntry>,
) -> Result<(Bank, int, u64), MarginfiError> {
    if signer != admin {
        Err(MarginfiError::Unauthorized)
    } else if bank_index >= banks.len() {
        Err(MarginfiError::BankNotFound)
    } else {
        match banks[bank_index as int].spec_accrue_interest(now) {
            Err(e) => Err(e),
            Ok(bank) => match spec_check_bankrupt(
                account.lending_account.slots(),
                banks.update(bank_index as int, bank),
                oracles,
                now,
            ) {
                Err(e) => Err(e),
                Ok(_) => match account.lending_account.spec_find(bank_index) {
                    None => Err(MarginfiError::LendingAccountBalanceNotFound),
                    Some(i) => {
                        let bal = account.lending_account.slots()[i];
                        if bal.liability_shares.bits <= 0 {
                            Err(MarginfiError::BalanceNotBadDebt)
                        } else {
                            match spec_bad_debt_native(bank, bal) {
                                Err(e) => Err(e),
                                Ok(debt) => {
                                    let covered = min_u64(insurance_vault_balance, debt);
                                    match spec_write_off(bank, bal, covered) {
                                        Err(e) => Err(e),
                                        Ok(b) => Ok((b, i, covered)),
                                    }
                                },
                            }
                        }
                    },
                },
            },
        }
    }
}

/// The slot after its debt is written off: empty and inactive.
pub open spec fn written_off(bal: Balance) -> Balance {
    Balance { liability_shares: Q { bits: 0 }, ..bal }.spec_settled()
}

/// Writes off a bankrupt account's debt in one bank: the insurance fund
/// covers what it can, the rest is socialized over the bank's depositors,
/// and the slot is closed. Returns the native amount that the caller moves
/// from the insurance vault to the liquidity vault. Only the group's
/// administrator may call it; nothing changes on an error.
pub fn lending_pool_handle_bankruptcy(
    group: &mut MarginfiGroup,
    account: &mut MarginfiAccount,
    signer: u64,
    bank_index: usize,
    insurance_vault_balance: u64,
    now: i64,
    oracles: &Vec<OracleEntry>,
) -> (r: Result<u64, MarginfiError>)
    requires
        banks_wf(old(group).banks@),
        old(account).lending_account.wf(),
    ensures
        final(group).admin == old(group).admin,
        final(group).paused == old(group).paused,
        banks_wf(final(group).banks@),
        final(account).lending_account.wf(),
        match spec_handle_bankruptcy(
            old(group).banks@,
            old(group).admin,
            *old(account),
            signer,
            bank_index,
            insurance_vault_balance,
            now,
            oracles@,
        ) {
            Ok(v) => {
                &&& r == Ok::<u64, MarginfiError>(v.2)
                &&& final(group).banks@ == old(group).banks@.update(bank_index as int, v.0)
                &&& final(account).lending_account.slots() == old(
                    account,
                ).lending_account.slots().update(
                    v.1,
                    written_off(old(account).lending_account.slots()[v.1]),
                )
                &&& final(account).group == old(account).group
                &&& final(account).authority == old(account).authority
                &&& final(account).account_flags == old(account).account_flags
            },
            Err(e) => {
                &&& r == Err::<u64, MarginfiError>(e)
                &&& final(group).banks@ == old(group).banks@
                &&& *final(account) == *old(account)
            },
        },
{
    if signer != group.admin {
        return Err(MarginfiError::Unauthorized);
    }
    if bank_index >= group.banks.len() {
        return Err(MarginfiError::BankNotFound);
    }
    let mut banks = group.banks.clone();
    proof {
        assert(banks@ =~= group.banks@);
    }
    let mut bank = banks[bank_index];
    proof {
        lemma_accrue_effects(bank, now);
    }
    bank.accrue_interest(now)?;
    banks.set(bank_index, bank);
    check_account_bankrupt(account, &banks, oracles, now)?;
    let i = account.lending_account.find_existing(bank_index)?;
    let bal = account.lending_account.balances[i];
    if bal.liability_shares.bits <= 0 {
        return Err(MarginfiError::BalanceNotBadDebt);
    }
    let debt = bal.liability_shares.checked_mul_ceil(bank.liability_share_value)?;
    let debt_native = debt.to_u64_ceil()?;
    let covered = if insurance_vault_balance <= debt_native {
        insurance_vault_balance
    } else {
        debt_native
    };
    let mut b = bank.change_liability_shares(Q { bits: -bal.liability_shares.bits })?;
    let covered_q = Q::from_u64(covered);
    if debt.bits > covered_q.bits && bank.total_asset_shares.bits > 0 {
        let loss = (Q { bits: debt.bits - covered_q.bits }).checked_div_ceil(bank.total_asset_shares)?;
        if bank.asset_share_value.bits <= loss.bits {
            return Err(MarginfiError::MathError);
        }
        b.asset_share_value = Q { bits: bank.asset_share_value.bits - loss.bits };
    }
    let mut la = account.lending_account;
    let cleared = Balance { liability_shares: Q::zero(), ..bal };
    let closed = if cleared.deposit_shares.bits == 0 {
        Balance { active: false, bank_index: 0, ..cleared }
    } else {
        cleared
    };
    proof {
        assert(la.slots()[i as int].wf());
        assert(la.slots().update(i as int, bal) =~= la.slots());
        crate::liquidation::lemma_update_keeps_wf(la.slots(), i as int, bal, closed);
    }
    la.balances[i] = closed;
    let ghost before = group.banks@;
    group.banks.set(bank_index, b);
    proof {
        assert forall|j: int| 0 <= j < group.banks@.len() implies (#[trigger] group.banks@[j]).wf() by {
            if j != bank_index as int {
                assert(before[j].wf());
            }
        }
    }
    account.lending_account = la;
    Ok(covered)
}

} // verus!
