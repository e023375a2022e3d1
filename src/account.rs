//! Balances and the balance book of an account, and the operations that
//! change one balance of one bank while keeping the bank's totals in step.
use crate::bank::{Bank, BankOperationalState};
use crate::errors::MarginfiError;
use crate::fixed_point::{div_ceil, lemma_div_trunc_nonneg, mul_ceil, q_of, Q};
use vstd::prelude::*;

verus! {

/// Number of balance slots in a lending account.
pub const MAX_LENDING_ACCOUNT_BALANCES: usize = 16;

/// One slot of a lending account: the shares it holds in one bank.
#[derive(Debug, Clone, Copy, PartialEq, Eq, Structural)]
pub struct Balance {
    pub active: bool,
    pub bank_index: usize,
    pub deposit_shares: Q,
    pub liability_shares: Q,
    pub emissions_outstanding: Q,
}

impl Balance {
    /// Shares are non-negative, at most one side is non-zero, and an inactive
    /// slot holds nothing.
    pub open spec fn wf(self) -> bool {
        &&& self.deposit_shares.bits >= 0
        &&& self.liability_shares.bits >= 0
        &&& !(self.deposit_shares.bits > 0 && self.liability_shares.bits > 0)
        &&& !self.active ==> self.deposit_shares.bits == 0 && self.liability_shares.bits == 0
    }

    /// The slot after a change: deactivated and cleared once both sides are zero.
    pub open spec fn spec_settled(self) -> Balance {
        if self.deposit_shares.bits == 0 && self.liability_shares.bits == 0 {
            Balance { active: false, bank_index: 0, ..self }
        } else {
            self
        }
    }

    /// A free slot.
    pub fn empty() -> (r: Balance)
        ensures
            !r.active,
            r.wf(),
            r.deposit_shares.bits == 0,
            r.liability_shares.bits == 0,
    {
        Balance {
            active: false,
            bank_index: 0,
            deposit_shares: Q::zero(),
            liability_shares: Q::zero(),
            emissions_outstanding: Q::zero(),
        }
    }

    /// A fresh active slot for a bank.
    pub fn open(bank_index: usize) -> (r: Balance)
        ensures
            r.active,
            r.bank_index == bank_index,
            r.wf(),
            r.deposit_shares.bits == 0,
            r.liability_shares.bits == 0,
            r.emissions_outstanding.bits == 0,
    {
        Balance {
            active: true,
            bank_index,
            deposit_shares: Q::zero(),
            liability_shares: Q::zero(),
            emissions_outstanding: Q::zero(),
        }
    }

    fn settled(self) -> (r: Balance)
        ensures
            r == self.spec_settled(),
    {
        if self.deposit_shares.bits == 0 && self.liability_shares.bits == 0 {
            Balance { active: false, bank_index: 0, ..self }
        } else {
            self
        }
    }
}

/// The result of an operation on one balance of one bank: the new bank and
/// balance, or the error.
pub type BalanceChange = Result<(Bank, Balance), MarginfiError>;

/// How a call of an operation relates to its specification: on success the
/// bank and balance take the specified values, on an error both are left as
/// they were.
pub open spec fn change_outcome(
    s: BalanceChange,
    r: Result<(), MarginfiError>,
    bank0: Bank,
    bal0: Balance,
    bank1: Bank,
    bal1: Balance,
) -> bool {
    match s {
        Ok(v) => r is Ok && bank1 == v.0 && bal1 == v.1,
        Err(e) => r == Err::<(), MarginfiError>(e) && bank1 == bank0 && bal1 == bal0,
    }
}

/// Like `change_outcome`, for operations that also return a native amount.
pub open spec fn amount_outcome(
    s: Result<(Bank, Balance, u64), MarginfiError>,
    r: Result<u64, MarginfiError>,
    bank0: Bank,
    bal0: Balance,
    bank1: Bank,
    bal1: Balance,
) -> bool {
    match s {
        Ok(v) => r == Ok::<u64, MarginfiError>(v.2) && bank1 == v.0 && bal1 == v.1,
        Err(e) => r == Err::<u64, MarginfiError>(e) && bank1 == bank0 && bal1 == bal0,
    }
}

/// Credits deposit shares worth `amount` (rounded down).
pub open spec fn spec_increase_deposit(bank: Bank, bal: Balance, amount: Q) -> BalanceChange {
    match amount.spec_div(bank.asset_share_value) {
        Err(e) => Err(e),
        Ok(shares) => match bal.deposit_shares.spec_add(shares) {
            Err(e) => Err(e),
            Ok(d) => match bank.spec_change_asset_shares(shares) {
                Err(e) => Err(e),
                Ok(b) => Ok((b, Balance { deposit_shares: d, ..bal })),
            },
        },
    }
}

/// Charges liability shares worth `amount` (rounded up).
pub open spec fn spec_increase_liability(bank: Bank, bal: Balance, amount: Q) -> BalanceChange {
    match q_of(div_ceil(amount.bits as int, bank.liability_share_value.bits as int)) {
        Err(e) => Err(e),
        Ok(shares) => match bal.liability_shares.spec_add(shares) {
            Err(e) => Err(e),
            Ok(l) => match bank.spec_change_liability_shares(shares) {
                Err(e) => Err(e),
                Ok(b) => Ok((b, Balance { liability_shares: l, ..bal })),
            },
        },
    }
}

/// Removes `shares` deposit shares from the balance and the bank.
pub open spec fn spec_decrease_deposit_shares(bank: Bank, bal: Balance, shares: Q) -> BalanceChange {
    match bal.deposit_shares.spec_sub(shares) {
        Err(e) => Err(e),
        Ok(d) => match bank.spec_change_asset_shares(Q { bits: (-shares.bits) as i128 }) {
            Err(e) => Err(e),
            Ok(b) => Ok((b, Balance { deposit_shares: d, ..bal })),
        },
    }
}

/// Removes `shares` liability shares from the balance and the bank.
pub open spec fn spec_decrease_liability_shares(
    bank: Bank,
    bal: Balance,
    shares: Q,
) -> BalanceChange {
    match bal.liability_shares.spec_sub(shares) {
        Err(e) => Err(e),
        Ok(l) => match bank.spec_change_liability_shares(Q { bits: (-shares.bits) as i128 }) {
            Err(e) => Err(e),
            Ok(b) => Ok((b, Balance { liability_shares: l, ..bal })),
        },
    }
}

pub open spec fn q_min(a: Q, b: Q) -> Q {
    if a.bits <= b.bits {
        a
    } else {
        b
    }
}

pub open spec fn settle(c: BalanceChange) -> BalanceChange {
    match c {
        Err(e) => Err(e),
        Ok(v) => Ok((v.0, v.1.spec_settled())),
    }
}

/// Pays down liability worth up to `amount`: all of it where `amount` covers
/// the debt (rounded up), else the shares that `amount` buys (rounded down).
/// Returns the part of `amount` left over.
pub open spec fn spec_pay_down(bank: Bank, bal: Balance, amount: Q) -> Result<
    (Bank, Balance, Q),
    MarginfiError,
> {
    match q_of(mul_ceil(bal.liability_shares.bits as int, bank.liability_share_value.bits as int)) {
        Err(e) => Err(e),
        Ok(owed) => if amount.bits >= owed.bits {
            match spec_decrease_liability_shares(bank, bal, bal.liability_shares) {
                Err(e) => Err(e),
                Ok(v) => Ok((v.0, v.1, Q { bits: (amount.bits - owed.bits) as i128 })),
            }
        } else {
            match amount.spec_div(bank.liability_share_value) {
                Err(e) => Err(e),
                Ok(shares) => match spec_decrease_liability_shares(
                    bank,
                    bal,
                    q_min(shares, bal.liability_shares),
                ) {
                    Err(e) => Err(e),
                    Ok(v) => Ok((v.0, v.1, Q { bits: 0 })),
                },
            }
        },
    }
}

/// Draws down deposits worth up to `amount`: all of them where `amount`
/// reaches their value (rounded down), else the shares that `amount` costs
/// (rounded up). Returns the part of `amount` left over.
pub open spec fn spec_draw_down(bank: Bank, bal: Balance, amount: Q) -> Result<
    (Bank, Balance, Q),
    MarginfiError,
> {
    match bal.deposit_shares.spec_mul(bank.asset_share_value) {
        Err(e) => Err(e),
        Ok(avail) => if amount.bits >= avail.bits {
            match spec_decrease_deposit_shares(bank, bal, bal.deposit_shares) {
                Err(e) => Err(e),
                Ok(v) => Ok((v.0, v.1, Q { bits: (amount.bits - avail.bits) as i128 })),
            }
        } else {
            match q_of(div_ceil(amount.bits as int, bank.asset_share_value.bits as int)) {
                Err(e) => Err(e),
                Ok(shares) => match spec_decrease_deposit_shares(
                    bank,
                    bal,
                    q_min(shares, bal.deposit_shares),
                ) {
                    Err(e) => Err(e),
                    Ok(v) => Ok((v.0, v.1, Q { bits: 0 })),
                },
            }
        },
    }
}

/// Deposit of `amount` that first pays down any liability on the balance
/// and credits the rest as deposit shares. A reduce-only bank takes it only
/// where it pays down debt, and credits nothing beyond the debt.
pub open spec fn spec_account_deposit(bank: Bank, bal: Balance, amount: Q) -> BalanceChange {
    if bank.config.operational_state == BankOperationalState::Paused {
        Err(MarginfiError::BankPaused)
    } else if bank.config.operational_state == BankOperationalState::ReduceOnly
        && bal.liability_shares.bits == 0 {
        Err(MarginfiError::BankReduceOnly)
    } else {
        match spec_pay_down(bank, bal, amount) {
            Err(e) => Err(e),
            Ok(v) => if v.2.bits > 0 {
                if bank.config.operational_state == BankOperationalState::ReduceOnly {
                    Err(MarginfiError::BankReduceOnly)
                } else {
                    settle(spec_increase_deposit(v.0, v.1, v.2))
                }
            } else {
                Ok((v.0, v.1.spec_settled()))
            },
        }
    }
}

/// Withdrawal of `amount` that first draws down any deposit on the balance
/// and borrows the rest.
pub open spec fn spec_account_borrow(bank: Bank, bal: Balance, amount: Q) -> BalanceChange {
    if bank.config.operational_state == BankOperationalState::Paused {
        Err(MarginfiError::BankPaused)
    } else {
        match spec_draw_down(bank, bal, amount) {
            Err(e) => Err(e),
            Ok(v) => if v.2.bits > 0 {
                if bank.config.operational_state == BankOperationalState::ReduceOnly {
                    Err(MarginfiError::BankReduceOnly)
                } else {
                    settle(spec_increase_liability(v.0, v.1, v.2))
                }
            } else {
                Ok((v.0, v.1.spec_settled()))
            },
        }
    }
}

/// Withdrawal of `amount` from the deposits alone; `missing` is the error
/// where they do not cover it.
pub open spec fn spec_withdraw_only(
    bank: Bank,
    bal: Balance,
    amount: Q,
    missing: MarginfiError,
) -> BalanceChange {
    if bank.config.operational_state == BankOperationalState::Paused {
        Err(MarginfiError::BankPaused)
    } else {
        match bal.deposit_shares.spec_mul(bank.asset_share_value) {
            Err(e) => Err(e),
            Ok(avail) => if amount.bits > avail.bits {
                Err(missing)
            } else {
                match spec_draw_down(bank, bal, amount) {
                    Err(e) => Err(e),
                    Ok(v) => Ok((v.0, v.1.spec_settled())),
                }
            },
        }
    }
}

/// Deposit into a balance that holds no liability.
pub open spec fn spec_deposit(bank: Bank, bal: Balance, amount: Q) -> BalanceChange {
    if bank.config.operational_state == BankOperationalState::Paused {
        Err(MarginfiError::BankPaused)
    } else if bank.config.operational_state == BankOperationalState::ReduceOnly {
        Err(MarginfiError::BankReduceOnly)
    } else if bal.liability_shares.bits > 0 {
        Err(MarginfiError::OperationDepositOnly)
    } else {
        settle(spec_increase_deposit(bank, bal, amount))
    }
}

/// Borrow on a balance that holds no deposit.
pub open spec fn spec_borrow(bank: Bank, bal: Balance, amount: Q) -> BalanceChange {
    if bank.config.operational_state == BankOperationalState::Paused {
        Err(MarginfiError::BankPaused)
    } else if bank.config.operational_state == BankOperationalState::ReduceOnly {
        Err(MarginfiError::BankReduceOnly)
    } else if bal.deposit_shares.bits > 0 {
        Err(MarginfiError::OperationBorrowOnly)
    } else {
        settle(spec_increase_liability(bank, bal, amount))
    }
}

/// Repayment of at most the outstanding debt (rounded up).
pub open spec fn spec_repay(bank: Bank, bal: Balance, amount: Q) -> BalanceChange {
    if bank.config.operational_state == BankOperationalState::Paused {
        Err(MarginfiError::BankPaused)
    } else if bal.liability_shares.bits == 0 {
        Err(MarginfiError::NoLiabilityFound)
    } else {
        match q_of(
            mul_ceil(bal.liability_shares.bits as int, bank.liability_share_value.bits as int),
        ) {
            Err(e) => Err(e),
            Ok(owed) => if amount.bits > owed.bits {
                Err(MarginfiError::OperationRepayOnly)
            } else {
                match spec_pay_down(bank, bal, amount) {
                    Err(e) => Err(e),
                    Ok(v) => Ok((v.0, v.1.spec_settled())),
                }
            },
        }
    }
}

/// Repayment of the whole debt; returns the native amount owed, rounded up.
pub open spec fn spec_repay_all(bank: Bank, bal: Balance) -> Result<
    (Bank, Balance, u64),
    MarginfiError,
> {
    if bank.config.operational_state == BankOperationalState::Paused {
        Err(MarginfiError::BankPaused)
    } else if bal.liability_shares.bits == 0 {
        Err(MarginfiError::NoLiabilityFound)
    } else {
        match q_of(
            mul_ceil(bal.liability_shares.bits as int, bank.liability_share_value.bits as int),
        ) {
            Err(e) => Err(e),
            Ok(owed) => if crate::fixed_point::ceil_whole(owed.bits as int) > u64::MAX {
                Err(MarginfiError::MathError)
            } else {
                match spec_decrease_liability_shares(bank, bal, bal.liability_shares) {
                    Err(e) => Err(e),
                    Ok(v) => Ok(
                        (
                            v.0,
                            v.1.spec_settled(),
                            crate::fixed_point::ceil_whole(owed.bits as int) as u64,
                        ),
                    ),
                }
            },
        }
    }
}

/// Withdrawal of every deposit share; returns their native value, rounded down.
pub open spec fn spec_withdraw_all(bank: Bank, bal: Balance) -> Result<
    (Bank, Balance, u64),
    MarginfiError,
> {
    if bank.config.operational_state == BankOperationalState::Paused {
        Err(MarginfiError::BankPaused)
    } else if bal.deposit_shares.bits == 0 {
        Err(MarginfiError::NoAssetFound)
    } else {
        match bal.deposit_shares.spec_mul(bank.asset_share_value) {
            Err(e) => Err(e),
            Ok(avail) => if crate::fixed_point::floor_whole(avail.bits as int) > u64::MAX {
                Err(MarginfiError::MathError)
            } else {
                match spec_decrease_deposit_shares(bank, bal, bal.deposit_shares) {
                    Err(e) => Err(e),
                    Ok(v) => Ok(
                        (
                            v.0,
                            v.1.spec_settled(),
                            crate::fixed_point::floor_whole(avail.bits as int) as u64,
                        ),
                    ),
                }
            },
        }
    }
}

fn increase_deposit(bank: Bank, bal: Balance, amount: Q) -> (r: BalanceChange)
    ensures
        r == spec_increase_deposit(bank, bal, amount),
{
    let shares = amount.checked_div(bank.asset_share_value)?;
    let d = bal.deposit_shares.checked_add(shares)?;
    let b = bank.change_asset_shares(shares)?;
    Ok((b, Balance { deposit_shares: d, ..bal }))
}

fn increase_liability(bank: Bank, bal: Balance, amount: Q) -> (r: BalanceChange)
    requires
        amount.bits >= 0,
        bank.liability_share_value.bits > 0,
    ensures
        r == spec_increase_liability(bank, bal, amount),
{
    let shares = amount.checked_div_ceil(bank.liability_share_value)?;
    let l = bal.liability_shares.checked_add(shares)?;
    let b = bank.change_liability_shares(shares)?;
    Ok((b, Balance { liability_shares: l, ..bal }))
}

fn decrease_deposit_shares(bank: Bank, bal: Balance, shares: Q) -> (r: BalanceChange)
    requires
        shares.bits >= 0,
    ensures
        r == spec_decrease_deposit_shares(bank, bal, shares),
{
    let d = bal.deposit_shares.checked_sub(shares)?;
    let b = bank.change_asset_shares(Q { bits: -shares.bits })?;
    Ok((b, Balance { deposit_shares: d, ..bal }))
}

fn decrease_liability_shares(bank: Bank, bal: Balance, shares: Q) -> (r: BalanceChange)
    requires
        shares.bits >= 0,
    ensures
        r == spec_decrease_liability_shares(bank, bal, shares),
{
    let l = bal.liability_shares.checked_sub(shares)?;
    let b = bank.change_liability_shares(Q { bits: -shares.bits })?;
    Ok((b, Balance { liability_shares: l, ..bal }))
}

fn pay_down(bank: Bank, bal: Balance, amount: Q) -> (r: Result<(Bank, Balance, Q), MarginfiError>)
    requires
        bank.wf(),
        bal.wf(),
        amount.bits >= 0,
    ensures
        r == spec_pay_down(bank, bal, amount),
{
    let owed = bal.liability_shares.checked_mul_ceil(bank.liability_share_value)?;
    if amount.bits >= owed.bits {
        let (b, l) = decrease_liability_shares(bank, bal, bal.liability_shares)?;
        Ok((b, l, Q { bits: amount.bits - owed.bits }))
    } else {
        proof {
            lemma_div_trunc_nonneg(amount.bits as int, bank.liability_share_value.bits as int);
        }
        let shares = amount.checked_div(bank.liability_share_value)?;
        let m = if shares.bits <= bal.liability_shares.bits {
            shares
        } else {
            bal.liability_shares
        };
        let (b, l) = decrease_liability_shares(bank, bal, m)?;
        Ok((b, l, Q::zero()))
    }
}

fn draw_down(bank: Bank, bal: Balance, amount: Q) -> (r: Result<(Bank, Balance, Q), MarginfiError>)
    requires
        bank.wf(),
        bal.wf(),
        amount.bits >= 0,
    ensures
        r == spec_draw_down(bank, bal, amount),
{
    let avail = bal.deposit_shares.checked_mul(bank.asset_share_value)?;
    if amount.bits >= avail.bits {
        let (b, l) = decrease_deposit_shares(bank, bal, bal.deposit_shares)?;
        Ok((b, l, Q { bits: amount.bits - avail.bits }))
    } else {
        let shares = amount.checked_div_ceil(bank.asset_share_value)?;
        let m = if shares.bits <= bal.deposit_shares.bits {
            shares
        } else {
            bal.deposit_shares
        };
        let (b, l) = decrease_deposit_shares(bank, bal, m)?;
        Ok((b, l, Q::zero()))
    }
}

impl Balance {
    /// Deposit of `amount` native units: pays down any liability on this
    /// balance first and credits the rest as deposit shares (rounded down).
    pub fn account_deposit(&mut self, bank: &mut Bank, amount: Q) -> (r: Result<(), MarginfiError>)
        requires
            old(bank).wf(),
            old(self).wf(),
            amount.bits >= 0,
        ensures
            change_outcome(
                spec_account_deposit(*old(bank), *old(self), amount),
                r,
                *old(bank),
                *old(self),
                *final(bank),
                *final(self),
            ),
    {
        if bank.config.operational_state == BankOperationalState::Paused {
            return Err(MarginfiError::BankPaused);
        }
        if bank.config.operational_state == BankOperationalState::ReduceOnly
            && self.liability_shares.bits == 0 {
            return Err(MarginfiError::BankReduceOnly);
        }
        let (b, l, rest) = pay_down(*bank, *self, amount)?;
        let (b, l) = if rest.bits > 0 {
            if bank.config.operational_state == BankOperationalState::ReduceOnly {
                return Err(MarginfiError::BankReduceOnly);
            }
            increase_deposit(b, l, rest)?
        } else {
            (b, l)
        };
        *bank = b;
        *self = l.settled();
        Ok(())
    }

    /// Withdrawal of `amount` native units: draws down any deposit on this
    /// balance first and borrows the rest (liability shares rounded up).
    pub fn account_borrow(&mut self, bank: &mut Bank, amount: Q) -> (r: Result<(), MarginfiError>)
        requires
            old(bank).wf(),
            old(self).wf(),
            amount.bits >= 0,
        ensures
            change_outcome(
                spec_account_borrow(*old(bank), *old(self), amount),
                r,
                *old(bank),
                *old(self),
                *final(bank),
                *final(self),
            ),
    {
        if bank.config.operational_state == BankOperationalState::Paused {
            return Err(MarginfiError::BankPaused);
        }
        let (b, l, rest) = draw_down(*bank, *self, amount)?;
        let (b, l) = if rest.bits > 0 {
            if bank.config.operational_state == BankOperationalState::ReduceOnly {
                return Err(MarginfiError::BankReduceOnly);
            }
            increase_liability(b, l, rest)?
        } else {
            (b, l)
        };
        *bank = b;
        *self = l.settled();
        Ok(())
    }

    fn withdraw_only(&mut self, bank: &mut Bank, amount: Q, missing: MarginfiError) -> (r: Result<
        (),
        MarginfiError,
    >)
        requires
            old(bank).wf(),
            old(self).wf(),
            amount.bits >= 0,
        ensures
            change_outcome(
                spec_withdraw_only(*old(bank), *old(self), amount, missing),
                r,
                *old(bank),
                *old(self),
                *final(bank),
                *final(self),
            ),
    {
        if bank.config.operational_state == BankOperationalState::Paused {
            return Err(MarginfiError::BankPaused);
        }
        let avail = self.deposit_shares.checked_mul(bank.asset_share_value)?;
        if amount.bits > avail.bits {
            return Err(missing);
        }
        let (b, l, _rest) = draw_down(*bank, *self, amount)?;
        *bank = b;
        *self = l.settled();
        Ok(())
    }

    /// Withdrawal of `amount` native units from the deposits of this balance
    /// alone; fails with `BorrowingNotAllowed` where they do not cover it.
    pub fn account_withdraw(&mut self, bank: &mut Bank, amount: Q) -> (r: Result<(), MarginfiError>)
        requires
            old(bank).wf(),
            old(self).wf(),
            amount.bits >= 0,
        ensures
            change_outcome(
                spec_withdraw_only(
                    *old(bank),
                    *old(self),
                    amount,
                    MarginfiError::BorrowingNotAllowed,
                ),
                r,
                *old(bank),
                *old(self),
                *final(bank),
                *final(self),
            ),
    {
        self.withdraw_only(bank, amount, MarginfiError::BorrowingNotAllowed)
    }

    /// Withdrawal of `amount` native units from the deposits of this balance;
    /// fails with `OperationWithdrawOnly` where they do not cover it.
    pub fn withdraw(&mut self, bank: &mut Bank, amount: Q) -> (r: Result<(), MarginfiError>)
        requires
            old(bank).wf(),
            old(self).wf(),
            amount.bits >= 0,
        ensures
            change_outcome(
                spec_withdraw_only(
                    *old(bank),
                    *old(self),
                    amount,
                    MarginfiError::OperationWithdrawOnly,
                ),
                r,
                *old(bank),
                *old(self),
                *final(bank),
                *final(self),
            ),
    {
        self.withdraw_only(bank, amount, MarginfiError::OperationWithdrawOnly)
    }

    /// Deposit of `amount` native units into a balance without liability.
    pub fn deposit(&mut self, bank: &mut Bank, amount: Q) -> (r: Result<(), MarginfiError>)
        requires
            old(bank).wf(),
            old(self).wf(),
            amount.bits >= 0,
        ensures
            change_outcome(
                spec_deposit(*old(bank), *old(self), amount),
                r,
                *old(bank),
                *old(self),
                *final(bank),
                *final(self),
            ),
    {
        if bank.config.operational_state == BankOperationalState::Paused {
            return Err(MarginfiError::BankPaused);
        }
        if bank.config.operational_state == BankOperationalState::ReduceOnly {
            return Err(MarginfiError::BankReduceOnly);
        }
        if self.liability_shares.bits > 0 {
            return Err(MarginfiError::OperationDepositOnly);
        }
        let (b, l) = increase_deposit(*bank, *self, amount)?;
        *bank = b;
        *self = l.settled();
        Ok(())
    }

    /// Borrow of `amount` native units on a balance without deposits.
    pub fn borrow(&mut self, bank: &mut Bank, amount: Q) -> (r: Result<(), MarginfiError>)
        requires
            old(bank).wf(),
            old(self).wf(),
            amount.bits >= 0,
        ensures
            change_outcome(
                spec_borrow(*old(bank), *old(self), amount),
                r,
                *old(bank),
                *old(self),
                *final(bank),
                *final(self),
            ),
    {
        if bank.config.operational_state == BankOperationalState::Paused {
            return Err(MarginfiError::BankPaused);
        }
        if bank.config.operational_state == BankOperationalState::ReduceOnly {
            return Err(MarginfiError::BankReduceOnly);
        }
        if self.deposit_shares.bits > 0 {
            return Err(MarginfiError::OperationBorrowOnly);
        }
        let (b, l) = increase_liability(*bank, *self, amount)?;
        *bank = b;
        *self = l.settled();
        Ok(())
    }

    /// Repayment of `amount` native units, at most the outstanding debt.
    pub fn repay(&mut self, bank: &mut Bank, amount: Q) -> (r: Result<(), MarginfiError>)
        requires
            old(bank).wf(),
            old(self).wf(),
            amount.bits >= 0,
        ensures
            change_outcome(
                spec_repay(*old(bank), *old(self), amount),
                r,
                *old(bank),
                *old(self),
                *final(bank),
                *final(self),
            ),
    {
        if bank.config.operational_state == BankOperationalState::Paused {
            return Err(MarginfiError::BankPaused);
        }
        if self.liability_shares.bits == 0 {
            return Err(MarginfiError::NoLiabilityFound);
        }
        let owed = self.liability_shares.checked_mul_ceil(bank.liability_share_value)?;
        if amount.bits > owed.bits {
            return Err(MarginfiError::OperationRepayOnly);
        }
        let (b, l, _rest) = pay_down(*bank, *self, amount)?;
        *bank = b;
        *self = l.settled();
        Ok(())
    }

    /// Repays the whole debt of this balance and returns the native amount
    /// owed, rounded up.
    pub fn repay_all(&mut self, bank: &mut Bank) -> (r: Result<u64, MarginfiError>)
        requires
            old(bank).wf(),
            old(self).wf(),
        ensures
            amount_outcome(
                spec_repay_all(*old(bank), *old(self)),
                r,
                *old(bank),
                *old(self),
                *final(bank),
                *final(self),
            ),
    {
        if bank.config.operational_state == BankOperationalState::Paused {
            return Err(MarginfiError::BankPaused);
        }
        if self.liability_shares.bits == 0 {
            return Err(MarginfiError::NoLiabilityFound);
        }
        let owed = self.liability_shares.checked_mul_ceil(bank.liability_share_value)?;
        let native = owed.to_u64_ceil()?;
        let (b, l) = decrease_liability_shares(*bank, *self, self.liability_shares)?;
        *bank = b;
        *self = l.settled();
        Ok(native)
    }

    /// Withdraws every deposit share of this balance and returns their
    /// native value, rounded down.
    pub fn withdraw_all(&mut self, bank: &mut Bank) -> (r: Result<u64, MarginfiError>)
        requires
            old(bank).wf(),
            old(self).wf(),
        ensures
            amount_outcome(
                spec_withdraw_all(*old(bank), *old(self)),
                r,
                *old(bank),
                *old(self),
                *final(bank),
                *final(self),
            ),
    {
        if bank.config.operational_state == BankOperationalState::Paused {
            return Err(MarginfiError::BankPaused);
        }
        if self.deposit_shares.bits == 0 {
            return Err(MarginfiError::NoAssetFound);
        }
        let avail = self.deposit_shares.checked_mul(bank.asset_share_value)?;
        let native = avail.to_u64_floor()?;
        let (b, l) = decrease_deposit_shares(*bank, *self, self.deposit_shares)?;
        *bank = b;
        *self = l.settled();
        Ok(native)
    }
}

/// Flag bit of an account that is inside a flash loan.
pub const IN_FLASHLOAN_FLAG: u64 = 2;

/// The balance book of an account: a fixed number of slots, ordered
/// arbitrarily; only the active ones count.
#[derive(Debug, Clone, Copy)]
pub struct LendingAccount {
    pub balances: [Balance; MAX_LENDING_ACCOUNT_BALANCES],
}

/// An account of a user in a group.
#[derive(Debug, Clone, Copy)]
pub struct MarginfiAccount {
    pub group: u64,
    pub authority: u64,
    pub lending_account: LendingAccount,
    pub account_flags: u64,
}

pub open spec fn slot_matches(b: Balance, bank_index: usize) -> bool {
    b.active && b.bank_index == bank_index
}

/// Every slot is well formed and no two active slots share a bank.
pub open spec fn slots_wf(s: Seq<Balance>) -> bool {
    &&& forall|i: int| 0 <= i < s.len() ==> #[trigger] s[i].wf()
    &&& forall|i: int, j: int|
        0 <= i < s.len() && 0 <= j < s.len() && i != j && s[i].active && s[j].active
            ==> #[trigger] s[i].bank_index != #[trigger] s[j].bank_index
}

/// Slot `i` is the first active slot of the bank.
pub open spec fn first_match(s: Seq<Balance>, bank_index: usize, i: int) -> bool {
    &&& 0 <= i < s.len()
    &&& slot_matches(s[i], bank_index)
    &&& forall|j: int| 0 <= j < i ==> !slot_matches(#[trigger] s[j], bank_index)
}

pub open spec fn has_match(s: Seq<Balance>, bank_index: usize) -> bool {
    exists|j: int| 0 <= j < s.len() && slot_matches(#[trigger] s[j], bank_index)
}

/// Slot `i` is the first inactive slot.
pub open spec fn first_free(s: Seq<Balance>, i: int) -> bool {
    &&& 0 <= i < s.len()
    &&& !s[i].active
    &&& forall|j: int| 0 <= j < i ==> (#[trigger] s[j]).active
}

pub open spec fn all_active(s: Seq<Balance>) -> bool {
    forall|j: int| 0 <= j < s.len() ==> (#[trigger] s[j]).active
}

/// The slot that `find_or_create` settles on: the first active slot of the
/// bank, else the first free slot, else none.
pub open spec fn slot_for(s: Seq<Balance>, bank_index: usize) -> Option<int> {
    if has_match(s, bank_index) {
        Some(choose|i: int| first_match(s, bank_index, i))
    } else if all_active(s) {
        None
    } else {
        Some(choose|i: int| first_free(s, i))
    }
}

/// The slot that `find` settles on.
pub open spec fn find_slot(s: Seq<Balance>, bank_index: usize) -> Option<int> {
    if has_match(s, bank_index) {
        Some(choose|i: int| first_match(s, bank_index, i))
    } else {
        None
    }
}

/// The balance that `find_or_create` leaves in slot `i`: the one there, or a
/// fresh one for the bank.
pub open spec fn slot_balance(s: Seq<Balance>, bank_index: usize, i: int) -> Balance {
    if has_match(s, bank_index) {
        s[i]
    } else {
        Balance {
            active: true,
            bank_index,
            deposit_shares: Q { bits: 0 },
            liability_shares: Q { bits: 0 },
            emissions_outstanding: Q { bits: 0 },
        }
    }
}

impl LendingAccount {
    pub open spec fn slots(self) -> Seq<Balance> {
        self.balances@
    }

    pub open spec fn wf(self) -> bool {
        slots_wf(self.slots())
    }

    pub open spec fn is_first_match(self, bank_index: usize, i: int) -> bool {
        first_match(self.slots(), bank_index, i)
    }

    pub open spec fn has_match(self, bank_index: usize) -> bool {
        has_match(self.slots(), bank_index)
    }

    pub open spec fn is_first_free(self, i: int) -> bool {
        first_free(self.slots(), i)
    }

    pub open spec fn is_full(self) -> bool {
        all_active(self.slots())
    }

    pub open spec fn spec_slot_for(self, bank_index: usize) -> Option<int> {
        slot_for(self.slots(), bank_index)
    }

    pub open spec fn spec_find(self, bank_index: usize) -> Option<int> {
        find_slot(self.slots(), bank_index)
    }

    pub open spec fn spec_slot_balance(self, bank_index: usize, i: int) -> Balance {
        slot_balance(self.slots(), bank_index, i)
    }

    /// A book with every slot free.
    pub fn new() -> (r: LendingAccount)
        ensures
            r.wf(),
            forall|i: int| 0 <= i < r.slots().len() ==> !(#[trigger] r.slots()[i]).active,
    {
        LendingAccount { balances: [Balance::empty(); MAX_LENDING_ACCOUNT_BALANCES] }
    }

    /// The slot that holds the account's balance in a bank, if any.
    pub fn find(&self, bank_index: usize) -> (r: Option<usize>)
        ensures
            match r {
                Some(i) => self.is_first_match(bank_index, i as int),
                None => !self.has_match(bank_index),
            },
            match r {
                Some(i) => self.spec_find(bank_index) == Some(i as int),
                None => self.spec_find(bank_index) is None,
            },
    {
        let mut i: usize = 0;
        while i < MAX_LENDING_ACCOUNT_BALANCES
            invariant
                0 <= i <= MAX_LENDING_ACCOUNT_BALANCES,
                self.slots().len() == MAX_LENDING_ACCOUNT_BALANCES,
                forall|j: int| 0 <= j < i ==> !slot_matches(#[trigger] self.slots()[j], bank_index),
            decreases MAX_LENDING_ACCOUNT_BALANCES - i,
        {
            if self.balances[i].active && self.balances[i].bank_index == bank_index {
                proof {
                    lemma_first_match_unique(self.slots(), bank_index, i as int);
                }
                return Some(i);
            }
            i = i + 1;
        }
        None
    }

    /// The first free slot, if any.
    pub fn first_free(&self) -> (r: Option<usize>)
        ensures
            match r {
                Some(i) => self.is_first_free(i as int) && (choose|j: int| first_free(self.slots(), j))
                    == i as int,
                None => self.is_full(),
            },
    {
        let mut i: usize = 0;
        while i < MAX_LENDING_ACCOUNT_BALANCES
            invariant
                0 <= i <= MAX_LENDING_ACCOUNT_BALANCES,
                self.slots().len() == MAX_LENDING_ACCOUNT_BALANCES,
                forall|j: int| 0 <= j < i ==> (#[trigger] self.slots()[j]).active,
            decreases MAX_LENDING_ACCOUNT_BALANCES - i,
        {
            if !self.balances[i].active {
                proof {
                    lemma_first_free_unique(self.slots(), i as int);
                }
                return Some(i);
            }
            i = i + 1;
        }
        None
    }

    /// The slot of the account's balance in a bank, or a lookup error.
    pub fn find_existing(&self, bank_index: usize) -> (r: Result<usize, MarginfiError>)
        ensures
            match r {
                Ok(i) => self.is_first_match(bank_index, i as int),
                Err(e) => e == MarginfiError::LendingAccountBalanceNotFound && !self.has_match(
                    bank_index,
                ),
            },
    {
        match self.find(bank_index) {
            Some(i) => Ok(i),
            None => Err(MarginfiError::LendingAccountBalanceNotFound),
        }
    }

    /// The slot of the account's balance in a bank; where there is none, the
    /// first free slot is opened for the bank. Fails with a full book.
    pub fn find_or_create(&mut self, bank_index: usize) -> (r: Result<usize, MarginfiError>)
        requires
            old(self).wf(),
        ensures
            final(self).wf(),
            match r {
                Ok(i) => {
                    &&& old(self).spec_slot_for(bank_index) == Some(i as int)
                    &&& final(self).slots() == old(self).slots().update(
                        i as int,
                        old(self).spec_slot_balance(bank_index, i as int),
                    )
                },
                Err(e) => old(self).spec_slot_for(bank_index) is None,
            },
            match r {
                Ok(i) => {
                    &&& slot_matches(final(self).slots()[i as int], bank_index)
                    &&& if old(self).has_match(bank_index) {
                        old(self).is_first_match(bank_index, i as int) && *final(self) == *old(self)
                    } else {
                        &&& old(self).is_first_free(i as int)
                        &&& final(self).slots() == old(self).slots().update(
                            i as int,
                            Balance {
                                active: true,
                                bank_index,
                                deposit_shares: Q { bits: 0 },
                                liability_shares: Q { bits: 0 },
                                emissions_outstanding: Q { bits: 0 },
                            },
                        )
                    }
                },
                Err(e) => {
                    &&& e == MarginfiError::LendingAccountBalanceSlotsFull
                    &&& !old(self).has_match(bank_index)
                    &&& old(self).is_full()
                    &&& *final(self) == *old(self)
                },
            },
    {
        match self.find(bank_index) {
            Some(i) => Ok(i),
            None => match self.first_free() {
                Some(i) => {
                    self.balances[i] = Balance::open(bank_index);
                    Ok(i)
                },
                None => Err(MarginfiError::LendingAccountBalanceSlotsFull),
            },
        }
    }
}

/// The first active slot of a bank is unique.
pub proof fn lemma_first_match_unique(s: Seq<Balance>, bank_index: usize, i: int)
    requires
        first_match(s, bank_index, i),
    ensures
        (choose|j: int| first_match(s, bank_index, j)) == i,
{
    let j = choose|j: int| first_match(s, bank_index, j);
    assert(first_match(s, bank_index, j));
    if j < i {
        assert(!slot_matches(s[j], bank_index));
    } else if i < j {
        assert(!slot_matches(s[i], bank_index));
    }
}

/// The first free slot is unique.
pub proof fn lemma_first_free_unique(s: Seq<Balance>, i: int)
    requires
        first_free(s, i),
    ensures
        (choose|j: int| first_free(s, j)) == i,
{
    let j = choose|j: int| first_free(s, j);
    assert(first_free(s, j));
    if j < i {
        assert(s[j].active);
    } else if i < j {
        assert(s[i].active);
    }
}

/// What a successful balance operation `c` on `bal` in `bank` keeps: the
/// bank changes only in its share totals, and each total moves by exactly
/// the change of the balance's shares on that side; the balance stays well
/// formed and on its bank.
pub open spec fn change_is_sound(bank: Bank, bal: Balance, c: BalanceChange) -> bool {
    c is Ok ==> {
        let v = c->Ok_0;
        &&& v.0 == Bank {
            total_asset_shares: v.0.total_asset_shares,
            total_liability_shares: v.0.total_liability_shares,
            ..bank
        }
        &&& v.0.total_asset_shares.bits - bank.total_asset_shares.bits == v.1.deposit_shares.bits
            - bal.deposit_shares.bits
        &&& v.0.total_liability_shares.bits - bank.total_liability_shares.bits
            == v.1.liability_shares.bits - bal.liability_shares.bits
        &&& v.1.wf()
        &&& v.1.active ==> v.1.bank_index == bal.bank_index
        &&& v.1.emissions_outstanding == bal.emissions_outstanding
    }
}

proof fn lemma_div_ceil_nonneg(a: int, b: int)
    requires
        a >= 0,
        b > 0,
    ensures
        div_ceil(a, b) >= 0,
{
    assert(a * crate::fixed_point::q_scale() >= 0) by (nonlinear_arith)
        requires
            a >= 0,
    ;
    vstd::arithmetic::div_mod::lemma_div_pos_is_pos(a * crate::fixed_point::q_scale() + b - 1, b);
}

proof fn lemma_pay_down(bank: Bank, bal: Balance, amount: Q)
    requires
        bank.wf(),
        bal.wf(),
        amount.bits >= 0,
    ensures
        spec_pay_down(bank, bal, amount) is Ok ==> {
            let v = spec_pay_down(bank, bal, amount)->Ok_0;
            &&& change_is_sound(bank, bal, Ok((v.0, v.1)))
            &&& v.1.deposit_shares == bal.deposit_shares
            &&& v.2.bits >= 0
            &&& v.2.bits > 0 ==> v.1.liability_shares.bits == 0
            &&& v.1.active == bal.active
        },
{
    lemma_div_trunc_nonneg(amount.bits as int, bank.liability_share_value.bits as int);
}

proof fn lemma_draw_down(bank: Bank, bal: Balance, amount: Q)
    requires
        bank.wf(),
        bal.wf(),
        amount.bits >= 0,
    ensures
        spec_draw_down(bank, bal, amount) is Ok ==> {
            let v = spec_draw_down(bank, bal, amount)->Ok_0;
            &&& change_is_sound(bank, bal, Ok((v.0, v.1)))
            &&& v.1.liability_shares == bal.liability_shares
            &&& v.2.bits >= 0
            &&& v.2.bits > 0 ==> v.1.deposit_shares.bits == 0
            &&& v.1.active == bal.active
        },
{
    lemma_div_ceil_nonneg(amount.bits as int, bank.asset_share_value.bits as int);
}

proof fn lemma_increase_deposit(bank: Bank, bal: Balance, amount: Q)
    requires
        bank.wf(),
        bal.deposit_shares.bits >= 0,
        bal.liability_shares.bits == 0,
        bal.active,
        amount.bits >= 0,
    ensures
        change_is_sound(bank, bal, settle(spec_increase_deposit(bank, bal, amount))),
{
    lemma_div_trunc_nonneg(amount.bits as int, bank.asset_share_value.bits as int);
}

proof fn lemma_increase_liability(bank: Bank, bal: Balance, amount: Q)
    requires
        bank.wf(),
        bal.liability_shares.bits >= 0,
        bal.deposit_shares.bits == 0,
        bal.active,
        amount.bits >= 0,
    ensures
        change_is_sound(bank, bal, settle(spec_increase_liability(bank, bal, amount))),
{
    lemma_div_ceil_nonneg(amount.bits as int, bank.liability_share_value.bits as int);
}

/// A deposit that pays down debt first is sound.
pub proof fn lemma_account_deposit_sound(bank: Bank, bal: Balance, amount: Q)
    requires
        bank.wf(),
        bal.wf(),
        bal.active,
        amount.bits >= 0,
    ensures
        change_is_sound(bank, bal, spec_account_deposit(bank, bal, amount)),
{
    lemma_pay_down(bank, bal, amount);
    if spec_pay_down(bank, bal, amount) is Ok {
        let v = spec_pay_down(bank, bal, amount)->Ok_0;
        if v.2.bits > 0 {
            lemma_increase_deposit(v.0, v.1, v.2);
        }
    }
}

/// A withdrawal that borrows what deposits do not cover is sound.
pub proof fn lemma_account_borrow_sound(bank: Bank, bal: Balance, amount: Q)
    requires
        bank.wf(),
        bal.wf(),
        bal.active,
        amount.bits >= 0,
    ensures
        change_is_sound(bank, bal, spec_account_borrow(bank, bal, amount)),
{
    lemma_draw_down(bank, bal, amount);
    if spec_draw_down(bank, bal, amount) is Ok {
        let v = spec_draw_down(bank, bal, amount)->Ok_0;
        if v.2.bits > 0 {
            lemma_increase_liability(v.0, v.1, v.2);
        }
    }
}

/// A withdrawal from deposits alone is sound.
pub proof fn lemma_withdraw_only_sound(bank: Bank, bal: Balance, amount: Q, missing: MarginfiError)
    requires
        bank.wf(),
        bal.wf(),
        bal.active,
        amount.bits >= 0,
    ensures
        change_is_sound(bank, bal, spec_withdraw_only(bank, bal, amount, missing)),
{
    lemma_draw_down(bank, bal, amount);
}

/// A deposit into a balance without debt is sound.
pub proof fn lemma_deposit_sound(bank: Bank, bal: Balance, amount: Q)
    requires
        bank.wf(),
        bal.wf(),
        bal.active,
        amount.bits >= 0,
    ensures
        change_is_sound(bank, bal, spec_deposit(bank, bal, amount)),
{
    if bal.liability_shares.bits == 0 {
        lemma_increase_deposit(bank, bal, amount);
    }
}

/// A borrow on a balance without deposits is sound.
pub proof fn lemma_borrow_sound(bank: Bank, bal: Balance, amount: Q)
    requires
        bank.wf(),
        bal.wf(),
        bal.active,
        amount.bits >= 0,
    ensures
        change_is_sound(bank, bal, spec_borrow(bank, bal, amount)),
{
    if bal.deposit_shares.bits == 0 {
        lemma_increase_liability(bank, bal, amount);
    }
}

/// A repayment is sound.
pub proof fn lemma_repay_sound(bank: Bank, bal: Balance, amount: Q)
    requires
        bank.wf(),
        bal.wf(),
        bal.active,
        amount.bits >= 0,
    ensures
        change_is_sound(bank, bal, spec_repay(bank, bal, amount)),
{
    lemma_pay_down(bank, bal, amount);
}

/// Repaying everything is sound.
pub proof fn lemma_repay_all_sound(bank: Bank, bal: Balance)
    requires
        bank.wf(),
        bal.wf(),
        bal.active,
    ensures
        spec_repay_all(bank, bal) is Ok ==> change_is_sound(
            bank,
            bal,
            Ok((spec_repay_all(bank, bal)->Ok_0.0, spec_repay_all(bank, bal)->Ok_0.1)),
        ),
{
}

/// Withdrawing everything is sound.
pub proof fn lemma_withdraw_all_sound(bank: Bank, bal: Balance)
    requires
        bank.wf(),
        bal.wf(),
        bal.active,
    ensures
        spec_withdraw_all(bank, bal) is Ok ==> change_is_sound(
            bank,
            bal,
            Ok((spec_withdraw_all(bank, bal)->Ok_0.0, spec_withdraw_all(bank, bal)->Ok_0.1)),
        ),
{
}

/// Where some active slot holds the bank, a first one does.
pub proof fn lemma_first_match_exists(s: Seq<Balance>, bank_index: usize, j: int)
    requires
        0 <= j < s.len(),
        slot_matches(s[j], bank_index),
    ensures
        exists|i: int| first_match(s, bank_index, i),
    decreases j,
{
    if exists|k: int| 0 <= k < j && slot_matches(#[trigger] s[k], bank_index) {
        let k = choose|k: int| 0 <= k < j && slot_matches(#[trigger] s[k], bank_index);
        lemma_first_match_exists(s, bank_index, k);
    } else {
        assert(first_match(s, bank_index, j));
    }
}

/// Where some slot is free, a first one is.
pub proof fn lemma_first_free_exists(s: Seq<Balance>, j: int)
    requires
        0 <= j < s.len(),
        !s[j].active,
    ensures
        exists|i: int| first_free(s, i),
    decreases j,
{
    if exists|k: int| 0 <= k < j && !(#[trigger] s[k]).active {
        let k = choose|k: int| 0 <= k < j && !(#[trigger] s[k]).active;
        lemma_first_free_exists(s, k);
    } else {
        assert(first_free(s, j));
    }
}

/// The slot that `find_or_create` settles on lies in the book and holds a
/// well-formed active balance, and opening it keeps the book well formed;
/// likewise the slot that `find` settles on.
pub proof fn lemma_slot_for_sound(s: Seq<Balance>, bank_index: usize)
    requires
        slots_wf(s),
    ensures
        slot_for(s, bank_index) is Some ==> {
            let i = slot_for(s, bank_index)->Some_0;
            &&& 0 <= i < s.len()
            &&& slot_balance(s, bank_index, i).wf()
            &&& slot_balance(s, bank_index, i).active
            &&& slot_balance(s, bank_index, i).bank_index == bank_index
            &&& slots_wf(s.update(i, slot_balance(s, bank_index, i)))
        },
        find_slot(s, bank_index) is Some ==> {
            let i = find_slot(s, bank_index)->Some_0;
            &&& 0 <= i < s.len()
            &&& s[i].wf()
            &&& s[i].active
            &&& s[i].bank_index == bank_index
        },
{
    if has_match(s, bank_index) {
        let j = choose|j: int| 0 <= j < s.len() && slot_matches(#[trigger] s[j], bank_index);
        lemma_first_match_exists(s, bank_index, j);
        let i = choose|i: int| first_match(s, bank_index, i);
        assert(first_match(s, bank_index, i));
        assert(s.update(i, s[i]) =~= s);
    } else if !all_active(s) {
        let j = choose|j: int| 0 <= j < s.len() && !(#[trigger] s[j]).active;
        lemma_first_free_exists(s, j);
        let i = choose|i: int| first_free(s, i);
        assert(first_free(s, i));
        let nb = slot_balance(s, bank_index, i);
        let s2 = s.update(i, nb);
        assert forall|a: int, b: int|
            0 <= a < s2.len() && 0 <= b < s2.len() && a != b && s2[a].active
                && s2[b].active implies s2[a].bank_index != s2[b].bank_index by {
            if a == i {
                assert(!slot_matches(s[b], bank_index));
            } else if b == i {
                assert(!slot_matches(s[a], bank_index));
            }
        }
        assert forall|a: int| 0 <= a < s2.len() implies #[trigger] s2[a].wf() by {
            if a != i {
                assert(s[a].wf());
            }
        }
    }
}

/// The balance a book holds in a bank: the one in the slot that
/// `find_or_create` settles on, or an empty one.
pub open spec fn balance_in(s: Seq<Balance>, bank_index: usize) -> Balance {
    match slot_for(s, bank_index) {
        Some(i) => slot_balance(s, bank_index, i),
        None => Balance {
            active: true,
            bank_index,
            deposit_shares: Q { bits: 0 },
            liability_shares: Q { bits: 0 },
            emissions_outstanding: Q { bits: 0 },
        },
    }
}

} // verus!
