//! Properties that hold across the operations of the lending pool.
use crate::account::{
    spec_draw_down, spec_increase_deposit, spec_increase_liability, spec_pay_down,
    change_is_sound, lemma_account_borrow_sound, lemma_account_deposit_sound, lemma_borrow_sound,
    lemma_deposit_sound, lemma_repay_all_sound, lemma_repay_sound, lemma_withdraw_all_sound,
    lemma_withdraw_only_sound, spec_account_borrow, spec_account_deposit, spec_borrow,
    spec_deposit, spec_repay, spec_repay_all, spec_withdraw_all, spec_withdraw_only, Balance,
    BalanceChange, lemma_slot_for_sound, MarginfiAccount, first_match, slot_matches, has_match,
    lemma_first_match_unique, slot_balance, slot_for, balance_in, slots_wf,
};
use crate::bank::{lemma_accrue_effects, Bank};
use crate::bankruptcy::{spec_bad_debt_native, spec_write_off, written_off};
use crate::errors::MarginfiError;
use crate::fixed_point::{
    ceil_whole, div_ceil, div_trunc, floor_whole, lemma_div_trunc_nonneg, lemma_div_trunc_one,
    lemma_mul_floor_one, mul_ceil, mul_floor, q_scale, whole, Q,
};
use crate::instructions::{
    banks_wf, native, spec_bank_deposit, spec_bank_withdraw, spec_lending_pool_borrow,
    spec_lending_pool_deposit, spec_lending_pool_withdraw, spec_prepare,
};
use crate::liquidation::{
    lemma_slot_op_balances, lemma_slot_op_sound, spec_liquidate, spec_liquidation_quantities, spec_slot_op, AccountOp,
};
use crate::risk::{spec_get_price, OracleEntry, PriceBias, PriceFeed};
use vstd::arithmetic::div_mod::{
    lemma_fundamental_div_mod, lemma_fundamental_div_mod_converse, lemma_mod_pos_bound,
};
use vstd::prelude::*;

verus! {

/// A change of one balance in one bank.
#[derive(Debug, Clone, Copy, PartialEq, Eq, Structural)]
pub enum BalanceOperation {
    AccountDeposit(Q),
    AccountBorrow(Q),
    AccountWithdraw(Q),
    Deposit(Q),
    Borrow(Q),
    Withdraw(Q),
    Repay(Q),
    RepayAll,
    WithdrawAll,
}

pub open spec fn operation_amount_valid(op: BalanceOperation) -> bool {
    match op {
        BalanceOperation::AccountDeposit(q) => q.bits >= 0,
        BalanceOperation::AccountBorrow(q) => q.bits >= 0,
        BalanceOperation::AccountWithdraw(q) => q.bits >= 0,
        BalanceOperation::Deposit(q) => q.bits >= 0,
        BalanceOperation::Borrow(q) => q.bits >= 0,
        BalanceOperation::Withdraw(q) => q.bits >= 0,
        BalanceOperation::Repay(q) => q.bits >= 0,
        BalanceOperation::RepayAll => true,
        BalanceOperation::WithdrawAll => true,
    }
}

/// The new bank and balance after an operation, as the operations specify them.
pub open spec fn spec_operation(op: BalanceOperation, bank: Bank, bal: Balance) -> BalanceChange {
    match op {
        BalanceOperation::AccountDeposit(q) => spec_account_deposit(bank, bal, q),
        BalanceOperation::AccountBorrow(q) => spec_account_borrow(bank, bal, q),
        BalanceOperation::AccountWithdraw(q) => spec_withdraw_only(
            bank,
            bal,
            q,
            MarginfiError::BorrowingNotAllowed,
        ),
        BalanceOperation::Deposit(q) => spec_deposit(bank, bal, q),
        BalanceOperation::Borrow(q) => spec_borrow(bank, bal, q),
        BalanceOperation::Withdraw(q) => spec_withdraw_only(
            bank,
            bal,
            q,
            MarginfiError::OperationWithdrawOnly,
        ),
        BalanceOperation::Repay(q) => spec_repay(bank, bal, q),
        BalanceOperation::RepayAll => match spec_repay_all(bank, bal) {
            Err(e) => Err(e),
            Ok(v) => Ok((v.0, v.1)),
        },
        BalanceOperation::WithdrawAll => match spec_withdraw_all(bank, bal) {
            Err(e) => Err(e),
            Ok(v) => Ok((v.0, v.1)),
        },
    }
}

proof fn lemma_operation_sound(op: BalanceOperation, bank: Bank, bal: Balance)
    requires
        bank.wf(),
        bal.wf(),
        bal.active,
        operation_amount_valid(op),
    ensures
        change_is_sound(bank, bal, spec_operation(op, bank, bal)),
{
    match op {
        BalanceOperation::AccountDeposit(q) => lemma_account_deposit_sound(bank, bal, q),
        BalanceOperation::AccountBorrow(q) => lemma_account_borrow_sound(bank, bal, q),
        BalanceOperation::AccountWithdraw(q) => lemma_withdraw_only_sound(
            bank,
            bal,
            q,
            MarginfiError::BorrowingNotAllowed,
        ),
        BalanceOperation::Deposit(q) => lemma_deposit_sound(bank, bal, q),
        BalanceOperation::Borrow(q) => lemma_borrow_sound(bank, bal, q),
        BalanceOperation::Withdraw(q) => lemma_withdraw_only_sound(
            bank,
            bal,
            q,
            MarginfiError::OperationWithdrawOnly,
        ),
        BalanceOperation::Repay(q) => lemma_repay_sound(bank, bal, q),
        BalanceOperation::RepayAll => lemma_repay_all_sound(bank, bal),
        BalanceOperation::WithdrawAll => lemma_withdraw_all_sound(bank, bal),
    }
}

pub open spec fn sum_deposit_shares(bals: Seq<Balance>) -> int
    decreases bals.len(),
{
    if bals.len() == 0 {
        0
    } else {
        sum_deposit_shares(bals.drop_last()) + bals.last().deposit_shares.bits
    }
}

pub open spec fn sum_liability_shares(bals: Seq<Balance>) -> int
    decreases bals.len(),
{
    if bals.len() == 0 {
        0
    } else {
        sum_liability_shares(bals.drop_last()) + bals.last().liability_shares.bits
    }
}

/// The bank's totals are the sums over every balance held in it: `others`,
/// the balance `bal`, and (for deposits) the protocol's own shares.
pub open spec fn shares_conserved(bank: Bank, others: Seq<Balance>, bal: Balance) -> bool {
    &&& sum_deposit_shares(others) + bal.deposit_shares.bits + bank.protocol_deposit_shares.bits
        == bank.total_asset_shares.bits
    &&& sum_liability_shares(others) + bal.liability_shares.bits == bank.total_liability_shares.bits
}

/// Share conservation: where a bank's deposit and liability totals are the
/// sums of the shares of all balances in it (plus the protocol's deposit
/// shares), they still are after any successful operation on one of those
/// balances.
pub proof fn law_operation_conserves_shares(
    op: BalanceOperation,
    bank: Bank,
    others: Seq<Balance>,
    bal: Balance,
)
    requires
        bank.wf(),
        bal.wf(),
        bal.active,
        operation_amount_valid(op),
        shares_conserved(bank, others, bal),
        spec_operation(op, bank, bal) is Ok,
    ensures
        shares_conserved(
            spec_operation(op, bank, bal)->Ok_0.0,
            others,
            spec_operation(op, bank, bal)->Ok_0.1,
        ),
{
    lemma_operation_sound(op, bank, bal);
}

/// Share conservation through interest accrual: the fees become protocol
/// shares and enter the deposit total alike, so the totals stay the sums.
pub proof fn law_accrual_conserves_shares(bank: Bank, others: Seq<Balance>, bal: Balance, now: i64)
    requires
        bank.wf(),
        shares_conserved(bank, others, bal),
        bank.spec_accrue_interest(now) is Ok,
    ensures
        shares_conserved(bank.spec_accrue_interest(now)->Ok_0, others, bal),
{
    lemma_accrue_effects(bank, now);
}

/// No successful operation leaves a balance with both deposit and
/// liability shares.
pub proof fn law_balance_one_sided(op: BalanceOperation, bank: Bank, bal: Balance)
    requires
        bank.wf(),
        bal.wf(),
        bal.active,
        operation_amount_valid(op),
        spec_operation(op, bank, bal) is Ok,
    ensures
        !(spec_operation(op, bank, bal)->Ok_0.1.deposit_shares.bits > 0
            && spec_operation(op, bank, bal)->Ok_0.1.liability_shares.bits > 0),
        spec_operation(op, bank, bal)->Ok_0.1.wf(),
{
    lemma_operation_sound(op, bank, bal);
}

/// Share values never fall: accrual can only raise them...
pub proof fn law_accrual_share_values_monotone(bank: Bank, now: i64)
    requires
        bank.wf(),
        bank.spec_accrue_interest(now) is Ok,
    ensures
        bank.spec_accrue_interest(now)->Ok_0.asset_share_value.bits >= bank.asset_share_value.bits,
        bank.spec_accrue_interest(now)->Ok_0.liability_share_value.bits
            >= bank.liability_share_value.bits,
{
    lemma_accrue_effects(bank, now);
}

/// ...and balance operations leave them as they are.
pub proof fn law_operation_keeps_share_values(op: BalanceOperation, bank: Bank, bal: Balance)
    requires
        bank.wf(),
        bal.wf(),
        bal.active,
        operation_amount_valid(op),
        spec_operation(op, bank, bal) is Ok,
    ensures
        spec_operation(op, bank, bal)->Ok_0.0.asset_share_value == bank.asset_share_value,
        spec_operation(op, bank, bal)->Ok_0.0.liability_share_value == bank.liability_share_value,
{
    lemma_operation_sound(op, bank, bal);
}

/// Accruing twice at the same time changes nothing the second time.
pub proof fn law_accrual_idempotent(bank: Bank, now: i64)
    requires
        bank.wf(),
        bank.spec_accrue_interest(now) is Ok,
    ensures
        bank.spec_accrue_interest(now)->Ok_0.spec_accrue_interest(now) == bank.spec_accrue_interest(
            now,
        ),
{
    lemma_accrue_effects(bank, now);
}

/// Depositing `amount` native units into an empty balance of a bank whose
/// asset share value is one, then withdrawing everything, returns exactly
/// `amount`.
pub proof fn law_deposit_withdraw_all_round_trip(bank: Bank, bal: Balance, amount: u64)
    requires
        bank.wf(),
        bank.asset_share_value.bits == q_scale(),
        bal.active,
        bal.deposit_shares.bits == 0,
        bal.liability_shares.bits == 0,
        amount > 0,
        spec_account_deposit(bank, bal, native(amount)) is Ok,
    ensures
        ({
            let v = spec_account_deposit(bank, bal, native(amount))->Ok_0;
            spec_withdraw_all(v.0, v.1) is Ok && spec_withdraw_all(v.0, v.1)->Ok_0.2 == amount
        }),
{
    let a = whole(amount as int);
    assert(a > 0) by (nonlinear_arith)
        requires
            a == amount as int * q_scale(),
            amount > 0,
    ;
    lemma_fundamental_div_mod_converse(0 + q_scale() - 1, q_scale(), 0, q_scale() - 1);
    assert(bal.liability_shares.bits as int * bank.liability_share_value.bits as int == 0);
    lemma_div_trunc_one(a);
    lemma_mul_floor_one(a);
    lemma_fundamental_div_mod_converse(a, q_scale(), amount as int, 0);
    assert(floor_whole(a) == amount);
}

/// Value of all deposits less value of all borrows, exact, in units of
/// `2^-96` native units.
pub open spec fn net_value_raw(bank: Bank) -> int {
    bank.total_asset_shares.bits * bank.asset_share_value.bits - bank.total_liability_shares.bits
        * bank.liability_share_value.bits
}

/// `vault` native units cover the bank's net obligation, rounded down.
/// Balance operations, liquidations and write-offs keep this; interest
/// accrual need not, since it rounds the liability share value down and can
/// raise the exact net value by a fraction of a native unit.
pub open spec fn vault_covers(bank: Bank, vault: int) -> bool {
    vault >= net_value_raw(bank) / (q_scale() * q_scale())
}

/// Raw amount (in `2^-48` native units) that an operation moves into the
/// liquidity vault; negative where it moves tokens out.
pub open spec fn operation_inflow(op: BalanceOperation, bank: Bank, bal: Balance) -> int {
    match op {
        BalanceOperation::AccountDeposit(q) => q.bits as int,
        BalanceOperation::Deposit(q) => q.bits as int,
        BalanceOperation::Repay(q) => q.bits as int,
        BalanceOperation::AccountBorrow(q) => -q.bits,
        BalanceOperation::AccountWithdraw(q) => -q.bits,
        BalanceOperation::Borrow(q) => -q.bits,
        BalanceOperation::Withdraw(q) => -q.bits,
        BalanceOperation::RepayAll => whole(spec_repay_all(bank, bal)->Ok_0.2 as int),
        BalanceOperation::WithdrawAll => -whole(spec_withdraw_all(bank, bal)->Ok_0.2 as int),
    }
}

proof fn lemma_floor_div_below(a: int, b: int)
    requires
        a >= 0,
        b > 0,
    ensures
        0 <= div_trunc(a, b),
        div_trunc(a, b) * b <= a * q_scale(),
{
    lemma_div_trunc_nonneg(a, b);
    let n = a * q_scale();
    lemma_fundamental_div_mod(n, b);
    lemma_mod_pos_bound(n, b);
    assert(div_trunc(a, b) * b <= n) by (nonlinear_arith)
        requires
            n == b * (n / b) + n % b,
            n % b >= 0,
            div_trunc(a, b) == n / b,
    ;
}

proof fn lemma_ceil_div_above(a: int, b: int)
    requires
        a >= 0,
        b > 0,
    ensures
        0 <= div_ceil(a, b),
        div_ceil(a, b) * b >= a * q_scale(),
{
    let n = a * q_scale() + b - 1;
    assert(n >= 0) by (nonlinear_arith)
        requires
            a >= 0,
            b > 0,
            n == a * q_scale() + b - 1,
    ;
    lemma_fundamental_div_mod(n, b);
    lemma_mod_pos_bound(n, b);
    assert(div_ceil(a, b) * b >= a * q_scale() && div_ceil(a, b) >= 0) by (nonlinear_arith)
        requires
            n == b * (n / b) + n % b,
            0 <= n % b < b,
            div_ceil(a, b) == n / b,
            n == a * q_scale() + b - 1,
            b > 0,
            a >= 0,
    ;
}

proof fn lemma_mul_ceil_above(a: int, b: int)
    requires
        a >= 0,
        b > 0,
    ensures
        mul_ceil(a, b) * q_scale() >= a * b,
{
    let n = a * b + q_scale() - 1;
    lemma_fundamental_div_mod(n, q_scale());
    lemma_mod_pos_bound(n, q_scale());
}

proof fn lemma_mul_floor_below(a: int, b: int)
    requires
        a >= 0,
        b > 0,
    ensures
        mul_floor(a, b) * q_scale() <= a * b,
        mul_floor(a, b) >= 0,
{
    lemma_fundamental_div_mod(a * b, q_scale());
    lemma_mod_pos_bound(a * b, q_scale());
    assert(a * b >= 0) by (nonlinear_arith)
        requires
            a >= 0,
            b > 0,
    ;
}

proof fn lemma_whole_bounds(x: int)
    ensures
        floor_whole(x) * q_scale() <= x,
        ceil_whole(x) * q_scale() >= x,
{
    lemma_fundamental_div_mod(x, q_scale());
    vstd::arithmetic::div_mod::lemma_mod_bound(x, q_scale());
    lemma_fundamental_div_mod(x + q_scale() - 1, q_scale());
    vstd::arithmetic::div_mod::lemma_mod_bound(x + q_scale() - 1, q_scale());
}

/// Change of the exact net value made by a change of one balance whose
/// shares the bank's totals follow.
pub open spec fn net_change(bank: Bank, bal: Balance, bal2: Balance) -> int {
    (bal2.deposit_shares.bits - bal.deposit_shares.bits) * bank.asset_share_value.bits - (
    bal2.liability_shares.bits - bal.liability_shares.bits) * bank.liability_share_value.bits
}

proof fn lemma_net_value_shift(bank: Bank, bal: Balance, c: BalanceChange)
    requires
        change_is_sound(bank, bal, c),
        c is Ok,
    ensures
        net_value_raw(c->Ok_0.0) == net_value_raw(bank) + net_change(bank, bal, c->Ok_0.1),
{
    let v = c->Ok_0;
    let a = bank.asset_share_value.bits as int;
    let l = bank.liability_share_value.bits as int;
    let dd = v.1.deposit_shares.bits - bal.deposit_shares.bits;
    let dl = v.1.liability_shares.bits - bal.liability_shares.bits;
    assert((bank.total_asset_shares.bits + dd) * a == bank.total_asset_shares.bits * a + dd * a)
        by (nonlinear_arith);
    assert((bank.total_liability_shares.bits + dl) * l == bank.total_liability_shares.bits * l + dl
        * l) by (nonlinear_arith);
}

proof fn lemma_net_change_bound(nc: int, dd: int, dl: int, asv: int, lsv: int, x: int, y: int, bound: int)
    requires
        nc == dd * asv - dl * lsv,
        dd * asv <= x,
        -(dl * lsv) <= y,
        x + y <= bound,
    ensures
        nc <= bound,
{
}

proof fn lemma_pay_down_value(bank: Bank, bal: Balance, amount: Q)
    requires
        bank.wf(),
        bal.wf(),
        amount.bits >= 0,
    ensures
        spec_pay_down(bank, bal, amount) is Ok ==> {
            let v = spec_pay_down(bank, bal, amount)->Ok_0;
            net_change(bank, bal, v.1) <= (amount.bits - v.2.bits) * q_scale()
        },
{
    let l = bal.liability_shares.bits as int;
    let asv = bank.asset_share_value.bits as int;
    let lsv = bank.liability_share_value.bits as int;
    if spec_pay_down(bank, bal, amount) is Ok {
        let v = spec_pay_down(bank, bal, amount)->Ok_0;
        let dd = v.1.deposit_shares.bits - bal.deposit_shares.bits;
        let dl = v.1.liability_shares.bits - bal.liability_shares.bits;
        assert(dd == 0);
        assert(dd * asv == 0) by (nonlinear_arith)
            requires
                dd == 0,
        ;
        let owed = mul_ceil(l, lsv);
        if amount.bits >= owed {
            lemma_mul_ceil_above(l, lsv);
            assert(dl == -l);
            assert(-(dl * lsv) <= owed * q_scale()) by (nonlinear_arith)
                requires
                    dl == -l,
                    owed * q_scale() >= l * lsv,
            ;
            assert(v.2.bits == amount.bits - owed);
            lemma_net_change_bound(
                net_change(bank, bal, v.1),
                dd,
                dl,
                asv,
                lsv,
                0,
                owed * q_scale(),
                (amount.bits - v.2.bits) * q_scale(),
            );
        } else {
            lemma_floor_div_below(amount.bits as int, lsv);
            let shares = div_trunc(amount.bits as int, lsv);
            let m = if shares <= l {
                shares
            } else {
                l
            };
            assert(dl == -m);
            assert(0 <= m <= shares);
            assert(-(dl * lsv) <= amount.bits * q_scale()) by (nonlinear_arith)
                requires
                    dl == -m,
                    0 <= m <= shares,
                    lsv > 0,
                    shares * lsv <= amount.bits * q_scale(),
            ;
            assert(v.2.bits == 0);
            lemma_net_change_bound(
                net_change(bank, bal, v.1),
                dd,
                dl,
                asv,
                lsv,
                0,
                amount.bits * q_scale(),
                (amount.bits - v.2.bits) * q_scale(),
            );
        }
    }
}

proof fn lemma_draw_down_value(bank: Bank, bal: Balance, amount: Q)
    requires
        bank.wf(),
        bal.wf(),
        amount.bits >= 0,
    ensures
        spec_draw_down(bank, bal, amount) is Ok ==> {
            let v = spec_draw_down(bank, bal, amount)->Ok_0;
            net_change(bank, bal, v.1) <= -(amount.bits - v.2.bits) * q_scale()
        },
{
    let d = bal.deposit_shares.bits as int;
    let asv = bank.asset_share_value.bits as int;
    let lsv = bank.liability_share_value.bits as int;
    if spec_draw_down(bank, bal, amount) is Ok {
        let v = spec_draw_down(bank, bal, amount)->Ok_0;
        let dd = v.1.deposit_shares.bits - bal.deposit_shares.bits;
        let dl = v.1.liability_shares.bits - bal.liability_shares.bits;
        assert(dl == 0);
        assert(-(dl * lsv) == 0) by (nonlinear_arith)
            requires
                dl == 0,
        ;
        lemma_mul_floor_below(d, asv);
        let avail = mul_floor(d, asv);
        if amount.bits >= avail {
            assert(dd == -d);
            assert(dd * asv <= -(avail * q_scale())) by (nonlinear_arith)
                requires
                    dd == -d,
                    avail * q_scale() <= d * asv,
            ;
            assert(v.2.bits == amount.bits - avail);
            lemma_net_change_bound(
                net_change(bank, bal, v.1),
                dd,
                dl,
                asv,
                lsv,
                -(avail * q_scale()),
                0,
                -(amount.bits - v.2.bits) * q_scale(),
            );
        } else {
            lemma_ceil_div_above(amount.bits as int, asv);
            let shares = div_ceil(amount.bits as int, asv);
            let m = if shares <= d {
                shares
            } else {
                d
            };
            assert(dd == -m);
            if shares <= d {
                assert(dd * asv <= -(amount.bits * q_scale())) by (nonlinear_arith)
                    requires
                        dd == -shares,
                        shares * asv >= amount.bits * q_scale(),
                ;
            } else {
                assert(dd * asv <= -(amount.bits * q_scale())) by (nonlinear_arith)
                    requires
                        dd == -d,
                        amount.bits < avail,
                        avail * q_scale() <= d * asv,
                        q_scale() > 0,
                ;
            }
            assert(v.2.bits == 0);
            lemma_net_change_bound(
                net_change(bank, bal, v.1),
                dd,
                dl,
                asv,
                lsv,
                -(amount.bits * q_scale()),
                0,
                -(amount.bits - v.2.bits) * q_scale(),
            );
        }
    }
}

proof fn lemma_increase_deposit_value(bank: Bank, bal: Balance, amount: Q)
    requires
        bank.wf(),
        amount.bits >= 0,
    ensures
        spec_increase_deposit(bank, bal, amount) is Ok ==> net_change(
            bank,
            bal,
            spec_increase_deposit(bank, bal, amount)->Ok_0.1,
        ) <= amount.bits * q_scale(),
{
    let asv = bank.asset_share_value.bits as int;
    let lsv = bank.liability_share_value.bits as int;
    lemma_floor_div_below(amount.bits as int, asv);
    if spec_increase_deposit(bank, bal, amount) is Ok {
        let v = spec_increase_deposit(bank, bal, amount)->Ok_0;
        let dd = v.1.deposit_shares.bits - bal.deposit_shares.bits;
        let dl = v.1.liability_shares.bits - bal.liability_shares.bits;
        assert(dd == div_trunc(amount.bits as int, asv));
        assert(dl == 0);
        assert(-(dl * lsv) == 0) by (nonlinear_arith)
            requires
                dl == 0,
        ;
        lemma_net_change_bound(
            net_change(bank, bal, v.1),
            dd,
            dl,
            asv,
            lsv,
            amount.bits * q_scale(),
            0,
            amount.bits * q_scale(),
        );
    }
}

proof fn lemma_increase_liability_value(bank: Bank, bal: Balance, amount: Q)
    requires
        bank.wf(),
        amount.bits >= 0,
    ensures
        spec_increase_liability(bank, bal, amount) is Ok ==> net_change(
            bank,
            bal,
            spec_increase_liability(bank, bal, amount)->Ok_0.1,
        ) <= -amount.bits * q_scale(),
{
    let asv = bank.asset_share_value.bits as int;
    let lsv = bank.liability_share_value.bits as int;
    lemma_ceil_div_above(amount.bits as int, lsv);
    if spec_increase_liability(bank, bal, amount) is Ok {
        let v = spec_increase_liability(bank, bal, amount)->Ok_0;
        let dd = v.1.deposit_shares.bits - bal.deposit_shares.bits;
        let dl = v.1.liability_shares.bits - bal.liability_shares.bits;
        assert(dl == div_ceil(amount.bits as int, lsv));
        assert(dd == 0);
        assert(dd * asv == 0) by (nonlinear_arith)
            requires
                dd == 0,
        ;
        assert(-(dl * lsv) <= -(amount.bits * q_scale())) by (nonlinear_arith)
            requires
                dl * lsv >= amount.bits * q_scale(),
        ;
        lemma_net_change_bound(
            net_change(bank, bal, v.1),
            dd,
            dl,
            asv,
            lsv,
            0,
            -(amount.bits * q_scale()),
            -amount.bits * q_scale(),
        );
    }
}

proof fn lemma_net_change_chain(bank: Bank, b0: Balance, b1: Balance, b2: Balance)
    ensures
        net_change(bank, b0, b2) == net_change(bank, b0, b1) + net_change(bank, b1, b2),
{
    let a = bank.asset_share_value.bits as int;
    let l = bank.liability_share_value.bits as int;
    let d0 = b0.deposit_shares.bits as int;
    let d1 = b1.deposit_shares.bits as int;
    let d2 = b2.deposit_shares.bits as int;
    let l0 = b0.liability_shares.bits as int;
    let l1 = b1.liability_shares.bits as int;
    let l2 = b2.liability_shares.bits as int;
    assert((d2 - d0) * a - (l2 - l0) * l == (d1 - d0) * a - (l1 - l0) * l + ((d2 - d1) * a - (l2
        - l1) * l)) by (nonlinear_arith);
}

/// A successful operation changes the bank's exact net value by at most
/// what it moves into the vault (or by at least what it moves out).
proof fn lemma_operation_value(op: BalanceOperation, bank: Bank, bal: Balance)
    requires
        bank.wf(),
        bal.wf(),
        bal.active,
        operation_amount_valid(op),
        spec_operation(op, bank, bal) is Ok,
    ensures
        net_change(bank, bal, spec_operation(op, bank, bal)->Ok_0.1) <= operation_inflow(
            op,
            bank,
            bal,
        ) * q_scale(),
{
    lemma_operation_sound(op, bank, bal);
    let r = spec_operation(op, bank, bal)->Ok_0;
    match op {
        BalanceOperation::AccountDeposit(q) => {
            crate::account::lemma_account_deposit_sound(bank, bal, q);
            lemma_pay_down_value(bank, bal, q);
            let v = spec_pay_down(bank, bal, q)->Ok_0;
            if v.2.bits > 0 {
                lemma_increase_deposit_value(v.0, v.1, v.2);
                let w = spec_increase_deposit(v.0, v.1, v.2)->Ok_0;
                lemma_net_change_chain(bank, bal, v.1, w.1);
            }
        },
        BalanceOperation::AccountBorrow(q) => {
            lemma_draw_down_value(bank, bal, q);
            let v = spec_draw_down(bank, bal, q)->Ok_0;
            if v.2.bits > 0 {
                lemma_increase_liability_value(v.0, v.1, v.2);
                let w = spec_increase_liability(v.0, v.1, v.2)->Ok_0;
                lemma_net_change_chain(bank, bal, v.1, w.1);
            }
        },
        BalanceOperation::AccountWithdraw(q) => {
            lemma_draw_down_value(bank, bal, q);
        },
        BalanceOperation::Withdraw(q) => {
            lemma_draw_down_value(bank, bal, q);
        },
        BalanceOperation::Deposit(q) => {
            lemma_increase_deposit_value(bank, bal, q);
        },
        BalanceOperation::Borrow(q) => {
            lemma_increase_liability_value(bank, bal, q);
        },
        BalanceOperation::Repay(q) => {
            lemma_pay_down_value(bank, bal, q);
        },
        BalanceOperation::RepayAll => {
            let l = bal.liability_shares.bits as int;
            let lsv = bank.liability_share_value.bits as int;
            let owed = mul_ceil(l, lsv);
            lemma_mul_ceil_above(l, lsv);
            lemma_whole_bounds(owed);
            let t = ceil_whole(owed);
            let dl = r.1.liability_shares.bits - bal.liability_shares.bits;
            let dd = r.1.deposit_shares.bits - bal.deposit_shares.bits;
            assert(dl == -l && dd == 0);
            assert(net_change(bank, bal, r.1) <= whole(t) * q_scale()) by (nonlinear_arith)
                requires
                    net_change(bank, bal, r.1) == dd * bank.asset_share_value.bits - dl * lsv,
                    dd == 0,
                    dl == -l,
                    owed * q_scale() >= l * lsv,
                    t * q_scale() >= owed,
                    whole(t) == t * q_scale(),
                    q_scale() > 0,
            ;
        },
        BalanceOperation::WithdrawAll => {
            let d = bal.deposit_shares.bits as int;
            let asv = bank.asset_share_value.bits as int;
            lemma_mul_floor_below(d, asv);
            let avail = mul_floor(d, asv);
            lemma_whole_bounds(avail);
            let t = floor_whole(avail);
            let dl = r.1.liability_shares.bits - bal.liability_shares.bits;
            let dd = r.1.deposit_shares.bits - bal.deposit_shares.bits;
            assert(dd == -d && dl == 0);
            assert(net_change(bank, bal, r.1) <= -whole(t) * q_scale()) by (nonlinear_arith)
                requires
                    net_change(bank, bal, r.1) == dd * asv - dl * bank.liability_share_value.bits,
                    dd == -d,
                    dl == 0,
                    avail * q_scale() <= d * asv,
                    t * q_scale() <= avail,
                    whole(t) == t * q_scale(),
                    q_scale() > 0,
            ;
        },
    }
}

/// Vault coverage: where the liquidity vault holds at least the bank's net
/// obligation (deposits less borrows, in native units, rounded down), it
/// still does after any successful operation on a balance, once the vault
/// has received (or paid out) the `moved` native units that the operation
/// moves. Operations round in the bank's favour, so their rounding never
/// uncovers the vault.
pub proof fn law_operation_keeps_vault_covered(
    op: BalanceOperation,
    bank: Bank,
    bal: Balance,
    vault: int,
    moved: int,
)
    requires
        bank.wf(),
        bal.wf(),
        bal.active,
        operation_amount_valid(op),
        spec_operation(op, bank, bal) is Ok,
        operation_inflow(op, bank, bal) == moved * q_scale(),
        vault_covers(bank, vault),
    ensures
        vault_covers(spec_operation(op, bank, bal)->Ok_0.0, vault + moved),
{
    lemma_operation_sound(op, bank, bal);
    lemma_operation_value(op, bank, bal);
    let c = spec_operation(op, bank, bal);
    lemma_net_value_shift(bank, bal, c);
    let m = q_scale() * q_scale();
    let x = net_value_raw(bank);
    let y = net_value_raw(c->Ok_0.0);
    assert(y <= x + moved * m) by (nonlinear_arith)
        requires
            y == x + net_change(bank, bal, c->Ok_0.1),
            net_change(bank, bal, c->Ok_0.1) <= operation_inflow(op, bank, bal) * q_scale(),
            operation_inflow(op, bank, bal) == moved * q_scale(),
            m == q_scale() * q_scale(),
    ;
    assert(m > 0) by (nonlinear_arith)
        requires
            m == q_scale() * q_scale(),
    ;
    vstd::arithmetic::div_mod::lemma_div_is_ordered(y, x + moved * m, m);
    lemma_fundamental_div_mod(x, m);
    vstd::arithmetic::div_mod::lemma_mod_bound(x, m);
    assert(x + moved * m == (x / m + moved) * m + x % m) by (nonlinear_arith)
        requires
            x == m * (x / m) + x % m,
    ;
    lemma_fundamental_div_mod_converse(x + moved * m, m, x / m + moved, x % m);
}

/// Share conservation through a bankruptcy write-off: the written-off debt
/// leaves the balance and the bank's borrow total alike.
pub proof fn law_write_off_conserves_shares(
    bank: Bank,
    others: Seq<Balance>,
    bal: Balance,
    covered: u64,
)
    requires
        bal.wf(),
        shares_conserved(bank, others, bal),
        spec_write_off(bank, bal, covered) is Ok,
    ensures
        shares_conserved(spec_write_off(bank, bal, covered)->Ok_0, others, written_off(bal)),
{
}

/// Vault coverage through a bankruptcy write-off: once the insurance fund
/// has paid `covered` native units (at most the debt, rounded up) into the
/// vault, the vault still covers the bank's net obligation, since the part
/// of the debt that the insurance does not cover is taken, rounded up, from
/// the depositors.
pub proof fn law_write_off_keeps_vault_covered(bank: Bank, bal: Balance, covered: u64, vault: int)
    requires
        bank.wf(),
        bal.wf(),
        bank.total_asset_shares.bits >= 0,
        bank.total_liability_shares.bits >= bal.liability_shares.bits,
        spec_write_off(bank, bal, covered) is Ok,
        spec_bad_debt_native(bank, bal) is Ok,
        covered <= spec_bad_debt_native(bank, bal)->Ok_0,
        vault >= 0,
        vault_covers(bank, vault),
    ensures
        vault_covers(spec_write_off(bank, bal, covered)->Ok_0, vault + covered),
{
    let b2 = spec_write_off(bank, bal, covered)->Ok_0;
    let l = bal.liability_shares.bits as int;
    let lsv = bank.liability_share_value.bits as int;
    let asv = bank.asset_share_value.bits as int;
    let tas = bank.total_asset_shares.bits as int;
    let tls = bank.total_liability_shares.bits as int;
    let debt = mul_ceil(l, lsv);
    lemma_mul_ceil_above(l, lsv);
    let m = q_scale() * q_scale();
    assert(m > 0) by (nonlinear_arith)
        requires
            m == q_scale() * q_scale(),
    ;
    let x = net_value_raw(bank);
    let y = net_value_raw(b2);
    let shortfall = debt - whole(covered as int);
    lemma_whole_bounds(debt);
    if shortfall > 0 && tas <= 0 {
        assert(y <= 0) by (nonlinear_arith)
            requires
                y == tas * asv - (tls - l) * lsv,
                tas == 0,
                tls >= l,
                lsv > 0,
        ;
        vstd::arithmetic::div_mod::lemma_div_is_ordered(y, 0, m);
    } else {
        if shortfall > 0 {
            let loss = div_ceil(shortfall, tas);
            lemma_ceil_div_above(shortfall, tas);
            assert(b2.asset_share_value.bits == asv - loss);
            assert(y <= x + (covered as int) * m) by (nonlinear_arith)
                requires
                    y == tas * (asv - loss) - (tls - l) * lsv,
                    x == tas * asv - tls * lsv,
                    loss * tas >= shortfall * q_scale(),
                    debt * q_scale() >= l * lsv,
                    shortfall == debt - whole(covered as int),
                    whole(covered as int) == (covered as int) * q_scale(),
                    m == q_scale() * q_scale(),
            ;
        } else {
            assert(y <= x + (covered as int) * m) by (nonlinear_arith)
                requires
                    y == tas * asv - (tls - l) * lsv,
                    x == tas * asv - tls * lsv,
                    debt * q_scale() >= l * lsv,
                    debt <= (covered as int) * q_scale(),
                    q_scale() > 0,
                    m == q_scale() * q_scale(),
            ;
        }
        vstd::arithmetic::div_mod::lemma_div_is_ordered(y, x + (covered as int) * m, m);
        lemma_fundamental_div_mod(x, m);
        vstd::arithmetic::div_mod::lemma_mod_bound(x, m);
        assert(x + (covered as int) * m == (x / m + covered as int) * m + x % m) by (nonlinear_arith)
            requires
                x == m * (x / m) + x % m,
        ;
        lemma_fundamental_div_mod_converse(
            x + (covered as int) * m,
            m,
            x / m + covered as int,
            x % m,
        );
    }
}

/// Two successful operations on two balances of one bank, whose inflows
/// together stay below `moved` native units, keep a vault that receives
/// `moved` covering the bank.
proof fn lemma_two_operations_keep_vault_covered(
    bank: Bank,
    op1: BalanceOperation,
    bal1: Balance,
    op2: BalanceOperation,
    bal2: Balance,
    vault: int,
    moved: int,
)
    requires
        bank.wf(),
        bal1.wf(),
        bal1.active,
        bal2.wf(),
        bal2.active,
        operation_amount_valid(op1),
        operation_amount_valid(op2),
        spec_operation(op1, bank, bal1) is Ok,
        spec_operation(op2, spec_operation(op1, bank, bal1)->Ok_0.0, bal2) is Ok,
        operation_inflow(op1, bank, bal1) + operation_inflow(
            op2,
            spec_operation(op1, bank, bal1)->Ok_0.0,
            bal2,
        ) <= moved * q_scale(),
        vault_covers(bank, vault),
    ensures
        vault_covers(
            spec_operation(op2, spec_operation(op1, bank, bal1)->Ok_0.0, bal2)->Ok_0.0,
            vault + moved,
        ),
{
    let c1 = spec_operation(op1, bank, bal1);
    lemma_operation_sound(op1, bank, bal1);
    lemma_operation_value(op1, bank, bal1);
    lemma_net_value_shift(bank, bal1, c1);
    let b1 = c1->Ok_0.0;
    assert(b1.wf());
    let c2 = spec_operation(op2, b1, bal2);
    lemma_operation_sound(op2, b1, bal2);
    lemma_operation_value(op2, b1, bal2);
    lemma_net_value_shift(b1, bal2, c2);
    let m = q_scale() * q_scale();
    let x = net_value_raw(bank);
    let y = net_value_raw(c2->Ok_0.0);
    assert(y <= x + moved * m) by (nonlinear_arith)
        requires
            y == net_value_raw(b1) + net_change(b1, bal2, c2->Ok_0.1),
            net_value_raw(b1) == x + net_change(bank, bal1, c1->Ok_0.1),
            net_change(bank, bal1, c1->Ok_0.1) <= operation_inflow(op1, bank, bal1) * q_scale(),
            net_change(b1, bal2, c2->Ok_0.1) <= operation_inflow(op2, b1, bal2) * q_scale(),
            operation_inflow(op1, bank, bal1) + operation_inflow(op2, b1, bal2) <= moved
                * q_scale(),
            m == q_scale() * q_scale(),
            q_scale() > 0,
    ;
    assert(m > 0) by (nonlinear_arith)
        requires
            m == q_scale() * q_scale(),
    ;
    vstd::arithmetic::div_mod::lemma_div_is_ordered(y, x + moved * m, m);
    lemma_fundamental_div_mod(x, m);
    vstd::arithmetic::div_mod::lemma_mod_bound(x, m);
    assert(x + moved * m == (x / m + moved) * m + x % m) by (nonlinear_arith)
        requires
            x == m * (x / m) + x % m,
    ;
    lemma_fundamental_div_mod_converse(x + moved * m, m, x / m + moved, x % m);
}

/// Vault coverage through a liquidation, in the liability bank: the
/// liquidator takes on `q_ll` of debt, the liquidatee is relieved of `q_lf`,
/// and the insurance fee (their difference, in whole native units) leaves
/// the vault; the vault still covers the bank.
pub proof fn law_liquidation_keeps_liability_vault_covered(
    bank: Bank,
    liquidator: Balance,
    liquidatee: Balance,
    q_ll: Q,
    q_lf: Q,
    vault: int,
)
    requires
        bank.wf(),
        liquidator.wf(),
        liquidator.active,
        liquidatee.wf(),
        liquidatee.active,
        0 <= q_lf.bits <= q_ll.bits,
        spec_account_borrow(bank, liquidator, q_ll) is Ok,
        spec_account_deposit(spec_account_borrow(bank, liquidator, q_ll)->Ok_0.0, liquidatee, q_lf) is Ok,
        vault_covers(bank, vault),
    ensures
        vault_covers(
            spec_account_deposit(
                spec_account_borrow(bank, liquidator, q_ll)->Ok_0.0,
                liquidatee,
                q_lf,
            )->Ok_0.0,
            vault - floor_whole(q_ll.bits - q_lf.bits),
        ),
{
    let fee = floor_whole(q_ll.bits - q_lf.bits);
    lemma_whole_bounds(q_ll.bits - q_lf.bits);
    lemma_two_operations_keep_vault_covered(
        bank,
        BalanceOperation::AccountBorrow(q_ll),
        liquidator,
        BalanceOperation::AccountDeposit(q_lf),
        liquidatee,
        vault,
        -fee,
    );
}

/// Vault coverage through a liquidation, in the asset bank: the collateral
/// only changes hands, and the vault still covers the bank.
pub proof fn law_liquidation_keeps_asset_vault_covered(
    bank: Bank,
    liquidator: Balance,
    liquidatee: Balance,
    q_a: Q,
    vault: int,
)
    requires
        bank.wf(),
        liquidator.wf(),
        liquidator.active,
        liquidatee.wf(),
        liquidatee.active,
        q_a.bits >= 0,
        spec_account_deposit(bank, liquidator, q_a) is Ok,
        spec_withdraw_only(
            spec_account_deposit(bank, liquidator, q_a)->Ok_0.0,
            liquidatee,
            q_a,
            MarginfiError::BorrowingNotAllowed,
        ) is Ok,
        vault_covers(bank, vault),
    ensures
        vault_covers(
            spec_withdraw_only(
                spec_account_deposit(bank, liquidator, q_a)->Ok_0.0,
                liquidatee,
                q_a,
                MarginfiError::BorrowingNotAllowed,
            )->Ok_0.0,
            vault,
        ),
{
    lemma_two_operations_keep_vault_covered(
        bank,
        BalanceOperation::AccountDeposit(q_a),
        liquidator,
        BalanceOperation::AccountWithdraw(q_a),
        liquidatee,
        vault,
        0,
    );
}

/// What the first steps of an instruction hand on: the accrued bank and the
/// balance in the slot, both well formed, the balance active.
proof fn lemma_prepare_sound(
    banks: Seq<Bank>,
    account: MarginfiAccount,
    signer: u64,
    bank_index: usize,
    now: i64,
    create: bool,
)
    requires
        banks_wf(banks),
        account.lending_account.wf(),
    ensures
        spec_prepare(banks, account, signer, bank_index, now, create) is Ok ==> {
            let p = spec_prepare(banks, account, signer, bank_index, now, create)->Ok_0;
            &&& bank_index < banks.len()
            &&& banks[bank_index as int].spec_accrue_interest(now) == Ok::<Bank, MarginfiError>(p.0)
            &&& p.0.wf()
            &&& p.2.wf()
            &&& p.2.active
            &&& p.2.bank_index == bank_index
            &&& 0 <= p.1 < account.lending_account.slots().len()
        },
{
    lemma_slot_for_sound(account.lending_account.slots(), bank_index);
    if bank_index < banks.len() {
        assert(banks[bank_index as int].wf());
        lemma_accrue_effects(banks[bank_index as int], now);
    }
}

proof fn lemma_native_nonneg(n: u64)
    ensures
        native(n).bits >= 0,
        native(n).bits == n as int * q_scale(),
{
    assert(0 <= n as int * q_scale() <= u64::MAX as int * q_scale()) by (nonlinear_arith);
}

/// Share conservation through `bank_deposit`: where the bank's totals are
/// the sums over the other balances in it (`others`), the balance the
/// instruction works on, and the protocol's shares, they still are after it.
pub proof fn law_bank_deposit_conserves_shares(
    banks: Seq<Bank>,
    account: MarginfiAccount,
    signer: u64,
    bank_index: usize,
    amount: u64,
    now: i64,
    others: Seq<Balance>,
)
    requires
        banks_wf(banks),
        account.lending_account.wf(),
        spec_bank_deposit(banks, account, signer, bank_index, amount, now) is Ok,
        shares_conserved(
            banks[bank_index as int],
            others,
            spec_prepare(banks, account, signer, bank_index, now, true)->Ok_0.2,
        ),
    ensures
        ({
            let v = spec_bank_deposit(banks, account, signer, bank_index, amount, now)->Ok_0;
            shares_conserved(v.0, others, v.2)
        }),
{
    lemma_prepare_sound(banks, account, signer, bank_index, now, true);
    lemma_native_nonneg(amount);
    let p = spec_prepare(banks, account, signer, bank_index, now, true)->Ok_0;
    law_accrual_conserves_shares(banks[bank_index as int], others, p.2, now);
    law_operation_conserves_shares(BalanceOperation::AccountDeposit(native(amount)), p.0, others, p.2);
}

/// Share conservation through `bank_withdraw`; see `law_bank_deposit_conserves_shares`.
pub proof fn law_bank_withdraw_conserves_shares(
    banks: Seq<Bank>,
    account: MarginfiAccount,
    signer: u64,
    bank_index: usize,
    amount: u64,
    now: i64,
    oracles: Seq<OracleEntry>,
    others: Seq<Balance>,
)
    requires
        banks_wf(banks),
        account.lending_account.wf(),
        spec_bank_withdraw(banks, account, signer, bank_index, amount, now, oracles) is Ok,
        shares_conserved(
            banks[bank_index as int],
            others,
            spec_prepare(banks, account, signer, bank_index, now, true)->Ok_0.2,
        ),
    ensures
        ({
            let v = spec_bank_withdraw(banks, account, signer, bank_index, amount, now, oracles)->Ok_0;
            shares_conserved(v.0, others, v.2)
        }),
{
    lemma_prepare_sound(banks, account, signer, bank_index, now, true);
    lemma_native_nonneg(amount);
    let p = spec_prepare(banks, account, signer, bank_index, now, true)->Ok_0;
    law_accrual_conserves_shares(banks[bank_index as int], others, p.2, now);
    law_operation_conserves_shares(BalanceOperation::AccountBorrow(native(amount)), p.0, others, p.2);
}

/// Share conservation through `lending_pool_borrow`, whose liability shares
/// are rounded up; see `law_bank_deposit_conserves_shares`.
pub proof fn law_lending_pool_borrow_conserves_shares(
    banks: Seq<Bank>,
    account: MarginfiAccount,
    signer: u64,
    bank_index: usize,
    amount: u64,
    now: i64,
    oracles: Seq<OracleEntry>,
    others: Seq<Balance>,
)
    requires
        banks_wf(banks),
        account.lending_account.wf(),
        spec_lending_pool_borrow(banks, account, signer, bank_index, amount, now, oracles) is Ok,
        shares_conserved(
            banks[bank_index as int],
            others,
            spec_prepare(banks, account, signer, bank_index, now, true)->Ok_0.2,
        ),
    ensures
        ({
            let v = spec_lending_pool_borrow(banks, account, signer, bank_index, amount, now, oracles)->Ok_0;
            let p = spec_prepare(banks, account, signer, bank_index, now, true)->Ok_0;
            &&& shares_conserved(v.0, others, v.2)
            &&& v.2.liability_shares.bits - p.2.liability_shares.bits == div_ceil(
                native(amount).bits as int,
                p.0.liability_share_value.bits as int,
            )
        }),
{
    lemma_prepare_sound(banks, account, signer, bank_index, now, true);
    lemma_native_nonneg(amount);
    let p = spec_prepare(banks, account, signer, bank_index, now, true)->Ok_0;
    law_accrual_conserves_shares(banks[bank_index as int], others, p.2, now);
    law_operation_conserves_shares(BalanceOperation::Borrow(native(amount)), p.0, others, p.2);
}

/// Vault coverage through `bank_deposit`: where the vault covers the bank
/// as the instruction's accrual leaves it, it still does once the deposited
/// `amount` has come in.
pub proof fn law_bank_deposit_keeps_vault_covered(
    banks: Seq<Bank>,
    account: MarginfiAccount,
    signer: u64,
    bank_index: usize,
    amount: u64,
    now: i64,
    vault: int,
)
    requires
        banks_wf(banks),
        account.lending_account.wf(),
        spec_bank_deposit(banks, account, signer, bank_index, amount, now) is Ok,
        vault_covers(spec_prepare(banks, account, signer, bank_index, now, true)->Ok_0.0, vault),
    ensures
        vault_covers(
            spec_bank_deposit(banks, account, signer, bank_index, amount, now)->Ok_0.0,
            vault + amount,
        ),
{
    lemma_prepare_sound(banks, account, signer, bank_index, now, true);
    lemma_native_nonneg(amount);
    let p = spec_prepare(banks, account, signer, bank_index, now, true)->Ok_0;
    law_operation_keeps_vault_covered(
        BalanceOperation::AccountDeposit(native(amount)),
        p.0,
        p.2,
        vault,
        amount as int,
    );
}

/// Vault coverage through `bank_withdraw`: where the vault covers the bank
/// as the instruction's accrual leaves it, it still does once `amount` has
/// left it.
pub proof fn law_bank_withdraw_keeps_vault_covered(
    banks: Seq<Bank>,
    account: MarginfiAccount,
    signer: u64,
    bank_index: usize,
    amount: u64,
    now: i64,
    oracles: Seq<OracleEntry>,
    vault: int,
)
    requires
        banks_wf(banks),
        account.lending_account.wf(),
        spec_bank_withdraw(banks, account, signer, bank_index, amount, now, oracles) is Ok,
        vault_covers(spec_prepare(banks, account, signer, bank_index, now, true)->Ok_0.0, vault),
    ensures
        vault_covers(
            spec_bank_withdraw(banks, account, signer, bank_index, amount, now, oracles)->Ok_0.0,
            vault - amount,
        ),
{
    lemma_prepare_sound(banks, account, signer, bank_index, now, true);
    lemma_native_nonneg(amount);
    let p = spec_prepare(banks, account, signer, bank_index, now, true)->Ok_0;
    law_operation_keeps_vault_covered(
        BalanceOperation::AccountBorrow(native(amount)),
        p.0,
        p.2,
        vault,
        -(amount as int),
    );
}

/// Round trip through the instructions: an account without a balance in a
/// bank whose asset share value is one deposits `amount` with
/// `lending_pool_deposit`; at the same time (no interest due) it withdraws
/// everything with `lending_pool_withdraw`. The withdrawal finds the new
/// balance, pays out exactly `amount`, closes the balance, and leaves the
/// bank's deposit total where it was before the deposit. `account2` is the
/// account as the deposit left it.
pub proof fn law_deposit_then_withdraw_all(
    banks: Seq<Bank>,
    account: MarginfiAccount,
    account2: MarginfiAccount,
    signer: u64,
    bank_index: usize,
    amount: u64,
    now: i64,
    oracles: Seq<OracleEntry>,
)
    requires
        banks_wf(banks),
        account.lending_account.wf(),
        bank_index < banks.len(),
        banks[bank_index as int].asset_share_value.bits == q_scale(),
        now <= banks[bank_index as int].last_update,
        !account.lending_account.has_match(bank_index),
        amount > 0,
        spec_lending_pool_deposit(banks, account, signer, bank_index, amount, now) is Ok,
        account2.lending_account.slots() == account.lending_account.slots().update(
            spec_lending_pool_deposit(banks, account, signer, bank_index, amount, now)->Ok_0.1,
            spec_lending_pool_deposit(banks, account, signer, bank_index, amount, now)->Ok_0.2,
        ),
        account2.authority == account.authority,
        account2.account_flags == account.account_flags,
    ensures
        ({
            let v = spec_lending_pool_deposit(banks, account, signer, bank_index, amount, now)->Ok_0;
            let banks2 = banks.update(bank_index as int, v.0);
            let w = spec_withdraw_all(v.0, v.2);
            &&& spec_prepare(banks2, account2, signer, bank_index, now, false) == Ok::<
                (Bank, int, Balance),
                MarginfiError,
            >((v.0, v.1, v.2))
            &&& w is Ok
            &&& w->Ok_0.2 == amount
            &&& !w->Ok_0.1.active
            &&& w->Ok_0.0.total_asset_shares == banks[bank_index as int].total_asset_shares
            &&& spec_lending_pool_withdraw(banks2, account2, signer, bank_index, 0, true, now, oracles) is Ok
                ==> spec_lending_pool_withdraw(
                banks2,
                account2,
                signer,
                bank_index,
                0,
                true,
                now,
                oracles,
            )->Ok_0.3 == amount
        }),
{
    lemma_prepare_sound(banks, account, signer, bank_index, now, true);
    lemma_native_nonneg(amount);
    let v = spec_lending_pool_deposit(banks, account, signer, bank_index, amount, now)->Ok_0;
    let p = spec_prepare(banks, account, signer, bank_index, now, true)->Ok_0;
    let a = native(amount).bits as int;
    assert(a > 0);
    lemma_div_trunc_one(a);
    lemma_mul_floor_one(a);
    lemma_fundamental_div_mod_converse(a, q_scale(), amount as int, 0);
    assert(floor_whole(a) == amount);
    assert(v.2.deposit_shares.bits == a);
    assert(v.2.active);
    let s2 = account2.lending_account.slots();
    assert(first_match(s2, bank_index, v.1)) by {
        assert forall|j: int| 0 <= j < v.1 implies !slot_matches(#[trigger] s2[j], bank_index) by {
            assert(s2[j] == account.lending_account.slots()[j]);
            if slot_matches(account.lending_account.slots()[j], bank_index) {
                assert(has_match(account.lending_account.slots(), bank_index));
            }
        }
    }
    lemma_first_match_unique(s2, bank_index, v.1);
}

/// Vault coverage through `lending_account_liquidate`: where each bank's
/// liquidity vault covers the bank as the liquidation's accrual leaves it,
/// the asset bank's vault still covers it afterwards, and the liability
/// bank's vault does once the insurance fee has left it.
pub proof fn law_liquidate_keeps_vaults_covered(
    banks: Seq<Bank>,
    liquidator: MarginfiAccount,
    liquidatee: MarginfiAccount,
    signer: u64,
    asset_bank_index: usize,
    liab_bank_index: usize,
    asset_quantity: u64,
    now: i64,
    asset_feed: PriceFeed,
    liab_feed: PriceFeed,
    liquidator_oracles: Seq<OracleEntry>,
    liquidatee_oracles: Seq<OracleEntry>,
    asset_vault: int,
    liab_vault: int,
)
    requires
        banks_wf(banks),
        liquidator.lending_account.wf(),
        liquidatee.lending_account.wf(),
        spec_liquidate(
            banks,
            liquidator,
            liquidatee,
            signer,
            asset_bank_index,
            liab_bank_index,
            asset_quantity,
            now,
            asset_feed,
            liab_feed,
            liquidator_oracles,
            liquidatee_oracles,
        ) is Ok,
        vault_covers(banks[asset_bank_index as int].spec_accrue_interest(now)->Ok_0, asset_vault),
        vault_covers(banks[liab_bank_index as int].spec_accrue_interest(now)->Ok_0, liab_vault),
    ensures
        ({
            let v = spec_liquidate(
                banks,
                liquidator,
                liquidatee,
                signer,
                asset_bank_index,
                liab_bank_index,
                asset_quantity,
                now,
                asset_feed,
                liab_feed,
                liquidator_oracles,
                liquidatee_oracles,
            )->Ok_0;
            &&& vault_covers(v.0[asset_bank_index as int], asset_vault)
            &&& vault_covers(v.0[liab_bank_index as int], liab_vault - v.3)
        }),
{
    let ai = asset_bank_index;
    let li = liab_bank_index;
    assert(banks[ai as int].wf());
    assert(banks[li as int].wf());
    lemma_accrue_effects(banks[ai as int], now);
    lemma_accrue_effects(banks[li as int], now);
    let ab = banks[ai as int].spec_accrue_interest(now)->Ok_0;
    let lb = banks[li as int].spec_accrue_interest(now)->Ok_0;
    let p_a = spec_get_price(asset_feed, now, PriceBias::Mid)->Ok_0;
    let p_l = spec_get_price(liab_feed, now, PriceBias::Mid)->Ok_0;
    let q_a = native(asset_quantity);
    lemma_native_nonneg(asset_quantity);
    let qs = spec_liquidation_quantities(ab.mint_decimals, lb.mint_decimals, q_a, p_a, p_l)->Ok_0;
    let s0 = liquidator.lending_account.slots();
    let t0 = liquidatee.lending_account.slots();
    lemma_slot_op_sound(s0, lb, li, AccountOp::Borrow(qs.0));
    let s1 = spec_slot_op(s0, lb, li, AccountOp::Borrow(qs.0))->Ok_0;
    lemma_slot_op_sound(s1.0, ab, ai, AccountOp::Deposit(q_a));
    let s2 = spec_slot_op(s1.0, ab, ai, AccountOp::Deposit(q_a))->Ok_0;
    lemma_slot_op_sound(t0, s2.1, ai, AccountOp::Withdraw(q_a));
    let s3 = spec_slot_op(t0, s2.1, ai, AccountOp::Withdraw(q_a))->Ok_0;
    lemma_slot_op_sound(s3.0, s1.1, li, AccountOp::Deposit(qs.1));
    let b1 = slot_balance(s0, li, slot_for(s0, li)->Some_0);
    let b2 = slot_balance(s1.0, ai, slot_for(s1.0, ai)->Some_0);
    let b3 = slot_balance(t0, ai, slot_for(t0, ai)->Some_0);
    let b4 = slot_balance(s3.0, li, slot_for(s3.0, li)->Some_0);
    law_liquidation_keeps_liability_vault_covered(lb, b1, b4, qs.0, qs.1, liab_vault);
    law_liquidation_keeps_asset_vault_covered(ab, b2, b3, q_a, asset_vault);
}

/// Conservation does not care which of two balances is listed last, nor
/// about anything but their shares.
proof fn lemma_conserved_pair(
    bank: Bank,
    others: Seq<Balance>,
    a: Balance,
    b: Balance,
    a2: Balance,
    b2: Balance,
)
    requires
        a.deposit_shares == a2.deposit_shares,
        a.liability_shares == a2.liability_shares,
        b.deposit_shares == b2.deposit_shares,
        b.liability_shares == b2.liability_shares,
    ensures
        shares_conserved(bank, others.push(a), b) == shares_conserved(bank, others.push(b2), a2),
{
    assert(others.push(a).drop_last() =~= others);
    assert(others.push(b2).drop_last() =~= others);
}

/// The liability bank through the four steps of a liquidation: the
/// liquidator's borrow and the liquidatee's deposit keep its totals the sums
/// of its balances; the asset steps leave both balances there alone.
#[verifier::spinoff_prover]
#[verifier::rlimit(60)]
proof fn lemma_liquidation_liability_side(
    ab: Bank,
    lb: Bank,
    ai: usize,
    li: usize,
    s0: Seq<Balance>,
    t0: Seq<Balance>,
    s1: (Seq<Balance>, Bank),
    s2: (Seq<Balance>, Bank),
    s3: (Seq<Balance>, Bank),
    s4: (Seq<Balance>, Bank),
    q_ll: Q,
    q_lf: Q,
    q_a: Q,
    others: Seq<Balance>,
)
    requires
        ai != li,
        ab.wf(),
        lb.wf(),
        slots_wf(s0),
        slots_wf(t0),
        0 <= q_lf.bits <= q_ll.bits,
        q_a.bits >= 0,
        spec_slot_op(s0, lb, li, AccountOp::Borrow(q_ll)) == Ok::<(Seq<Balance>, Bank), MarginfiError>(s1),
        spec_slot_op(s1.0, ab, ai, AccountOp::Deposit(q_a)) == Ok::<(Seq<Balance>, Bank), MarginfiError>(s2),
        spec_slot_op(t0, s2.1, ai, AccountOp::Withdraw(q_a)) == Ok::<(Seq<Balance>, Bank), MarginfiError>(s3),
        spec_slot_op(s3.0, s1.1, li, AccountOp::Deposit(q_lf)) == Ok::<(Seq<Balance>, Bank), MarginfiError>(s4),
        shares_conserved(lb, others.push(balance_in(s0, li)), balance_in(t0, li)),
    ensures
        shares_conserved(s4.1, others.push(balance_in(s2.0, li)), balance_in(s4.0, li)),
{
    lemma_slot_op_sound(s0, lb, li, AccountOp::Borrow(q_ll));
    lemma_slot_op_sound(s1.0, ab, ai, AccountOp::Deposit(q_a));
    lemma_slot_op_sound(t0, s2.1, ai, AccountOp::Withdraw(q_a));
    lemma_slot_op_sound(s3.0, s1.1, li, AccountOp::Deposit(q_lf));
    let b1 = slot_balance(s0, li, slot_for(s0, li)->Some_0);
    let b2 = slot_balance(s1.0, ai, slot_for(s1.0, ai)->Some_0);
    let b3 = slot_balance(t0, ai, slot_for(t0, ai)->Some_0);
    let b4 = slot_balance(s3.0, li, slot_for(s3.0, li)->Some_0);
    lemma_slot_op_balances(s0, lb, li, AccountOp::Borrow(q_ll), ai);
    lemma_slot_op_balances(s1.0, ab, ai, AccountOp::Deposit(q_a), li);
    lemma_slot_op_balances(t0, s2.1, ai, AccountOp::Withdraw(q_a), li);
    lemma_slot_op_balances(s3.0, s1.1, li, AccountOp::Deposit(q_lf), ai);
    let y0 = balance_in(t0, li);
    let n1 = spec_account_borrow(lb, b1, q_ll)->Ok_0.1;
    let n4 = spec_account_deposit(s1.1, b4, q_lf)->Ok_0.1;
    assert(b4 == y0);
    lemma_conserved_pair(lb, others, balance_in(s0, li), y0, b1, y0);
    law_operation_conserves_shares(BalanceOperation::AccountBorrow(q_ll), lb, others.push(y0), b1);
    lemma_conserved_pair(s1.1, others, y0, n1, b4, n1);
    law_operation_conserves_shares(BalanceOperation::AccountDeposit(q_lf), s1.1, others.push(n1), b4);
    lemma_conserved_pair(s4.1, others, n1, n4, balance_in(s2.0, li), balance_in(s4.0, li));
    lemma_conserved_pair(
        s4.1,
        others,
        balance_in(s4.0, li),
        balance_in(s2.0, li),
        balance_in(s4.0, li),
        balance_in(s2.0, li),
    );
}

/// The asset bank through the four steps of a liquidation: the liquidator's
/// deposit and the liquidatee's withdrawal keep its totals the sums of its
/// balances; the liability steps leave both balances there alone.
#[verifier::spinoff_prover]
#[verifier::rlimit(60)]
proof fn lemma_liquidation_asset_side(
    ab: Bank,
    lb: Bank,
    ai: usize,
    li: usize,
    s0: Seq<Balance>,
    t0: Seq<Balance>,
    s1: (Seq<Balance>, Bank),
    s2: (Seq<Balance>, Bank),
    s3: (Seq<Balance>, Bank),
    s4: (Seq<Balance>, Bank),
    q_ll: Q,
    q_lf: Q,
    q_a: Q,
    others: Seq<Balance>,
)
    requires
        ai != li,
        ab.wf(),
        lb.wf(),
        slots_wf(s0),
        slots_wf(t0),
        0 <= q_lf.bits <= q_ll.bits,
        q_a.bits >= 0,
        spec_slot_op(s0, lb, li, AccountOp::Borrow(q_ll)) == Ok::<(Seq<Balance>, Bank), MarginfiError>(s1),
        spec_slot_op(s1.0, ab, ai, AccountOp::Deposit(q_a)) == Ok::<(Seq<Balance>, Bank), MarginfiError>(s2),
        spec_slot_op(t0, s2.1, ai, AccountOp::Withdraw(q_a)) == Ok::<(Seq<Balance>, Bank), MarginfiError>(s3),
        spec_slot_op(s3.0, s1.1, li, AccountOp::Deposit(q_lf)) == Ok::<(Seq<Balance>, Bank), MarginfiError>(s4),
        shares_conserved(ab, others.push(balance_in(s0, ai)), balance_in(t0, ai)),
    ensures
        shares_conserved(s3.1, others.push(balance_in(s2.0, ai)), balance_in(s4.0, ai)),
{
    lemma_slot_op_sound(s0, lb, li, AccountOp::Borrow(q_ll));
    lemma_slot_op_sound(s1.0, ab, ai, AccountOp::Deposit(q_a));
    lemma_slot_op_sound(t0, s2.1, ai, AccountOp::Withdraw(q_a));
    lemma_slot_op_sound(s3.0, s1.1, li, AccountOp::Deposit(q_lf));
    let b1 = slot_balance(s0, li, slot_for(s0, li)->Some_0);
    let b2 = slot_balance(s1.0, ai, slot_for(s1.0, ai)->Some_0);
    let b3 = slot_balance(t0, ai, slot_for(t0, ai)->Some_0);
    let b4 = slot_balance(s3.0, li, slot_for(s3.0, li)->Some_0);
    lemma_slot_op_balances(s0, lb, li, AccountOp::Borrow(q_ll), ai);
    lemma_slot_op_balances(s1.0, ab, ai, AccountOp::Deposit(q_a), li);
    lemma_slot_op_balances(t0, s2.1, ai, AccountOp::Withdraw(q_a), li);
    lemma_slot_op_balances(s3.0, s1.1, li, AccountOp::Deposit(q_lf), ai);
    let c0 = balance_in(t0, ai);
    let n2 = spec_account_deposit(ab, b2, q_a)->Ok_0.1;
    let n3 = spec_withdraw_only(s2.1, b3, q_a, MarginfiError::BorrowingNotAllowed)->Ok_0.1;
    assert(b2 == balance_in(s0, ai));
    lemma_conserved_pair(ab, others, balance_in(s0, ai), c0, b2, c0);
    law_operation_conserves_shares(BalanceOperation::AccountDeposit(q_a), ab, others.push(c0), b2);
    lemma_conserved_pair(s2.1, others, c0, n2, b3, n2);
    law_operation_conserves_shares(BalanceOperation::AccountWithdraw(q_a), s2.1, others.push(n2), b3);
    lemma_conserved_pair(s3.1, others, n2, n3, balance_in(s2.0, ai), balance_in(s4.0, ai));
    lemma_conserved_pair(
        s3.1,
        others,
        balance_in(s4.0, ai),
        balance_in(s2.0, ai),
        balance_in(s4.0, ai),
        balance_in(s2.0, ai),
    );
}

/// Share conservation through `lending_account_liquidate`: in each of its
/// two banks, where the totals are the sums over the other balances in the
/// bank (`asset_others`, `liab_others`), the liquidator's and the
/// liquidatee's balances there, and the protocol's shares, they still are
/// after the liquidation.
#[verifier::spinoff_prover]
pub proof fn law_liquidate_conserves_shares(
    banks: Seq<Bank>,
    liquidator: MarginfiAccount,
    liquidatee: MarginfiAccount,
    signer: u64,
    asset_bank_index: usize,
    liab_bank_index: usize,
    asset_quantity: u64,
    now: i64,
    asset_feed: PriceFeed,
    liab_feed: PriceFeed,
    liquidator_oracles: Seq<OracleEntry>,
    liquidatee_oracles: Seq<OracleEntry>,
    asset_others: Seq<Balance>,
    liab_others: Seq<Balance>,
)
    requires
        banks_wf(banks),
        liquidator.lending_account.wf(),
        liquidatee.lending_account.wf(),
        spec_liquidate(
            banks,
            liquidator,
            liquidatee,
            signer,
            asset_bank_index,
            liab_bank_index,
            asset_quantity,
            now,
            asset_feed,
            liab_feed,
            liquidator_oracles,
            liquidatee_oracles,
        ) is Ok,
        shares_conserved(
            banks[asset_bank_index as int],
            asset_others.push(balance_in(liquidator.lending_account.slots(), asset_bank_index)),
            balance_in(liquidatee.lending_account.slots(), asset_bank_index),
        ),
        shares_conserved(
            banks[liab_bank_index as int],
            liab_others.push(balance_in(liquidator.lending_account.slots(), liab_bank_index)),
            balance_in(liquidatee.lending_account.slots(), liab_bank_index),
        ),
    ensures
        ({
            let v = spec_liquidate(
                banks,
                liquidator,
                liquidatee,
                signer,
                asset_bank_index,
                liab_bank_index,
                asset_quantity,
                now,
                asset_feed,
                liab_feed,
                liquidator_oracles,
                liquidatee_oracles,
            )->Ok_0;
            &&& shares_conserved(
                v.0[asset_bank_index as int],
                asset_others.push(balance_in(v.1, asset_bank_index)),
                balance_in(v.2, asset_bank_index),
            )
            &&& shares_conserved(
                v.0[liab_bank_index as int],
                liab_others.push(balance_in(v.1, liab_bank_index)),
                balance_in(v.2, liab_bank_index),
            )
        }),
{
    let ai = asset_bank_index;
    let li = liab_bank_index;
    assert(banks[ai as int].wf());
    assert(banks[li as int].wf());
    lemma_accrue_effects(banks[ai as int], now);
    lemma_accrue_effects(banks[li as int], now);
    let ab = banks[ai as int].spec_accrue_interest(now)->Ok_0;
    let lb = banks[li as int].spec_accrue_interest(now)->Ok_0;
    let p_a = spec_get_price(asset_feed, now, PriceBias::Mid)->Ok_0;
    let p_l = spec_get_price(liab_feed, now, PriceBias::Mid)->Ok_0;
    let q_a = native(asset_quantity);
    lemma_native_nonneg(asset_quantity);
    let qs = spec_liquidation_quantities(ab.mint_decimals, lb.mint_decimals, q_a, p_a, p_l)->Ok_0;
    let s0 = liquidator.lending_account.slots();
    let t0 = liquidatee.lending_account.slots();
    law_accrual_conserves_shares(banks[li as int], liab_others.push(balance_in(s0, li)), balance_in(t0, li), now);
    law_accrual_conserves_shares(banks[ai as int], asset_others.push(balance_in(s0, ai)), balance_in(t0, ai), now);
    let s1 = spec_slot_op(s0, lb, li, AccountOp::Borrow(qs.0))->Ok_0;
    let s2 = spec_slot_op(s1.0, ab, ai, AccountOp::Deposit(q_a))->Ok_0;
    let s3 = spec_slot_op(t0, s2.1, ai, AccountOp::Withdraw(q_a))->Ok_0;
    let s4 = spec_slot_op(s3.0, s1.1, li, AccountOp::Deposit(qs.1))->Ok_0;
    lemma_liquidation_liability_side(ab, lb, ai, li, s0, t0, s1, s2, s3, s4, qs.0, qs.1, q_a, liab_others);
    lemma_liquidation_asset_side(ab, lb, ai, li, s0, t0, s1, s2, s3, s4, qs.0, qs.1, q_a, asset_others);
}

} // verus!
