//! Liquidation of unhealthy accounts.
use crate::account::{
    balance_in, first_free, first_match, has_match, lemma_first_match_exists,
    lemma_first_free_exists, lemma_first_match_unique, lemma_slot_for_sound, slot_matches, lemma_account_borrow_sound, lemma_account_deposit_sound,
    lemma_withdraw_only_sound, slot_balance, slot_for, slots_wf, spec_account_borrow,
    spec_account_deposit, spec_withdraw_only, Balance, BalanceChange, LendingAccount,
    MarginfiAccount,
};
use crate::bank::{lemma_accrue_effects, Bank};
use crate::errors::MarginfiError;
use crate::fixed_point::{floor_whole, q_scale, Q};
use crate::instructions::{banks_wf, native, MarginfiGroup};
use crate::risk::{
    calc_asset_quantity, calc_asset_value, check_account_health,
    check_post_liquidation_account_health, get_account_health_components, get_price,
    spec_calc_quantity, spec_calc_value, spec_check_health, spec_check_post_liquidation,
    spec_get_price, spec_health_components, OracleEntry, PriceBias, PriceFeed,
    RiskRequirementType,
};
use vstd::prelude::*;

verus! {

/// Fee kept by the liquidator: 2.5%, in raw fixed-point units.
pub const LIQUIDATION_LIQUIDATOR_FEE_BITS: i128 = 7036874417766;

/// Fee paid into the insurance fund: 2.5%, in raw fixed-point units.
pub const LIQUIDATION_INSURANCE_FEE_BITS: i128 = 7036874417766;

/// `1 - liquidator fee`.
pub open spec fn liquidator_discount() -> Q {
    Q { bits: (q_scale() - LIQUIDATION_LIQUIDATOR_FEE_BITS) as i128 }
}

/// `1 - liquidator fee - insurance fee`.
pub open spec fn final_discount() -> Q {
    Q {
        bits: (q_scale() - LIQUIDATION_LIQUIDATOR_FEE_BITS - LIQUIDATION_INSURANCE_FEE_BITS) as i128,
    }
}

/// A change that a liquidation makes to one balance.
#[derive(Debug, Clone, Copy, PartialEq, Eq, Structural)]
pub enum AccountOp {
    Deposit(Q),
    Borrow(Q),
    Withdraw(Q),
}

pub open spec fn op_amount(op: AccountOp) -> Q {
    match op {
        AccountOp::Deposit(q) => q,
        AccountOp::Borrow(q) => q,
        AccountOp::Withdraw(q) => q,
    }
}

pub open spec fn spec_apply_op(op: AccountOp, bank: Bank, bal: Balance) -> BalanceChange {
    match op {
        AccountOp::Deposit(q) => spec_account_deposit(bank, bal, q),
        AccountOp::Borrow(q) => spec_account_borrow(bank, bal, q),
        AccountOp::Withdraw(q) => spec_withdraw_only(
            bank,
            bal,
            q,
            MarginfiError::BorrowingNotAllowed,
        ),
    }
}

/// The slot of a bank is found or opened in `slots`, and `op` applied to it.
/// Gives the new slots and the new bank.
pub open spec fn spec_slot_op(slots: Seq<Balance>, bank: Bank, bank_index: usize, op: AccountOp) -> Result<
    (Seq<Balance>, Bank),
    MarginfiError,
> {
    match slot_for(slots, bank_index) {
        None => Err(MarginfiError::LendingAccountBalanceSlotsFull),
        Some(i) => match spec_apply_op(op, bank, slot_balance(slots, bank_index, i)) {
            Err(e) => Err(e),
            Ok(v) => Ok((slots.update(i, v.1), v.0)),
        },
    }
}

/// Replacing one slot by a well-formed balance of the same bank (or by an
/// inactive one) keeps a book well formed.
pub proof fn lemma_update_keeps_wf(s: Seq<Balance>, i: int, old_b: Balance, new_b: Balance)
    requires
        0 <= i < s.len(),
        slots_wf(s.update(i, old_b)),
        new_b.wf(),
        new_b.active ==> old_b.active && new_b.bank_index == old_b.bank_index,
    ensures
        slots_wf(s.update(i, new_b)),
{
    let s1 = s.update(i, old_b);
    let s2 = s.update(i, new_b);
    assert forall|a: int, b: int|
        0 <= a < s2.len() && 0 <= b < s2.len() && a != b && s2[a].active
            && s2[b].active implies s2[a].bank_index != s2[b].bank_index by {
        assert(s1[a].active && s1[b].active);
        assert(s1[a].bank_index != s1[b].bank_index);
    }
    assert forall|a: int| 0 <= a < s2.len() implies #[trigger] s2[a].wf() by {
        assert(s1[a].wf());
    }
}

/// A successful find-or-open-and-apply step works on a well-formed active
/// balance and keeps the book and the bank well formed.
pub proof fn lemma_slot_op_sound(slots: Seq<Balance>, bank: Bank, bank_index: usize, op: AccountOp)
    requires
        slots_wf(slots),
        bank.wf(),
        op_amount(op).bits >= 0,
    ensures
        spec_slot_op(slots, bank, bank_index, op) is Ok ==> {
            let r = spec_slot_op(slots, bank, bank_index, op)->Ok_0;
            let i = slot_for(slots, bank_index)->Some_0;
            &&& slot_for(slots, bank_index) is Some
            &&& slot_balance(slots, bank_index, i).wf()
            &&& slot_balance(slots, bank_index, i).active
            &&& slots_wf(r.0)
            &&& r.1.wf()
        },
{
    lemma_slot_for_sound(slots, bank_index);
    if spec_slot_op(slots, bank, bank_index, op) is Ok {
        let i = slot_for(slots, bank_index)->Some_0;
        let b = slot_balance(slots, bank_index, i);
        match op {
            AccountOp::Deposit(q) => lemma_account_deposit_sound(bank, b, q),
            AccountOp::Borrow(q) => lemma_account_borrow_sound(bank, b, q),
            AccountOp::Withdraw(q) => lemma_withdraw_only_sound(
                bank,
                b,
                q,
                MarginfiError::BorrowingNotAllowed,
            ),
        }
        let nb = spec_apply_op(op, bank, b)->Ok_0.1;
        lemma_update_keeps_wf(slots, i, b, nb);
        assert(slots.update(i, b).update(i, nb) =~= slots.update(i, nb));
    }
}

/// A successful step on the slot of one bank leaves the book holding the
/// step's new balance (as far as shares go) in that bank, and the same
/// balance as before in every other bank.
pub proof fn lemma_slot_op_balances(
    slots: Seq<Balance>,
    bank: Bank,
    bank_index: usize,
    op: AccountOp,
    other: usize,
)
    requires
        slots_wf(slots),
        bank.wf(),
        op_amount(op).bits >= 0,
        spec_slot_op(slots, bank, bank_index, op) is Ok,
        other != bank_index,
    ensures
        ({
            let i = slot_for(slots, bank_index)->Some_0;
            let nb = spec_apply_op(op, bank, slot_balance(slots, bank_index, i))->Ok_0.1;
            let r = spec_slot_op(slots, bank, bank_index, op)->Ok_0;
            &&& balance_in(slots, bank_index) == slot_balance(slots, bank_index, i)
            &&& balance_in(r.0, bank_index).deposit_shares == nb.deposit_shares
            &&& balance_in(r.0, bank_index).liability_shares == nb.liability_shares
            &&& balance_in(r.0, other) == balance_in(slots, other)
        }),
{
    lemma_slot_op_sound(slots, bank, bank_index, op);
    lemma_slot_for_sound(slots, bank_index);
    let i = slot_for(slots, bank_index)->Some_0;
    let sb = slot_balance(slots, bank_index, i);
    match op {
        AccountOp::Deposit(q) => lemma_account_deposit_sound(bank, sb, q),
        AccountOp::Borrow(q) => lemma_account_borrow_sound(bank, sb, q),
        AccountOp::Withdraw(q) => lemma_withdraw_only_sound(
            bank,
            sb,
            q,
            MarginfiError::BorrowingNotAllowed,
        ),
    }
    let nb = spec_apply_op(op, bank, sb)->Ok_0.1;
    let s2 = slots.update(i, nb);
    if has_match(slots, bank_index) {
        let j0 = choose|j: int| 0 <= j < slots.len() && slot_matches(#[trigger] slots[j], bank_index);
        lemma_first_match_exists(slots, bank_index, j0);
        assert(first_match(slots, bank_index, i));
    } else {
        let j0 = choose|j: int| 0 <= j < slots.len() && !(#[trigger] slots[j]).active;
        lemma_first_free_exists(slots, j0);
        assert(first_free(slots, i));
    }
    // the bank of the step
    if nb.active {
        assert(first_match(s2, bank_index, i)) by {
            assert forall|j: int| 0 <= j < i implies !slot_matches(#[trigger] s2[j], bank_index) by {
                assert(s2[j] == slots[j]);
                if has_match(slots, bank_index) {
                    assert(first_match(slots, bank_index, i));
                } else if slot_matches(slots[j], bank_index) {
                    assert(has_match(slots, bank_index));
                }
            }
        }
        lemma_first_match_unique(s2, bank_index, i);
    } else {
        assert(!has_match(s2, bank_index)) by {
            if has_match(s2, bank_index) {
                let j = choose|j: int| 0 <= j < s2.len() && slot_matches(#[trigger] s2[j], bank_index);
                assert(j != i);
                assert(slots[j] == s2[j]);
                assert(has_match(slots, bank_index));
                assert(slot_matches(slots[i], bank_index));
            }
        }
    }
    // every other bank
    assert(!slot_matches(slots[i], other));
    assert(!slot_matches(nb, other));
    assert forall|j: int| 0 <= j < s2.len() implies slot_matches(#[trigger] s2[j], other)
        == slot_matches(slots[j], other) by {
        if j != i {
            assert(s2[j] == slots[j]);
        }
    }
    if has_match(slots, other) {
        let j0 = choose|j: int| 0 <= j < slots.len() && slot_matches(#[trigger] slots[j], other);
        lemma_first_match_exists(slots, other, j0);
        let k = choose|k: int| first_match(slots, other, k);
        assert(first_match(slots, other, k));
        assert(first_match(s2, other, k));
        assert(slot_matches(s2[k], other));
        lemma_first_match_unique(slots, other, k);
        lemma_first_match_unique(s2, other, k);
        assert(k != i);
    } else {
        assert(!has_match(s2, other)) by {
            if has_match(s2, other) {
                let j = choose|j: int| 0 <= j < s2.len() && slot_matches(#[trigger] s2[j], other);
                assert(slot_matches(slots[j], other));
            }
        }
    }
}

/// Finds or opens the slot of a bank and applies `op` to it.
fn slot_op(la: LendingAccount, bank: Bank, bank_index: usize, op: AccountOp) -> (r: Result<
    (LendingAccount, Bank),
    MarginfiError,
>)
    requires
        la.wf(),
        bank.wf(),
        op_amount(op).bits >= 0,
    ensures
        match spec_slot_op(la.slots(), bank, bank_index, op) {
            Ok(v) => r is Ok && r->Ok_0.0.slots() == v.0 && r->Ok_0.1 == v.1 && r->Ok_0.0.wf()
                && r->Ok_0.1.wf(),
            Err(e) => r == Err::<(LendingAccount, Bank), MarginfiError>(e),
        },
{
    let mut la = la;
    let mut bank = bank;
    let ghost s0 = la.slots();
    let i = la.find_or_create(bank_index)?;
    let mut bal = la.balances[i];
    let ghost b0 = bank;
    let ghost bal0 = bal;
    proof {
        assert(la.slots()[i as int] == bal0);
        assert(bal0.wf());
    }
    match op {
        AccountOp::Deposit(q) => {
            proof {
                lemma_account_deposit_sound(b0, bal0, q);
            }
            bal.account_deposit(&mut bank, q)?;
        },
        AccountOp::Borrow(q) => {
            proof {
                lemma_account_borrow_sound(b0, bal0, q);
            }
            bal.account_borrow(&mut bank, q)?;
        },
        AccountOp::Withdraw(q) => {
            proof {
                lemma_withdraw_only_sound(b0, bal0, q, MarginfiError::BorrowingNotAllowed);
            }
            bal.account_withdraw(&mut bank, q)?;
        },
    }
    proof {
        lemma_update_keeps_wf(s0, i as int, bal0, bal);
        assert(s0.update(i as int, bal0).update(i as int, bal) =~= s0.update(i as int, bal));
    }
    la.balances[i] = bal;
    Ok((la, bank))
}

/// The oracles of `oracles` whose bank still has an active slot, in order.
pub open spec fn oracles_for(oracles: Seq<OracleEntry>, slots: Seq<Balance>) -> Seq<OracleEntry>
    decreases oracles.len(),
{
    if oracles.len() == 0 {
        Seq::empty()
    } else {
        let rest = oracles_for(oracles.drop_last(), slots);
        if has_match(slots, oracles.last().bank_index) {
            rest.push(oracles.last())
        } else {
            rest
        }
    }
}

/// Drops the oracles of banks in which the account no longer holds a balance.
pub fn keep_active_oracles(oracles: &Vec<OracleEntry>, la: &LendingAccount) -> (r: Vec<OracleEntry>)
    ensures
        r@ == oracles_for(oracles@, la.slots()),
{
    let mut out: Vec<OracleEntry> = Vec::new();
    let mut i: usize = 0;
    while i < oracles.len()
        invariant
            0 <= i <= oracles@.len(),
            out@ == oracles_for(oracles@.take(i as int), la.slots()),
        decreases oracles@.len() - i,
    {
        proof {
            assert(oracles@.take(i + 1).drop_last() =~= oracles@.take(i as int));
        }
        match la.find(oracles[i].bank_index) {
            Some(_) => out.push(oracles[i]),
            None => {},
        }
        i = i + 1;
    }
    proof {
        assert(oracles@.take(oracles@.len() as int) =~= oracles@);
    }
    out
}

/// The liability a liquidator takes on and the liability the liquidatee is
/// relieved of, for `q_a` native units of the asset at prices `p_a` and `p_l`:
/// `q_a * p_a * (1 - f_l) / p_l` and `q_a * p_a * (1 - f_l - f_i) / p_l`.
pub open spec fn spec_liquidation_quantities(
    asset_decimals: u8,
    liab_decimals: u8,
    q_a: Q,
    p_a: Q,
    p_l: Q,
) -> Result<(Q, Q), MarginfiError> {
    match spec_calc_value(q_a, p_a, asset_decimals, liquidator_discount()) {
        Err(e) => Err(e),
        Ok(v1) => match spec_calc_quantity(v1, p_l, liab_decimals) {
            Err(e) => Err(e),
            Ok(q_ll) => match spec_calc_value(q_a, p_a, asset_decimals, final_discount()) {
                Err(e) => Err(e),
                Ok(v2) => match spec_calc_quantity(v2, p_l, liab_decimals) {
                    Err(e) => Err(e),
                    Ok(q_lf) => Ok((q_ll, q_lf)),
                },
            },
        },
    }
}

/// Computes the two liability quantities of a liquidation.
pub fn liquidation_quantities(
    asset_decimals: u8,
    liab_decimals: u8,
    q_a: Q,
    p_a: Q,
    p_l: Q,
) -> (r: Result<(Q, Q), MarginfiError>)
    ensures
        r == spec_liquidation_quantities(asset_decimals, liab_decimals, q_a, p_a, p_l),
{
    let v1 = calc_asset_value(
        q_a,
        p_a,
        asset_decimals,
        Q { bits: crate::fixed_point::Q_ONE_BITS - LIQUIDATION_LIQUIDATOR_FEE_BITS },
    )?;
    let q_ll = calc_asset_quantity(v1, p_l, liab_decimals)?;
    let v2 = calc_asset_value(
        q_a,
        p_a,
        asset_decimals,
        Q {
            bits: crate::fixed_point::Q_ONE_BITS - LIQUIDATION_LIQUIDATOR_FEE_BITS
                - LIQUIDATION_INSURANCE_FEE_BITS,
        },
    )?;
    let q_lf = calc_asset_quantity(v2, p_l, liab_decimals)?;
    Ok((q_ll, q_lf))
}

/// The outcome of a liquidation: the banks, the liquidator's slots, the
/// liquidatee's slots, and the insurance fee in native units that moves
/// from the liability bank's liquidity vault to its insurance vault.
pub type LiquidationResult = Result<(Seq<Bank>, Seq<Balance>, Seq<Balance>, u64), MarginfiError>;

/// The steps after accrual and pricing: the four balance changes, the fee,
/// and the two health checks.
pub open spec fn spec_liquidate_steps(
    banks: Seq<Bank>,
    liquidator: MarginfiAccount,
    liquidatee: MarginfiAccount,
    asset_bank_index: usize,
    liab_bank_index: usize,
    q_a: Q,
    qs: (Q, Q),
    pre: (Q, Q),
    now: i64,
    liquidator_oracles: Seq<OracleEntry>,
    liquidatee_oracles: Seq<OracleEntry>,
) -> LiquidationResult {
    let ab = banks[asset_bank_index as int];
    let lb = banks[liab_bank_index as int];
    match spec_slot_op(
        liquidator.lending_account.slots(),
        lb,
        liab_bank_index,
        AccountOp::Borrow(qs.0),
    ) {
        Err(e) => Err(e),
        Ok(s1) => match spec_slot_op(s1.0, ab, asset_bank_index, AccountOp::Deposit(q_a)) {
            Err(e) => Err(e),
            Ok(s2) => match spec_slot_op(
                liquidatee.lending_account.slots(),
                s2.1,
                asset_bank_index,
                AccountOp::Withdraw(q_a),
            ) {
                Err(e) => Err(e),
                Ok(s3) => match spec_slot_op(s3.0, s1.1, liab_bank_index, AccountOp::Deposit(qs.1)) {
                    Err(e) => Err(e),
                    Ok(s4) => if floor_whole(qs.0.bits - qs.1.bits) > u64::MAX {
                        Err(MarginfiError::MathError)
                    } else {
                        let banks2 = banks.update(asset_bank_index as int, s3.1).update(
                            liab_bank_index as int,
                            s4.1,
                        );
                        match spec_check_post_liquidation(
                            liquidatee.account_flags,
                            s4.0,
                            banks2,
                            oracles_for(liquidatee_oracles, s4.0),
                            now,
                            pre,
                        ) {
                            Err(e) => Err(e),
                            Ok(_) => match spec_check_health(
                                liquidator.account_flags,
                                s2.0,
                                banks2,
                                liquidator_oracles,
                                now,
                                RiskRequirementType::Initial,
                            ) {
                                Err(e) => Err(e),
                                Ok(_) => Ok(
                                    (banks2, s2.0, s4.0, floor_whole(qs.0.bits - qs.1.bits) as u64),
                                ),
                            },
                        }
                    },
                },
            },
        },
    }
}

/// A liquidation of `asset_quantity` native units of the liquidatee's
/// collateral in the asset bank against its debt in the liability bank.
pub open spec fn spec_liquidate(
    banks: Seq<Bank>,
    liquidator: MarginfiAccount,
    liquidatee: MarginfiAccount,
    signer: u64,
    asset_bank_index: usize,
    liab_bank_index: usize,
    asset_quantity: u64,
    now: i64,
    asset_feed: PriceFeed,
    liab_feed: PriceFeed,
    liquidator_oracles: Seq<OracleEntry>,
    liquidatee_oracles: Seq<OracleEntry>,
) -> LiquidationResult {
    if signer != liquidator.authority {
        Err(MarginfiError::Unauthorized)
    } else if asset_bank_index >= banks.len() || liab_bank_index >= banks.len() {
        Err(MarginfiError::BankNotFound)
    } else if asset_bank_index == liab_bank_index {
        Err(MarginfiError::InvalidBankAccount)
    } else {
        match banks[asset_bank_index as int].spec_accrue_interest(now) {
            Err(e) => Err(e),
            Ok(ab) => match banks[liab_bank_index as int].spec_accrue_interest(now) {
                Err(e) => Err(e),
                Ok(lb) => {
                    let banks1 = banks.update(asset_bank_index as int, ab).update(
                        liab_bank_index as int,
                        lb,
                    );
                    match spec_health_components(
                        liquidatee.lending_account.slots(),
                        banks1,
                        liquidatee_oracles,
                        now,
                        RiskRequirementType::Maintenance,
                    ) {
                        Err(e) => Err(e),
                        Ok(pre) => match spec_get_price(asset_feed, now, PriceBias::Mid) {
                            Err(e) => Err(e),
                            Ok(p_a) => match spec_get_price(liab_feed, now, PriceBias::Mid) {
                                Err(e) => Err(e),
                                Ok(p_l) => match spec_liquidation_quantities(
                                    ab.mint_decimals,
                                    lb.mint_decimals,
                                    native(asset_quantity),
                                    p_a,
                                    p_l,
                                ) {
                                    Err(e) => Err(e),
                                    Ok(qs) => if qs.1.bits < 0 || qs.0.bits < qs.1.bits {
                                        Err(MarginfiError::MathError)
                                    } else {
                                        spec_liquidate_steps(
                                            banks1,
                                            liquidator,
                                            liquidatee,
                                            asset_bank_index,
                                            liab_bank_index,
                                            native(asset_quantity),
                                            qs,
                                            pre,
                                            now,
                                            liquidator_oracles,
                                            liquidatee_oracles,
                                        )
                                    },
                                },
                            },
                        },
                    }
                },
            },
        }
    }
}

/// Liquidates `asset_quantity` native units of an unhealthy account's
/// collateral. The liquidator takes on debt in the liability bank worth the
/// collateral less the liquidator fee and receives the collateral; the
/// liquidatee gives up the collateral and is relieved of debt worth it less
/// both fees. Returns the insurance fee, in native units, that the caller
/// moves from the liability bank's liquidity vault to its insurance vault.
/// The liquidatee must have been unhealthy and must not end up healthier
/// than the point of health; the liquidator must end healthy. Nothing
/// changes on an error.
#[verifier::spinoff_prover]
#[verifier::rlimit(50)]
pub fn lending_account_liquidate(
    group: &mut MarginfiGroup,
    liquidator: &mut MarginfiAccount,
    liquidatee: &mut MarginfiAccount,
    signer: u64,
    asset_bank_index: usize,
    liab_bank_index: usize,
    asset_quantity: u64,
    now: i64,
    asset_feed: &PriceFeed,
    liab_feed: &PriceFeed,
    liquidator_oracles: &Vec<OracleEntry>,
    liquidatee_oracles: &Vec<OracleEntry>,
) -> (r: Result<u64, MarginfiError>)
    requires
        banks_wf(old(group).banks@),
        old(liquidator).lending_account.wf(),
        old(liquidatee).lending_account.wf(),
    ensures
        final(group).admin == old(group).admin,
        final(group).paused == old(group).paused,
        banks_wf(final(group).banks@),
        match spec_liquidate(
            old(group).banks@,
            *old(liquidator),
            *old(liquidatee),
            signer,
            asset_bank_index,
            liab_bank_index,
            asset_quantity,
            now,
            *asset_feed,
            *liab_feed,
            liquidator_oracles@,
            liquidatee_oracles@,
        ) {
            Ok(v) => {
                &&& r == Ok::<u64, MarginfiError>(v.3)
                &&& final(group).banks@ == v.0
                &&& final(liquidator).lending_account.slots() == v.1
                &&& final(liquidatee).lending_account.slots() == v.2
                &&& final(liquidator).lending_account.wf()
                &&& final(liquidatee).lending_account.wf()
                &&& final(liquidator).group == old(liquidator).group
                &&& final(liquidator).authority == old(liquidator).authority
                &&& final(liquidator).account_flags == old(liquidator).account_flags
                &&& final(liquidatee).group == old(liquidatee).group
                &&& final(liquidatee).authority == old(liquidatee).authority
                &&& final(liquidatee).account_flags == old(liquidatee).account_flags
            },
            Err(e) => {
                &&& r == Err::<u64, MarginfiError>(e)
                &&& final(group).banks@ == old(group).banks@
                &&& *final(liquidator) == *old(liquidator)
                &&& *final(liquidatee) == *old(liquidatee)
            },
        },
{
    if signer != liquidator.authority {
        return Err(MarginfiError::Unauthorized);
    }
    if asset_bank_index >= group.banks.len() || liab_bank_index >= group.banks.len() {
        return Err(MarginfiError::BankNotFound);
    }
    if asset_bank_index == liab_bank_index {
        return Err(MarginfiError::InvalidBankAccount);
    }
    let mut banks = group.banks.clone();
    proof {
        assert(banks@ =~= group.banks@);
    }
    let mut ab = banks[asset_bank_index];
    let mut lb = banks[liab_bank_index];
    proof {
        lemma_accrue_effects(ab, now);
        lemma_accrue_effects(lb, now);
    }
    ab.accrue_interest(now)?;
    lb.accrue_interest(now)?;
    let ghost before = banks@;
    banks.set(asset_bank_index, ab);
    banks.set(liab_bank_index, lb);
    let pre = get_account_health_components(
        &liquidatee.lending_account,
        &banks,
        liquidatee_oracles,
        now,
        RiskRequirementType::Maintenance,
    )?;
    let p_a = get_price(asset_feed, now, PriceBias::Mid)?;
    let p_l = get_price(liab_feed, now, PriceBias::Mid)?;
    let q_a = Q::from_u64(asset_quantity);
    let qs = liquidation_quantities(ab.mint_decimals, lb.mint_decimals, q_a, p_a, p_l)?;
    if qs.1.bits < 0 || qs.0.bits < qs.1.bits {
        return Err(MarginfiError::MathError);
    }
    let (la1, lb1) = slot_op(liquidator.lending_account, lb, liab_bank_index, AccountOp::Borrow(qs.0))?;
    let (la2, ab1) = slot_op(la1, ab, asset_bank_index, AccountOp::Deposit(q_a))?;
    let (le1, ab2) = slot_op(liquidatee.lending_account, ab1, asset_bank_index, AccountOp::Withdraw(q_a))?;
    let (le2, lb2) = slot_op(le1, lb1, liab_bank_index, AccountOp::Deposit(qs.1))?;
    let fee = Q { bits: qs.0.bits - qs.1.bits };
    let fee_native = fee.to_u64_floor()?;
    banks.set(asset_bank_index, ab2);
    banks.set(liab_bank_index, lb2);
    let new_liquidator = MarginfiAccount {
        group: liquidator.group,
        authority: liquidator.authority,
        lending_account: la2,
        account_flags: liquidator.account_flags,
    };
    let new_liquidatee = MarginfiAccount {
        group: liquidatee.group,
        authority: liquidatee.authority,
        lending_account: le2,
        account_flags: liquidatee.account_flags,
    };
    let post_oracles = keep_active_oracles(liquidatee_oracles, &le2);
    check_post_liquidation_account_health(&new_liquidatee, &banks, &post_oracles, now, pre)?;
    check_account_health(&new_liquidator, &banks, liquidator_oracles, now, RiskRequirementType::Initial)?;
    proof {
        assert forall|j: int| 0 <= j < banks@.len() implies (#[trigger] banks@[j]).wf() by {
            if j != asset_bank_index as int && j != liab_bank_index as int {
                assert(before[j].wf());
            }
        }
    }
    group.banks = banks;
    *liquidator = new_liquidator;
    *liquidatee = new_liquidatee;
    Ok(fee_native)
}

} // verus!
