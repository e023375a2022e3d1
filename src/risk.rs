//! The risk engine: oracle prices, weighted values and health checks.
use crate::account::{
    Balance, LendingAccount, MarginfiAccount, IN_FLASHLOAN_FLAG, MAX_LENDING_ACCOUNT_BALANCES,
};
use crate::bank::Bank;
use crate::errors::MarginfiError;
use crate::fixed_point::{q_of, q_scale, whole, Q};
use vstd::prelude::*;

verus! {

/// How old, in seconds, an oracle price may be.
pub const ORACLE_MAX_STALENESS: i64 = 60;

/// A price published by an oracle: `price / 10^exponent` quote units per
/// whole token, give or take `confidence` in the same units as `price`.
#[derive(Debug, Clone, Copy, PartialEq, Eq, Structural)]
pub struct PriceFeed {
    pub price: i64,
    pub confidence: u64,
    pub exponent: u8,
    pub publish_time: i64,
}

/// Which end of the confidence interval a price is read at.
#[derive(Debug, Clone, Copy, PartialEq, Eq, Structural)]
pub enum PriceBias {
    Low,
    /// The published price itself.
    Mid,
    High,
}

/// The weights a health check applies.
#[derive(Debug, Clone, Copy, PartialEq, Eq, Structural)]
pub enum RiskRequirementType {
    Initial,
    Maintenance,
    /// No risk weights: every value counts in full.
    Equity,
}

/// The oracle that the caller hands over for one bank of an account.
#[derive(Debug, Clone, Copy, PartialEq, Eq, Structural)]
pub struct OracleEntry {
    pub bank_index: usize,
    pub feed: PriceFeed,
}

pub open spec fn pow10(n: nat) -> int
    decreases n,
{
    if n == 0 {
        1
    } else {
        10 * pow10((n - 1) as nat)
    }
}

/// `10^n` as a fixed-point number, where it fits.
pub open spec fn spec_pow10_q(n: u8) -> Result<Q, MarginfiError> {
    q_of(whole(pow10(n as nat)))
}

proof fn lemma_pow10_positive(n: nat)
    ensures
        pow10(n) >= 1,
    decreases n,
{
    if n > 0 {
        lemma_pow10_positive((n - 1) as nat);
    }
}

/// `10^n` as a fixed-point number; a math error where it does not fit.
pub fn pow10_q(n: u8) -> (r: Result<Q, MarginfiError>)
    ensures
        r == spec_pow10_q(n),
{
    let mut acc: i128 = 1;
    let mut i: u8 = 0;
    while i < n
        invariant
            0 <= i <= n,
            acc as int == pow10(i as nat),
            whole(acc as int) <= i128::MAX,
        decreases n - i,
    {
        proof {
            lemma_pow10_positive(i as nat);
            assert(pow10((i + 1) as nat) == 10 * pow10(i as nat));
        }
        if acc > (i128::MAX / Q_SCALE_I128) / 10 {
            proof {
                assert(whole(10 * acc as int) > i128::MAX) by (nonlinear_arith)
                    requires
                        acc > (i128::MAX / 281474976710656) / 10,
                ;
                lemma_pow10_grows(i as nat, n as nat);
            }
            return Err(MarginfiError::MathError);
        }
        proof {
            assert(whole(10 * acc as int) <= i128::MAX) by (nonlinear_arith)
                requires
                    0 < acc <= (i128::MAX / 281474976710656) / 10,
            ;
        }
        acc = acc * 10;
        i = i + 1;
    }
    proof {
        lemma_pow10_positive(i as nat);
        assert(whole(acc as int) >= 0) by (nonlinear_arith)
            requires
                acc >= 1,
        ;
    }
    Ok(Q { bits: acc * Q_SCALE_I128 })
}

const Q_SCALE_I128: i128 = 281474976710656;

proof fn lemma_pow10_grows(i: nat, n: nat)
    requires
        i < n,
    ensures
        pow10(n) >= 10 * pow10(i),
    decreases n - i,
{
    lemma_pow10_positive(i);
    if i + 1 < n {
        lemma_pow10_grows(i + 1, n);
        lemma_pow10_positive(i + 1);
    }
}

/// The price of a feed at `now`, read at the low end of its confidence
/// interval (never below zero), as published, or at the high end; in quote
/// units per whole token. A price published more than the staleness limit
/// before or after `now`, or a non-positive price, is refused.
pub open spec fn spec_get_price(feed: PriceFeed, now: i64, bias: PriceBias) -> Result<Q, MarginfiError> {
    if now as int - feed.publish_time as int > ORACLE_MAX_STALENESS as int || feed.publish_time as int
        - now as int > ORACLE_MAX_STALENESS as int {
        Err(MarginfiError::StaleOracle)
    } else if feed.price <= 0 {
        Err(MarginfiError::InvalidOracleAccount)
    } else {
        let p: int = match bias {
            PriceBias::Low => if feed.price as int - feed.confidence as int > 0 {
                feed.price as int - feed.confidence as int
            } else {
                0
            },
            PriceBias::Mid => feed.price as int,
            PriceBias::High => feed.price as int + feed.confidence as int,
        };
        match spec_pow10_q(feed.exponent) {
            Err(e) => Err(e),
            Ok(d) => (Q { bits: whole(p) as i128 }).spec_div(d),
        }
    }
}

/// Value of `amount` native units at `price`, weighted:
/// `amount * weight * price / 10^mint_decimals`.
pub open spec fn spec_calc_value(amount: Q, price: Q, mint_decimals: u8, weight: Q) -> Result<
    Q,
    MarginfiError,
> {
    match amount.spec_mul(weight) {
        Err(e) => Err(e),
        Ok(w) => match w.spec_mul(price) {
            Err(e) => Err(e),
            Ok(v) => match spec_pow10_q(mint_decimals) {
                Err(e) => Err(e),
                Ok(d) => v.spec_div(d),
            },
        },
    }
}

/// Native units worth `value` at `price`: `value * 10^mint_decimals / price`.
pub open spec fn spec_calc_quantity(value: Q, price: Q, mint_decimals: u8) -> Result<
    Q,
    MarginfiError,
> {
    match spec_pow10_q(mint_decimals) {
        Err(e) => Err(e),
        Ok(d) => match value.spec_mul(d) {
            Err(e) => Err(e),
            Ok(x) => x.spec_div(price),
        },
    }
}

/// Reads a price from a feed; see `spec_get_price`.
pub fn get_price(feed: &PriceFeed, now: i64, bias: PriceBias) -> (r: Result<Q, MarginfiError>)
    ensures
        r == spec_get_price(*feed, now, bias),
{
    if now as i128 - feed.publish_time as i128 > ORACLE_MAX_STALENESS as i128 || feed.publish_time
        as i128 - now as i128 > ORACLE_MAX_STALENESS as i128 {
        return Err(MarginfiError::StaleOracle);
    }
    if feed.price <= 0 {
        return Err(MarginfiError::InvalidOracleAccount);
    }
    let p: i128 = match bias {
        PriceBias::Low => if feed.price as i128 - feed.confidence as i128 > 0 {
            feed.price as i128 - feed.confidence as i128
        } else {
            0
        },
        PriceBias::Mid => feed.price as i128,
        PriceBias::High => feed.price as i128 + feed.confidence as i128,
    };
    let d = pow10_q(feed.exponent)?;
    proof {
        assert(0 <= p * 281474976710656 <= 36893488147419103232 * 281474976710656) by (nonlinear_arith)
            requires
                0 <= p <= 36893488147419103232,
        ;
    }
    (Q { bits: p * Q_SCALE_I128 }).checked_div(d)
}

/// Weighted value of `amount` native units; see `spec_calc_value`.
pub fn calc_asset_value(amount: Q, price: Q, mint_decimals: u8, weight: Q) -> (r: Result<
    Q,
    MarginfiError,
>)
    ensures
        r == spec_calc_value(amount, price, mint_decimals, weight),
{
    let w = amount.checked_mul(weight)?;
    let v = w.checked_mul(price)?;
    let d = pow10_q(mint_decimals)?;
    v.checked_div(d)
}

/// Native units worth `value`; see `spec_calc_quantity`.
pub fn calc_asset_quantity(value: Q, price: Q, mint_decimals: u8) -> (r: Result<Q, MarginfiError>)
    ensures
        r == spec_calc_quantity(value, price, mint_decimals),
{
    let d = pow10_q(mint_decimals)?;
    let x = value.checked_mul(d)?;
    x.checked_div(price)
}

/// The (asset, liability) weights of a bank for a requirement.
pub open spec fn spec_weights(bank: Bank, req: RiskRequirementType) -> (Q, Q) {
    match req {
        RiskRequirementType::Initial => (
            bank.config.deposit_weight_init,
            bank.config.liability_weight_init,
        ),
        RiskRequirementType::Maintenance => (
            bank.config.deposit_weight_maint,
            bank.config.liability_weight_maint,
        ),
        RiskRequirementType::Equity => (Q { bits: q_scale() as i128 }, Q { bits: q_scale() as i128 }),
    }
}

pub fn weights(bank: &Bank, req: RiskRequirementType) -> (r: (Q, Q))
    ensures
        r == spec_weights(*bank, req),
{
    match req {
        RiskRequirementType::Initial => (
            bank.config.deposit_weight_init,
            bank.config.liability_weight_init,
        ),
        RiskRequirementType::Maintenance => (
            bank.config.deposit_weight_maint,
            bank.config.liability_weight_maint,
        ),
        RiskRequirementType::Equity => (Q::one(), Q::one()),
    }
}

/// Weighted (asset, liability) values of one balance: deposits at the low
/// price, liabilities at the high price.
pub open spec fn spec_balance_values(
    bal: Balance,
    bank: Bank,
    feed: PriceFeed,
    now: i64,
    req: RiskRequirementType,
) -> Result<(Q, Q), MarginfiError> {
    match spec_get_price(feed, now, PriceBias::Low) {
        Err(e) => Err(e),
        Ok(low) => match spec_get_price(feed, now, PriceBias::High) {
            Err(e) => Err(e),
            Ok(high) => match bal.deposit_shares.spec_mul(bank.asset_share_value) {
                Err(e) => Err(e),
                Ok(assets) => match spec_calc_value(
                    assets,
                    low,
                    bank.mint_decimals,
                    spec_weights(bank, req).0,
                ) {
                    Err(e) => Err(e),
                    Ok(va) => match bal.liability_shares.spec_mul(bank.liability_share_value) {
                        Err(e) => Err(e),
                        Ok(liabs) => match spec_calc_value(
                            liabs,
                            high,
                            bank.mint_decimals,
                            spec_weights(bank, req).1,
                        ) {
                            Err(e) => Err(e),
                            Ok(vl) => Ok((va, vl)),
                        },
                    },
                },
            },
        },
    }
}

pub fn balance_values(
    bal: &Balance,
    bank: &Bank,
    feed: &PriceFeed,
    now: i64,
    req: RiskRequirementType,
) -> (r: Result<(Q, Q), MarginfiError>)
    ensures
        r == spec_balance_values(*bal, *bank, *feed, now, req),
{
    let low = get_price(feed, now, PriceBias::Low)?;
    let high = get_price(feed, now, PriceBias::High)?;
    let w = weights(bank, req);
    let assets = bal.deposit_shares.checked_mul(bank.asset_share_value)?;
    let va = calc_asset_value(assets, low, bank.mint_decimals, w.0)?;
    let liabs = bal.liability_shares.checked_mul(bank.liability_share_value)?;
    let vl = calc_asset_value(liabs, high, bank.mint_decimals, w.1)?;
    Ok((va, vl))
}

/// Sum of the weighted values of the active slots from `i` on, added to
/// `acc`. The `k`-th oracle must belong to the bank of the `k`-th active
/// slot, and there must be exactly one oracle per active slot.
pub open spec fn spec_health_acc(
    slots: Seq<Balance>,
    banks: Seq<Bank>,
    oracles: Seq<OracleEntry>,
    now: i64,
    req: RiskRequirementType,
    i: int,
    k: int,
    acc: (Q, Q),
) -> Result<(Q, Q), MarginfiError>
    decreases slots.len() - i,
{
    if i >= slots.len() {
        if k == oracles.len() {
            Ok(acc)
        } else {
            Err(MarginfiError::InvalidBankAccount)
        }
    } else if !slots[i].active {
        spec_health_acc(slots, banks, oracles, now, req, i + 1, k, acc)
    } else if k >= oracles.len() || k < 0 {
        Err(MarginfiError::MissingPythOrBankAccount)
    } else if oracles[k].bank_index != slots[i].bank_index || slots[i].bank_index >= banks.len() {
        Err(MarginfiError::InvalidBankAccount)
    } else {
        match spec_balance_values(
            slots[i],
            banks[slots[i].bank_index as int],
            oracles[k].feed,
            now,
            req,
        ) {
            Err(e) => Err(e),
            Ok(v) => match acc.0.spec_add(v.0) {
                Err(e) => Err(e),
                Ok(a) => match acc.1.spec_add(v.1) {
                    Err(e) => Err(e),
                    Ok(l) => spec_health_acc(slots, banks, oracles, now, req, i + 1, k + 1, (a, l)),
                },
            },
        }
    }
}

/// Weighted (asset, liability) values of the whole account.
pub open spec fn spec_health_components(
    slots: Seq<Balance>,
    banks: Seq<Bank>,
    oracles: Seq<OracleEntry>,
    now: i64,
    req: RiskRequirementType,
) -> Result<(Q, Q), MarginfiError> {
    spec_health_acc(slots, banks, oracles, now, req, 0, 0, (Q { bits: 0 }, Q { bits: 0 }))
}

/// Weighted (asset, liability) values of an account, from the banks and
/// one oracle per active balance, in slot order.
pub fn get_account_health_components(
    account: &LendingAccount,
    banks: &Vec<Bank>,
    oracles: &Vec<OracleEntry>,
    now: i64,
    req: RiskRequirementType,
) -> (r: Result<(Q, Q), MarginfiError>)
    ensures
        r == spec_health_components(account.slots(), banks@, oracles@, now, req),
{
    let mut i: usize = 0;
    let mut k: usize = 0;
    let mut acc: (Q, Q) = (Q::zero(), Q::zero());
    while i < MAX_LENDING_ACCOUNT_BALANCES
        invariant
            0 <= i <= MAX_LENDING_ACCOUNT_BALANCES,
            account.slots().len() == MAX_LENDING_ACCOUNT_BALANCES,
            k <= i,
            spec_health_components(account.slots(), banks@, oracles@, now, req) == spec_health_acc(
                account.slots(),
                banks@,
                oracles@,
                now,
                req,
                i as int,
                k as int,
                acc,
            ),
        decreases MAX_LENDING_ACCOUNT_BALANCES - i,
    {
        let bal = account.balances[i];
        if bal.active {
            if k >= oracles.len() {
                return Err(MarginfiError::MissingPythOrBankAccount);
            }
            if oracles[k].bank_index != bal.bank_index || bal.bank_index >= banks.len() {
                return Err(MarginfiError::InvalidBankAccount);
            }
            let v = balance_values(&bal, &banks[bal.bank_index], &oracles[k].feed, now, req)?;
            let a = acc.0.checked_add(v.0)?;
            let l = acc.1.checked_add(v.1)?;
            acc = (a, l);
            k = k + 1;
        }
        i = i + 1;
    }
    if k == oracles.len() {
        Ok(acc)
    } else {
        Err(MarginfiError::InvalidBankAccount)
    }
}

pub open spec fn in_flashloan(flags: u64) -> bool {
    flags & IN_FLASHLOAN_FLAG != 0
}

/// Result of a health check: skipped inside a flash loan, else weighted
/// assets must cover weighted liabilities.
pub open spec fn spec_check_health(
    flags: u64,
    slots: Seq<Balance>,
    banks: Seq<Bank>,
    oracles: Seq<OracleEntry>,
    now: i64,
    req: RiskRequirementType,
) -> Result<(), MarginfiError> {
    if in_flashloan(flags) {
        Ok(())
    } else {
        match spec_health_components(slots, banks, oracles, now, req) {
            Err(e) => Err(e),
            Ok(v) => if v.0.bits >= v.1.bits {
                Ok(())
            } else {
                Err(MarginfiError::BadAccountHealth)
            },
        }
    }
}

/// Checks that the account's weighted assets cover its weighted liabilities.
pub fn check_account_health(
    account: &MarginfiAccount,
    banks: &Vec<Bank>,
    oracles: &Vec<OracleEntry>,
    now: i64,
    req: RiskRequirementType,
) -> (r: Result<(), MarginfiError>)
    ensures
        r == spec_check_health(
            account.account_flags,
            account.lending_account.slots(),
            banks@,
            oracles@,
            now,
            req,
        ),
{
    if account.account_flags & IN_FLASHLOAN_FLAG != 0 {
        return Ok(());
    }
    let v = get_account_health_components(&account.lending_account, banks, oracles, now, req)?;
    if v.0.bits >= v.1.bits {
        Ok(())
    } else {
        Err(MarginfiError::BadAccountHealth)
    }
}

/// Result of the check after a liquidation, given the maintenance values
/// `pre` from before it: the account was unhealthy, its weighted liability
/// did not grow, and it was not liquidated past the point of health.
pub open spec fn spec_check_post_liquidation(
    flags: u64,
    slots: Seq<Balance>,
    banks: Seq<Bank>,
    oracles: Seq<OracleEntry>,
    now: i64,
    pre: (Q, Q),
) -> Result<(), MarginfiError> {
    if in_flashloan(flags) {
        Ok(())
    } else if pre.1.bits <= pre.0.bits {
        Err(MarginfiError::AccountIllegalPostLiquidationState)
    } else {
        match spec_health_components(
            slots,
            banks,
            oracles,
            now,
            RiskRequirementType::Maintenance,
        ) {
            Err(e) => Err(e),
            Ok(v) => if v.1.bits <= pre.1.bits && v.0.bits <= v.1.bits {
                Ok(())
            } else {
                Err(MarginfiError::AccountIllegalPostLiquidationState)
            },
        }
    }
}

/// Checks the liquidatee after a liquidation; see `spec_check_post_liquidation`.
pub fn check_post_liquidation_account_health(
    account: &MarginfiAccount,
    banks: &Vec<Bank>,
    oracles: &Vec<OracleEntry>,
    now: i64,
    pre: (Q, Q),
) -> (r: Result<(), MarginfiError>)
    ensures
        r == spec_check_post_liquidation(
            account.account_flags,
            account.lending_account.slots(),
            banks@,
            oracles@,
            now,
            pre,
        ),
{
    if account.account_flags & IN_FLASHLOAN_FLAG != 0 {
        return Ok(());
    }
    if pre.1.bits <= pre.0.bits {
        return Err(MarginfiError::AccountIllegalPostLiquidationState);
    }
    let v = get_account_health_components(
        &account.lending_account,
        banks,
        oracles,
        now,
        RiskRequirementType::Maintenance,
    )?;
    if v.1.bits <= pre.1.bits && v.0.bits <= v.1.bits {
        Ok(())
    } else {
        Err(MarginfiError::AccountIllegalPostLiquidationState)
    }
}

} // verus!
