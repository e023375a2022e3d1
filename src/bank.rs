//! Banks: share accounting, configuration, and interest accrual on a
//! piecewise-linear curve.
use crate::errors::MarginfiError;
use crate::fixed_point::{
    lemma_div_trunc_nonneg, lemma_mul_floor_growth, lemma_mul_floor_nonneg, q_of, q_scale, whole,
    Q, Q_ONE_BITS,
};
use vstd::prelude::*;

verus! {

pub const SECONDS_PER_YEAR: u64 = 31536000;

/// What a bank allows: everything, only reductions of positions, or nothing.
#[derive(Debug, Clone, Copy, PartialEq, Eq, Structural)]
pub enum BankOperationalState {
    Paused,
    Operational,
    ReduceOnly,
}

/// Parameters of the piecewise-linear interest curve and of the fees.
#[derive(Debug, Clone, Copy, PartialEq, Eq, Structural)]
pub struct InterestRateConfig {
    pub optimal_utilization_rate: Q,
    pub plateau_interest_rate: Q,
    pub max_interest_rate: Q,
    pub insurance_fee_fixed_apr: Q,
    pub insurance_ir_fee: Q,
    pub protocol_fixed_fee_apr: Q,
    pub protocol_ir_fee: Q,
}

impl InterestRateConfig {
    /// The optimal utilization lies strictly between zero and one, rates and
    /// fees are non-negative, and the curve does not fall after the plateau.
    pub open spec fn wf(self) -> bool {
        &&& 0 < self.optimal_utilization_rate.bits < q_scale()
        &&& 0 <= self.plateau_interest_rate.bits <= self.max_interest_rate.bits
        &&& self.insurance_fee_fixed_apr.bits >= 0
        &&& self.insurance_ir_fee.bits >= 0
        &&& self.protocol_fixed_fee_apr.bits >= 0
        &&& self.protocol_ir_fee.bits >= 0
    }
}

/// Risk weights, limits and state of a bank.
#[derive(Debug, Clone, Copy, PartialEq, Eq, Structural)]
pub struct BankConfig {
    pub deposit_weight_init: Q,
    pub deposit_weight_maint: Q,
    pub liability_weight_init: Q,
    pub liability_weight_maint: Q,
    pub deposit_limit: u64,
    pub borrow_limit: u64,
    pub operational_state: BankOperationalState,
    pub oracle_key: u64,
    pub interest_rate_config: InterestRateConfig,
}

impl BankConfig {
    /// Weights are non-negative and the interest curve is valid.
    pub open spec fn wf(self) -> bool {
        &&& self.deposit_weight_init.bits >= 0
        &&& self.deposit_weight_maint.bits >= 0
        &&& self.liability_weight_init.bits >= 0
        &&& self.liability_weight_maint.bits >= 0
        &&& self.interest_rate_config.wf()
    }

    /// What an administrator may set: `0 < deposit_weight_init <=
    /// deposit_weight_maint <= 1 < liability_weight_maint <=
    /// liability_weight_init`, with a valid interest curve.
    pub open spec fn spec_valid(self) -> bool {
        &&& 0 < self.deposit_weight_init.bits
        &&& self.deposit_weight_init.bits <= self.deposit_weight_maint.bits
        &&& self.deposit_weight_maint.bits <= q_scale()
        &&& q_scale() < self.liability_weight_maint.bits
        &&& self.liability_weight_maint.bits <= self.liability_weight_init.bits
        &&& self.interest_rate_config.wf()
    }

    /// Checks the ordering of the weights and the interest curve.
    pub fn validate(&self) -> (r: Result<(), MarginfiError>)
        ensures
            r is Ok <==> self.spec_valid(),
            r is Err ==> r == Err::<(), MarginfiError>(MarginfiError::InvalidConfig),
    {
        let c = &self.interest_rate_config;
        if 0 < self.deposit_weight_init.bits
            && self.deposit_weight_init.bits <= self.deposit_weight_maint.bits
            && self.deposit_weight_maint.bits <= Q_ONE_BITS
            && Q_ONE_BITS < self.liability_weight_maint.bits
            && self.liability_weight_maint.bits <= self.liability_weight_init.bits
            && 0 < c.optimal_utilization_rate.bits && c.optimal_utilization_rate.bits < Q_ONE_BITS
            && 0 <= c.plateau_interest_rate.bits
            && c.plateau_interest_rate.bits <= c.max_interest_rate.bits
            && c.insurance_fee_fixed_apr.bits >= 0 && c.insurance_ir_fee.bits >= 0
            && c.protocol_fixed_fee_apr.bits >= 0 && c.protocol_ir_fee.bits >= 0 {
            Ok(())
        } else {
            Err(MarginfiError::InvalidConfig)
        }
    }
}

/// A pool of one asset. Deposits and borrows are held as shares; a share of
/// either side is worth its share value in native units.
#[derive(Debug, Clone, Copy, PartialEq, Eq, Structural)]
pub struct Bank {
    pub mint: u64,
    pub mint_decimals: u8,
    pub group: u64,
    pub asset_share_value: Q,
    pub liability_share_value: Q,
    pub total_asset_shares: Q,
    pub total_liability_shares: Q,
    /// Deposit shares owned by the protocol: the fees collected by accrual.
    pub protocol_deposit_shares: Q,
    pub last_update: i64,
    pub config: BankConfig,
    pub liquidity_vault_bump: u8,
    pub liquidity_vault_authority_bump: u8,
    pub insurance_vault_bump: u8,
    pub insurance_vault_authority_bump: u8,
    pub fee_vault_bump: u8,
    pub fee_vault_authority_bump: u8,
}

/// Each of the bank's three vaults.
#[derive(Debug, Clone, Copy, PartialEq, Eq, Structural)]
pub enum BankVaultType {
    Liquidity,
    Insurance,
    Fee,
}

/// Interest `apr * dt / SECONDS_PER_YEAR` of linear accrual over `dt` seconds.
pub open spec fn spec_interest(apr: Q, dt: Q) -> Result<Q, MarginfiError> {
    match apr.spec_mul(dt) {
        Err(e) => Err(e),
        Ok(x) => x.spec_div(Q { bits: whole(SECONDS_PER_YEAR as int) as i128 }),
    }
}

/// Growth factor `1 + apr * dt / SECONDS_PER_YEAR`.
pub open spec fn spec_growth(apr: Q, dt: Q) -> Result<Q, MarginfiError> {
    match spec_interest(apr, dt) {
        Err(e) => Err(e),
        Ok(y) => q_of(q_scale() + y.bits),
    }
}

/// Base borrow rate on the piecewise-linear curve at utilization `u`.
pub open spec fn spec_base_rate(c: InterestRateConfig, u: Q) -> Result<Q, MarginfiError> {
    if u.bits <= c.optimal_utilization_rate.bits {
        match u.spec_div(c.optimal_utilization_rate) {
            Err(e) => Err(e),
            Ok(x) => x.spec_mul(c.plateau_interest_rate),
        }
    } else {
        match u.spec_sub(c.optimal_utilization_rate) {
            Err(e) => Err(e),
            Ok(over) => match (Q { bits: q_scale() as i128 }).spec_sub(c.optimal_utilization_rate) {
                Err(e) => Err(e),
                Ok(rest) => match over.spec_div(rest) {
                    Err(e) => Err(e),
                    Ok(frac) => match c.max_interest_rate.spec_sub(c.plateau_interest_rate) {
                        Err(e) => Err(e),
                        Ok(span) => match frac.spec_mul(span) {
                            Err(e) => Err(e),
                            Ok(rise) => c.plateau_interest_rate.spec_add(rise),
                        },
                    },
                },
            },
        }
    }
}

/// Total borrow rate: the base rate scaled by the proportional fees, plus
/// the fixed fees.
pub open spec fn spec_total_borrow_rate(c: InterestRateConfig, base: Q) -> Result<
    Q,
    MarginfiError,
> {
    match (Q { bits: q_scale() as i128 }).spec_add(c.protocol_ir_fee) {
        Err(e) => Err(e),
        Ok(f1) => match f1.spec_add(c.insurance_ir_fee) {
            Err(e) => Err(e),
            Ok(factor) => match base.spec_mul(factor) {
                Err(e) => Err(e),
                Ok(scaled) => match scaled.spec_add(c.protocol_fixed_fee_apr) {
                    Err(e) => Err(e),
                    Ok(t) => t.spec_add(c.insurance_fee_fixed_apr),
                },
            },
        },
    }
}

/// The rates at utilization `u`: (base borrow rate, total borrow rate, deposit rate).
pub open spec fn spec_interest_rates(c: InterestRateConfig, u: Q) -> Result<
    (Q, Q, Q),
    MarginfiError,
> {
    match spec_base_rate(c, u) {
        Err(e) => Err(e),
        Ok(base) => match spec_total_borrow_rate(c, base) {
            Err(e) => Err(e),
            Ok(total) => match base.spec_mul(u) {
                Err(e) => Err(e),
                Ok(dep) => Ok((base, total, dep)),
            },
        },
    }
}

impl Bank {
    /// Share values are positive and the configuration is well formed.
    pub open spec fn wf(self) -> bool {
        &&& self.asset_share_value.bits > 0
        &&& self.liability_share_value.bits > 0
        &&& self.config.wf()
    }

    /// Native value of all deposits, rounded down.
    pub open spec fn spec_total_assets(self) -> Result<Q, MarginfiError> {
        self.total_asset_shares.spec_mul(self.asset_share_value)
    }

    /// Native value of all borrows, rounded down.
    pub open spec fn spec_total_liabilities(self) -> Result<Q, MarginfiError> {
        self.total_liability_shares.spec_mul(self.liability_share_value)
    }

    /// Utilization: borrowed value over deposited value (zero when nothing is
    /// deposited or borrowed); a value outside `[0, 1]`, or borrows against no
    /// deposits, is refused.
    pub open spec fn spec_utilization(self) -> Result<Q, MarginfiError> {
        match self.spec_total_assets() {
            Err(e) => Err(e),
            Ok(assets) => match self.spec_total_liabilities() {
                Err(e) => Err(e),
                Ok(liabs) => if assets.bits == 0 {
                    if liabs.bits == 0 {
                        Ok(Q { bits: 0 })
                    } else {
                        Err(MarginfiError::IllegalUtilizationRatio)
                    }
                } else {
                    match liabs.spec_div(assets) {
                        Err(e) => Err(e),
                        Ok(u) => if u.bits < 0 || u.bits > q_scale() {
                            Err(MarginfiError::IllegalUtilizationRatio)
                        } else {
                            Ok(u)
                        },
                    }
                },
            },
        }
    }

    /// The bank after interest accrual up to `now`, with elapsed time `dt`.
    pub open spec fn spec_accrue_after(self, now: i64, dt: Q) -> Result<Bank, MarginfiError> {
        match self.spec_utilization() {
            Err(e) => Err(e),
            Ok(u) => match spec_interest_rates(self.config.interest_rate_config, u) {
                Err(e) => Err(e),
                Ok(rates) => match spec_growth(rates.1, dt) {
                    Err(e) => Err(e),
                    Ok(borrow_growth) => match spec_growth(rates.2, dt) {
                        Err(e) => Err(e),
                        Ok(deposit_growth) => match self.liability_share_value.spec_mul(
                            borrow_growth,
                        ) {
                            Err(e) => Err(e),
                            Ok(lsv) => match self.asset_share_value.spec_mul(deposit_growth) {
                                Err(e) => Err(e),
                                Ok(asv) => self.spec_collect_fees(now, dt, rates, asv, lsv),
                            },
                        },
                    },
                },
            },
        }
    }

    /// Fees accrued over `dt`, turned into protocol deposit shares at the new
    /// asset share value.
    pub open spec fn spec_collect_fees(
        self,
        now: i64,
        dt: Q,
        rates: (Q, Q, Q),
        asv: Q,
        lsv: Q,
    ) -> Result<Bank, MarginfiError> {
        match self.spec_total_liabilities() {
            Err(e) => Err(e),
            Ok(liabs) => match rates.1.spec_sub(rates.0) {
                Err(e) => Err(e),
                Ok(fee_apr) => match spec_interest(fee_apr, dt) {
                    Err(e) => Err(e),
                    Ok(fee_rate) => match liabs.spec_mul(fee_rate) {
                        Err(e) => Err(e),
                        Ok(fee) => match fee.spec_div(asv) {
                            Err(e) => Err(e),
                            Ok(fee_shares) => match self.protocol_deposit_shares.spec_add(
                                fee_shares,
                            ) {
                                Err(e) => Err(e),
                                Ok(protocol) => match self.total_asset_shares.spec_add(
                                    fee_shares,
                                ) {
                                    Err(e) => Err(e),
                                    Ok(total) => Ok(
                                        Bank {
                                            asset_share_value: asv,
                                            liability_share_value: lsv,
                                            protocol_deposit_shares: protocol,
                                            total_asset_shares: total,
                                            last_update: now,
                                            ..self
                                        },
                                    ),
                                },
                            },
                        },
                    },
                },
            },
        }
    }

    /// Interest accrual up to `now`: nothing happens unless `now` is past the
    /// last update.
    pub open spec fn spec_accrue_interest(self, now: i64) -> Result<Bank, MarginfiError> {
        if now <= self.last_update {
            Ok(self)
        } else {
            self.spec_accrue_after(now, Q { bits: whole(now - self.last_update) as i128 })
        }
    }
}

/// Base borrow rate at utilization `u`.
pub fn base_interest_rate(c: &InterestRateConfig, u: Q) -> (r: Result<Q, MarginfiError>)
    ensures
        r == spec_base_rate(*c, u),
{
    if u.bits <= c.optimal_utilization_rate.bits {
        let x = u.checked_div(c.optimal_utilization_rate)?;
        x.checked_mul(c.plateau_interest_rate)
    } else {
        let over = u.checked_sub(c.optimal_utilization_rate)?;
        let rest = Q::one().checked_sub(c.optimal_utilization_rate)?;
        let frac = over.checked_div(rest)?;
        let span = c.max_interest_rate.checked_sub(c.plateau_interest_rate)?;
        let rise = frac.checked_mul(span)?;
        c.plateau_interest_rate.checked_add(rise)
    }
}

/// The rates at utilization `u`: (base borrow rate, total borrow rate with
/// fees, deposit rate).
pub fn calc_interest_rate(c: &InterestRateConfig, u: Q) -> (r: Result<(Q, Q, Q), MarginfiError>)
    ensures
        r == spec_interest_rates(*c, u),
{
    let base = base_interest_rate(c, u)?;
    let f1 = Q::one().checked_add(c.protocol_ir_fee)?;
    let factor = f1.checked_add(c.insurance_ir_fee)?;
    let scaled = base.checked_mul(factor)?;
    let t = scaled.checked_add(c.protocol_fixed_fee_apr)?;
    let total = t.checked_add(c.insurance_fee_fixed_apr)?;
    let dep = base.checked_mul(u)?;
    Ok((base, total, dep))
}

/// Interest `apr * dt / SECONDS_PER_YEAR` over `dt` seconds.
pub fn interest_over(apr: Q, dt: Q) -> (r: Result<Q, MarginfiError>)
    ensures
        r == spec_interest(apr, dt),
{
    let x = apr.checked_mul(dt)?;
    x.checked_div(Q::from_u64(SECONDS_PER_YEAR))
}

/// Growth factor `1 + apr * dt / SECONDS_PER_YEAR` of linear accrual.
pub fn growth_factor(apr: Q, dt: Q) -> (r: Result<Q, MarginfiError>)
    ensures
        r == spec_growth(apr, dt),
{
    let y = interest_over(apr, dt)?;
    Q::one().checked_add(y)
}

impl Bank {
    pub fn total_assets(&self) -> (r: Result<Q, MarginfiError>)
        ensures
            r == self.spec_total_assets(),
    {
        self.total_asset_shares.checked_mul(self.asset_share_value)
    }

    pub fn total_liabilities(&self) -> (r: Result<Q, MarginfiError>)
        ensures
            r == self.spec_total_liabilities(),
    {
        self.total_liability_shares.checked_mul(self.liability_share_value)
    }

    /// Borrowed value over deposited value.
    pub fn utilization(&self) -> (r: Result<Q, MarginfiError>)
        ensures
            r == self.spec_utilization(),
    {
        let assets = self.total_assets()?;
        let liabs = self.total_liabilities()?;
        if assets.bits == 0 {
            if liabs.bits == 0 {
                return Ok(Q::zero());
            }
            return Err(MarginfiError::IllegalUtilizationRatio);
        }
        let u = liabs.checked_div(assets)?;
        if u.bits < 0 || u.bits > Q_ONE_BITS {
            Err(MarginfiError::IllegalUtilizationRatio)
        } else {
            Ok(u)
        }
    }

    /// Accrues interest from the last update to `now`. Share values grow by
    /// the deposit and borrow growth factors, the fees become protocol
    /// deposit shares, and the last update moves to `now`. On an error the
    /// bank is left as it was.
    pub fn accrue_interest(&mut self, now: i64) -> (r: Result<(), MarginfiError>)
        ensures
            match old(self).spec_accrue_interest(now) {
                Ok(b) => r is Ok && *final(self) == b,
                Err(e) => r == Err::<(), MarginfiError>(e) && *final(self) == *old(self),
            },
    {
        if now <= self.last_update {
            return Ok(());
        }
        let dt_u: u64 = (now as i128 - self.last_update as i128) as u64;
        let dt = Q::from_u64(dt_u);
        let u = self.utilization()?;
        let rates = calc_interest_rate(&self.config.interest_rate_config, u)?;
        let borrow_growth = growth_factor(rates.1, dt)?;
        let deposit_growth = growth_factor(rates.2, dt)?;
        let lsv = self.liability_share_value.checked_mul(borrow_growth)?;
        let asv = self.asset_share_value.checked_mul(deposit_growth)?;
        let liabs = self.total_liabilities()?;
        let fee_apr = rates.1.checked_sub(rates.0)?;
        let fee_rate = interest_over(fee_apr, dt)?;
        let fee = liabs.checked_mul(fee_rate)?;
        let fee_shares = fee.checked_div(asv)?;
        let protocol = self.protocol_deposit_shares.checked_add(fee_shares)?;
        let total = self.total_asset_shares.checked_add(fee_shares)?;
        self.asset_share_value = asv;
        self.liability_share_value = lsv;
        self.protocol_deposit_shares = protocol;
        self.total_asset_shares = total;
        self.last_update = now;
        Ok(())
    }
}

/// Interest at a non-negative rate over a non-negative time is non-negative,
/// so the growth factor is at least one.
pub proof fn lemma_interest_nonneg(apr: Q, dt: Q)
    requires
        apr.bits >= 0,
        dt.bits >= 0,
    ensures
        spec_interest(apr, dt) is Ok ==> spec_interest(apr, dt)->Ok_0.bits >= 0,
        spec_growth(apr, dt) is Ok ==> spec_growth(apr, dt)->Ok_0.bits >= q_scale(),
{
    lemma_mul_floor_nonneg(apr.bits as int, dt.bits as int);
    if apr.spec_mul(dt) is Ok {
        let x = apr.spec_mul(dt)->Ok_0;
        assert(whole(SECONDS_PER_YEAR as int) > 0) by (nonlinear_arith);
        lemma_div_trunc_nonneg(x.bits as int, whole(SECONDS_PER_YEAR as int));
    }
}

/// With a valid curve and a utilization in `[0, 1]`, the base rate and the
/// deposit rate are non-negative and the total borrow rate is at least the
/// base rate.
pub proof fn lemma_rates_ordered(c: InterestRateConfig, u: Q)
    requires
        c.wf(),
        0 <= u.bits <= q_scale(),
    ensures
        spec_interest_rates(c, u) is Ok ==> {
            let r = spec_interest_rates(c, u)->Ok_0;
            0 <= r.0.bits <= r.1.bits && r.2.bits >= 0
        },
{
    if u.bits <= c.optimal_utilization_rate.bits {
        lemma_div_trunc_nonneg(u.bits as int, c.optimal_utilization_rate.bits as int);
        if u.spec_div(c.optimal_utilization_rate) is Ok {
            let x = u.spec_div(c.optimal_utilization_rate)->Ok_0;
            lemma_mul_floor_nonneg(x.bits as int, c.plateau_interest_rate.bits as int);
        }
    } else {
        let over = u.bits - c.optimal_utilization_rate.bits;
        let rest = q_scale() - c.optimal_utilization_rate.bits;
        lemma_div_trunc_nonneg(over, rest);
        if spec_base_rate(c, u) is Ok {
            let frac = (Q { bits: over as i128 }).spec_div(Q { bits: rest as i128 })->Ok_0;
            lemma_mul_floor_nonneg(
                frac.bits as int,
                c.max_interest_rate.bits - c.plateau_interest_rate.bits,
            );
        }
    }
    if spec_interest_rates(c, u) is Ok {
        let base = spec_base_rate(c, u)->Ok_0;
        let factor = q_scale() + c.protocol_ir_fee.bits + c.insurance_ir_fee.bits;
        lemma_mul_floor_growth(base.bits as int, factor);
        lemma_mul_floor_nonneg(base.bits as int, u.bits as int);
    }
}

/// Accrual keeps a well-formed bank well-formed, never lowers a share value,
/// leaves the borrow total alone and adds to the deposit total exactly the
/// shares that it credits to the protocol.
pub proof fn lemma_accrue_effects(bank: Bank, now: i64)
    requires
        bank.wf(),
    ensures
        bank.spec_accrue_interest(now) is Ok ==> {
            let b = bank.spec_accrue_interest(now)->Ok_0;
            &&& b.wf()
            &&& b.asset_share_value.bits >= bank.asset_share_value.bits
            &&& b.liability_share_value.bits >= bank.liability_share_value.bits
            &&& b.total_liability_shares == bank.total_liability_shares
            &&& b.total_asset_shares.bits - bank.total_asset_shares.bits
                == b.protocol_deposit_shares.bits - bank.protocol_deposit_shares.bits
            &&& b.last_update == if now <= bank.last_update { bank.last_update } else { now }
            &&& b.config == bank.config
            &&& b.mint_decimals == bank.mint_decimals
        },
{
    if now > bank.last_update && bank.spec_accrue_interest(now) is Ok {
        let dt = Q { bits: whole(now - bank.last_update) as i128 };
        assert(dt.bits >= 0) by (nonlinear_arith)
            requires
                dt.bits == (now - bank.last_update) * q_scale(),
                now > bank.last_update,
        ;
        let u = bank.spec_utilization()->Ok_0;
        lemma_rates_ordered(bank.config.interest_rate_config, u);
        let rates = spec_interest_rates(bank.config.interest_rate_config, u)->Ok_0;
        lemma_interest_nonneg(rates.1, dt);
        lemma_interest_nonneg(rates.2, dt);
        let bg = spec_growth(rates.1, dt)->Ok_0;
        let dg = spec_growth(rates.2, dt)->Ok_0;
        lemma_mul_floor_growth(bank.liability_share_value.bits as int, bg.bits as int);
        lemma_mul_floor_growth(bank.asset_share_value.bits as int, dg.bits as int);
        let asv = bank.asset_share_value.spec_mul(dg)->Ok_0;
    }
}

impl Bank {
    /// The bank with `delta` added to its deposit total; an increase may not
    /// take the value of all deposits past the deposit limit.
    pub open spec fn spec_change_asset_shares(self, delta: Q) -> Result<Bank, MarginfiError> {
        match self.total_asset_shares.spec_add(delta) {
            Err(e) => Err(e),
            Ok(total) => if delta.bits > 0 {
                match total.spec_mul(self.asset_share_value) {
                    Err(e) => Err(e),
                    Ok(v) => if v.bits > whole(self.config.deposit_limit as int) {
                        Err(MarginfiError::BankDepositCapacityExceeded)
                    } else {
                        Ok(Bank { total_asset_shares: total, ..self })
                    },
                }
            } else {
                Ok(Bank { total_asset_shares: total, ..self })
            },
        }
    }

    /// The bank with `delta` added to its borrow total; an increase may not
    /// take the value of all borrows past the borrow limit.
    pub open spec fn spec_change_liability_shares(self, delta: Q) -> Result<Bank, MarginfiError> {
        match self.total_liability_shares.spec_add(delta) {
            Err(e) => Err(e),
            Ok(total) => if delta.bits > 0 {
                match total.spec_mul(self.liability_share_value) {
                    Err(e) => Err(e),
                    Ok(v) => if v.bits > whole(self.config.borrow_limit as int) {
                        Err(MarginfiError::BankBorrowLimitExceeded)
                    } else {
                        Ok(Bank { total_liability_shares: total, ..self })
                    },
                }
            } else {
                Ok(Bank { total_liability_shares: total, ..self })
            },
        }
    }

    /// Adds `delta` to the deposit total, within the deposit limit.
    pub fn change_asset_shares(self, delta: Q) -> (r: Result<Bank, MarginfiError>)
        ensures
            r == self.spec_change_asset_shares(delta),
    {
        let total = self.total_asset_shares.checked_add(delta)?;
        if delta.bits > 0 {
            let v = total.checked_mul(self.asset_share_value)?;
            if v.bits > Q::from_u64(self.config.deposit_limit).bits {
                return Err(MarginfiError::BankDepositCapacityExceeded);
            }
        }
        Ok(Bank { total_asset_shares: total, ..self })
    }

    /// Adds `delta` to the borrow total, within the borrow limit.
    pub fn change_liability_shares(self, delta: Q) -> (r: Result<Bank, MarginfiError>)
        ensures
            r == self.spec_change_liability_shares(delta),
    {
        let total = self.total_liability_shares.checked_add(delta)?;
        if delta.bits > 0 {
            let v = total.checked_mul(self.liability_share_value)?;
            if v.bits > Q::from_u64(self.config.borrow_limit).bits {
                return Err(MarginfiError::BankBorrowLimitExceeded);
            }
        }
        Ok(Bank { total_liability_shares: total, ..self })
    }

    /// Native value of deposit shares, rounded down.
    pub fn get_asset_amount(&self, shares: Q) -> (r: Result<Q, MarginfiError>)
        ensures
            r == shares.spec_mul(self.asset_share_value),
    {
        shares.checked_mul(self.asset_share_value)
    }

    /// Native value of liability shares, rounded down.
    pub fn get_liability_amount(&self, shares: Q) -> (r: Result<Q, MarginfiError>)
        ensures
            r == shares.spec_mul(self.liability_share_value),
    {
        shares.checked_mul(self.liability_share_value)
    }

    /// Deposit shares worth a native amount, rounded down.
    pub fn get_asset_shares(&self, amount: Q) -> (r: Result<Q, MarginfiError>)
        ensures
            r == amount.spec_div(self.asset_share_value),
    {
        amount.checked_div(self.asset_share_value)
    }

    /// Liability shares worth a native amount, rounded down.
    pub fn get_liability_shares(&self, amount: Q) -> (r: Result<Q, MarginfiError>)
        ensures
            r == amount.spec_div(self.liability_share_value),
    {
        amount.checked_div(self.liability_share_value)
    }
}

} // verus!
