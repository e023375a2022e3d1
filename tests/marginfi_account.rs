use marginfi::account::{MarginfiAccount, MAX_LENDING_ACCOUNT_BALANCES};
use marginfi::bank::{Bank, BankConfig, BankOperationalState, InterestRateConfig};
use marginfi::errors::MarginfiError;
use marginfi::fixed_point::Q;
use marginfi::flashloan::{
    marginfi_account_flashloan_end, marginfi_account_flashloan_start, InstructionKind,
    InstructionRecord,
};
use marginfi::instructions::{
    bank_deposit, bank_withdraw, lending_pool_borrow, lending_pool_repay, lending_pool_withdraw,
    marginfi_account_initialize, marginfi_group_initialize, MarginfiGroup,
};
use marginfi::bankruptcy::lending_pool_handle_bankruptcy;
use marginfi::liquidation::lending_account_liquidate;
use marginfi::risk::{OracleEntry, PriceFeed};

const ONE: i128 = 1 << 48;
const NOW: i64 = 1_700_000_000;
const ADMIN: u64 = 1;
const USER: u64 = 7;
const PROGRAM: u64 = 99;

fn q(x: i128) -> Q {
    Q { bits: x * ONE }
}

fn q_frac(num: i128, den: i128) -> Q {
    Q { bits: num * ONE / den }
}

fn usdc(n: u64) -> u64 {
    n * 1_000_000
}

fn sol(n: u64) -> u64 {
    n * 1_000_000_000
}

fn irc() -> InterestRateConfig {
    InterestRateConfig {
        optimal_utilization_rate: q_frac(1, 2),
        plateau_interest_rate: q_frac(1, 10),
        max_interest_rate: q(1),
        insurance_fee_fixed_apr: q(0),
        insurance_ir_fee: q(0),
        protocol_fixed_fee_apr: q(0),
        protocol_ir_fee: q(0),
    }
}

fn config(dwi: Q, dwm: Q, lwi: Q, lwm: Q, deposit_limit: u64) -> BankConfig {
    BankConfig {
        deposit_weight_init: dwi,
        deposit_weight_maint: dwm,
        liability_weight_init: lwi,
        liability_weight_maint: lwm,
        deposit_limit,
        borrow_limit: u64::MAX,
        operational_state: BankOperationalState::Operational,
        oracle_key: 0,
        interest_rate_config: irc(),
    }
}

fn bank(mint: u64, decimals: u8, config: BankConfig) -> Bank {
    Bank {
        mint,
        mint_decimals: decimals,
        group: 0,
        asset_share_value: q(1),
        liability_share_value: q(1),
        total_asset_shares: q(0),
        total_liability_shares: q(0),
        protocol_deposit_shares: q(0),
        last_update: NOW,
        config,
        liquidity_vault_bump: 0,
        liquidity_vault_authority_bump: 0,
        insurance_vault_bump: 0,
        insurance_vault_authority_bump: 0,
        fee_vault_bump: 0,
        fee_vault_authority_bump: 0,
    }
}

/// USDC: full weights, like the default test bank.
fn usdc_config() -> BankConfig {
    config(q(1), q(1), q(1), q(1), usdc(1_000_000))
}

/// SOL: initial deposit weight one, nothing counted under maintenance.
fn sol_config() -> BankConfig {
    config(q(1), q(0), q(1), q(1), sol(1_000))
}

fn feed(price: i64) -> PriceFeed {
    PriceFeed { price, confidence: 0, exponent: 0, publish_time: NOW }
}

fn entry(bank_index: usize, price: i64) -> OracleEntry {
    OracleEntry { bank_index, feed: feed(price) }
}

fn group_with(banks: Vec<Bank>) -> MarginfiGroup {
    let mut g = marginfi_group_initialize(ADMIN);
    g.banks = banks;
    g
}

fn account() -> MarginfiAccount {
    marginfi_account_initialize(0, USER)
}

fn active_count(a: &MarginfiAccount) -> usize {
    a.lending_account.balances.iter().filter(|b| b.active).count()
}

fn deposit_amount(g: &MarginfiGroup, a: &MarginfiAccount, slot: usize) -> i128 {
    let b = &a.lending_account.balances[slot];
    g.banks[b.bank_index].get_asset_amount(b.deposit_shares).unwrap().bits
}

fn liability_amount(g: &MarginfiGroup, a: &MarginfiAccount, slot: usize) -> i128 {
    let b = &a.lending_account.balances[slot];
    g.banks[b.bank_index].get_liability_amount(b.liability_shares).unwrap().bits
}

fn assert_near(actual: i128, expected: i128, tolerance: i128) {
    assert!(
        (actual - expected).abs() <= tolerance,
        "{} is not within {} of {}",
        actual,
        tolerance,
        expected
    );
}

#[test]
fn success_create_marginfi_account() {
    let a = marginfi_account_initialize(42, USER);
    assert_eq!(a.group, 42);
    assert_eq!(a.authority, USER);
    assert_eq!(a.lending_account.balances.len(), MAX_LENDING_ACCOUNT_BALANCES);
    assert!(a.lending_account.balances.iter().all(|b| !b.active));
}

#[test]
fn failure_deposit_group_paused() {
    let mut g = group_with(vec![bank(1, 6, usdc_config())]);
    g.paused = false;
    let mut a = account();
    let res = bank_deposit(&mut g, &mut a, USER, 0, usdc(1_000), NOW);
    assert!(res.is_ok());
    assert!(a.lending_account.find(0).is_some());
    assert_eq!(active_count(&a), 1);
}

#[test]
fn success_deposit() {
    let mut g = group_with(vec![bank(1, 6, usdc_config())]);
    let mut a = account();
    let res = bank_deposit(&mut g, &mut a, USER, 0, usdc(1_000), NOW);
    assert!(res.is_ok());
    assert!(a.lending_account.find(0).is_some());
    assert_eq!(active_count(&a), 1);
}

#[test]
fn failure_deposit_capacity_exceeded() {
    let mut g = group_with(vec![bank(1, 6, config(q(1), q(1), q(1), q(1), usdc(100)))]);
    let mut a = account();
    let res = bank_deposit(&mut g, &mut a, USER, 0, usdc(99), NOW);
    assert!(res.is_ok());
    let res = bank_deposit(&mut g, &mut a, USER, 0, usdc(101), NOW);
    assert_eq!(res, Err(MarginfiError::BankDepositCapacityExceeded));
}

#[test]
fn failure_deposit_bank_not_found() {
    let mut g = group_with(vec![bank(1, 6, config(q(1), q(1), q(1), q(1), usdc(100)))]);
    let mut a = account();
    let res = bank_deposit(&mut g, &mut a, USER, 1, sol(1), NOW);
    assert_eq!(res, Err(MarginfiError::BankNotFound));
}

#[test]
fn success_borrow() {
    let mut g = group_with(vec![bank(1, 6, usdc_config()), bank(2, 9, sol_config())]);
    let mut a = account();
    bank_deposit(&mut g, &mut a, USER, 0, usdc(1_000), NOW).unwrap();
    let oracles = vec![entry(0, 1), entry(1, 10)];
    let res = bank_withdraw(&mut g, &mut a, USER, 1, sol(2), NOW, &oracles);
    assert!(res.is_ok());
    assert_eq!(liability_amount(&g, &a, 1), (sol(2) as i128) * ONE);
    assert_eq!(deposit_amount(&g, &a, 0), (usdc(1_000) as i128) * ONE);
}

#[test]
fn failure_borrow_not_enough_collateral() {
    let mut g = group_with(vec![bank(1, 6, usdc_config()), bank(2, 9, sol_config())]);
    let mut a = account();
    bank_deposit(&mut g, &mut a, USER, 0, usdc(1), NOW).unwrap();
    let oracles = vec![entry(0, 1), entry(1, 10)];
    let res = bank_withdraw(&mut g, &mut a, USER, 1, sol(1), NOW, &oracles);
    assert_eq!(res, Err(MarginfiError::BadAccountHealth));
    assert_eq!(active_count(&a), 1);
    assert_eq!(g.banks[1].total_liability_shares.bits, 0);
}

/// Depositor with 200 USDC, borrower with `sol_deposit` SOL who borrowed
/// `usdc_borrow` USDC.
fn liquidation_setup(
    sol_bank: BankConfig,
    usdc_bank: BankConfig,
    sol_deposit: u64,
    usdc_borrow: u64,
) -> (MarginfiGroup, MarginfiAccount, MarginfiAccount) {
    let mut g = group_with(vec![bank(1, 6, usdc_bank), bank(2, 9, sol_bank)]);
    let mut depositor = account();
    bank_deposit(&mut g, &mut depositor, USER, 0, usdc(200), NOW).unwrap();
    let mut borrower = account();
    bank_deposit(&mut g, &mut borrower, USER, 1, sol_deposit, NOW).unwrap();
    let oracles = vec![entry(1, 10), entry(0, 1)];
    bank_withdraw(&mut g, &mut borrower, USER, 0, usdc_borrow, NOW, &oracles).unwrap();
    (g, depositor, borrower)
}

fn liquidate(
    g: &mut MarginfiGroup,
    liquidator: &mut MarginfiAccount,
    liquidatee: &mut MarginfiAccount,
    asset_bank: usize,
    asset_quantity: u64,
) -> Result<u64, MarginfiError> {
    let liquidator_oracles: Vec<OracleEntry> = liquidator
        .lending_account
        .balances
        .iter()
        .filter(|b| b.active)
        .map(|b| entry(b.bank_index, if b.bank_index == 0 { 1 } else { 10 }))
        .chain(
            if liquidator.lending_account.find(asset_bank).is_none() {
                Some(entry(asset_bank, 10))
            } else {
                None
            },
        )
        .collect();
    let liquidatee_oracles: Vec<OracleEntry> = liquidatee
        .lending_account
        .balances
        .iter()
        .filter(|b| b.active)
        .map(|b| entry(b.bank_index, if b.bank_index == 0 { 1 } else { 10 }))
        .collect();
    lending_account_liquidate(
        g,
        liquidator,
        liquidatee,
        USER,
        asset_bank,
        0,
        asset_quantity,
        NOW,
        &feed(10),
        &feed(1),
        &liquidator_oracles,
        &liquidatee_oracles,
    )
}

#[test]
fn liquidation_successful() {
    let (mut g, mut depositor, mut borrower) =
        liquidation_setup(sol_config(), usdc_config(), sol(100), usdc(100));
    let fee = liquidate(&mut g, &mut depositor, &mut borrower, 1, sol(1)).unwrap();
    // the depositor holds 1 SOL and 190.25 USDC
    assert_eq!(deposit_amount(&g, &depositor, 1), (sol(1) as i128) * ONE);
    assert_near(deposit_amount(&g, &depositor, 0), 190_250_000 * ONE, 10 * ONE);
    // the borrower holds 99 SOL and owes 90.50 USDC
    assert_eq!(deposit_amount(&g, &borrower, 0), (sol(99) as i128) * ONE);
    assert_near(liability_amount(&g, &borrower, 1), 90_500_000 * ONE, 10 * ONE);
    // the insurance fund receives 0.25 USDC
    assert_near(fee as i128, 250_000, 2);
}

#[test]
fn liquidation_failed_liquidatee_not_unhealthy() {
    let (mut g, mut depositor, mut borrower) =
        liquidation_setup(config(q(1), q(1), q(1), q(1), sol(1_000)), usdc_config(), sol(100), usdc(100));
    let res = liquidate(&mut g, &mut depositor, &mut borrower, 1, sol(1));
    assert_eq!(res, Err(MarginfiError::AccountIllegalPostLiquidationState));
}

#[test]
fn liquidation_failed_liquidation_too_severe() {
    let (mut g, mut depositor, mut borrower) = liquidation_setup(
        config(q(1), q_frac(1, 2), q(1), q(1), sol(1_000)),
        config(q(1), q(1), q(1), q(1), usdc(1_000_000)),
        sol(10),
        usdc(60),
    );
    let res = liquidate(&mut g, &mut depositor, &mut borrower, 1, sol(10));
    assert_eq!(res, Err(MarginfiError::AccountIllegalPostLiquidationState));
    let res = liquidate(&mut g, &mut depositor, &mut borrower, 1, sol(1));
    assert!(res.is_ok());
}

#[test]
fn liquidation_failed_liquidator_no_collateral() {
    let mut g = group_with(vec![
        bank(1, 6, usdc_config()),
        bank(2, 9, sol_config()),
        bank(3, 9, sol_config()),
    ]);
    let mut depositor = account();
    bank_deposit(&mut g, &mut depositor, USER, 0, usdc(200), NOW).unwrap();
    let mut borrower = account();
    bank_deposit(&mut g, &mut borrower, USER, 1, sol(10), NOW).unwrap();
    bank_deposit(&mut g, &mut borrower, USER, 2, sol(1), NOW).unwrap();
    let oracles = vec![entry(1, 10), entry(2, 10), entry(0, 1)];
    bank_withdraw(&mut g, &mut borrower, USER, 0, usdc(60), NOW, &oracles).unwrap();

    let res = liquidate(&mut g, &mut depositor, &mut borrower, 2, sol(2));
    assert_eq!(res, Err(MarginfiError::BorrowingNotAllowed));
    let res = liquidate(&mut g, &mut depositor, &mut borrower, 2, sol(1));
    assert!(res.is_ok());
}

// End-to-end scenarios.

#[test]
fn scenario_deposit_and_withdraw_all() {
    let mut g = group_with(vec![bank(1, 6, usdc_config())]);
    let mut a = account();
    bank_deposit(&mut g, &mut a, USER, 0, 1_000_000_000, NOW).unwrap();
    assert_eq!(a.lending_account.balances[0].deposit_shares.bits, 1_000_000_000 * ONE);
    let out = lending_pool_withdraw(&mut g, &mut a, USER, 0, 0, Some(true), NOW, &vec![]).unwrap();
    assert_eq!(out, 1_000_000_000);
    assert!(!a.lending_account.balances[0].active);
    assert_eq!(g.banks[0].total_asset_shares.bits, 0);
}

#[test]
fn scenario_healthy_borrow() {
    let mut g = group_with(vec![
        bank(1, 6, usdc_config()),
        bank(2, 9, config(q(1), q(1), q(1), q(1), sol(1_000))),
    ]);
    let mut a = account();
    bank_deposit(&mut g, &mut a, USER, 0, usdc(1_000), NOW).unwrap();
    let oracles = vec![entry(0, 1), entry(1, 10)];
    assert_eq!(bank_withdraw(&mut g, &mut a, USER, 1, sol(2), NOW, &oracles), Ok(()));
    assert_eq!(a.lending_account.balances[1].liability_shares.bits, (sol(2) as i128) * ONE);
}

#[test]
fn scenario_unhealthy_borrow_rejected() {
    let mut g = group_with(vec![
        bank(1, 6, usdc_config()),
        bank(2, 9, config(q(1), q(1), q(1), q(1), sol(1_000))),
    ]);
    let mut a = account();
    bank_deposit(&mut g, &mut a, USER, 0, usdc(1), NOW).unwrap();
    let oracles = vec![entry(0, 1), entry(1, 10)];
    assert_eq!(
        bank_withdraw(&mut g, &mut a, USER, 1, sol(1), NOW, &oracles),
        Err(MarginfiError::BadAccountHealth)
    );
}

#[test]
fn scenario_liquidation_amounts() {
    let (mut g, mut depositor, mut borrower) = liquidation_setup(
        config(q(1), q_frac(1, 2), q(1), q(1), sol(1_000)),
        config(q(1), q(1), q(1), q(1), usdc(1_000_000)),
        sol(10),
        usdc(60),
    );
    let fee = liquidate(&mut g, &mut depositor, &mut borrower, 1, sol(1)).unwrap();
    // the borrower gives up 1 SOL and owes 60 - 9.5 = 50.5 USDC
    assert_eq!(deposit_amount(&g, &borrower, 0), (sol(9) as i128) * ONE);
    assert_near(liability_amount(&g, &borrower, 1), 50_500_000 * ONE, 10 * ONE);
    // the liquidator took on 9.75 USDC against its 200 USDC deposit
    assert_near(deposit_amount(&g, &depositor, 0), 190_250_000 * ONE, 10 * ONE);
    assert_eq!(deposit_amount(&g, &depositor, 1), (sol(1) as i128) * ONE);
    assert_near(fee as i128, 250_000, 2);
}

#[test]
fn scenario_flashloan_bracket() {
    let mut g = group_with(vec![bank(1, 6, usdc_config())]);
    let mut a = account();
    let ixs = vec![
        InstructionRecord { program_id: PROGRAM, kind: InstructionKind::FlashloanStart, marginfi_account: 5 },
        InstructionRecord { program_id: PROGRAM, kind: InstructionKind::Other, marginfi_account: 5 },
        InstructionRecord { program_id: PROGRAM, kind: InstructionKind::Other, marginfi_account: 5 },
        InstructionRecord { program_id: PROGRAM, kind: InstructionKind::FlashloanEnd, marginfi_account: 5 },
    ];
    marginfi_account_flashloan_start(&mut a, USER, 5, PROGRAM, &ixs, 0, 3).unwrap();
    // no collateral, but the health check is skipped inside the bracket
    lending_pool_borrow(&mut g, &mut a, USER, 0, usdc(1_000), NOW, &vec![entry(0, 1)]).unwrap();
    let paid = lending_pool_repay(&mut g, &mut a, USER, 0, 0, Some(true), NOW).unwrap();
    assert_eq!(paid, usdc(1_000));
    assert_eq!(marginfi_account_flashloan_end(&g, &mut a, USER, &vec![], NOW), Ok(()));
    assert_eq!(a.account_flags, 0);

    let mut b = account();
    let no_end = vec![ixs[0], ixs[1], ixs[2]];
    assert_eq!(
        marginfi_account_flashloan_start(&mut b, USER, 5, PROGRAM, &no_end, 0, 3),
        Err(MarginfiError::FlashloanIxsSysvarInvalid)
    );
}

#[test]
fn scenario_flashloan_end_checks_health() {
    let mut g = group_with(vec![bank(1, 6, usdc_config())]);
    let mut a = account();
    let ixs = vec![
        InstructionRecord { program_id: PROGRAM, kind: InstructionKind::FlashloanStart, marginfi_account: 5 },
        InstructionRecord { program_id: PROGRAM, kind: InstructionKind::FlashloanEnd, marginfi_account: 5 },
    ];
    marginfi_account_flashloan_start(&mut a, USER, 5, PROGRAM, &ixs, 0, 1).unwrap();
    lending_pool_borrow(&mut g, &mut a, USER, 0, usdc(1_000), NOW, &vec![entry(0, 1)]).unwrap();
    let flags = a.account_flags;
    assert_eq!(
        marginfi_account_flashloan_end(&g, &mut a, USER, &vec![entry(0, 1)], NOW),
        Err(MarginfiError::BadAccountHealth)
    );
    assert_eq!(a.account_flags, flags);
}

/// A group whose USDC bank holds 1,000 USDC of deposits and an account that
/// owes 100 USDC with nothing deposited.
fn bankrupt_setup() -> (MarginfiGroup, MarginfiAccount) {
    let mut b = bank(1, 6, usdc_config());
    b.total_asset_shares = Q { bits: (usdc(1_000) as i128) * ONE };
    b.total_liability_shares = Q { bits: (usdc(100) as i128) * ONE };
    let g = group_with(vec![b]);
    let mut a = account();
    a.lending_account.balances[0].active = true;
    a.lending_account.balances[0].bank_index = 0;
    a.lending_account.balances[0].liability_shares = Q { bits: (usdc(100) as i128) * ONE };
    (g, a)
}

#[test]
fn bankruptcy_draws_insurance_then_socializes() {
    let (mut g, mut a) = bankrupt_setup();
    let covered =
        lending_pool_handle_bankruptcy(&mut g, &mut a, ADMIN, 0, usdc(30), NOW, &vec![entry(0, 1)])
            .unwrap();
    assert_eq!(covered, usdc(30));
    assert!(!a.lending_account.balances[0].active);
    assert_eq!(g.banks[0].total_liability_shares.bits, 0);
    // the 70 USDC not covered cost each of the 1,000 deposit shares 0.07
    assert_near(g.banks[0].asset_share_value.bits, q_frac(93, 100).bits, 2);
}

#[test]
fn bankruptcy_covered_by_insurance() {
    let (mut g, mut a) = bankrupt_setup();
    let covered =
        lending_pool_handle_bankruptcy(&mut g, &mut a, ADMIN, 0, usdc(500), NOW, &vec![entry(0, 1)])
            .unwrap();
    assert_eq!(covered, usdc(100));
    assert_eq!(g.banks[0].asset_share_value, q(1));
}

#[test]
fn bankruptcy_preconditions() {
    let (mut g, mut a) = bankrupt_setup();
    assert_eq!(
        lending_pool_handle_bankruptcy(&mut g, &mut a, USER, 0, 0, NOW, &vec![entry(0, 1)]),
        Err(MarginfiError::Unauthorized)
    );
    let mut solvent = account();
    bank_deposit(&mut g, &mut solvent, USER, 0, usdc(10), NOW).unwrap();
    assert_eq!(
        lending_pool_handle_bankruptcy(&mut g, &mut solvent, ADMIN, 0, 0, NOW, &vec![entry(0, 1)]),
        Err(MarginfiError::AccountNotBankrupt)
    );
}

#[test]
fn vault_covers_net_obligation() {
    let mut g = group_with(vec![bank(1, 6, usdc_config()), bank(2, 9, sol_config())]);
    let mut lender = account();
    let mut borrower = account();
    let mut vault: i128 = 0;
    bank_deposit(&mut g, &mut lender, USER, 0, usdc(100), NOW).unwrap();
    vault += usdc(100) as i128;
    bank_deposit(&mut g, &mut borrower, USER, 1, sol(10), NOW).unwrap();
    let oracles = vec![entry(1, 10), entry(0, 1)];
    bank_withdraw(&mut g, &mut borrower, USER, 0, usdc(30), NOW, &oracles).unwrap();
    vault -= usdc(30) as i128;
    let b = &g.banks[0];
    let net = (b.total_asset_shares.bits * b.asset_share_value.bits
        - b.total_liability_shares.bits * b.liability_share_value.bits)
        / (ONE * ONE);
    assert!(vault >= net);
    assert_eq!(net, usdc(70) as i128);
}

#[test]
fn flashloan_cannot_be_reopened() {
    let mut a = account();
    let ixs = vec![
        InstructionRecord { program_id: PROGRAM, kind: InstructionKind::FlashloanStart, marginfi_account: 5 },
        InstructionRecord { program_id: PROGRAM, kind: InstructionKind::FlashloanEnd, marginfi_account: 5 },
    ];
    assert_eq!(marginfi_account_flashloan_start(&mut a, USER, 5, PROGRAM, &ixs, 0, 1), Ok(()));
    assert_ne!(a.account_flags, 0);
    assert_eq!(
        marginfi_account_flashloan_start(&mut a, USER, 5, PROGRAM, &ixs, 0, 1),
        Err(MarginfiError::FlashloanIxsSysvarInvalid)
    );
    let mut b = account();
    assert_eq!(
        marginfi_account_flashloan_start(&mut b, USER, 6, PROGRAM, &ixs, 0, 1),
        Err(MarginfiError::FlashloanIxsSysvarInvalid)
    );
}
