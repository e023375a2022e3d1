use marginfi::account::{Balance, LendingAccount, MAX_LENDING_ACCOUNT_BALANCES};
use marginfi::bank::{
    calc_interest_rate, growth_factor, Bank, BankConfig, BankOperationalState, InterestRateConfig,
    SECONDS_PER_YEAR,
};
use marginfi::cli::{process_lip_subcmd, BankOperationalStateArg, GlobalOptions, LipCommand, LipListing};
use marginfi::errors::MarginfiError;
use marginfi::fixed_point::{WrappedI80F48, Q};
use marginfi::instructions::{
    lending_pool_add_bank, lending_pool_configure_bank, lending_pool_repay, lending_pool_deposit,
    marginfi_account_initialize, marginfi_group_configure, marginfi_group_initialize,
    BankConfigOpt, BankVaultBumps, GroupConfig,
};
use marginfi::risk::{calc_asset_quantity, calc_asset_value, get_price, pow10_q, PriceBias, PriceFeed};

const ONE: i128 = 1 << 48;
const NOW: i64 = 1_000;

fn q(x: i128) -> Q {
    Q { bits: x * ONE }
}

fn q_frac(num: i128, den: i128) -> Q {
    Q { bits: num * ONE / den }
}

fn irc() -> InterestRateConfig {
    InterestRateConfig {
        optimal_utilization_rate: q_frac(1, 2),
        plateau_interest_rate: q_frac(1, 10),
        max_interest_rate: q(1),
        insurance_fee_fixed_apr: q(0),
        insurance_ir_fee: q(0),
        protocol_fixed_fee_apr: q(0),
        protocol_ir_fee: q(0),
    }
}

fn config(state: BankOperationalState) -> BankConfig {
    BankConfig {
        deposit_weight_init: q_frac(8, 10),
        deposit_weight_maint: q_frac(9, 10),
        liability_weight_init: q_frac(12, 10),
        liability_weight_maint: q_frac(11, 10),
        deposit_limit: 1_000_000,
        borrow_limit: 1_000_000,
        operational_state: state,
        oracle_key: 0,
        interest_rate_config: irc(),
    }
}

fn bank(state: BankOperationalState) -> Bank {
    Bank {
        mint: 1,
        mint_decimals: 6,
        group: 0,
        asset_share_value: q(1),
        liability_share_value: q(1),
        total_asset_shares: q(0),
        total_liability_shares: q(0),
        protocol_deposit_shares: q(0),
        last_update: NOW,
        config: config(state),
        liquidity_vault_bump: 0,
        liquidity_vault_authority_bump: 0,
        insurance_vault_bump: 0,
        insurance_vault_authority_bump: 0,
        fee_vault_bump: 0,
        fee_vault_authority_bump: 0,
    }
}

fn bumps() -> BankVaultBumps {
    BankVaultBumps {
        liquidity_vault: 1,
        liquidity_vault_authority: 2,
        insurance_vault: 3,
        insurance_vault_authority: 4,
        fee_vault: 5,
        fee_vault_authority: 6,
    }
}

#[test]
fn fixed_point_product_and_quotient() {
    assert_eq!(q(2).checked_mul(q(3)), Ok(q(6)));
    assert_eq!(q(6).checked_div(q(3)), Ok(q(2)));
    assert_eq!(q_frac(1, 2).checked_mul(q_frac(1, 2)), Ok(q_frac(1, 4)));
    // a product below the last fractional bit rounds down
    assert_eq!(Q { bits: 1 }.checked_mul(q_frac(1, 2)), Ok(Q { bits: 0 }));
    assert_eq!(Q { bits: -1 }.checked_mul(q_frac(1, 2)), Ok(Q { bits: -1 }));
    // a quotient rounds toward zero
    assert_eq!(Q { bits: 1 }.checked_div(q(2)), Ok(Q { bits: 0 }));
    assert_eq!(Q { bits: -1 }.checked_div(q(2)), Ok(Q { bits: 0 }));
    assert_eq!(q(1).checked_div(q(0)), Err(MarginfiError::MathError));
    assert_eq!(q(1 << 60).checked_mul(q(1 << 30)), Err(MarginfiError::MathError));
    assert_eq!(Q { bits: i128::MAX }.checked_add(Q { bits: 1 }), Err(MarginfiError::MathError));
}

#[test]
fn fixed_point_rounding_up() {
    assert_eq!(q(1).checked_div_ceil(q(3)), Ok(Q { bits: ONE / 3 + 1 }));
    assert_eq!(q(6).checked_div_ceil(q(3)), Ok(q(2)));
    assert_eq!(Q { bits: 1 }.checked_mul_ceil(q_frac(1, 2)), Ok(Q { bits: 1 }));
    assert_eq!(q(2).checked_mul_ceil(q(3)), Ok(q(6)));
    assert_eq!(q_frac(3, 2).to_u64_floor(), Ok(1));
    assert_eq!(q_frac(3, 2).to_u64_ceil(), Ok(2));
    assert_eq!(q(2).to_u64_ceil(), Ok(2));
    assert_eq!(Q { bits: -1 }.to_u64_floor(), Err(MarginfiError::MathError));
    assert_eq!(Q::from_u64(7), q(7));
}

#[test]
fn error_codes_are_stable() {
    assert_eq!(MarginfiError::MathError.code(), 6000);
    assert_eq!(MarginfiError::BadAccountHealth.code(), 6010);
    assert_eq!(MarginfiError::FlashloanIxsSysvarInvalid.code(), 6023);
}

#[test]
fn interest_curve_values() {
    let c = irc();
    // below the optimal utilization the rate climbs linearly to the plateau
    let (base, total, dep) = calc_interest_rate(&c, q_frac(1, 4)).unwrap();
    assert_eq!(base, q_frac(1, 20));
    assert_eq!(total, base);
    assert!(dep.bits < base.bits);
    // above it, from the plateau to the maximum
    let (base, _, _) = calc_interest_rate(&c, q(1)).unwrap();
    assert_eq!(base, q(1));
    let (base, _, _) = calc_interest_rate(&c, q_frac(3, 4)).unwrap();
    assert!((base.bits - q_frac(55, 100).bits).abs() < 4);
}

#[test]
fn interest_fees_raise_the_borrow_rate() {
    let mut c = irc();
    c.protocol_ir_fee = q_frac(1, 10);
    c.insurance_fee_fixed_apr = q_frac(1, 100);
    let (base, total, _) = calc_interest_rate(&c, q_frac(1, 2)).unwrap();
    let expected = base.checked_mul(q_frac(11, 10)).unwrap().checked_add(q_frac(1, 100)).unwrap();
    assert_eq!(total, expected);
}

#[test]
fn growth_over_a_year() {
    let g = growth_factor(q_frac(1, 10), q(SECONDS_PER_YEAR as i128)).unwrap();
    assert_eq!(g, Q { bits: ONE + q_frac(1, 10).bits });
}

#[test]
fn accrual_is_idempotent_and_grows_share_values() {
    let mut b = bank(BankOperationalState::Operational);
    b.total_asset_shares = q(100);
    b.total_liability_shares = q(50);
    b.accrue_interest(NOW).unwrap();
    let x = b;
    b.accrue_interest(NOW).unwrap();
    assert_eq!(b, x);
    b.accrue_interest(NOW + SECONDS_PER_YEAR as i64).unwrap();
    // utilization one half, at the optimum: the plateau rate of 10%
    assert!((b.liability_share_value.bits - q_frac(11, 10).bits).abs() < 4);
    assert!(b.asset_share_value.bits > ONE);
    assert_eq!(b.last_update, NOW + SECONDS_PER_YEAR as i64);
    let before = b;
    b.accrue_interest(NOW).unwrap();
    assert_eq!(b, before);
}

#[test]
fn accrual_credits_fees_to_the_protocol() {
    let mut b = bank(BankOperationalState::Operational);
    b.config.interest_rate_config.protocol_ir_fee = q_frac(1, 10);
    b.total_asset_shares = q(100);
    b.total_liability_shares = q(50);
    b.accrue_interest(NOW + SECONDS_PER_YEAR as i64).unwrap();
    assert!(b.protocol_deposit_shares.bits > 0);
    assert_eq!(b.total_asset_shares.bits, q(100).bits + b.protocol_deposit_shares.bits);
    assert_eq!(b.total_liability_shares, q(50));
}

#[test]
fn accrual_refuses_overdrawn_utilization() {
    let mut b = bank(BankOperationalState::Operational);
    b.total_asset_shares = q(10);
    b.total_liability_shares = q(20);
    let before = b;
    assert_eq!(b.accrue_interest(NOW + 10), Err(MarginfiError::IllegalUtilizationRatio));
    assert_eq!(b, before);
}

#[test]
fn deposit_then_withdraw_all_round_trip() {
    let mut b = bank(BankOperationalState::Operational);
    let mut bal = Balance::open(0);
    bal.account_deposit(&mut b, q(12_345)).unwrap();
    assert_eq!(bal.withdraw_all(&mut b), Ok(12_345));
    assert!(!bal.active);
    assert_eq!(b.total_asset_shares.bits, 0);
}

#[test]
fn bank_totals_follow_balances() {
    let mut b = bank(BankOperationalState::Operational);
    let mut x = Balance::open(0);
    let mut y = Balance::open(0);
    x.account_deposit(&mut b, q(500)).unwrap();
    y.account_borrow(&mut b, q(200)).unwrap();
    x.account_borrow(&mut b, q(600)).unwrap();
    y.account_deposit(&mut b, q(250)).unwrap();
    assert_eq!(b.total_asset_shares.bits, x.deposit_shares.bits + y.deposit_shares.bits);
    assert_eq!(b.total_liability_shares.bits, x.liability_shares.bits + y.liability_shares.bits);
    assert_eq!(x.liability_shares, q(100));
    assert_eq!(y.deposit_shares, q(50));
}

#[test]
fn deposit_pays_debt_first() {
    let mut b = bank(BankOperationalState::Operational);
    let mut bal = Balance::open(0);
    bal.account_borrow(&mut b, q(100)).unwrap();
    bal.account_deposit(&mut b, q(40)).unwrap();
    assert_eq!(bal.liability_shares, q(60));
    assert_eq!(bal.deposit_shares, q(0));
    bal.account_deposit(&mut b, q(70)).unwrap();
    assert_eq!(bal.liability_shares, q(0));
    assert_eq!(bal.deposit_shares, q(10));
}

#[test]
fn operational_states_gate_changes() {
    let mut b = bank(BankOperationalState::Paused);
    let mut bal = Balance::open(0);
    assert_eq!(bal.account_deposit(&mut b, q(1)), Err(MarginfiError::BankPaused));
    let mut b = bank(BankOperationalState::Operational);
    bal.account_borrow(&mut b, q(10)).unwrap();
    b.config.operational_state = BankOperationalState::ReduceOnly;
    assert_eq!(bal.account_borrow(&mut b, q(1)), Err(MarginfiError::BankReduceOnly));
    assert_eq!(bal.account_deposit(&mut b, q(11)), Err(MarginfiError::BankReduceOnly));
    assert_eq!(bal.repay(&mut b, q(4)), Ok(()));
    assert_eq!(bal.liability_shares, q(6));
}

#[test]
fn limits_are_enforced() {
    let mut b = bank(BankOperationalState::Operational);
    let mut bal = Balance::open(0);
    assert_eq!(bal.deposit(&mut b, q(1_000_001)), Err(MarginfiError::BankDepositCapacityExceeded));
    let mut other = Balance::open(0);
    assert_eq!(other.borrow(&mut b, q(1_000_001)), Err(MarginfiError::BankBorrowLimitExceeded));
    assert_eq!(other.borrow(&mut b, q(1_000_000)), Ok(()));
}

#[test]
fn strict_operations_refuse_the_other_side() {
    let mut b = bank(BankOperationalState::Operational);
    let mut bal = Balance::open(0);
    bal.deposit(&mut b, q(10)).unwrap();
    assert_eq!(bal.borrow(&mut b, q(1)), Err(MarginfiError::OperationBorrowOnly));
    assert_eq!(bal.repay(&mut b, q(1)), Err(MarginfiError::NoLiabilityFound));
    assert_eq!(bal.withdraw(&mut b, q(11)), Err(MarginfiError::OperationWithdrawOnly));
    assert_eq!(bal.account_withdraw(&mut b, q(11)), Err(MarginfiError::BorrowingNotAllowed));
    let mut debtor = Balance::open(0);
    debtor.borrow(&mut b, q(5)).unwrap();
    assert_eq!(debtor.deposit(&mut b, q(1)), Err(MarginfiError::OperationDepositOnly));
    assert_eq!(debtor.repay(&mut b, q(6)), Err(MarginfiError::OperationRepayOnly));
    assert_eq!(debtor.withdraw_all(&mut b), Err(MarginfiError::NoAssetFound));
    assert_eq!(debtor.repay_all(&mut b), Ok(5));
    assert!(!debtor.active);
}

#[test]
fn borrow_rounds_shares_up() {
    let mut b = bank(BankOperationalState::Operational);
    b.liability_share_value = q(3);
    let mut bal = Balance::open(0);
    bal.borrow(&mut b, q(1)).unwrap();
    assert_eq!(bal.liability_shares, Q { bits: ONE / 3 + 1 });
    assert_eq!(bal.repay_all(&mut b), Ok(2));
}

#[test]
fn slots_fill_up() {
    let mut la = LendingAccount::new();
    for i in 0..MAX_LENDING_ACCOUNT_BALANCES {
        assert_eq!(la.find_or_create(i), Ok(i));
    }
    assert_eq!(la.find_or_create(3), Ok(3));
    assert_eq!(la.find_or_create(100), Err(MarginfiError::LendingAccountBalanceSlotsFull));
    assert_eq!(la.find_existing(100), Err(MarginfiError::LendingAccountBalanceNotFound));
    la.balances[5].active = false;
    assert_eq!(la.find_or_create(100), Ok(5));
}

#[test]
fn prices_and_values() {
    let feed = PriceFeed { price: 1_050, confidence: 50, exponent: 2, publish_time: NOW };
    assert_eq!(get_price(&feed, NOW, PriceBias::Low), Ok(q(10)));
    assert_eq!(get_price(&feed, NOW, PriceBias::High), Ok(q(11)));
    assert_eq!(get_price(&feed, NOW + 61, PriceBias::Mid), Err(MarginfiError::StaleOracle));
    let bad = PriceFeed { price: 0, ..feed };
    assert_eq!(get_price(&bad, NOW, PriceBias::Mid), Err(MarginfiError::InvalidOracleAccount));
    assert_eq!(pow10_q(6), Ok(q(1_000_000)));
    assert_eq!(pow10_q(30), Err(MarginfiError::MathError));
    // 2 SOL (9 decimals) at 10, full weight: 20
    assert_eq!(calc_asset_value(q(2_000_000_000), q(10), 9, q(1)), Ok(q(20)));
    assert_eq!(calc_asset_quantity(q(20), q(10), 9), Ok(q(2_000_000_000)));
}

#[test]
fn admin_instructions() {
    let mut g = marginfi_group_initialize(1);
    assert_eq!(
        lending_pool_add_bank(&mut g, 9, 2, 77, 6, config(BankOperationalState::Operational), bumps(), NOW),
        Err(MarginfiError::Unauthorized)
    );
    let mut invalid = config(BankOperationalState::Operational);
    invalid.liability_weight_maint = q(1);
    assert_eq!(
        lending_pool_add_bank(&mut g, 9, 1, 77, 6, invalid, bumps(), NOW),
        Err(MarginfiError::InvalidConfig)
    );
    assert_eq!(
        lending_pool_add_bank(&mut g, 9, 1, 77, 6, config(BankOperationalState::Operational), bumps(), NOW),
        Ok(0)
    );
    assert_eq!(
        lending_pool_add_bank(&mut g, 9, 1, 77, 6, config(BankOperationalState::Operational), bumps(), NOW),
        Err(MarginfiError::BankAlreadyExists)
    );
    assert_eq!(g.banks[0].asset_share_value, q(1));
    assert_eq!(g.banks[0].insurance_vault_bump, 3);
    let opt = BankConfigOpt {
        deposit_weight_init: None,
        deposit_weight_maint: None,
        liability_weight_init: None,
        liability_weight_maint: None,
        deposit_limit: Some(5),
        borrow_limit: None,
        operational_state: Some(BankOperationalStateArg::ReduceOnly.into()),
        oracle_key: None,
    };
    assert_eq!(lending_pool_configure_bank(&mut g, 1, 0, opt), Ok(()));
    assert_eq!(g.banks[0].config.deposit_limit, 5);
    assert_eq!(g.banks[0].config.operational_state, BankOperationalState::ReduceOnly);
    assert_eq!(lending_pool_configure_bank(&mut g, 1, 3, opt), Err(MarginfiError::BankNotFound));
    let pause = GroupConfig { admin: None, paused: Some(true) };
    assert_eq!(marginfi_group_configure(&mut g, 2, pause), Err(MarginfiError::Unauthorized));
    assert_eq!(marginfi_group_configure(&mut g, 1, pause), Ok(()));
    assert!(g.paused);
}

#[test]
fn repay_instruction_needs_a_balance() {
    let mut g = marginfi_group_initialize(1);
    g.banks.push(bank(BankOperationalState::Operational));
    let mut a = marginfi_account_initialize(0, 4);
    assert_eq!(
        lending_pool_repay(&mut g, &mut a, 4, 0, 1, None, NOW),
        Err(MarginfiError::LendingAccountBalanceNotFound)
    );
    assert_eq!(lending_pool_deposit(&mut g, &mut a, 5, 0, 1, NOW), Err(MarginfiError::Unauthorized));
    assert_eq!(lending_pool_deposit(&mut g, &mut a, 4, 0, 1, NOW), Ok(()));
    assert_eq!(
        lending_pool_repay(&mut g, &mut a, 4, 0, 1, None, NOW),
        Err(MarginfiError::NoLiabilityFound)
    );
}

#[test]
fn lip_subcommands() {
    let opts = GlobalOptions { dry_run: true, ..GlobalOptions::default() };
    assert_eq!(process_lip_subcmd(LipCommand::ListCampaigns, &opts), LipListing::Campaigns { dry_run: true });
    assert_eq!(
        process_lip_subcmd(LipCommand::ListDeposits, &GlobalOptions::default()),
        LipListing::Deposits { dry_run: false }
    );
    assert_eq!(BankOperationalState::from(BankOperationalStateArg::Paused), BankOperationalState::Paused);
}

#[test]
fn stored_form_is_little_endian() {
    let w = WrappedI80F48::from_q(q(1));
    let mut expected = [0u8; 16];
    expected[6] = 1;
    assert_eq!(w.value, expected);
    assert_eq!(WrappedI80F48::from_q(Q { bits: -1 }).value, [0xff; 16]);
    assert_eq!(WrappedI80F48 { value: [0xff; 16] }.to_q(), Q { bits: -1 });
    let x = Q { bits: -123_456_789_012_345 };
    assert_eq!(WrappedI80F48::from_q(x).to_q(), x);
}

#[test]
fn reduce_only_refuses_deposits_without_debt() {
    let mut b = bank(BankOperationalState::ReduceOnly);
    let mut bal = Balance::open(0);
    assert_eq!(bal.account_deposit(&mut b, q(0)), Err(MarginfiError::BankReduceOnly));
    assert_eq!(bal.account_deposit(&mut b, q(5)), Err(MarginfiError::BankReduceOnly));
    assert_eq!(b.total_asset_shares, q(0));
}

#[test]
fn prices_from_the_future_are_stale() {
    let feed = PriceFeed { price: 10, confidence: 0, exponent: 0, publish_time: NOW + 61 };
    assert_eq!(get_price(&feed, NOW, PriceBias::Mid), Err(MarginfiError::StaleOracle));
    let feed = PriceFeed { publish_time: NOW + 60, ..feed };
    assert_eq!(get_price(&feed, NOW, PriceBias::Mid), Ok(q(10)));
}

#[test]
fn borrows_without_deposits_are_an_illegal_utilization() {
    let mut b = bank(BankOperationalState::Operational);
    b.total_liability_shares = q(5);
    assert_eq!(b.utilization(), Err(MarginfiError::IllegalUtilizationRatio));
    let empty = bank(BankOperationalState::Operational);
    assert_eq!(empty.utilization(), Ok(q(0)));
}

#[test]
fn bank_configuration_refuses_bad_weights() {
    let mut g = marginfi_group_initialize(1);
    lending_pool_add_bank(&mut g, 9, 1, 77, 6, config(BankOperationalState::Operational), bumps(), NOW)
        .unwrap();
    let opt = BankConfigOpt {
        deposit_weight_init: Some(q(2)),
        deposit_weight_maint: None,
        liability_weight_init: None,
        liability_weight_maint: None,
        deposit_limit: None,
        borrow_limit: None,
        operational_state: None,
        oracle_key: None,
    };
    assert_eq!(lending_pool_configure_bank(&mut g, 1, 0, opt), Err(MarginfiError::InvalidConfig));
    assert_eq!(g.banks[0].config, config(BankOperationalState::Operational));
}

#[test]
fn accrual_rounding_can_raise_the_net_obligation() {
    let mut b = bank(BankOperationalState::Operational);
    b.config.interest_rate_config.plateau_interest_rate = Q { bits: ONE / 10 };
    b.config.interest_rate_config.optimal_utilization_rate = Q { bits: ONE / 2 };
    b.liability_share_value = Q { bits: 354_895_485_115_211 };
    b.total_asset_shares = Q { bits: 223_624_390_687_025_720_854 };
    b.total_liability_shares = Q { bits: 111_812_123_623_050_340_113 };
    let net = |b: &Bank| {
        (b.total_asset_shares.bits * b.asset_share_value.bits
            - b.total_liability_shares.bits * b.liability_share_value.bits)
            / (ONE * ONE)
    };
    assert_eq!(net(&b), 293_620);
    b.accrue_interest(NOW + 13_808).unwrap();
    assert_eq!(net(&b), 293_621);
}
