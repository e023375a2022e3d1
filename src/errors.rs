//! The error kinds of the lending pool and their numeric codes.
use vstd::prelude::*;

verus! {

/// Every way in which an instruction of the lending pool can fail.
///
/// An error aborts the whole instruction: the caller discards every change
/// that the instruction made.
#[derive(Debug, Clone, Copy, PartialEq, Eq, Structural)]
pub enum MarginfiError {
    MathError,
    BankNotFound,
    LendingAccountBalanceNotFound,
    BankDepositCapacityExceeded,
    InvalidTransfer,
    MissingPythOrBankAccount,
    MissingPythAccount,
    InvalidOracleAccount,
    MissingBankAccount,
    InvalidBankAccount,
    BadAccountHealth,
    LendingAccountBalanceSlotsFull,
    BankAlreadyExists,
    BorrowingNotAllowed,
    AccountIllegalPostLiquidationState,
    AccountNotBankrupt,
    BalanceNotBadDebt,
    InvalidConfig,
    StaleOracle,
    BankPaused,
    BankReduceOnly,
    InvalidOracleSetup,
    IllegalUtilizationRatio,
    FlashloanIxsSysvarInvalid,
    BankBorrowLimitExceeded,
    Unauthorized,
    NoLiabilityFound,
    NoAssetFound,
    OperationDepositOnly,
    OperationWithdrawOnly,
    OperationBorrowOnly,
    OperationRepayOnly,
}

/// First numeric code of the program's own errors.
pub const ERROR_CODE_OFFSET: u32 = 6000;

/// Position of each kind in the error table.
pub open spec fn error_index(e: MarginfiError) -> u32 {
    match e {
        MarginfiError::MathError => 0,
        MarginfiError::BankNotFound => 1,
        MarginfiError::LendingAccountBalanceNotFound => 2,
        MarginfiError::BankDepositCapacityExceeded => 3,
        MarginfiError::InvalidTransfer => 4,
        MarginfiError::MissingPythOrBankAccount => 5,
        MarginfiError::MissingPythAccount => 6,
        MarginfiError::InvalidOracleAccount => 7,
        MarginfiError::MissingBankAccount => 8,
        MarginfiError::InvalidBankAccount => 9,
        MarginfiError::BadAccountHealth => 10,
        MarginfiError::LendingAccountBalanceSlotsFull => 11,
        MarginfiError::BankAlreadyExists => 12,
        MarginfiError::BorrowingNotAllowed => 13,
        MarginfiError::AccountIllegalPostLiquidationState => 14,
        MarginfiError::AccountNotBankrupt => 15,
        MarginfiError::BalanceNotBadDebt => 16,
        MarginfiError::InvalidConfig => 17,
        MarginfiError::StaleOracle => 18,
        MarginfiError::BankPaused => 19,
        MarginfiError::BankReduceOnly => 20,
        MarginfiError::InvalidOracleSetup => 21,
        MarginfiError::IllegalUtilizationRatio => 22,
        MarginfiError::FlashloanIxsSysvarInvalid => 23,
        MarginfiError::BankBorrowLimitExceeded => 24,
        MarginfiError::Unauthorized => 25,
        MarginfiError::NoLiabilityFound => 26,
        MarginfiError::NoAssetFound => 27,
        MarginfiError::OperationDepositOnly => 28,
        MarginfiError::OperationWithdrawOnly => 29,
        MarginfiError::OperationBorrowOnly => 30,
        MarginfiError::OperationRepayOnly => 31,
    }
}

impl MarginfiError {
    /// The stable numeric code of this kind, as the runtime reports it.
    pub fn code(&self) -> (r: u32)
        ensures
            r == ERROR_CODE_OFFSET + error_index(*self),
    {
        let i: u32 = match self {
            MarginfiError::MathError => 0,
            MarginfiError::BankNotFound => 1,
            MarginfiError::LendingAccountBalanceNotFound => 2,
            MarginfiError::BankDepositCapacityExceeded => 3,
            MarginfiError::InvalidTransfer => 4,
            MarginfiError::MissingPythOrBankAccount => 5,
            MarginfiError::MissingPythAccount => 6,
            MarginfiError::InvalidOracleAccount => 7,
            MarginfiError::MissingBankAccount => 8,
            MarginfiError::InvalidBankAccount => 9,
            MarginfiError::BadAccountHealth => 10,
            MarginfiError::LendingAccountBalanceSlotsFull => 11,
            MarginfiError::BankAlreadyExists => 12,
            MarginfiError::BorrowingNotAllowed => 13,
            MarginfiError::AccountIllegalPostLiquidationState => 14,
            MarginfiError::AccountNotBankrupt => 15,
            MarginfiError::BalanceNotBadDebt => 16,
            MarginfiError::InvalidConfig => 17,
            MarginfiError::StaleOracle => 18,
            MarginfiError::BankPaused => 19,
            MarginfiError::BankReduceOnly => 20,
            MarginfiError::InvalidOracleSetup => 21,
            MarginfiError::IllegalUtilizationRatio => 22,
            MarginfiError::FlashloanIxsSysvarInvalid => 23,
            MarginfiError::BankBorrowLimitExceeded => 24,
            MarginfiError::Unauthorized => 25,
            MarginfiError::NoLiabilityFound => 26,
            MarginfiError::NoAssetFound => 27,
            MarginfiError::OperationDepositOnly => 28,
            MarginfiError::OperationWithdrawOnly => 29,
            MarginfiError::OperationBorrowOnly => 30,
            MarginfiError::OperationRepayOnly => 31,
        };
        ERROR_CODE_OFFSET + i
    }
}

} // verus!
