//! Flash loans: a bracket in one transaction that defers health checks to
//! its end.
use crate::account::{MarginfiAccount, IN_FLASHLOAN_FLAG};
use crate::errors::MarginfiError;
use crate::instructions::MarginfiGroup;
use crate::risk::{check_account_health, in_flashloan, spec_check_health, OracleEntry, RiskRequirementType};
use vstd::prelude::*;

verus! {

/// What an instruction of the transaction is, as far as flash loans care.
#[derive(Debug, Clone, Copy, PartialEq, Eq, Structural)]
pub enum InstructionKind {
    FlashloanStart,
    FlashloanEnd,
    Other,
}

/// One instruction of the running transaction: the program it calls, its
/// kind, and the lending account it names.
#[derive(Debug, Clone, Copy, PartialEq, Eq, Structural)]
pub struct InstructionRecord {
    pub program_id: u64,
    pub kind: InstructionKind,
    pub marginfi_account: u64,
}

/// The instruction at `end_index` comes after the current one and is this
/// program's flash loan end for this account.
pub open spec fn spec_flashloan_ixs_valid(
    ixs: Seq<InstructionRecord>,
    current_index: usize,
    end_index: usize,
    account_key: u64,
    program_id: u64,
) -> bool {
    &&& current_index < end_index
    &&& end_index < ixs.len()
    &&& ixs[end_index as int].program_id == program_id
    &&& ixs[end_index as int].kind == InstructionKind::FlashloanEnd
    &&& ixs[end_index as int].marginfi_account == account_key
}

/// Checks that the transaction closes the flash loan at `end_index`.
pub fn verify_flashloan_ixs_sysvar(
    ixs: &Vec<InstructionRecord>,
    current_index: usize,
    end_index: usize,
    account_key: u64,
    program_id: u64,
) -> (r: Result<(), MarginfiError>)
    ensures
        r is Ok <==> spec_flashloan_ixs_valid(ixs@, current_index, end_index, account_key, program_id),
        r is Err ==> r == Err::<(), MarginfiError>(MarginfiError::FlashloanIxsSysvarInvalid),
{
    if current_index >= end_index || end_index >= ixs.len() {
        return Err(MarginfiError::FlashloanIxsSysvarInvalid);
    }
    let ix = ixs[end_index];
    if ix.program_id == program_id && ix.kind == InstructionKind::FlashloanEnd
        && ix.marginfi_account == account_key {
        Ok(())
    } else {
        Err(MarginfiError::FlashloanIxsSysvarInvalid)
    }
}

/// Opens a flash loan on an account: health checks are skipped until the
/// matching end, which the transaction must hold at `end_index`. An account
/// already in a flash loan cannot open another.
pub fn marginfi_account_flashloan_start(
    account: &mut MarginfiAccount,
    signer: u64,
    account_key: u64,
    program_id: u64,
    ixs: &Vec<InstructionRecord>,
    current_index: usize,
    end_index: usize,
) -> (r: Result<(), MarginfiError>)
    ensures
        final(account).group == old(account).group,
        final(account).authority == old(account).authority,
        final(account).lending_account == old(account).lending_account,
        r is Ok <==> (signer == old(account).authority && !in_flashloan(old(account).account_flags)
            && spec_flashloan_ixs_valid(ixs@, current_index, end_index, account_key, program_id)),
        match r {
            Ok(_) => {
                &&& signer == old(account).authority
                &&& !in_flashloan(old(account).account_flags)
                &&& spec_flashloan_ixs_valid(ixs@, current_index, end_index, account_key, program_id)
                &&& final(account).account_flags == old(account).account_flags | IN_FLASHLOAN_FLAG
                &&& in_flashloan(final(account).account_flags)
            },
            Err(e) => {
                &&& final(account).account_flags == old(account).account_flags
                &&& if signer != old(account).authority {
                    e == MarginfiError::Unauthorized
                } else {
                    e == MarginfiError::FlashloanIxsSysvarInvalid
                }
            },
        },
{
    if signer != account.authority {
        return Err(MarginfiError::Unauthorized);
    }
    if account.account_flags & IN_FLASHLOAN_FLAG != 0 {
        return Err(MarginfiError::FlashloanIxsSysvarInvalid);
    }
    verify_flashloan_ixs_sysvar(ixs, current_index, end_index, account_key, program_id)?;
    let f = account.account_flags;
    assert((f | 2u64) & 2u64 != 0) by (bit_vector);
    account.account_flags = f | IN_FLASHLOAN_FLAG;
    Ok(())
}

/// Closes a flash loan and checks the account's initial health, which is no
/// longer skipped. On an error nothing changes.
pub fn marginfi_account_flashloan_end(
    group: &MarginfiGroup,
    account: &mut MarginfiAccount,
    signer: u64,
    oracles: &Vec<OracleEntry>,
    now: i64,
) -> (r: Result<(), MarginfiError>)
    ensures
        final(account).group == old(account).group,
        final(account).authority == old(account).authority,
        final(account).lending_account == old(account).lending_account,
        !in_flashloan(old(account).account_flags & !IN_FLASHLOAN_FLAG),
        match r {
            Ok(_) => {
                &&& signer == old(account).authority
                &&& spec_check_health(
                    old(account).account_flags & !IN_FLASHLOAN_FLAG,
                    old(account).lending_account.slots(),
                    group.banks@,
                    oracles@,
                    now,
                    RiskRequirementType::Initial,
                ) is Ok
                &&& final(account).account_flags == old(account).account_flags & !IN_FLASHLOAN_FLAG
            },
            Err(e) => {
                &&& final(account).account_flags == old(account).account_flags
                &&& if signer != old(account).authority {
                    e == MarginfiError::Unauthorized
                } else {
                    spec_check_health(
                        old(account).account_flags & !IN_FLASHLOAN_FLAG,
                        old(account).lending_account.slots(),
                        group.banks@,
                        oracles@,
                        now,
                        RiskRequirementType::Initial,
                    ) == Err::<(), MarginfiError>(e)
                }
            },
        },
{
    let f = account.account_flags;
    assert((f & !2u64) & 2u64 == 0) by (bit_vector);
    if signer != account.authority {
        return Err(MarginfiError::Unauthorized);
    }
    let closed = MarginfiAccount {
        group: account.group,
        authority: account.authority,
        lending_account: account.lending_account,
        account_flags: f & !IN_FLASHLOAN_FLAG,
    };
    check_account_health(&closed, &group.banks, oracles, now, RiskRequirementType::Initial)?;
    *account = closed;
    Ok(())
}

} // verus!
