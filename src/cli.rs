//! Decisions of the command-line client that need no network.
use crate::bank::BankOperationalState;
use vstd::prelude::*;

verus! {

/// Options that apply to every command of the command-line client.
#[derive(Debug, Clone, Copy, PartialEq, Eq, Structural)]
pub struct GlobalOptions {
    /// Simulate the transactions instead of sending them.
    pub dry_run: bool,
    /// Do not ask the user to confirm commands that change state.
    pub skip_confirmation: bool,
}

impl Default for GlobalOptions {
    fn default() -> (r: GlobalOptions)
        ensures
            !r.dry_run,
            !r.skip_confirmation,
    {
        GlobalOptions { dry_run: false, skip_confirmation: false }
    }
}

/// An account known to the client: its address (base58) and the file that
/// holds its data.
#[derive(Debug, Clone)]
pub struct AccountEntry {
    pub address: String,
    pub filename: String,
}

/// The operational state of a bank as the client's arguments name it.
#[derive(Debug, Clone, Copy, PartialEq, Eq, Structural)]
pub enum BankOperationalStateArg {
    Paused,
    Operational,
    ReduceOnly,
}

pub open spec fn spec_state_of_arg(a: BankOperationalStateArg) -> BankOperationalState {
    match a {
        BankOperationalStateArg::Paused => BankOperationalState::Paused,
        BankOperationalStateArg::Operational => BankOperationalState::Operational,
        BankOperationalStateArg::ReduceOnly => BankOperationalState::ReduceOnly,
    }
}

impl From<BankOperationalStateArg> for BankOperationalState {
    fn from(val: BankOperationalStateArg) -> (r: BankOperationalState)
        ensures
            r == spec_state_of_arg(val),
    {
        match val {
            BankOperationalStateArg::Paused => BankOperationalState::Paused,
            BankOperationalStateArg::Operational => BankOperationalState::Operational,
            BankOperationalStateArg::ReduceOnly => BankOperationalState::ReduceOnly,
        }
    }
}

impl vstd::std_specs::convert::FromSpecImpl<BankOperationalStateArg> for BankOperationalState {
    open spec fn obeys_from_spec() -> bool {
        true
    }

    open spec fn from_spec(v: BankOperationalStateArg) -> BankOperationalState {
        spec_state_of_arg(v)
    }
}

/// Subcommands of the liquidity incentive program.
#[derive(Debug, Clone, Copy, PartialEq, Eq, Structural)]
pub enum LipCommand {
    ListCampaigns,
    ListDeposits,
}

/// What the client lists for a liquidity incentive subcommand, and whether
/// it may only simulate.
#[derive(Debug, Clone, Copy, PartialEq, Eq, Structural)]
pub enum LipListing {
    Campaigns { dry_run: bool },
    Deposits { dry_run: bool },
}

/// Decides what a liquidity incentive subcommand lists: the campaigns or
/// the deposits, under the global options.
pub fn process_lip_subcmd(subcmd: LipCommand, cfg_override: &GlobalOptions) -> (r: LipListing)
    ensures
        subcmd == LipCommand::ListCampaigns ==> r == (LipListing::Campaigns {
            dry_run: cfg_override.dry_run,
        }),
        subcmd == LipCommand::ListDeposits ==> r == (LipListing::Deposits {
            dry_run: cfg_override.dry_run,
        }),
{
    match subcmd {
        LipCommand::ListCampaigns => LipListing::Campaigns { dry_run: cfg_override.dry_run },
        LipCommand::ListDeposits => LipListing::Deposits { dry_run: cfg_override.dry_run },
    }
}

} // verus!
