use vstd::prelude::*;
use vstd::string::StringSliceAdditionalSpecFns;
use solana_sdk::pubkey::Pubkey;
use solana_system_interface::instruction as system_instruction;
use crate::address::Address;
use crate::amount::{AmountError, amount_units, parse_amount};

verus! {

/// One account that an instruction touches, with its access.
#[derive(Clone, Copy, Debug, PartialEq, Eq)]
pub struct AccountRef {
    pub address: Address,
    pub is_signer: bool,
    pub is_writable: bool,
}

/// An instruction in plain form: the program that runs it, the accounts it
/// touches, and its encoded arguments.
#[derive(Clone, Debug, PartialEq, Eq)]
pub struct TransferInstruction {
    pub program_id: Address,
    pub accounts: Vec<AccountRef>,
    pub data: Vec<u8>,
}

/// The system program's address: 32 zero bytes.
pub open spec fn system_program() -> Seq<u8> {
    Seq::new(32, |i: int| 0u8)
}

/// The eight little-endian bytes of `v`.
pub open spec fn le_bytes(v: u64) -> Seq<u8> {
    Seq::new(8, |i: int| ((v >> ((8 * i) as u64)) & 0xff) as u8)
}

/// The system program's encoded transfer: variant index 2 as a little-endian
/// `u32`, then the amount as a little-endian `u64`.
pub open spec fn transfer_data(units: u64) -> Seq<u8> {
    seq![2u8, 0u8, 0u8, 0u8] + le_bytes(units)
}

/// `ix` moves `units` smallest units from `from`, which signs, to `to`.
pub open spec fn moves(ix: TransferInstruction, from: Seq<u8>, to: Seq<u8>, units: u64) -> bool {
    &&& ix.program_id@ == system_program()
    &&& ix.accounts@.len() == 2
    &&& ix.accounts@[0].address@ == from
    &&& ix.accounts@[0].is_signer
    &&& ix.accounts@[0].is_writable
    &&& ix.accounts@[1].address@ == to
    &&& !ix.accounts@[1].is_signer
    &&& ix.accounts@[1].is_writable
    &&& ix.data@ == transfer_data(units)
}

/// Relies on `system_instruction::transfer`: the system program, the sender as
/// a writable signer, the receiver as writable, and the bincode encoding of
/// `SystemInstruction::Transfer { lamports }` (third variant).
#[verifier::external_body]
fn system_transfer(from: &Address, to: &Address, units: u64) -> (r: TransferInstruction)
    ensures
        moves(r, from@, to@, units),
{
    let ix = system_instruction::transfer(&Pubkey::new_from_array(from.bytes), &Pubkey::new_from_array(to.bytes), units);
    let accounts = ix.accounts.iter().map(|m| AccountRef {
        address: Address { bytes: m.pubkey.to_bytes() },
        is_signer: m.is_signer,
        is_writable: m.is_writable,
    }).collect();
    TransferInstruction { program_id: Address { bytes: ix.program_id.to_bytes() }, accounts, data: ix.data }
}

/// Why a transfer did not complete.
#[derive(Clone, Copy, Debug, PartialEq, Eq)]
pub enum TransferError {
    /// The amount was refused before anything was sent.
    Amount(AmountError),
    /// The network could not be reached, or refused the query.
    Transport,
    /// The funding credential did not sign.
    Signing,
    /// The network refused the signed transaction.
    Rejected,
    /// The network did not confirm the transaction.
    Unconfirmed,
}

/// A transfer ready to be submitted.
#[derive(Clone, Debug, PartialEq, Eq)]
pub struct TransferPlan {
    /// The smallest units moved.
    pub units: u64,
    pub instruction: TransferInstruction,
}

/// Converts the amount text and builds the one instruction of a transfer from
/// `payer` to `destination`. Nothing is sent: an amount that is malformed, or
/// comes to zero units, fails here.
pub fn plan_transfer(payer: &Address, destination: &Address, amount: &str) -> (r: Result<TransferPlan, TransferError>)
    ensures
        match amount_units(amount.spec_bytes()) {
            Ok(u) => r matches Ok(p) && p.units == u && moves(p.instruction, payer@, destination@, u),
            Err(e) => r == Err::<TransferPlan, TransferError>(TransferError::Amount(e)),
        },
{
    match parse_amount(amount) {
        Ok(units) => Ok(TransferPlan { units, instruction: system_transfer(payer, destination, units) }),
        Err(e) => Err(TransferError::Amount(e)),
    }
}

/// The outside work of a submission, in the order it is done.
#[derive(Clone, Copy, Debug, PartialEq, Eq)]
pub enum Step {
    /// Fetch the network's latest reference point.
    FetchReference,
    /// Assemble the message over the reference point and sign it.
    Sign,
    /// Broadcast the signed transaction and wait for confirmation.
    BroadcastAndConfirm,
}

/// How a step went, as its performer reports it.
#[derive(Clone, Copy, Debug, PartialEq, Eq)]
pub enum StepOutcome {
    Completed,
    /// The network could not be reached.
    Unreachable,
    /// The network or the credential refused.
    Refused,
    /// No confirmation came in time.
    TimedOut,
}

/// What to do after a step.
#[derive(Clone, Copy, Debug, PartialEq, Eq)]
pub enum Next {
    Perform(Step),
    /// The transfer is confirmed.
    Finished,
}

/// The first step of every submission: a fresh reference point.
pub fn first_step() -> (r: Step)
    ensures
        r == Step::FetchReference,
{
    Step::FetchReference
}

/// Decides what follows a step. Each completed step leads to the next in order;
/// any other outcome ends the submission with the error of its kind.
pub fn after_step(step: Step, outcome: StepOutcome) -> (r: Result<Next, TransferError>)
    ensures
        outcome == StepOutcome::Completed ==> r == match step {
            Step::FetchReference => Ok::<Next, TransferError>(Next::Perform(Step::Sign)),
            Step::Sign => Ok(Next::Perform(Step::BroadcastAndConfirm)),
            Step::BroadcastAndConfirm => Ok(Next::Finished),
        },
        outcome != StepOutcome::Completed ==> r == Err::<Next, TransferError>(match step {
            Step::FetchReference => TransferError::Transport,
            Step::Sign => TransferError::Signing,
            Step::BroadcastAndConfirm => match outcome {
                StepOutcome::Unreachable => TransferError::Transport,
                StepOutcome::Refused => TransferError::Rejected,
                _ => TransferError::Unconfirmed,
            },
        }),
{
    match (step, outcome) {
        (Step::FetchReference, StepOutcome::Completed) => Ok(Next::Perform(Step::Sign)),
        (Step::Sign, StepOutcome::Completed) => Ok(Next::Perform(Step::BroadcastAndConfirm)),
        (Step::BroadcastAndConfirm, StepOutcome::Completed) => Ok(Next::Finished),
        (Step::FetchReference, _) => Err(TransferError::Transport),
        (Step::Sign, _) => Err(TransferError::Signing),
        (Step::BroadcastAndConfirm, StepOutcome::Unreachable) => Err(TransferError::Transport),
        (Step::BroadcastAndConfirm, StepOutcome::Refused) => Err(TransferError::Rejected),
        (Step::BroadcastAndConfirm, _) => Err(TransferError::Unconfirmed),
    }
}

} // verus!
