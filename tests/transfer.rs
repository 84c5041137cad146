use solana_sdk::pubkey::Pubkey;
use solana_system_interface::instruction as system_instruction;
use validator_deposit::address::Address;
use validator_deposit::amount::AmountError;
use validator_deposit::derive::derive_deposit_pda;
use validator_deposit::transfer::{after_step, first_step, plan_transfer, Next, Step, StepOutcome, TransferError};

#[test]
fn half_unit_transfer_moves_exact_units_to_deposit() {
    let payer = Address::from_bytes([5u8; 32]);
    let identity = Address::from_bytes([6u8; 32]);
    let deposit = derive_deposit_pda(&identity).unwrap().address;
    let plan = plan_transfer(&payer, &deposit, "0.5").unwrap();
    assert_eq!(plan.units, 500_000_000);
    let ix = &plan.instruction;
    assert_eq!(ix.program_id.bytes, [0u8; 32]);
    assert_eq!(ix.accounts.len(), 2);
    assert_eq!(ix.accounts[0].address, payer);
    assert!(ix.accounts[0].is_signer && ix.accounts[0].is_writable);
    assert_eq!(ix.accounts[1].address, deposit);
    assert!(!ix.accounts[1].is_signer && ix.accounts[1].is_writable);
    let mut data = vec![2u8, 0, 0, 0];
    data.extend_from_slice(&500_000_000u64.to_le_bytes());
    assert_eq!(ix.data, data);
}

#[test]
fn instruction_matches_system_program_encoding() {
    let payer = Address::from_bytes([3u8; 32]);
    let to = Address::from_bytes([4u8; 32]);
    let plan = plan_transfer(&payer, &to, "1.25").unwrap();
    let expected = system_instruction::transfer(
        &Pubkey::new_from_array(payer.bytes),
        &Pubkey::new_from_array(to.bytes),
        1_250_000_000,
    );
    assert_eq!(plan.instruction.data, expected.data);
    assert_eq!(plan.instruction.program_id.bytes, expected.program_id.to_bytes());
}

#[test]
fn non_positive_transfer_fails_before_sending() {
    let payer = Address::from_bytes([3u8; 32]);
    let to = Address::from_bytes([4u8; 32]);
    assert_eq!(plan_transfer(&payer, &to, "0"), Err(TransferError::Amount(AmountError::NotPositive)));
    assert_eq!(plan_transfer(&payer, &to, "-0.5"), Err(TransferError::Amount(AmountError::Malformed)));
    assert_eq!(plan_transfer(&payer, &to, "abc"), Err(TransferError::Amount(AmountError::Malformed)));
}

#[test]
fn steps_run_in_order() {
    let s = first_step();
    assert_eq!(s, Step::FetchReference);
    assert_eq!(after_step(s, StepOutcome::Completed), Ok(Next::Perform(Step::Sign)));
    assert_eq!(after_step(Step::Sign, StepOutcome::Completed), Ok(Next::Perform(Step::BroadcastAndConfirm)));
    assert_eq!(after_step(Step::BroadcastAndConfirm, StepOutcome::Completed), Ok(Next::Finished));
}

#[test]
fn rejection_is_a_submission_error() {
    assert_eq!(after_step(Step::BroadcastAndConfirm, StepOutcome::Refused), Err(TransferError::Rejected));
    assert_eq!(after_step(Step::BroadcastAndConfirm, StepOutcome::Unreachable), Err(TransferError::Transport));
    assert_eq!(after_step(Step::BroadcastAndConfirm, StepOutcome::TimedOut), Err(TransferError::Unconfirmed));
}

#[test]
fn early_failures_are_classified() {
    assert_eq!(after_step(Step::FetchReference, StepOutcome::Unreachable), Err(TransferError::Transport));
    assert_eq!(after_step(Step::FetchReference, StepOutcome::Refused), Err(TransferError::Transport));
    assert_eq!(after_step(Step::Sign, StepOutcome::Refused), Err(TransferError::Signing));
}
