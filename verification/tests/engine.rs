//! Engine and ledger-model tests: the scenarios a live deployment would
//! run — fan-out payments, positional pairing, arity faults — executed
//! against the in-memory model of the external ledger.

use splitter::account::AccountId;
use splitter::error::SplitterError;
use splitter::event::Event;
use splitter::instruction::SplitterInstruction;
use splitter::ledger::Ledger;
use splitter::ledger::LedgerError;
use splitter::processor::Processor;
use splitter::processor::TransferRequest;
use splitter::program::check_id;
use splitter::program::expected_program_id;

fn acct(tag: u8) -> AccountId {
    AccountId::new([tag; 32])
}

fn balance(ledger: &Ledger, id: &AccountId) -> u64 {
    ledger.balance_of(id).expect("account must exist")
}

const SOL: u64 = 1_000_000_000;

#[test]
fn success_splitlamports() {
    let operator = acct(1);
    let system_program = acct(2);
    let destinations = [acct(3), acct(4), acct(5)];
    let amounts: Vec<u64> = vec![SOL + SOL / 10, SOL + 2 * (SOL / 10), SOL + 3 * (SOL / 10)];

    let mut data: Vec<u8> = Vec::new();
    data.extend_from_slice(&SplitterInstruction::get_discriminator("instruction:splitlamports"));
    data.extend_from_slice(&SplitterInstruction::SplitLamports(amounts.clone()).pack()[8..]);

    let accounts = vec![
        operator,
        system_program,
        destinations[0],
        destinations[1],
        destinations[2],
    ];
    let (transfers, event) =
        Processor::process(&expected_program_id(), &accounts, &data).expect("must plan");

    let mut ledger = Ledger::new();
    ledger.add_account(operator, 10 * SOL);
    for d in destinations.iter() {
        ledger.add_account(*d, 0);
    }
    let after = ledger.apply_transfers(&transfers).expect("must apply");

    assert_eq!(
        balance(&after, &destinations[0]),
        SOL + SOL / 10,
        "Mismacth account_1 balance"
    );
    assert_eq!(
        balance(&after, &destinations[1]),
        SOL + 2 * (SOL / 10),
        "Mismacth account_2 balance"
    );
    assert_eq!(
        balance(&after, &destinations[2]),
        SOL + 3 * (SOL / 10),
        "Mismacth account_3 balance"
    );
    assert_eq!(
        balance(&after, &operator),
        10 * SOL - (3 * SOL + 6 * (SOL / 10)),
        "Mismatch operator balance"
    );

    match event {
        Event::LamportsSplitted {
            source_account,
            destination_accounts,
            amounts: event_amounts,
        } => {
            assert_eq!(source_account.bytes, operator.bytes);
            assert_eq!(destination_accounts.len(), 3);
            assert_eq!(destination_accounts[0].bytes, destinations[0].bytes);
            assert_eq!(event_amounts, amounts);
        }
        other => panic!("wrong event: {:?}", other),
    }
}

#[test]
fn fail_splitlamports() {
    // three amounts but only two destination handles: the whole call fails
    // and nothing is planned, so no balance can change
    let amounts: Vec<u64> = vec![SOL, SOL, SOL];
    let accounts = vec![acct(1), acct(2), acct(3), acct(4)];
    let r = Processor::process_split_lamports(&accounts, &amounts);
    assert_eq!(r.unwrap_err(), SplitterError::AccountUnderflow);
}

#[test]
fn success_splitfromsinglemint() {
    let owner = acct(1);
    let token_program = acct(2);
    let source = acct(3);
    let dest_1 = acct(4);
    let dest_2 = acct(5);
    let amounts: Vec<u64> = vec![1000, 2000];

    let accounts = vec![owner, token_program, source, dest_1, dest_2];
    let (transfers, _event) =
        Processor::process_split_spl_tokens_from_single_mint(&accounts, &amounts).expect("plan");

    let mut ledger = Ledger::new();
    ledger.add_account(source, 10000);
    ledger.add_account(dest_1, 0);
    ledger.add_account(dest_2, 0);
    let after = ledger.apply_transfers(&transfers).expect("apply");

    let total = balance(&after, &source) + balance(&after, &dest_1) + balance(&after, &dest_2);
    assert_eq!(total, 10000, "Mint's supply mismatch.");
    assert_eq!(
        balance(&after, &source),
        7000,
        "Source token-account balance mismatch."
    );
    assert_eq!(
        balance(&after, &dest_1),
        1000,
        "Destination token account balance mismatch."
    );
    assert_eq!(
        balance(&after, &dest_2),
        2000,
        "Destination second token account balance mismatch."
    );
}

#[test]
fn success_splitfromsinglemint_2() {
    // one amount, two destination handles supplied: the second is unused
    let owner = acct(1);
    let token_program = acct(2);
    let source = acct(3);
    let dest_1 = acct(4);
    let dest_2 = acct(5);
    let amounts: Vec<u64> = vec![5000];

    let accounts = vec![owner, token_program, source, dest_1, dest_2];
    let (transfers, _event) =
        Processor::process_split_spl_tokens_from_single_mint(&accounts, &amounts).expect("plan");

    let mut ledger = Ledger::new();
    ledger.add_account(source, 10000);
    ledger.add_account(dest_1, 0);
    ledger.add_account(dest_2, 0);
    let after = ledger.apply_transfers(&transfers).expect("apply");

    let total = balance(&after, &source) + balance(&after, &dest_1) + balance(&after, &dest_2);
    assert_eq!(total, 10000, "Mint's supply mismatch.");
    assert_eq!(
        balance(&after, &source),
        5000,
        "Source token-account balance mismatch."
    );
    assert_eq!(
        balance(&after, &dest_1),
        5000,
        "Destination token account balance mismatch."
    );
    assert_eq!(
        balance(&after, &dest_2),
        0,
        "Destination second token account balance mismatch."
    );
}

#[test]
fn single_mint_drains_exact_source() {
    // a source holding exactly the amounts' sum ends at zero
    let accounts = vec![acct(1), acct(2), acct(3), acct(4), acct(5)];
    let amounts: Vec<u64> = vec![1000, 2000];
    let (transfers, _event) =
        Processor::process_split_spl_tokens_from_single_mint(&accounts, &amounts).expect("plan");
    let mut ledger = Ledger::new();
    ledger.add_account(acct(3), 3000);
    ledger.add_account(acct(4), 0);
    ledger.add_account(acct(5), 0);
    let after = ledger.apply_transfers(&transfers).expect("apply");
    assert_eq!(balance(&after, &acct(3)), 0);
    assert_eq!(balance(&after, &acct(4)), 1000);
    assert_eq!(balance(&after, &acct(5)), 2000);
}

#[test]
fn fail_splitfromsinglemint() {
    // the source token account holds nothing: the first sub-transfer fails
    // and every balance stays as it was before the invocation
    let owner = acct(1);
    let token_program = acct(2);
    let source = acct(3);
    let dest_1 = acct(4);
    let dest_2 = acct(5);
    let amounts: Vec<u64> = vec![1000, 2000];

    let accounts = vec![owner, token_program, source, dest_1, dest_2];
    let (transfers, _event) =
        Processor::process_split_spl_tokens_from_single_mint(&accounts, &amounts).expect("plan");

    let mut ledger = Ledger::new();
    ledger.add_account(source, 0);
    ledger.add_account(dest_1, 0);
    ledger.add_account(dest_2, 0);
    let r = ledger.apply_transfers(&transfers);
    assert_eq!(r.unwrap_err(), LedgerError::InsufficientFunds);

    assert_eq!(balance(&ledger, &source), 0, "Source token-account balance mismatch.");
    assert_eq!(balance(&ledger, &dest_1), 0, "Destination token account balance mismatch.");
    assert_eq!(
        balance(&ledger, &dest_2),
        0,
        "Destination second token account balance mismatch."
    );
}

#[test]
fn success_splitefrommultiplemintaccounts() {
    let owner = acct(1);
    let token_program = acct(2);
    let source_mint_1 = acct(3);
    let source_mint_2 = acct(4);
    let dest_mint_1 = acct(5);
    let dest_mint_2 = acct(6);
    let amounts: Vec<u64> = vec![100_000, 5_000];
    let m: u16 = 2;

    let accounts = vec![
        owner,
        token_program,
        source_mint_1,
        source_mint_2,
        dest_mint_1,
        dest_mint_2,
    ];
    let (transfers, _event) =
        Processor::process_split_spl_tokens_from_multiple_mints(&accounts, &amounts, &m)
            .expect("plan");

    let mut ledger = Ledger::new();
    ledger.add_account(source_mint_1, 1_000_000);
    ledger.add_account(source_mint_2, 50_000);
    ledger.add_account(dest_mint_1, 0);
    ledger.add_account(dest_mint_2, 0);
    let after = ledger.apply_transfers(&transfers).expect("apply");

    assert_eq!(
        balance(&after, &source_mint_1),
        900_000,
        "Source token account mint-1 token balance mismatch."
    );
    assert_eq!(
        balance(&after, &source_mint_2),
        45_000,
        "Source token account mint-2 token balance mismatch."
    );
    assert_eq!(
        balance(&after, &dest_mint_1),
        100_000,
        "Destination token account mint-1 token balance mismatch."
    );
    assert_eq!(
        balance(&after, &dest_mint_2),
        5_000,
        "Destination token account mint-2 token balance mismatch."
    );
}

#[test]
fn fail_splitefrommultiplemintaccounts() {
    // m = 1 declared against a six-account list: the arity check reports
    // the declared count, the expected length, and the actual length
    let amounts: Vec<u64> = vec![100_000, 5_000];
    let m: u16 = 1;
    let accounts = vec![acct(1), acct(2), acct(3), acct(4), acct(5), acct(6)];
    let r = Processor::process_split_spl_tokens_from_multiple_mints(&accounts, &amounts, &m);
    assert_eq!(r.unwrap_err(), SplitterError::InvalidMParameter(1, 4, 6));
}

#[test]
fn fail_splitefrommultiplemintaccounts_2() {
    // three amounts against m = 2 pairs: rejected before any transfer is
    // planned, so nothing can be mutated
    let amounts: Vec<u64> = vec![100_000, 5_000, 10_000];
    let m: u16 = 2;
    let accounts = vec![acct(1), acct(2), acct(3), acct(4), acct(5), acct(6)];
    let r = Processor::process_split_spl_tokens_from_multiple_mints(&accounts, &amounts, &m);
    assert_eq!(r.unwrap_err(), SplitterError::AmountCountExceedsM);
}

#[test]
fn process_decodes_then_plans() {
    // an end-to-end invocation through the raw buffer
    let buffer = SplitterInstruction::SplitSplTokensFromMultipleMints(vec![7, 8], 2).pack();
    let accounts = vec![acct(1), acct(2), acct(3), acct(4), acct(5), acct(6)];
    let (transfers, _event) =
        Processor::process(&expected_program_id(), &accounts, &buffer).expect("plan");
    assert_eq!(transfers.len(), 2);
    match &transfers[1] {
        TransferRequest::Token {
            token_program,
            source,
            destination,
            authority,
            amount,
        } => {
            assert_eq!(token_program.bytes, acct(2).bytes);
            assert_eq!(source.bytes, acct(4).bytes);
            assert_eq!(destination.bytes, acct(6).bytes);
            assert_eq!(authority.bytes, acct(1).bytes);
            assert_eq!(*amount, 8);
        }
        other => panic!("wrong transfer: {:?}", other),
    }

    // a decode fault aborts the invocation before any planning
    let r = Processor::process(&expected_program_id(), &accounts, &[1, 2, 3]);
    assert_eq!(r.unwrap_err(), SplitterError::MalformedInstruction);
}

#[test]
fn resubmission_compounds() {
    // running the identical instruction buffer twice disburses twice
    let operator = acct(1);
    let destination = acct(3);
    let buffer = SplitterInstruction::SplitLamports(vec![250]).pack();
    let accounts = vec![operator, acct(2), destination];

    let mut ledger = Ledger::new();
    ledger.add_account(operator, 1000);
    ledger.add_account(destination, 0);

    let (transfers, _event) =
        Processor::process(&expected_program_id(), &accounts, &buffer).expect("plan");
    let once = ledger.apply_transfers(&transfers).expect("first application");
    let (transfers, _event) =
        Processor::process(&expected_program_id(), &accounts, &buffer).expect("plan");
    let twice = once.apply_transfers(&transfers).expect("second application");

    assert_eq!(balance(&once, &operator), 750);
    assert_eq!(balance(&once, &destination), 250);
    assert_eq!(balance(&twice, &operator), 500);
    assert_eq!(balance(&twice, &destination), 500);
}

#[test]
fn transfer_to_self_keeps_the_balance() {
    // the engine does not forbid a destination equal to the source: the
    // debit and the credit cancel out
    let source = acct(1);
    let accounts = vec![source, acct(2), source];
    let (transfers, _event) = Processor::process_split_lamports(&accounts, &vec![40]).expect("plan");
    let mut ledger = Ledger::new();
    ledger.add_account(source, 100);
    let after = ledger.apply_transfers(&transfers).expect("apply");
    assert_eq!(balance(&after, &source), 100);
}

#[test]
fn ledger_refuses_unknown_account_and_overflow() {
    let known = acct(1);
    let unknown = acct(9);
    let mut ledger = Ledger::new();
    ledger.add_account(known, 50);

    let to_unknown = vec![TransferRequest::Native {
        source: known,
        destination: unknown,
        amount: 1,
    }];
    assert_eq!(
        ledger.apply_transfers(&to_unknown).unwrap_err(),
        LedgerError::UnknownAccount
    );

    let rich = acct(2);
    let mut ledger = Ledger::new();
    ledger.add_account(known, 50);
    ledger.add_account(rich, u64::MAX - 10);
    let overflowing = vec![TransferRequest::Native {
        source: known,
        destination: rich,
        amount: 20,
    }];
    assert_eq!(
        ledger.apply_transfers(&overflowing).unwrap_err(),
        LedgerError::BalanceOverflow
    );
    // the refused plan left both balances untouched
    assert_eq!(balance(&ledger, &known), 50);
    assert_eq!(balance(&ledger, &rich), u64::MAX - 10);
}

#[test]
fn empty_amounts_plan_nothing() {
    // the degenerate no-op: an empty amount list plans zero transfers
    let accounts = vec![acct(1), acct(2)];
    let (transfers, _event) =
        Processor::process_split_lamports(&accounts, &Vec::new()).expect("plan");
    assert_eq!(transfers.len(), 0);
}

#[test]
fn check_id_accepts_only_the_deployed_identity() {
    assert!(check_id(&expected_program_id()));
    assert!(!check_id(&acct(7)));
}
