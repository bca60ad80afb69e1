use anchor_counter::address::{system_program_id, Address};
use anchor_counter::counter::Counter;
use anchor_counter::error::CounterError;
use anchor_counter::instruction::{AccountMeta, Increment, Initialize, Instruction};
use anchor_counter::ledger::{Account, Ledger};
use anchor_counter::processor::Program;

fn address(byte: u8) -> Address {
    Address { bytes: [byte; 32] }
}

fn program() -> Program {
    Program {
        id: address(10),
        counter_address: address(11),
    }
}

fn user() -> Address {
    address(12)
}

fn initialize_ix() -> Instruction {
    Initialize {
        counter_account: address(11),
        payer: user(),
        allocator: system_program_id(),
    }
    .instruction(address(10))
}

fn increment_ix() -> Instruction {
    Increment {
        counter_account: address(11),
        authority: user(),
    }
    .instruction(address(10))
}

fn counter_account(count: u64) -> Account {
    Account {
        owner: address(10),
        lamports: 0,
        data: Counter { count }.to_bytes(),
    }
}

#[test]
fn fresh_ledger_is_empty() {
    let ledger = Ledger::new(program());
    assert_eq!(ledger.program(), program());
    assert_eq!(ledger.slot(), 0);
    assert!(!ledger.has_account(&address(11)));
    assert_eq!(ledger.get_account(&address(11)), None);
}

#[test]
fn add_account_never_replaces() {
    let mut ledger = Ledger::new(program());
    let first = Account {
        owner: system_program_id(),
        lamports: 5,
        data: Vec::new(),
    };
    let second = Account {
        owner: address(1),
        lamports: 6,
        data: vec![1],
    };
    assert!(ledger.add_account(user(), first.clone()));
    assert!(!ledger.add_account(user(), second.clone()));
    assert_eq!(ledger.get_account(&user()), Some(first));
    assert!(ledger.add_account(address(13), second.clone()));
    assert_eq!(ledger.get_account(&address(13)), Some(second));
    assert!(ledger.has_account(&user()));
}

#[test]
fn slot_moves_only_when_asked() {
    let mut ledger = Ledger::new(program());
    ledger.submit(&initialize_ix(), &[user()]).unwrap();
    assert_eq!(ledger.slot(), 0);
    ledger.advance_slot();
    ledger.advance_slot();
    assert_eq!(ledger.slot(), 2);
    assert_eq!(ledger.get_account(&address(11)), Some(counter_account(0)));
}

#[test]
fn initialize_allocates_the_counter_account() {
    let mut ledger = Ledger::new(program());
    assert_eq!(ledger.submit(&initialize_ix(), &[user()]), Ok(()));
    assert_eq!(ledger.get_account(&address(11)), Some(counter_account(0)));
    assert!(!ledger.has_account(&user()));
    assert!(!ledger.has_account(&system_program_id()));
}

#[test]
fn increment_stores_the_new_count_and_keeps_the_balance() {
    let mut ledger = Ledger::new(program());
    let mut funded = counter_account(9);
    funded.lamports = 1234;
    assert!(ledger.add_account(address(11), funded));
    assert_eq!(ledger.submit(&increment_ix(), &[user()]), Ok(()));
    let mut expected = counter_account(10);
    expected.lamports = 1234;
    assert_eq!(ledger.get_account(&address(11)), Some(expected));
}

#[test]
fn initialize_on_an_existing_account_is_rejected() {
    let mut ledger = Ledger::new(program());
    assert!(ledger.add_account(address(11), counter_account(4)));
    assert_eq!(
        ledger.submit(&initialize_ix(), &[user()]),
        Err(CounterError::AlreadyInitialized)
    );
    assert_eq!(ledger.get_account(&address(11)), Some(counter_account(4)));
}

#[test]
fn initialize_elsewhere_allocates_nothing() {
    let mut ledger = Ledger::new(program());
    let elsewhere = Initialize {
        counter_account: address(77),
        payer: user(),
        allocator: system_program_id(),
    }
    .instruction(address(10));
    assert_eq!(
        ledger.submit(&elsewhere, &[user()]),
        Err(CounterError::AddressMismatch)
    );
    assert!(!ledger.has_account(&address(77)));
    assert!(!ledger.has_account(&address(11)));
}

#[test]
fn requests_must_be_signed() {
    let mut ledger = Ledger::new(program());
    assert_eq!(
        ledger.submit(&initialize_ix(), &[]),
        Err(CounterError::MissingSignature)
    );
    assert_eq!(
        ledger.submit(&initialize_ix(), &[address(13)]),
        Err(CounterError::MissingSignature)
    );
    assert!(!ledger.has_account(&address(11)));
    assert_eq!(
        ledger.submit(&initialize_ix(), &[address(13), user()]),
        Ok(())
    );
    assert_eq!(
        ledger.submit(&increment_ix(), &[]),
        Err(CounterError::MissingSignature)
    );
    assert_eq!(ledger.get_account(&address(11)), Some(counter_account(0)));
}

#[test]
fn a_request_without_a_signer_flag_is_rejected_by_the_program() {
    let mut ledger = Ledger::new(program());
    ledger.submit(&initialize_ix(), &[user()]).unwrap();
    let mut unsigned = increment_ix();
    unsigned.accounts[1] = AccountMeta::new_readonly(user(), false);
    assert_eq!(
        ledger.submit(&unsigned, &[user()]),
        Err(CounterError::MissingSignature)
    );
    let mut read_only = increment_ix();
    read_only.accounts[0] = AccountMeta::new_readonly(address(11), false);
    assert_eq!(
        ledger.submit(&read_only, &[user()]),
        Err(CounterError::NotWritable)
    );
    assert_eq!(ledger.get_account(&address(11)), Some(counter_account(0)));
}

#[test]
fn requests_for_another_program_are_rejected() {
    let mut ledger = Ledger::new(program());
    let mut foreign = initialize_ix();
    foreign.program_id = address(66);
    assert_eq!(
        ledger.submit(&foreign, &[user()]),
        Err(CounterError::InvalidInstruction)
    );
    let mut unknown = initialize_ix();
    unknown.data = vec![0; 8];
    assert_eq!(
        ledger.submit(&unknown, &[user()]),
        Err(CounterError::InvalidInstruction)
    );
    let mut short = increment_ix();
    short.accounts.pop();
    assert_eq!(
        ledger.submit(&short, &[user()]),
        Err(CounterError::InvalidInstruction)
    );
    let mut bare = initialize_ix();
    bare.accounts.clear();
    assert_eq!(
        ledger.submit(&bare, &[user()]),
        Err(CounterError::InvalidInstruction)
    );
    assert!(!ledger.has_account(&address(11)));
}

#[test]
fn increment_on_a_foreign_or_broken_account_is_rejected() {
    let mut ledger = Ledger::new(program());
    let mut foreign = counter_account(1);
    foreign.owner = address(5);
    assert!(ledger.add_account(address(11), foreign.clone()));
    assert_eq!(
        ledger.submit(&increment_ix(), &[user()]),
        Err(CounterError::OwnerMismatch)
    );
    assert_eq!(ledger.get_account(&address(11)), Some(foreign));

    let mut ledger = Ledger::new(program());
    let broken = Account {
        owner: address(10),
        lamports: 0,
        data: vec![1, 2, 3],
    };
    assert!(ledger.add_account(address(11), broken.clone()));
    assert_eq!(
        ledger.submit(&increment_ix(), &[user()]),
        Err(CounterError::DeserializationError)
    );
    assert_eq!(ledger.get_account(&address(11)), Some(broken));

    let mut ledger = Ledger::new(program());
    assert!(ledger.add_account(address(11), counter_account(u64::MAX)));
    assert_eq!(
        ledger.submit(&increment_ix(), &[user()]),
        Err(CounterError::Overflow)
    );
    assert_eq!(
        ledger.get_account(&address(11)),
        Some(counter_account(u64::MAX))
    );

    let mut ledger = Ledger::new(program());
    assert_eq!(
        ledger.submit(&increment_ix(), &[user()]),
        Err(CounterError::NotInitialized)
    );
}

#[test]
fn other_accounts_are_untouched_by_requests() {
    let mut ledger = Ledger::new(program());
    let funded = Account {
        owner: system_program_id(),
        lamports: 1_000_000_000,
        data: Vec::new(),
    };
    assert!(ledger.add_account(user(), funded.clone()));
    ledger.submit(&initialize_ix(), &[user()]).unwrap();
    ledger.submit(&increment_ix(), &[user()]).unwrap();
    assert_eq!(ledger.get_account(&user()), Some(funded));
    assert_eq!(ledger.get_account(&address(11)), Some(counter_account(1)));
}

#[test]
fn a_rejected_bundle_is_rolled_back() {
    let mut ledger = Ledger::new(program());
    let funded = Account {
        owner: system_program_id(),
        lamports: 3,
        data: Vec::new(),
    };
    assert!(ledger.add_account(user(), funded.clone()));
    assert_eq!(
        ledger.process_transaction(&[initialize_ix(), increment_ix()], &[user()]),
        Ok(())
    );
    assert_eq!(ledger.get_account(&address(11)), Some(counter_account(1)));

    assert_eq!(
        ledger.process_transaction(
            &[increment_ix(), increment_ix(), initialize_ix()],
            &[user()]
        ),
        Err(CounterError::AlreadyInitialized)
    );
    assert_eq!(ledger.get_account(&address(11)), Some(counter_account(1)));
    assert_eq!(ledger.get_account(&user()), Some(funded));
    assert_eq!(ledger.slot(), 0);

    assert_eq!(
        ledger.process_transaction(&[increment_ix(), increment_ix()], &[]),
        Err(CounterError::MissingSignature)
    );
    assert_eq!(ledger.get_account(&address(11)), Some(counter_account(1)));
}
