use anchor_counter::address::{system_program_id, Address};
use anchor_counter::counter::Counter;
use anchor_counter::error::CounterError;
use anchor_counter::instruction::{INCREMENT_TAG, INITIALIZE_TAG};
use anchor_counter::processor::{AccountInfo, Program};
use anchor_counter::{increment, initialize, process_instruction};

fn address(byte: u8) -> Address {
    Address { bytes: [byte; 32] }
}

fn program() -> Program {
    Program {
        id: address(10),
        counter_address: address(11),
    }
}

fn counter_handle(data: Vec<u8>) -> AccountInfo {
    AccountInfo {
        key: address(11),
        is_signer: false,
        is_writable: true,
        owner: address(10),
        data,
    }
}

fn signer_handle() -> AccountInfo {
    AccountInfo {
        key: address(12),
        is_signer: true,
        is_writable: true,
        owner: system_program_id(),
        data: Vec::new(),
    }
}

fn allocator_handle() -> AccountInfo {
    AccountInfo {
        key: system_program_id(),
        is_signer: false,
        is_writable: false,
        owner: address(13),
        data: Vec::new(),
    }
}

#[test]
fn initialize_writes_count_zero() {
    let mut counter = counter_handle(vec![0u8; 16]);
    assert_eq!(initialize(&program(), &mut counter), Ok(()));
    assert_eq!(counter.data, Counter { count: 0 }.to_bytes());
    assert_eq!(counter, counter_handle(Counter { count: 0 }.to_bytes()));
}

#[test]
fn initialize_keeps_length_of_longer_storage() {
    let mut counter = counter_handle(vec![0u8; 24]);
    assert_eq!(initialize(&program(), &mut counter), Ok(()));
    assert_eq!(counter.data.len(), 24);
    assert_eq!(&counter.data[..16], &Counter { count: 0 }.to_bytes()[..]);
    assert_eq!(&counter.data[16..], &[0u8; 8]);
}

#[test]
fn initialize_rejects_a_wrong_address() {
    let mut counter = counter_handle(vec![0u8; 16]);
    counter.key = address(99);
    let before = counter.clone();
    assert_eq!(
        initialize(&program(), &mut counter),
        Err(CounterError::AddressMismatch)
    );
    assert_eq!(counter, before);
}

#[test]
fn initialize_rejects_a_read_only_account() {
    let mut counter = counter_handle(vec![0u8; 16]);
    counter.is_writable = false;
    assert_eq!(
        initialize(&program(), &mut counter),
        Err(CounterError::NotWritable)
    );
    assert_eq!(counter.data, vec![0u8; 16]);
}

#[test]
fn initialize_rejects_a_foreign_owner() {
    let mut counter = counter_handle(vec![0u8; 16]);
    counter.owner = system_program_id();
    assert_eq!(
        initialize(&program(), &mut counter),
        Err(CounterError::OwnerMismatch)
    );
    assert_eq!(counter.data, vec![0u8; 16]);
}

#[test]
fn initialize_rejects_an_existing_record() {
    let mut counter = counter_handle(Counter { count: 5 }.to_bytes());
    assert_eq!(
        initialize(&program(), &mut counter),
        Err(CounterError::AlreadyInitialized)
    );
    assert_eq!(counter.data, Counter { count: 5 }.to_bytes());
}

#[test]
fn initialize_rejects_garbage_and_short_storage() {
    let mut garbage = counter_handle(vec![3u8; 16]);
    assert_eq!(
        initialize(&program(), &mut garbage),
        Err(CounterError::DeserializationError)
    );
    assert_eq!(garbage.data, vec![3u8; 16]);

    let mut short = counter_handle(vec![0u8; 15]);
    assert_eq!(
        initialize(&program(), &mut short),
        Err(CounterError::AccountTooSmall)
    );
    assert_eq!(short.data, vec![0u8; 15]);

    let mut none = counter_handle(Vec::new());
    assert_eq!(
        initialize(&program(), &mut none),
        Err(CounterError::AccountTooSmall)
    );
}

#[test]
fn increment_adds_exactly_one() {
    let mut counter = counter_handle(Counter { count: 41 }.to_bytes());
    assert_eq!(increment(&program(), &mut counter), Ok(()));
    assert_eq!(counter.data, Counter { count: 42 }.to_bytes());
    let mut carry = counter_handle(Counter { count: 255 }.to_bytes());
    assert_eq!(increment(&program(), &mut carry), Ok(()));
    assert_eq!(
        Counter::try_deserialize(&carry.data),
        Ok(Counter { count: 256 })
    );
    assert_eq!(&carry.data[8..], &[0, 1, 0, 0, 0, 0, 0, 0]);
}

#[test]
fn increment_keeps_what_follows_the_record() {
    let mut data = Counter { count: 1 }.to_bytes();
    data.extend_from_slice(&[7, 7]);
    let mut counter = counter_handle(data);
    assert_eq!(increment(&program(), &mut counter), Ok(()));
    assert_eq!(counter.data.len(), 18);
    assert_eq!(&counter.data[16..], &[7, 7]);
    assert_eq!(
        Counter::try_deserialize(&counter.data),
        Ok(Counter { count: 2 })
    );
}

#[test]
fn increment_does_not_wrap() {
    let mut counter = counter_handle(Counter { count: u64::MAX }.to_bytes());
    assert_eq!(
        increment(&program(), &mut counter),
        Err(CounterError::Overflow)
    );
    assert_eq!(counter.data, Counter { count: u64::MAX }.to_bytes());

    let mut last = counter_handle(Counter { count: u64::MAX - 1 }.to_bytes());
    assert_eq!(increment(&program(), &mut last), Ok(()));
    assert_eq!(last.data, Counter { count: u64::MAX }.to_bytes());
}

#[test]
fn increment_rejects_what_is_not_a_counter() {
    let mut zeroed = counter_handle(vec![0u8; 16]);
    assert_eq!(
        increment(&program(), &mut zeroed),
        Err(CounterError::NotInitialized)
    );
    assert_eq!(zeroed.data, vec![0u8; 16]);

    let mut absent = counter_handle(Vec::new());
    absent.owner = system_program_id();
    assert_eq!(
        increment(&program(), &mut absent),
        Err(CounterError::NotInitialized)
    );

    let mut garbage = counter_handle(vec![1u8; 16]);
    assert_eq!(
        increment(&program(), &mut garbage),
        Err(CounterError::DeserializationError)
    );
    assert_eq!(garbage.data, vec![1u8; 16]);
}

#[test]
fn increment_rejects_wrong_address_owner_and_flag() {
    let record = Counter { count: 1 }.to_bytes();

    let mut elsewhere = counter_handle(record.clone());
    elsewhere.key = address(98);
    assert_eq!(
        increment(&program(), &mut elsewhere),
        Err(CounterError::AddressMismatch)
    );
    assert_eq!(elsewhere.data, record);

    let mut foreign = counter_handle(record.clone());
    foreign.owner = address(97);
    assert_eq!(
        increment(&program(), &mut foreign),
        Err(CounterError::OwnerMismatch)
    );
    assert_eq!(foreign.data, record);

    let mut foreign_garbage = counter_handle(vec![1u8; 16]);
    foreign_garbage.owner = address(97);
    assert_eq!(
        increment(&program(), &mut foreign_garbage),
        Err(CounterError::OwnerMismatch)
    );

    let mut read_only = counter_handle(record.clone());
    read_only.is_writable = false;
    assert_eq!(
        increment(&program(), &mut read_only),
        Err(CounterError::NotWritable)
    );
    assert_eq!(read_only.data, record);
}

#[test]
fn entry_point_runs_initialize_then_increment() {
    let mut accounts = vec![
        counter_handle(vec![0u8; 16]),
        signer_handle(),
        allocator_handle(),
    ];
    assert_eq!(
        process_instruction(&program(), &mut accounts, &INITIALIZE_TAG),
        Ok(())
    );
    assert_eq!(accounts[0].data, Counter { count: 0 }.to_bytes());
    assert_eq!(accounts[1], signer_handle());
    assert_eq!(accounts[2], allocator_handle());

    let mut read_only_signer = signer_handle();
    read_only_signer.is_writable = false;
    let mut accounts = vec![accounts.swap_remove(0), read_only_signer.clone()];
    assert_eq!(
        process_instruction(&program(), &mut accounts, &INCREMENT_TAG),
        Ok(())
    );
    assert_eq!(accounts[0].data, Counter { count: 1 }.to_bytes());
    assert_eq!(accounts[1], read_only_signer);
}

#[test]
fn entry_point_rejects_malformed_requests() {
    let fresh = || {
        vec![
            counter_handle(vec![0u8; 16]),
            signer_handle(),
            allocator_handle(),
        ]
    };

    let mut accounts = fresh();
    assert_eq!(
        process_instruction(&program(), &mut accounts, &[1, 2, 3]),
        Err(CounterError::InvalidInstruction)
    );
    assert_eq!(accounts, fresh());

    let mut two = fresh();
    two.pop();
    assert_eq!(
        process_instruction(&program(), &mut two, &INITIALIZE_TAG),
        Err(CounterError::InvalidInstruction)
    );
    let mut three = fresh();
    assert_eq!(
        process_instruction(&program(), &mut three, &INCREMENT_TAG),
        Err(CounterError::InvalidInstruction)
    );
    let mut none: Vec<AccountInfo> = Vec::new();
    assert_eq!(
        process_instruction(&program(), &mut none, &INCREMENT_TAG),
        Err(CounterError::InvalidInstruction)
    );

    let mut unsigned = fresh();
    unsigned[1].is_signer = false;
    assert_eq!(
        process_instruction(&program(), &mut unsigned, &INITIALIZE_TAG),
        Err(CounterError::MissingSignature)
    );
    assert_eq!(unsigned[0].data, vec![0u8; 16]);

    let mut frozen_payer = fresh();
    frozen_payer[1].is_writable = false;
    assert_eq!(
        process_instruction(&program(), &mut frozen_payer, &INITIALIZE_TAG),
        Err(CounterError::NotWritable)
    );

    let mut wrong_allocator = fresh();
    wrong_allocator[2].key = address(50);
    assert_eq!(
        process_instruction(&program(), &mut wrong_allocator, &INITIALIZE_TAG),
        Err(CounterError::AddressMismatch)
    );
    assert_eq!(wrong_allocator[0].data, vec![0u8; 16]);

    let mut unsigned_increment = vec![
        counter_handle(Counter { count: 1 }.to_bytes()),
        signer_handle(),
    ];
    unsigned_increment[1].is_signer = false;
    assert_eq!(
        process_instruction(&program(), &mut unsigned_increment, &INCREMENT_TAG),
        Err(CounterError::MissingSignature)
    );
    assert_eq!(
        unsigned_increment[0].data,
        Counter { count: 1 }.to_bytes()
    );
}
