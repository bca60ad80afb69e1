//! The state machine: the two transitions on the counter account, and the
//! entry point that picks one from a request's payload.
//!
//! Every check is made before the first byte is written, so a rejected
//! request leaves every account as it was.

use vstd::prelude::*;
use crate::address::{address_for, counter_address, counter_seed, system_program, system_program_id, Address};
use crate::counter::{account_state, lemma_write_then_read, state_of, with_record, AccountState, Counter, RECORD_LEN};
use crate::error::CounterError;
use crate::instruction::{kind_of, OperationKind};

verus! {

/// The identity under which the program is deployed.
pub open spec fn program_id() -> Address {
    Address {
        bytes: [
            153u8, 218u8, 174u8, 95u8, 21u8, 84u8, 134u8, 42u8, 31u8, 79u8, 129u8, 204u8, 54u8,
            144u8, 187u8, 163u8, 241u8, 212u8, 44u8, 144u8, 218u8, 95u8, 100u8, 174u8, 111u8,
            49u8, 246u8, 92u8, 243u8, 81u8, 234u8, 76u8,
        ],
    }
}

/// The identity under which the program is deployed.
pub fn id() -> (id: Address)
    ensures
        id == program_id(),
{
    Address {
        bytes: [
            153, 218, 174, 95, 21, 84, 134, 42, 31, 79, 129, 204, 54, 144, 187, 163, 241, 212,
            44, 144, 218, 95, 100, 174, 111, 49, 246, 92, 243, 81, 234, 76,
        ],
    }
}

/// The program and the one address at which it keeps its counter.
#[derive(Clone, Copy, Debug, PartialEq, Eq)]
pub struct Program {
    /// The program's identity.
    pub id: Address,
    /// The only address at which the program accepts a counter account.
    pub counter_address: Address,
}

impl Program {
    /// The counter address is the one derived for the program's identity.
    pub open spec fn is_canonical(self) -> bool {
        address_for(counter_seed(), self.id@) == Some(self.counter_address@)
    }

    /// The program `id` with its derived counter address; `None` where no
    /// address can be derived for `id`.
    pub fn new(id: Address) -> (program: Option<Program>)
        ensures
            match program {
                Some(p) => p.id == id && p.is_canonical(),
                None => address_for(counter_seed(), id@) is None,
            },
    {
        match counter_address(&id) {
            Some(address) => Some(Program { id, counter_address: address }),
            None => None,
        }
    }
}

/// A handle on an account, as the state machine sees it during one request.
#[derive(Clone, Debug, PartialEq, Eq)]
pub struct AccountInfo {
    /// The account's address.
    pub key: Address,
    /// Whether the account's identity signed the request.
    pub is_signer: bool,
    /// Whether the request may write the account.
    pub is_writable: bool,
    /// The program that owns the account.
    pub owner: Address,
    /// The account's storage.
    pub data: Vec<u8>,
}

/// An account handle as plain values.
pub struct AccountInfoView {
    pub key: Address,
    pub is_signer: bool,
    pub is_writable: bool,
    pub owner: Address,
    pub data: Seq<u8>,
}

impl View for AccountInfo {
    type V = AccountInfoView;

    open spec fn view(&self) -> AccountInfoView {
        AccountInfoView {
            key: self.key,
            is_signer: self.is_signer,
            is_writable: self.is_writable,
            owner: self.owner,
            data: self.data@,
        }
    }
}

/// The handles of a request as plain values.
pub open spec fn handle_views(accounts: Seq<AccountInfo>) -> Seq<AccountInfoView> {
    Seq::new(accounts.len(), |i: int| accounts[i]@)
}

/// `account` with the record of `count` written over the front of its
/// storage.
pub open spec fn holding(account: AccountInfoView, count: u64) -> AccountInfoView {
    AccountInfoView { data: with_record(account.data, count), ..account }
}

/// What `initialize` makes of a counter account: the account with a record
/// of count zero, or the reason for which it is left alone.
pub open spec fn initialize_result(program: Program, account: AccountInfoView) -> Result<
    AccountInfoView,
    CounterError,
> {
    if account.key != program.counter_address {
        Err(CounterError::AddressMismatch)
    } else if !account.is_writable {
        Err(CounterError::NotWritable)
    } else if account.owner != program.id {
        Err(CounterError::OwnerMismatch)
    } else {
        match state_of(account.data) {
            AccountState::Initialized { .. } => Err(CounterError::AlreadyInitialized),
            AccountState::Corrupt => Err(CounterError::DeserializationError),
            AccountState::Uninitialized => if account.data.len() < RECORD_LEN {
                Err(CounterError::AccountTooSmall)
            } else {
                Ok(holding(account, 0))
            },
        }
    }
}

/// What `increment` makes of a counter account: the account with its count
/// raised by one, or the reason for which it is left alone.
pub open spec fn increment_result(program: Program, account: AccountInfoView) -> Result<
    AccountInfoView,
    CounterError,
> {
    if account.key != program.counter_address {
        Err(CounterError::AddressMismatch)
    } else if !account.is_writable {
        Err(CounterError::NotWritable)
    } else {
        match state_of(account.data) {
            AccountState::Uninitialized => Err(CounterError::NotInitialized),
            AccountState::Corrupt => if account.owner != program.id {
                Err(CounterError::OwnerMismatch)
            } else {
                Err(CounterError::DeserializationError)
            },
            AccountState::Initialized { count } => if account.owner != program.id {
                Err(CounterError::OwnerMismatch)
            } else if count == u64::MAX {
                Err(CounterError::Overflow)
            } else {
                Ok(holding(account, (count + 1) as u64))
            },
        }
    }
}

/// Creates the counter: writes the record of count zero into `counter`.
///
/// The checks, in order: the account sits at the program's counter address;
/// it is writable; it is owned by the program; its storage is zeroed, not a
/// record and not anything else; and the storage is long enough for a
/// record. The first check that fails is reported and nothing is written.
/// On success only the first sixteen bytes of the storage change.
pub fn initialize(program: &Program, counter: &mut AccountInfo) -> (done: Result<
    (),
    CounterError,
>)
    ensures
        match initialize_result(*program, old(counter)@) {
            Ok(after) => done is Ok && final(counter)@ == after,
            Err(reason) => done == Err::<(), CounterError>(reason) && final(counter)@ == old(
                counter,
            )@,
        },
        done is Ok ==> state_of(final(counter).data@) == (AccountState::Initialized { count: 0 }),
{
    if counter.key != program.counter_address {
        return Err(CounterError::AddressMismatch);
    }
    if !counter.is_writable {
        return Err(CounterError::NotWritable);
    }
    if counter.owner != program.id {
        return Err(CounterError::OwnerMismatch);
    }
    match account_state(counter.data.as_slice()) {
        AccountState::Initialized { .. } => Err(CounterError::AlreadyInitialized),
        AccountState::Corrupt => Err(CounterError::DeserializationError),
        AccountState::Uninitialized => {
            let record = Counter { count: 0 };
            let written = record.try_serialize(&mut counter.data);
            proof {
                if old(counter).data@.len() >= RECORD_LEN {
                    lemma_write_then_read(old(counter).data@, 0);
                }
            }
            written
        },
    }
}

/// Advances the counter: raises the count in `counter` by one.
///
/// The checks, in order: the account sits at the program's counter address;
/// it is writable; its storage is not empty or zeroed; it is owned by the
/// program; its storage begins with a record; and the count is not the
/// largest representable value. The first check that fails is reported and
/// nothing is written. On success only the count field changes.
pub fn increment(program: &Program, counter: &mut AccountInfo) -> (done: Result<
    (),
    CounterError,
>)
    ensures
        match increment_result(*program, old(counter)@) {
            Ok(after) => done is Ok && final(counter)@ == after,
            Err(reason) => done == Err::<(), CounterError>(reason) && final(counter)@ == old(
                counter,
            )@,
        },
        done is Ok ==> (state_of(old(counter).data@) matches AccountState::Initialized { count }
            && count < u64::MAX && state_of(final(counter).data@) == (AccountState::Initialized {
            count: (count + 1) as u64,
        })),
{
    if counter.key != program.counter_address {
        return Err(CounterError::AddressMismatch);
    }
    if !counter.is_writable {
        return Err(CounterError::NotWritable);
    }
    match account_state(counter.data.as_slice()) {
        AccountState::Uninitialized => Err(CounterError::NotInitialized),
        AccountState::Corrupt => {
            if counter.owner != program.id {
                Err(CounterError::OwnerMismatch)
            } else {
                Err(CounterError::DeserializationError)
            }
        },
        AccountState::Initialized { count } => {
            if counter.owner != program.id {
                return Err(CounterError::OwnerMismatch);
            }
            match count.checked_add(1) {
                None => Err(CounterError::Overflow),
                Some(next) => {
                    let record = Counter { count: next };
                    let written = record.try_serialize(&mut counter.data);
                    proof {
                        lemma_write_then_read(old(counter).data@, next);
                    }
                    written
                },
            }
        },
    }
}

/// What the entry point makes of a request: the handles after the
/// transition that the payload asks for, or the reason for which every
/// handle is left alone.
///
/// An initialize request brings three handles: the counter account, the
/// payer, which must have signed and be writable, and the system allocator.
/// An increment request brings two: the counter account and the authority,
/// which must have signed. Only the first handle is ever written.
pub open spec fn process_result(
    program: Program,
    accounts: Seq<AccountInfoView>,
    data: Seq<u8>,
) -> Result<Seq<AccountInfoView>, CounterError> {
    match kind_of(data) {
        Err(reason) => Err(reason),
        Ok(OperationKind::Initialize) => if accounts.len() != 3 {
            Err(CounterError::InvalidInstruction)
        } else if !accounts[1].is_signer {
            Err(CounterError::MissingSignature)
        } else if !accounts[1].is_writable {
            Err(CounterError::NotWritable)
        } else if accounts[2].key != system_program() {
            Err(CounterError::AddressMismatch)
        } else {
            match initialize_result(program, accounts[0]) {
                Ok(after) => Ok(accounts.update(0, after)),
                Err(reason) => Err(reason),
            }
        },
        Ok(OperationKind::Increment) => if accounts.len() != 2 {
            Err(CounterError::InvalidInstruction)
        } else if !accounts[1].is_signer {
            Err(CounterError::MissingSignature)
        } else {
            match increment_result(program, accounts[0]) {
                Ok(after) => Ok(accounts.update(0, after)),
                Err(reason) => Err(reason),
            }
        },
    }
}

/// The entry point of the state machine: reads the operation from `data`,
/// checks the handles that came with it, and runs the transition on the
/// first of them.
pub fn process_instruction(program: &Program, accounts: &mut Vec<AccountInfo>, data: &[u8]) -> (done:
    Result<(), CounterError>)
    ensures
        match process_result(*program, handle_views(old(accounts)@), data@) {
            Ok(after) => done is Ok && handle_views(final(accounts)@) == after,
            Err(reason) => done == Err::<(), CounterError>(reason) && handle_views(
                final(accounts)@,
            ) == handle_views(old(accounts)@),
        },
{
    let kind = match OperationKind::decode(data) {
        Ok(kind) => kind,
        Err(reason) => {
            return Err(reason);
        },
    };
    match kind {
        OperationKind::Initialize => {
            if accounts.len() != 3 {
                return Err(CounterError::InvalidInstruction);
            }
            if !accounts[1].is_signer {
                return Err(CounterError::MissingSignature);
            }
            if !accounts[1].is_writable {
                return Err(CounterError::NotWritable);
            }
            if accounts[2].key != system_program_id() {
                return Err(CounterError::AddressMismatch);
            }
            let done = initialize(program, &mut accounts[0]);
            proof {
                assert(handle_views(accounts@) =~= handle_views(old(accounts)@).update(
                    0,
                    accounts@[0]@,
                ));
            }
            done
        },
        OperationKind::Increment => {
            if accounts.len() != 2 {
                return Err(CounterError::InvalidInstruction);
            }
            if !accounts[1].is_signer {
                return Err(CounterError::MissingSignature);
            }
            let done = increment(program, &mut accounts[0]);
            proof {
                assert(handle_views(accounts@) =~= handle_views(old(accounts)@).update(
                    0,
                    accounts@[0]@,
                ));
            }
            done
        },
    }
}

} // verus!
