//! What holds of the counter over whole runs of requests.

use vstd::prelude::*;
use crate::address::Address;
use crate::counter::{lemma_write_then_read, lemma_zeroed_is_no_record, state_of, AccountState};
use crate::error::CounterError;
use crate::instruction::{kind_of, InstructionView, OperationKind};
use crate::ledger::{fresh_storage, staged, submit_result, LedgerView};
use crate::processor::{increment_result, initialize_result, process_result};

verus! {

/// The count that the program's counter account holds; `None` where the
/// account does not exist or does not begin with a record.
pub open spec fn counter_of(ledger: LedgerView) -> Option<u64> {
    let address = ledger.program.counter_address;
    if ledger.accounts.dom().contains(address) {
        match state_of(ledger.accounts[address].data) {
            AccountState::Initialized { count } => Some(count),
            _ => None,
        }
    } else {
        None
    }
}

/// `after` holds the accounts that the request leaves behind when it is
/// accepted on `before`. The slot is free to differ.
pub open spec fn accepted(
    before: LedgerView,
    instruction: InstructionView,
    signers: Seq<Address>,
    after: LedgerView,
) -> bool {
    submit_result(before, instruction, signers) matches Ok(next) && next.accounts
        == after.accounts && next.program == after.program
}

/// An accepted initialize request leaves the counter at zero, and is only
/// accepted where no counter account existed.
pub proof fn lemma_initialize_starts_at_zero(
    ledger: LedgerView,
    instruction: InstructionView,
    signers: Seq<Address>,
)
    requires
        kind_of(instruction.data) == Ok::<OperationKind, CounterError>(OperationKind::Initialize),
        submit_result(ledger, instruction, signers) is Ok,
    ensures
        !ledger.accounts.dom().contains(ledger.program.counter_address),
        counter_of(submit_result(ledger, instruction, signers)->Ok_0) == Some(0u64),
{
    let handles = staged(ledger, instruction.accounts, OperationKind::Initialize);
    assert(process_result(ledger.program, handles, instruction.data) is Ok);
    assert(initialize_result(ledger.program, handles[0]) is Ok);
    lemma_write_then_read(fresh_storage(), 0);
}

/// An accepted increment request finds a count below the largest value and
/// leaves it one higher.
pub proof fn lemma_increment_adds_one(
    ledger: LedgerView,
    instruction: InstructionView,
    signers: Seq<Address>,
)
    requires
        kind_of(instruction.data) == Ok::<OperationKind, CounterError>(OperationKind::Increment),
        submit_result(ledger, instruction, signers) is Ok,
    ensures
        counter_of(ledger) matches Some(count) && count < u64::MAX && counter_of(
            submit_result(ledger, instruction, signers)->Ok_0,
        ) == Some((count + 1) as u64),
{
    let handles = staged(ledger, instruction.accounts, OperationKind::Increment);
    assert(process_result(ledger.program, handles, instruction.data) is Ok);
    assert(increment_result(ledger.program, handles[0]) is Ok);
    let address = ledger.program.counter_address;
    assert(handles[0].key == address);
    if !ledger.accounts.dom().contains(address) {
        lemma_zeroed_is_no_record(Seq::<u8>::empty());
    }
    let count = state_of(ledger.accounts[address].data)->count;
    lemma_write_then_read(ledger.accounts[address].data, (count + 1) as u64);
}

/// An increment request whose first account is not at the program's
/// counter address is rejected, whoever signed it and whatever the ledger
/// holds; a rejected request leaves every account as it was.
pub proof fn lemma_increment_elsewhere_is_rejected(
    ledger: LedgerView,
    instruction: InstructionView,
    signers: Seq<Address>,
)
    requires
        kind_of(instruction.data) == Ok::<OperationKind, CounterError>(OperationKind::Increment),
        instruction.accounts.len() > 0 ==> instruction.accounts[0].address
            != ledger.program.counter_address,
    ensures
        submit_result(ledger, instruction, signers) is Err,
{
}

/// Once the counter account exists, every initialize request is rejected,
/// so the count is never reset.
pub proof fn lemma_initialize_again_is_rejected(
    ledger: LedgerView,
    instruction: InstructionView,
    signers: Seq<Address>,
)
    requires
        kind_of(instruction.data) == Ok::<OperationKind, CounterError>(OperationKind::Initialize),
        ledger.accounts.dom().contains(ledger.program.counter_address),
    ensures
        submit_result(ledger, instruction, signers) is Err,
{
}

/// One accepted initialize request followed by accepted increment requests
/// leaves the count equal to the number of increments.
///
/// `states` are the ledgers before, between and after the requests, so
/// there is one more of them than there are requests.
pub proof fn lemma_count_is_number_of_increments(
    states: Seq<LedgerView>,
    instructions: Seq<InstructionView>,
    signers: Seq<Seq<Address>>,
)
    requires
        instructions.len() >= 1,
        signers.len() == instructions.len(),
        states.len() == instructions.len() + 1,
        kind_of(instructions[0].data) == Ok::<OperationKind, CounterError>(
            OperationKind::Initialize,
        ),
        forall|i: int|
            1 <= i < instructions.len() ==> kind_of(#[trigger] instructions[i].data) == Ok::<
                OperationKind,
                CounterError,
            >(OperationKind::Increment),
        forall|i: int|
            0 <= i < instructions.len() ==> accepted(
                #[trigger] states[i],
                instructions[i],
                signers[i],
                states[i + 1],
            ),
    ensures
        counter_of(states[instructions.len() as int]) matches Some(count) && count
            == instructions.len() - 1,
{
    lemma_count_up_to(states, instructions, signers, instructions.len() as int);
}

/// The count after the first `done` requests of such a run.
proof fn lemma_count_up_to(
    states: Seq<LedgerView>,
    instructions: Seq<InstructionView>,
    signers: Seq<Seq<Address>>,
    done: int,
)
    requires
        1 <= done <= instructions.len(),
        signers.len() == instructions.len(),
        states.len() == instructions.len() + 1,
        kind_of(instructions[0].data) == Ok::<OperationKind, CounterError>(
            OperationKind::Initialize,
        ),
        forall|i: int|
            1 <= i < instructions.len() ==> kind_of(#[trigger] instructions[i].data) == Ok::<
                OperationKind,
                CounterError,
            >(OperationKind::Increment),
        forall|i: int|
            0 <= i < instructions.len() ==> accepted(
                #[trigger] states[i],
                instructions[i],
                signers[i],
                states[i + 1],
            ),
    ensures
        counter_of(states[done]) matches Some(count) && count == done - 1,
    decreases done,
{
    let before = states[done - 1];
    assert(accepted(before, instructions[done - 1], signers[done - 1], states[done]));
    if done == 1 {
        lemma_initialize_starts_at_zero(before, instructions[0], signers[0]);
    } else {
        lemma_count_up_to(states, instructions, signers, done - 1);
        assert(kind_of(instructions[done - 1].data) == Ok::<OperationKind, CounterError>(
            OperationKind::Increment,
        ));
        lemma_increment_adds_one(before, instructions[done - 1], signers[done - 1]);
    }
}

} // verus!
