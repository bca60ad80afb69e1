//! A driver that takes the state machine through whole scenarios on a
//! ledger of its own: one funded user who pays for and signs every
//! request, and the counter account at the program's derived address.

use vstd::prelude::*;
use crate::address::{address_for, counter_seed, system_program, system_program_id, Address};
use crate::counter::{decoded, lemma_write_then_read, lemma_zeroed_is_no_record, record_bytes, with_record, Counter};
use crate::error::CounterError;
use crate::history::{counter_of, lemma_increment_adds_one};
use crate::instruction::{lemma_kind_of_tag, AccountMeta, Increment, Initialize, Instruction, OperationKind};
use crate::ledger::{all_signed, allocated, at_next_slot, fresh_storage, instruction_views, lemma_single_request, loaded, staged, stored, submit_result, transaction_result, Account, AccountView, Ledger, LedgerView};
use crate::processor::{id, increment_result, program_id, AccountInfoView, Program};

verus! {

/// The balance that the user starts with.
pub const USER_BALANCE: u64 = 1_000_000_000;

/// The driver: a ledger, the user, and the address of the counter account.
pub struct Harness {
    ledger: Ledger,
    user: Address,
    counter_pda: Address,
}

/// The driver as plain values.
pub struct HarnessView {
    pub ledger: LedgerView,
    pub user: Address,
    pub counter_pda: Address,
}

impl View for Harness {
    type V = HarnessView;

    closed spec fn view(&self) -> HarnessView {
        HarnessView { ledger: self.ledger@, user: self.user, counter_pda: self.counter_pda }
    }
}

/// The account of a user who has just been funded: owned by the system
/// allocator, without storage.
pub open spec fn funded_user() -> AccountView {
    AccountView { owner: system_program(), lamports: USER_BALANCE, data: Seq::empty() }
}

/// The initialize request that the driver submits.
pub open spec fn initialize_request(harness: HarnessView) -> Initialize {
    Initialize {
        counter_account: harness.counter_pda,
        payer: harness.user,
        allocator: system_program(),
    }
}

/// The increment request that the driver submits.
pub open spec fn increment_request(harness: HarnessView) -> Increment {
    Increment { counter_account: harness.counter_pda, authority: harness.user }
}

/// The counter account as `initialize` leaves it: owned by the program,
/// without balance, holding exactly the record of count zero.
pub open spec fn created_counter(program: Program) -> AccountView {
    AccountView { owner: program.id, lamports: 0, data: record_bytes(0) }
}

/// The handle that an increment request of the driver gets on the counter
/// account.
pub open spec fn counter_handle(harness: HarnessView) -> AccountInfoView {
    loaded(
        harness.ledger.accounts,
        AccountMeta { address: harness.counter_pda, is_signer: false, is_writable: true },
    )
}

/// What reading the counter gives: the record in the counter account, or
/// the reason for which there is none. An account that does not exist is
/// reported as not initialized.
pub open spec fn counter_read(harness: HarnessView) -> Result<Counter, CounterError> {
    if harness.ledger.accounts.dom().contains(harness.counter_pda) {
        decoded(harness.ledger.accounts[harness.counter_pda].data)
    } else {
        Err(CounterError::NotInitialized)
    }
}

impl Harness {
    /// The ledger that the driver holds.
    pub closed spec fn ledger_of(&self) -> Ledger {
        self.ledger
    }

    /// The driver's own consistency: its ledger is consistent, and the
    /// counter address it uses is the one its program accepts.
    pub open spec fn wf(&self) -> bool {
        self.ledger_of().wf() && self@.counter_pda == self@.ledger.program.counter_address
    }

    /// A driver for the deployed program, with `user` funded on a fresh
    /// ledger; `None` where no counter address can be derived.
    pub fn new(user: Address) -> (harness: Option<Harness>)
        ensures
            match harness {
                Some(h) => h.wf() && h@.user == user && h@.ledger.program.id == program_id()
                    && h@.ledger.program.is_canonical() && h@.ledger.slot == 0
                    && h@.ledger.accounts == Map::<Address, AccountView>::empty().insert(
                    user,
                    funded_user(),
                ),
                None => address_for(counter_seed(), program_id()@) is None,
            },
    {
        match Program::new(id()) {
            Some(program) => Some(Harness::with_program(program, user)),
            None => None,
        }
    }

    /// A driver for `program`, with `user` funded on a fresh ledger.
    pub fn with_program(program: Program, user: Address) -> (harness: Harness)
        ensures
            harness.wf(),
            harness@.user == user,
            harness@.counter_pda == program.counter_address,
            harness@.ledger.program == program,
            harness@.ledger.slot == 0,
            harness@.ledger.accounts == Map::<Address, AccountView>::empty().insert(
                user,
                funded_user(),
            ),
    {
        let mut ledger = Ledger::new(program);
        let account = Account {
            owner: system_program_id(),
            lamports: USER_BALANCE,
            data: Vec::new(),
        };
        let added = ledger.add_account(user, account);
        Harness { ledger, user, counter_pda: program.counter_address }
    }

    /// The ledger.
    pub fn ledger(&self) -> (ledger: &Ledger)
        ensures
            *ledger == self.ledger_of(),
            ledger@ == self@.ledger,
    {
        &self.ledger
    }

    /// The user who pays for and signs every request.
    pub fn user(&self) -> (user: Address)
        ensures
            user == self@.user,
    {
        self.user
    }

    /// The address of the counter account.
    pub fn counter_pda(&self) -> (address: Address)
        ensures
            address == self@.counter_pda,
    {
        self.counter_pda
    }

    /// Creates the counter account with count zero.
    ///
    /// Succeeds exactly when no account exists yet at the counter address;
    /// otherwise the request is rejected as already initialized and the
    /// ledger, the count included, stays as it was.
    pub fn initialize(&mut self) -> (done: Result<(), CounterError>)
        requires
            old(self).wf(),
        ensures
            final(self).wf(),
            final(self)@.user == old(self)@.user,
            final(self)@.counter_pda == old(self)@.counter_pda,
            old(self)@.ledger.accounts.dom().contains(old(self)@.counter_pda) ==> done == Err::<
                (),
                CounterError,
            >(CounterError::AlreadyInitialized) && final(self)@.ledger == old(self)@.ledger,
            !old(self)@.ledger.accounts.dom().contains(old(self)@.counter_pda) ==> done is Ok
                && final(self)@.ledger == at_next_slot(
                (LedgerView {
                    accounts: old(self)@.ledger.accounts.insert(
                        old(self)@.counter_pda,
                        created_counter(old(self)@.ledger.program),
                    ),
                    ..old(self)@.ledger
                }),
            ),
            done is Ok ==> counter_of(final(self)@.ledger) == Some(0u64),
            done is Ok ==> counter_read(final(self)@) == Ok::<Counter, CounterError>(
                Counter { count: 0 },
            ),
    {
        let program = self.ledger.program();
        let request = Initialize {
            counter_account: self.counter_pda,
            payer: self.user,
            allocator: system_program_id(),
        };
        let instruction = request.instruction(program.id);
        proof {
            let ledger = self@.ledger;
            let metas = request.account_metas();
            lemma_kind_of_tag(OperationKind::Initialize);
            assert(seq![self.user][0] == self.user);
            assert(all_signed(metas, seq![self.user]));
            lemma_zeroed_is_no_record(fresh_storage());
            lemma_write_then_read(fresh_storage(), 0);
            assert(with_record(fresh_storage(), 0) =~= record_bytes(0));
            let handles = staged(ledger, metas, OperationKind::Initialize);
            assert(handles[0] == allocated(ledger.program, metas[0]));
            assert(handles[1] == loaded(ledger.accounts, metas[1]));
            assert(handles[2] == loaded(ledger.accounts, metas[2]));
        }
        self.process_one(instruction)
    }

    /// Raises the count in the counter account by one.
    ///
    /// What happens is what `increment_result` says of the counter account
    /// as the ledger holds it: on success the account is stored with the
    /// higher count and the ledger moves to the next slot; otherwise the
    /// request is rejected and the ledger stays as it was.
    pub fn increment(&mut self) -> (done: Result<(), CounterError>)
        requires
            old(self).wf(),
        ensures
            final(self).wf(),
            final(self)@.user == old(self)@.user,
            final(self)@.counter_pda == old(self)@.counter_pda,
            match increment_result(old(self)@.ledger.program, counter_handle(old(self)@)) {
                Ok(after) => done is Ok && final(self)@.ledger == at_next_slot(
                    stored(old(self)@.ledger, after),
                ),
                Err(reason) => done == Err::<(), CounterError>(reason) && final(self)@.ledger
                    == old(self)@.ledger,
            },
            !old(self)@.ledger.accounts.dom().contains(old(self)@.counter_pda) ==> done == Err::<
                (),
                CounterError,
            >(CounterError::NotInitialized),
            done is Ok ==> (counter_of(old(self)@.ledger) matches Some(count) && count < u64::MAX
                && counter_of(final(self)@.ledger) == Some((count + 1) as u64)),
    {
        let program = self.ledger.program();
        let request = Increment { counter_account: self.counter_pda, authority: self.user };
        let instruction = request.instruction(program.id);
        proof {
            let ledger = self@.ledger;
            let metas = request.account_metas();
            lemma_kind_of_tag(OperationKind::Increment);
            assert(seq![self.user][0] == self.user);
            assert(all_signed(metas, seq![self.user]));
            let handles = staged(ledger, metas, OperationKind::Increment);
            assert(handles[0] == counter_handle(self@));
            assert(handles[1] == loaded(ledger.accounts, metas[1]));
            if !ledger.accounts.dom().contains(self.counter_pda) {
                lemma_zeroed_is_no_record(Seq::<u8>::empty());
            }
            if submit_result(ledger, instruction@, seq![self.user]) is Ok {
                lemma_increment_adds_one(ledger, instruction@, seq![self.user]);
            }
        }
        self.process_one(instruction)
    }

    /// Fetches the counter account and reads the record in it.
    pub fn load_and_deserialize(&self) -> (read: Result<Counter, CounterError>)
        requires
            self.wf(),
        ensures
            read == counter_read(self@),
    {
        match self.ledger.get_account(&self.counter_pda) {
            None => Err(CounterError::NotInitialized),
            Some(account) => Counter::try_deserialize(account.data.as_slice()),
        }
    }

    /// Submits a bundle of requests signed by the user and, if it is
    /// accepted, moves the ledger to the next slot. A rejected bundle is
    /// reported and leaves the ledger as it was.
    pub fn process_transaction(&mut self, instructions: &[Instruction]) -> (done: Result<
        (),
        CounterError,
    >)
        requires
            old(self).wf(),
        ensures
            final(self).wf(),
            final(self)@.user == old(self)@.user,
            final(self)@.counter_pda == old(self)@.counter_pda,
            match transaction_result(
                old(self)@.ledger,
                instruction_views(instructions@),
                seq![old(self)@.user],
            ) {
                Ok(after) => done is Ok && final(self)@.ledger == at_next_slot(after),
                Err(reason) => done == Err::<(), CounterError>(reason) && final(self)@.ledger
                    == old(self)@.ledger,
            },
    {
        let signers: [Address; 1] = [self.user];
        assert(signers@ =~= seq![self.user]);
        match self.ledger.process_transaction(instructions, signers.as_slice()) {
            Err(reason) => Err(reason),
            Ok(()) => {
                self.ledger.advance_slot();
                Ok(())
            },
        }
    }

    /// Submits one request signed by the user, as a bundle of its own.
    fn process_one(&mut self, instruction: Instruction) -> (done: Result<(), CounterError>)
        requires
            old(self).wf(),
        ensures
            final(self).wf(),
            final(self)@.user == old(self)@.user,
            final(self)@.counter_pda == old(self)@.counter_pda,
            match submit_result(old(self)@.ledger, instruction@, seq![old(self)@.user]) {
                Ok(after) => done is Ok && final(self)@.ledger == at_next_slot(after),
                Err(reason) => done == Err::<(), CounterError>(reason) && final(self)@.ledger
                    == old(self)@.ledger,
            },
    {
        let mut bundle: Vec<Instruction> = Vec::new();
        bundle.push(instruction);
        proof {
            assert(instruction_views(bundle@) =~= seq![instruction@]);
            lemma_single_request(self@.ledger, instruction@, seq![self@.user]);
        }
        self.process_transaction(bundle.as_slice())
    }
}

} // verus!
