//! A ledger held in memory: accounts by address, the program registered on
//! it, and a slot number that moves only when asked.
//!
//! The ledger plays the platform's part. It checks who signed, allocates
//! the counter account when an initialize request arrives, hands the state
//! machine its account handles, and stores what comes back only if the
//! request succeeded.

use vstd::prelude::*;
use crate::address::{system_program, system_program_id, Address};
use crate::counter::RECORD_LEN;
use crate::error::CounterError;
use crate::instruction::{kind_of, AccountMeta, Instruction, InstructionView, OperationKind};
use crate::processor::{handle_views, process_instruction, process_result, AccountInfo, AccountInfoView, Program};

verus! {

/// An account as the ledger stores it.
#[derive(Clone, Debug, PartialEq, Eq)]
pub struct Account {
    /// The program that owns the account.
    pub owner: Address,
    /// The account's balance.
    pub lamports: u64,
    /// The account's storage.
    pub data: Vec<u8>,
}

/// A stored account as plain values.
pub struct AccountView {
    pub owner: Address,
    pub lamports: u64,
    pub data: Seq<u8>,
}

impl View for Account {
    type V = AccountView;

    open spec fn view(&self) -> AccountView {
        AccountView { owner: self.owner, lamports: self.lamports, data: self.data@ }
    }
}

/// One account and the address it lives at.
struct Entry {
    address: Address,
    account: Account,
}

/// The ledger.
pub struct Ledger {
    program: Program,
    entries: Vec<Entry>,
    slot: u64,
}

/// The ledger as plain values.
pub struct LedgerView {
    /// The registered program.
    pub program: Program,
    /// Every account that exists, by address.
    pub accounts: Map<Address, AccountView>,
    /// The current slot.
    pub slot: u64,
}

/// Some entry lives at `address`.
spec fn holds(entries: Seq<Entry>, address: Address) -> bool {
    exists|i: int| 0 <= i < entries.len() && (#[trigger] entries[i]).address == address
}

/// The place of an entry that lives at `address`.
spec fn place(entries: Seq<Entry>, address: Address) -> int {
    choose|i: int| 0 <= i < entries.len() && (#[trigger] entries[i]).address == address
}

/// No two entries share an address.
spec fn distinct(entries: Seq<Entry>) -> bool {
    forall|i: int, j: int|
        0 <= i < j < entries.len() ==> (#[trigger] entries[i]).address != (
        #[trigger] entries[j]).address
}

/// The accounts that a list of entries stands for.
spec fn accounts_of(entries: Seq<Entry>) -> Map<Address, AccountView> {
    Map::new(
        |address: Address| holds(entries, address),
        |address: Address| entries[place(entries, address)].account@,
    )
}

/// The entry at place `i` is the account found at its address.
proof fn lemma_entry_is_found(entries: Seq<Entry>, i: int)
    requires
        distinct(entries),
        0 <= i < entries.len(),
    ensures
        accounts_of(entries).dom().contains(entries[i].address),
        accounts_of(entries)[entries[i].address] == entries[i].account@,
{
    let address = entries[i].address;
    assert(holds(entries, address));
    let j = place(entries, address);
    assert(j == i);
}

/// Adding an entry at a free address adds one account and changes no other.
proof fn lemma_push_inserts(entries: Seq<Entry>, entry: Entry)
    requires
        distinct(entries),
        !holds(entries, entry.address),
    ensures
        distinct(entries.push(entry)),
        accounts_of(entries.push(entry)) == accounts_of(entries).insert(
            entry.address,
            entry.account@,
        ),
{
    let after = entries.push(entry);
    let last = entries.len() as int;
    assert(after[last] == entry);
    assert forall|i: int, j: int| 0 <= i < j < after.len() implies (#[trigger] after[i]).address
        != (#[trigger] after[j]).address by {
        if j == last {
            assert(after[i] == entries[i]);
            if after[i].address == entry.address {
                assert(holds(entries, entry.address));
            }
        } else {
            assert(after[i] == entries[i]);
            assert(after[j] == entries[j]);
        }
    }
    let target = accounts_of(entries).insert(entry.address, entry.account@);
    assert forall|address: Address| #[trigger]
        accounts_of(after).dom().contains(address) == target.dom().contains(address) by {
        if holds(after, address) {
            let i = place(after, address);
            if i != last {
                assert(entries[i] == after[i]);
                assert(holds(entries, address));
            }
        }
        if holds(entries, address) {
            let i = place(entries, address);
            assert(after[i] == entries[i]);
            assert(holds(after, address));
        }
        if address == entry.address {
            assert(holds(after, address));
        }
    }
    assert forall|address: Address| #[trigger]
        accounts_of(after).dom().contains(address) implies accounts_of(after)[address]
        == target[address] by {
        let i = place(after, address);
        lemma_entry_is_found(after, i);
        if i != last {
            assert(after[i] == entries[i]);
            lemma_entry_is_found(entries, i);
        }
    }
    assert(accounts_of(after) =~= target);
}

/// Replacing the account of one entry replaces that account and changes no
/// other.
proof fn lemma_update_inserts(entries: Seq<Entry>, i: int, entry: Entry)
    requires
        distinct(entries),
        0 <= i < entries.len(),
        entry.address == entries[i].address,
    ensures
        distinct(entries.update(i, entry)),
        accounts_of(entries.update(i, entry)) == accounts_of(entries).insert(
            entry.address,
            entry.account@,
        ),
{
    let after = entries.update(i, entry);
    assert forall|a: int, b: int| 0 <= a < b < after.len() implies (#[trigger] after[a]).address
        != (#[trigger] after[b]).address by {
        assert(after[a].address == entries[a].address);
        assert(after[b].address == entries[b].address);
    }
    let target = accounts_of(entries).insert(entry.address, entry.account@);
    assert forall|address: Address| #[trigger]
        accounts_of(after).dom().contains(address) == target.dom().contains(address) by {
        if holds(after, address) {
            let j = place(after, address);
            assert(entries[j].address == address);
            assert(holds(entries, address));
        }
        if holds(entries, address) {
            let j = place(entries, address);
            assert(after[j].address == address);
            assert(holds(after, address));
        }
        if address == entry.address {
            assert(after[i].address == address);
            assert(holds(after, address));
        }
    }
    assert forall|address: Address| #[trigger]
        accounts_of(after).dom().contains(address) implies accounts_of(after)[address]
        == target[address] by {
        let j = place(after, address);
        lemma_entry_is_found(after, j);
        if j != i {
            assert(after[j] == entries[j]);
            lemma_entry_is_found(entries, j);
        }
    }
    assert(accounts_of(after) =~= target);
}

/// Every account reference that is flagged as signing names one of
/// `signers`.
pub open spec fn all_signed(metas: Seq<AccountMeta>, signers: Seq<Address>) -> bool {
    forall|i: int|
        0 <= i < metas.len() && (#[trigger] metas[i]).is_signer ==> signers.contains(
            metas[i].address,
        )
}

/// Sixteen zero bytes: the storage of a counter account that has just been
/// allocated.
pub open spec fn fresh_storage() -> Seq<u8> {
    Seq::new(RECORD_LEN as nat, |i: int| 0u8)
}

/// The handle that a request gets on the account that `meta` refers to. An
/// account that does not exist shows as owned by the system allocator, with
/// no storage.
pub open spec fn loaded(accounts: Map<Address, AccountView>, meta: AccountMeta) -> AccountInfoView {
    if accounts.dom().contains(meta.address) {
        AccountInfoView {
            key: meta.address,
            is_signer: meta.is_signer,
            is_writable: meta.is_writable,
            owner: accounts[meta.address].owner,
            data: accounts[meta.address].data,
        }
    } else {
        AccountInfoView {
            key: meta.address,
            is_signer: meta.is_signer,
            is_writable: meta.is_writable,
            owner: system_program(),
            data: Seq::empty(),
        }
    }
}

/// The handle on an account that the ledger has just allocated for
/// `program`: owned by the program, with zeroed storage for one record.
pub open spec fn allocated(program: Program, meta: AccountMeta) -> AccountInfoView {
    AccountInfoView {
        key: meta.address,
        is_signer: meta.is_signer,
        is_writable: meta.is_writable,
        owner: program.id,
        data: fresh_storage(),
    }
}

/// The handles that the state machine is given for a request. For an
/// initialize request the first is freshly allocated; every other is
/// loaded from the ledger.
pub open spec fn staged(ledger: LedgerView, metas: Seq<AccountMeta>, kind: OperationKind) -> Seq<
    AccountInfoView,
> {
    Seq::new(
        metas.len(),
        |i: int|
            if i == 0 && kind == OperationKind::Initialize {
                allocated(ledger.program, metas[0])
            } else {
                loaded(ledger.accounts, metas[i])
            },
    )
}

/// The balance of the account at `address`; zero where none exists.
pub open spec fn balance(accounts: Map<Address, AccountView>, address: Address) -> u64 {
    if accounts.dom().contains(address) {
        accounts[address].lamports
    } else {
        0
    }
}

/// The ledger after the owner and storage of `handle` have been stored at
/// its address. The balance there stays; a new account starts with none.
pub open spec fn stored(ledger: LedgerView, handle: AccountInfoView) -> LedgerView {
    LedgerView {
        accounts: ledger.accounts.insert(
            handle.key,
            AccountView {
                owner: handle.owner,
                lamports: balance(ledger.accounts, handle.key),
                data: handle.data,
            },
        ),
        ..ledger
    }
}

/// What submitting a request does: the ledger afterwards, or the reason
/// for which the request is rejected and the ledger stays as it is.
///
/// In order: the request must address the registered program; every
/// account flagged as signing must be among `signers`; the payload must
/// name an operation; an initialize request must not name a first account
/// that already exists; and the state machine must accept the handles.
/// Then the first handle, the only one the state machine writes, is stored.
pub open spec fn submit_result(
    ledger: LedgerView,
    instruction: InstructionView,
    signers: Seq<Address>,
) -> Result<LedgerView, CounterError> {
    if instruction.program_id != ledger.program.id {
        Err(CounterError::InvalidInstruction)
    } else if !all_signed(instruction.accounts, signers) {
        Err(CounterError::MissingSignature)
    } else {
        match kind_of(instruction.data) {
            Err(reason) => Err(reason),
            Ok(kind) => if kind == OperationKind::Initialize && instruction.accounts.len() > 0
                && ledger.accounts.dom().contains(instruction.accounts[0].address) {
                Err(CounterError::AlreadyInitialized)
            } else {
                match process_result(
                    ledger.program,
                    staged(ledger, instruction.accounts, kind),
                    instruction.data,
                ) {
                    Err(reason) => Err(reason),
                    Ok(after) => Ok(stored(ledger, after[0])),
                }
            },
        }
    }
}

/// The requests of a bundle as plain values.
pub open spec fn instruction_views(instructions: Seq<Instruction>) -> Seq<InstructionView> {
    Seq::new(instructions.len(), |i: int| instructions[i]@)
}

/// What submitting a bundle does: the requests are applied in order, each
/// to what the one before left, and the first that is rejected rejects the
/// whole bundle with its reason.
pub open spec fn transaction_result(
    ledger: LedgerView,
    instructions: Seq<InstructionView>,
    signers: Seq<Address>,
) -> Result<LedgerView, CounterError>
    decreases instructions.len(),
{
    if instructions.len() == 0 {
        Ok(ledger)
    } else {
        match submit_result(ledger, instructions[0], signers) {
            Err(reason) => Err(reason),
            Ok(next) => transaction_result(next, instructions.drop_first(), signers),
        }
    }
}

/// A bundle of one request does what the request does.
pub proof fn lemma_single_request(
    ledger: LedgerView,
    instruction: InstructionView,
    signers: Seq<Address>,
)
    ensures
        transaction_result(ledger, seq![instruction], signers) == submit_result(
            ledger,
            instruction,
            signers,
        ),
{
    let bundle = seq![instruction];
    assert(bundle[0] == instruction);
    assert(bundle.drop_first().len() == 0);
    reveal_with_fuel(transaction_result, 2);
}

/// The ledger one slot later; at the largest slot it stays where it is.
pub open spec fn at_next_slot(ledger: LedgerView) -> LedgerView {
    LedgerView {
        slot: if ledger.slot < u64::MAX {
            (ledger.slot + 1) as u64
        } else {
            ledger.slot
        },
        ..ledger
    }
}

/// Tells whether `address` is one of `signers`.
fn has_signed(signers: &[Address], address: &Address) -> (yes: bool)
    ensures
        yes == signers@.contains(*address),
{
    let mut i: usize = 0;
    while i < signers.len()
        invariant
            i <= signers@.len(),
            forall|j: int| 0 <= j < i ==> signers@[j] != *address,
        decreases signers@.len() - i,
    {
        if signers[i] == *address {
            return true;
        }
        i += 1;
    }
    false
}

/// Tells whether every account flagged as signing is one of `signers`.
fn check_signatures(metas: &Vec<AccountMeta>, signers: &[Address]) -> (yes: bool)
    ensures
        yes == all_signed(metas@, signers@),
{
    let mut i: usize = 0;
    while i < metas.len()
        invariant
            i <= metas@.len(),
            forall|j: int|
                0 <= j < i && (#[trigger] metas@[j]).is_signer ==> signers@.contains(
                    metas@[j].address,
                ),
        decreases metas@.len() - i,
    {
        if metas[i].is_signer && !has_signed(signers, &metas[i].address) {
            return false;
        }
        i += 1;
    }
    true
}

/// Zeroed storage for one record.
fn zeroed_record() -> (data: Vec<u8>)
    ensures
        data@ == fresh_storage(),
{
    let mut data: Vec<u8> = Vec::new();
    while data.len() < RECORD_LEN
        invariant
            data@.len() <= RECORD_LEN,
            forall|j: int| 0 <= j < data@.len() ==> data@[j] == 0,
        decreases RECORD_LEN - data@.len(),
    {
        data.push(0);
    }
    assert(data@ =~= fresh_storage());
    data
}

/// Entries that agree place by place stand for the same accounts.
proof fn lemma_same_accounts(entries: Seq<Entry>, copies: Seq<Entry>)
    requires
        distinct(entries),
        copies.len() == entries.len(),
        forall|i: int|
            0 <= i < entries.len() ==> (#[trigger] copies[i]).address == entries[i].address
                && copies[i].account@ == entries[i].account@,
    ensures
        distinct(copies),
        accounts_of(copies) == accounts_of(entries),
{
    assert forall|i: int, j: int| 0 <= i < j < copies.len() implies (#[trigger] copies[i]).address
        != (#[trigger] copies[j]).address by {
        assert(entries[i].address != entries[j].address);
    }
    assert forall|address: Address| #[trigger]
        accounts_of(copies).dom().contains(address) == accounts_of(entries).dom().contains(
            address,
        ) by {
        if holds(copies, address) {
            let i = place(copies, address);
            assert(entries[i].address == address);
            assert(holds(entries, address));
        }
        if holds(entries, address) {
            let i = place(entries, address);
            assert(copies[i].address == address);
            assert(holds(copies, address));
        }
    }
    assert forall|address: Address| #[trigger]
        accounts_of(copies).dom().contains(address) implies accounts_of(copies)[address]
        == accounts_of(entries)[address] by {
        let i = place(copies, address);
        lemma_entry_is_found(copies, i);
        lemma_entry_is_found(entries, i);
    }
    assert(accounts_of(copies) =~= accounts_of(entries));
}

impl View for Ledger {
    type V = LedgerView;

    closed spec fn view(&self) -> LedgerView {
        LedgerView {
            program: self.program,
            accounts: accounts_of(self.entries@),
            slot: self.slot,
        }
    }
}

impl Ledger {
    /// The ledger's own consistency: no address is stored twice. Every
    /// constructor establishes it and every method keeps it.
    pub closed spec fn wf(&self) -> bool {
        distinct(self.entries@)
    }

    /// A fresh ledger with `program` registered on it: no account yet, at
    /// slot zero.
    pub fn new(program: Program) -> (ledger: Ledger)
        ensures
            ledger.wf(),
            ledger@.program == program,
            ledger@.accounts == Map::<Address, AccountView>::empty(),
            ledger@.slot == 0,
    {
        let ledger = Ledger { program, entries: Vec::new(), slot: 0 };
        assert(ledger@.accounts =~= Map::<Address, AccountView>::empty()) by {
            assert forall|address: Address| !holds(ledger.entries@, address) by {}
        }
        ledger
    }

    /// The registered program.
    pub fn program(&self) -> (program: Program)
        ensures
            program == self@.program,
    {
        self.program
    }

    /// The current slot.
    pub fn slot(&self) -> (slot: u64)
        ensures
            slot == self@.slot,
    {
        self.slot
    }

    /// Moves to the next slot. Nothing else changes; at the largest slot
    /// the ledger stays where it is.
    pub fn advance_slot(&mut self)
        requires
            old(self).wf(),
        ensures
            final(self).wf(),
            final(self)@ == at_next_slot(old(self)@),
    {
        if self.slot < u64::MAX {
            self.slot = self.slot + 1;
        }
    }

    /// The place of the entry at `address`, if there is one.
    fn find(&self, address: &Address) -> (found: Option<usize>)
        requires
            self.wf(),
        ensures
            match found {
                Some(i) => i < self.entries@.len() && self.entries@[i as int].address == *address
                    && self@.accounts.dom().contains(*address) && self@.accounts[*address]
                    == self.entries@[i as int].account@,
                None => !holds(self.entries@, *address) && !self@.accounts.dom().contains(
                    *address,
                ),
            },
    {
        let mut i: usize = 0;
        while i < self.entries.len()
            invariant
                self.wf(),
                i <= self.entries@.len(),
                forall|j: int| 0 <= j < i ==> (#[trigger] self.entries@[j]).address != *address,
            decreases self.entries@.len() - i,
        {
            if self.entries[i].address == *address {
                proof {
                    lemma_entry_is_found(self.entries@, i as int);
                }
                return Some(i);
            }
            i += 1;
        }
        None
    }

    /// Tells whether an account exists at `address`.
    pub fn has_account(&self, address: &Address) -> (yes: bool)
        requires
            self.wf(),
        ensures
            yes == self@.accounts.dom().contains(*address),
    {
        self.find(address).is_some()
    }

    /// Fetches a copy of the account at `address`, if one exists.
    pub fn get_account(&self, address: &Address) -> (account: Option<Account>)
        requires
            self.wf(),
        ensures
            match account {
                Some(found) => self@.accounts.dom().contains(*address) && found@
                    == self@.accounts[*address],
                None => !self@.accounts.dom().contains(*address),
            },
    {
        match self.find(address) {
            Some(i) => {
                let stored = &self.entries[i].account;
                let data = stored.data.clone();
                assert(data@ =~= stored.data@);
                Some(Account { owner: stored.owner, lamports: stored.lamports, data })
            },
            None => None,
        }
    }

    /// Builds the handle on the account that `meta` refers to.
    fn load(&self, meta: &AccountMeta) -> (handle: AccountInfo)
        requires
            self.wf(),
        ensures
            handle@ == loaded(self@.accounts, *meta),
    {
        match self.find(&meta.address) {
            Some(i) => {
                let stored = &self.entries[i].account;
                let data = stored.data.clone();
                assert(data@ =~= stored.data@);
                AccountInfo {
                    key: meta.address,
                    is_signer: meta.is_signer,
                    is_writable: meta.is_writable,
                    owner: stored.owner,
                    data,
                }
            },
            None => AccountInfo {
                key: meta.address,
                is_signer: meta.is_signer,
                is_writable: meta.is_writable,
                owner: system_program_id(),
                data: Vec::new(),
            },
        }
    }

    /// Builds the handles for a request of kind `kind`.
    fn stage(&self, metas: &Vec<AccountMeta>, kind: OperationKind) -> (handles: Vec<AccountInfo>)
        requires
            self.wf(),
        ensures
            handle_views(handles@) == staged(self@, metas@, kind),
    {
        let mut handles: Vec<AccountInfo> = Vec::new();
        let mut i: usize = 0;
        while i < metas.len()
            invariant
                self.wf(),
                i <= metas@.len(),
                handles@.len() == i,
                forall|j: int|
                    0 <= j < i ==> (#[trigger] handles@[j])@ == staged(self@, metas@, kind)[j],
            decreases metas@.len() - i,
        {
            let handle = if i == 0 && kind == OperationKind::Initialize {
                AccountInfo {
                    key: metas[0].address,
                    is_signer: metas[0].is_signer,
                    is_writable: metas[0].is_writable,
                    owner: self.program.id,
                    data: zeroed_record(),
                }
            } else {
                self.load(&metas[i])
            };
            handles.push(handle);
            i += 1;
        }
        assert(handle_views(handles@) =~= staged(self@, metas@, kind));
        handles
    }

    /// Stores the owner and storage of `handle` at its address.
    fn store(&mut self, handle: AccountInfo)
        requires
            old(self).wf(),
        ensures
            final(self).wf(),
            final(self)@ == stored(old(self)@, handle@),
    {
        match self.find(&handle.key) {
            Some(i) => {
                let lamports = self.entries[i].account.lamports;
                let entry = Entry {
                    address: handle.key,
                    account: Account { owner: handle.owner, lamports, data: handle.data },
                };
                proof {
                    lemma_update_inserts(self.entries@, i as int, entry);
                }
                self.entries[i] = entry;
            },
            None => {
                let entry = Entry {
                    address: handle.key,
                    account: Account { owner: handle.owner, lamports: 0, data: handle.data },
                };
                proof {
                    lemma_push_inserts(self.entries@, entry);
                }
                self.entries.push(entry);
            },
        }
    }

    /// Submits a request signed by `signers`. The request takes effect as a
    /// whole or not at all: on any error the ledger is exactly as before.
    pub fn submit(&mut self, instruction: &Instruction, signers: &[Address]) -> (done: Result<
        (),
        CounterError,
    >)
        requires
            old(self).wf(),
        ensures
            final(self).wf(),
            match submit_result(old(self)@, instruction@, signers@) {
                Ok(after) => done is Ok && final(self)@ == after,
                Err(reason) => done == Err::<(), CounterError>(reason) && final(self)@ == old(
                    self,
                )@,
            },
    {
        if instruction.program_id != self.program.id {
            return Err(CounterError::InvalidInstruction);
        }
        if !check_signatures(&instruction.accounts, signers) {
            return Err(CounterError::MissingSignature);
        }
        let kind = match OperationKind::decode(instruction.data.as_slice()) {
            Ok(kind) => kind,
            Err(reason) => {
                return Err(reason);
            },
        };
        if kind == OperationKind::Initialize && instruction.accounts.len() > 0 && self.has_account(
            &instruction.accounts[0].address,
        ) {
            return Err(CounterError::AlreadyInitialized);
        }
        let mut handles = self.stage(&instruction.accounts, kind);
        let program = self.program;
        match process_instruction(&program, &mut handles, instruction.data.as_slice()) {
            Err(reason) => Err(reason),
            Ok(()) => {
                proof {
                    let after = handle_views(handles@);
                    assert(after.len() == handles@.len());
                    assert(after[0] == handles@[0]@);
                }
                let first = handles.swap_remove(0);
                self.store(first);
                Ok(())
            },
        }
    }

    /// Copies every entry, storage included.
    fn snapshot(&self) -> (copies: Vec<Entry>)
        requires
            self.wf(),
        ensures
            distinct(copies@),
            accounts_of(copies@) == self@.accounts,
    {
        let mut copies: Vec<Entry> = Vec::new();
        let mut i: usize = 0;
        while i < self.entries.len()
            invariant
                i <= self.entries@.len(),
                copies@.len() == i,
                forall|j: int|
                    0 <= j < i ==> (#[trigger] copies@[j]).address == self.entries@[j].address
                        && copies@[j].account@ == self.entries@[j].account@,
            decreases self.entries@.len() - i,
        {
            let stored = &self.entries[i];
            let data = stored.account.data.clone();
            assert(data@ =~= stored.account.data@);
            copies.push(
                Entry {
                    address: stored.address,
                    account: Account {
                        owner: stored.account.owner,
                        lamports: stored.account.lamports,
                        data,
                    },
                },
            );
            i += 1;
        }
        proof {
            lemma_same_accounts(self.entries@, copies@);
        }
        copies
    }

    /// Submits a bundle of requests signed by `signers`. The requests are
    /// applied in order. The bundle takes effect as a whole or not at all:
    /// if any request is rejected, its reason is reported and the ledger is
    /// exactly as it was before the first.
    pub fn process_transaction(&mut self, instructions: &[Instruction], signers: &[Address]) -> (done:
        Result<(), CounterError>)
        requires
            old(self).wf(),
        ensures
            final(self).wf(),
            final(self)@.program == old(self)@.program,
            final(self)@.slot == old(self)@.slot,
            match transaction_result(old(self)@, instruction_views(instructions@), signers@) {
                Ok(after) => done is Ok && final(self)@ == after,
                Err(reason) => done == Err::<(), CounterError>(reason) && final(self)@ == old(
                    self,
                )@,
            },
    {
        let saved = self.snapshot();
        let ghost bundle = instruction_views(instructions@);
        assert(bundle.skip(0) =~= bundle);
        let mut i: usize = 0;
        while i < instructions.len()
            invariant
                self.wf(),
                i <= instructions@.len(),
                bundle == instruction_views(instructions@),
                distinct(saved@),
                accounts_of(saved@) == old(self)@.accounts,
                self@.program == old(self)@.program,
                self@.slot == old(self)@.slot,
                transaction_result(old(self)@, bundle, signers@) == transaction_result(
                    self@,
                    bundle.skip(i as int),
                    signers@,
                ),
            decreases instructions@.len() - i,
        {
            proof {
                let rest = bundle.skip(i as int);
                assert(rest[0] == instructions@[i as int]@);
                assert(rest.drop_first() =~= bundle.skip(i + 1));
            }
            match self.submit(&instructions[i], signers) {
                Ok(()) => {},
                Err(reason) => {
                    self.entries = saved;
                    return Err(reason);
                },
            }
            i += 1;
        }
        assert(bundle.skip(i as int).len() == 0);
        Ok(())
    }

    /// Puts `account` on the ledger at `address` if no account exists
    /// there, and tells whether it did. An address that is taken keeps the
    /// account it has.
    pub fn add_account(&mut self, address: Address, account: Account) -> (added: bool)
        requires
            old(self).wf(),
        ensures
            final(self).wf(),
            final(self)@.program == old(self)@.program,
            final(self)@.slot == old(self)@.slot,
            added == !old(self)@.accounts.dom().contains(address),
            added ==> final(self)@.accounts == old(self)@.accounts.insert(address, account@),
            !added ==> final(self)@.accounts == old(self)@.accounts,
    {
        match self.find(&address) {
            Some(_) => false,
            None => {
                proof {
                    lemma_push_inserts(self.entries@, Entry { address, account });
                }
                self.entries.push(Entry { address, account });
                true
            },
        }
    }
}

} // verus!
