//! How a request is put on the wire: the program it addresses, the accounts
//! it touches with their flags, and a payload that holds nothing but the
//! tag of the operation.

use vstd::prelude::*;
use crate::address::Address;
use crate::error::CounterError;

verus! {

/// Length of the tag that names an operation.
pub const TAG_LEN: usize = 8;

/// The payload of an initialize request.
pub const INITIALIZE_TAG: [u8; 8] = [175, 175, 109, 31, 13, 152, 155, 237];

/// The payload of an increment request.
pub const INCREMENT_TAG: [u8; 8] = [11, 18, 104, 9, 104, 174, 59, 33];

/// The payload of an initialize request, as a sequence.
pub open spec fn initialize_tag() -> Seq<u8> {
    seq![175u8, 175u8, 109u8, 31u8, 13u8, 152u8, 155u8, 237u8]
}

/// The payload of an increment request, as a sequence.
pub open spec fn increment_tag() -> Seq<u8> {
    seq![11u8, 18u8, 104u8, 9u8, 104u8, 174u8, 59u8, 33u8]
}

/// The two operations.
#[derive(Clone, Copy, Debug, PartialEq, Eq, Structural)]
pub enum OperationKind {
    Initialize,
    Increment,
}

/// The operation that a payload asks for. The payload must be the tag and
/// nothing more.
pub open spec fn kind_of(data: Seq<u8>) -> Result<OperationKind, CounterError> {
    if data == initialize_tag() {
        Ok(OperationKind::Initialize)
    } else if data == increment_tag() {
        Ok(OperationKind::Increment)
    } else {
        Err(CounterError::InvalidInstruction)
    }
}

/// The payload that asks for `kind`.
pub open spec fn tag_of(kind: OperationKind) -> Seq<u8> {
    match kind {
        OperationKind::Initialize => initialize_tag(),
        OperationKind::Increment => increment_tag(),
    }
}

/// A payload made for an operation is read back as that operation.
pub proof fn lemma_kind_of_tag(kind: OperationKind)
    ensures
        kind_of(tag_of(kind)) == Ok::<OperationKind, CounterError>(kind),
{
    assert(initialize_tag()[0] != increment_tag()[0]);
}

/// Tells whether `data` is exactly the eight bytes of `tag`.
fn is_tag(data: &[u8], tag: &[u8; 8]) -> (same: bool)
    ensures
        same == (data@ == tag@),
{
    if data.len() != TAG_LEN {
        return false;
    }
    let mut i: usize = 0;
    while i < TAG_LEN
        invariant
            i <= TAG_LEN,
            data@.len() == TAG_LEN,
            forall|j: int| 0 <= j < i ==> data@[j] == tag@[j],
        decreases TAG_LEN - i,
    {
        if data[i] != tag[i] {
            return false;
        }
        i += 1;
    }
    assert(data@ =~= tag@);
    true
}

/// The bytes of a tag, as a vector.
fn tag_vec(tag: &[u8; 8]) -> (data: Vec<u8>)
    ensures
        data@ == tag@,
{
    let mut data: Vec<u8> = Vec::new();
    let mut i: usize = 0;
    while i < TAG_LEN
        invariant
            i <= TAG_LEN,
            data@ == tag@.subrange(0, i as int),
        decreases TAG_LEN - i,
    {
        data.push(tag[i]);
        assert(data@ =~= tag@.subrange(0, i + 1));
        i += 1;
    }
    assert(data@ =~= tag@);
    data
}

impl OperationKind {
    /// Reads the operation that a payload asks for.
    pub fn decode(data: &[u8]) -> (kind: Result<OperationKind, CounterError>)
        ensures
            kind == kind_of(data@),
    {
        let initialize = INITIALIZE_TAG;
        let increment = INCREMENT_TAG;
        assert(initialize@ =~= initialize_tag());
        assert(increment@ =~= increment_tag());
        if is_tag(data, &initialize) {
            Ok(OperationKind::Initialize)
        } else if is_tag(data, &increment) {
            Ok(OperationKind::Increment)
        } else {
            Err(CounterError::InvalidInstruction)
        }
    }

    /// The payload that asks for this operation.
    pub fn data(&self) -> (data: Vec<u8>)
        ensures
            data@ == tag_of(*self),
            kind_of(data@) == Ok::<OperationKind, CounterError>(*self),
    {
        proof {
            lemma_kind_of_tag(*self);
        }
        match self {
            OperationKind::Initialize => {
                let tag = INITIALIZE_TAG;
                assert(tag@ =~= initialize_tag());
                tag_vec(&tag)
            },
            OperationKind::Increment => {
                let tag = INCREMENT_TAG;
                assert(tag@ =~= increment_tag());
                tag_vec(&tag)
            },
        }
    }
}

/// A reference to an account, with what the request may do to it.
#[derive(Clone, Copy, Debug, PartialEq, Eq)]
pub struct AccountMeta {
    pub address: Address,
    pub is_signer: bool,
    pub is_writable: bool,
}

impl AccountMeta {
    /// A reference to an account that the request may write.
    pub fn new(address: Address, is_signer: bool) -> (meta: AccountMeta)
        ensures
            meta == (AccountMeta { address, is_signer, is_writable: true }),
    {
        AccountMeta { address, is_signer, is_writable: true }
    }

    /// A reference to an account that the request only reads.
    pub fn new_readonly(address: Address, is_signer: bool) -> (meta: AccountMeta)
        ensures
            meta == (AccountMeta { address, is_signer, is_writable: false }),
    {
        AccountMeta { address, is_signer, is_writable: false }
    }
}

/// An encoded request.
#[derive(Clone, Debug, PartialEq, Eq)]
pub struct Instruction {
    pub program_id: Address,
    pub accounts: Vec<AccountMeta>,
    pub data: Vec<u8>,
}

/// An encoded request as plain values.
pub struct InstructionView {
    pub program_id: Address,
    pub accounts: Seq<AccountMeta>,
    pub data: Seq<u8>,
}

impl View for Instruction {
    type V = InstructionView;

    open spec fn view(&self) -> InstructionView {
        InstructionView {
            program_id: self.program_id,
            accounts: self.accounts@,
            data: self.data@,
        }
    }
}

/// The accounts of an initialize request.
#[derive(Clone, Copy, Debug, PartialEq, Eq)]
pub struct Initialize {
    /// The counter account to create.
    pub counter_account: Address,
    /// The identity that pays for and authorises the creation.
    pub payer: Address,
    /// The system allocator service.
    pub allocator: Address,
}

/// The accounts of an increment request.
#[derive(Clone, Copy, Debug, PartialEq, Eq)]
pub struct Increment {
    /// The counter account to advance.
    pub counter_account: Address,
    /// The identity that authorises the increment.
    pub authority: Address,
}

/// A request, before it is encoded.
#[derive(Clone, Copy, Debug, PartialEq, Eq)]
pub enum Operation {
    /// Create the counter account with count zero.
    Initialize(Initialize),
    /// Raise the count by one.
    Increment(Increment),
}

impl Operation {
    /// The request as it is encoded for `program_id`.
    pub open spec fn encoded(self, program_id: Address) -> InstructionView {
        match self {
            Operation::Initialize(request) => request.encoded(program_id),
            Operation::Increment(request) => request.encoded(program_id),
        }
    }

    /// Which of the two operations the request asks for.
    pub fn kind(&self) -> (kind: OperationKind)
        ensures
            kind == match *self {
                Operation::Initialize(_) => OperationKind::Initialize,
                Operation::Increment(_) => OperationKind::Increment,
            },
            forall|program_id: Address| #[trigger] self.encoded(program_id).data == tag_of(kind),
    {
        match self {
            Operation::Initialize(_) => OperationKind::Initialize,
            Operation::Increment(_) => OperationKind::Increment,
        }
    }

    /// Encodes the request for `program_id`.
    pub fn instruction(&self, program_id: Address) -> (instruction: Instruction)
        ensures
            instruction@ == self.encoded(program_id),
    {
        match self {
            Operation::Initialize(request) => request.instruction(program_id),
            Operation::Increment(request) => request.instruction(program_id),
        }
    }
}

impl Initialize {
    /// The account references of the request, in order: the counter account
    /// writable and not signing, the payer writable and signing, the
    /// allocator read-only.
    pub open spec fn account_metas(self) -> Seq<AccountMeta> {
        seq![
            AccountMeta { address: self.counter_account, is_signer: false, is_writable: true },
            AccountMeta { address: self.payer, is_signer: true, is_writable: true },
            AccountMeta { address: self.allocator, is_signer: false, is_writable: false },
        ]
    }

    /// The request as it is encoded for `program_id`.
    pub open spec fn encoded(self, program_id: Address) -> InstructionView {
        InstructionView {
            program_id,
            accounts: self.account_metas(),
            data: initialize_tag(),
        }
    }

    /// Builds the account references of the request.
    pub fn to_account_metas(&self) -> (metas: Vec<AccountMeta>)
        ensures
            metas@ == self.account_metas(),
    {
        let mut metas: Vec<AccountMeta> = Vec::new();
        metas.push(AccountMeta::new(self.counter_account, false));
        metas.push(AccountMeta::new(self.payer, true));
        metas.push(AccountMeta::new_readonly(self.allocator, false));
        assert(metas@ =~= self.account_metas());
        metas
    }

    /// Builds the payload of the request.
    pub fn data(&self) -> (data: Vec<u8>)
        ensures
            data@ == initialize_tag(),
    {
        OperationKind::Initialize.data()
    }

    /// Encodes the request for `program_id`.
    pub fn instruction(&self, program_id: Address) -> (instruction: Instruction)
        ensures
            instruction@ == self.encoded(program_id),
    {
        Instruction { program_id, accounts: self.to_account_metas(), data: self.data() }
    }
}

impl Increment {
    /// The account references of the request, in order: the counter account
    /// writable, the authority signing.
    pub open spec fn account_metas(self) -> Seq<AccountMeta> {
        seq![
            AccountMeta { address: self.counter_account, is_signer: false, is_writable: true },
            AccountMeta { address: self.authority, is_signer: true, is_writable: false },
        ]
    }

    /// The request as it is encoded for `program_id`.
    pub open spec fn encoded(self, program_id: Address) -> InstructionView {
        InstructionView { program_id, accounts: self.account_metas(), data: increment_tag() }
    }

    /// Builds the account references of the request.
    pub fn to_account_metas(&self) -> (metas: Vec<AccountMeta>)
        ensures
            metas@ == self.account_metas(),
    {
        let mut metas: Vec<AccountMeta> = Vec::new();
        metas.push(AccountMeta::new(self.counter_account, false));
        metas.push(AccountMeta::new_readonly(self.authority, true));
        assert(metas@ =~= self.account_metas());
        metas
    }

    /// Builds the payload of the request.
    pub fn data(&self) -> (data: Vec<u8>)
        ensures
            data@ == increment_tag(),
    {
        OperationKind::Increment.data()
    }

    /// Encodes the request for `program_id`.
    pub fn instruction(&self, program_id: Address) -> (instruction: Instruction)
        ensures
            instruction@ == self.encoded(program_id),
    {
        Instruction { program_id, accounts: self.to_account_metas(), data: self.data() }
    }
}

} // verus!
