//! Account addresses and the derivation of program-owned addresses.

use vstd::prelude::*;

verus! {

/// Number of bytes in an address.
pub const ADDRESS_LEN: usize = 32;

/// The identity of an account, a program or a signer: 32 opaque bytes.
#[derive(Clone, Copy, Debug)]
pub struct Address {
    pub bytes: [u8; 32],
}

impl PartialEq for Address {
    fn eq(&self, other: &Address) -> (equal: bool) {
        let mut i: usize = 0;
        while i < ADDRESS_LEN
            invariant
                i <= ADDRESS_LEN,
                forall|j: int| 0 <= j < i ==> self.bytes@[j] == other.bytes@[j],
            decreases ADDRESS_LEN - i,
        {
            if self.bytes[i] != other.bytes[i] {
                return false;
            }
            i += 1;
        }
        proof {
            assert(self.bytes =~= other.bytes);
        }
        true
    }
}

impl Eq for Address {

}

impl vstd::std_specs::cmp::PartialEqSpecImpl for Address {
    open spec fn obeys_eq_spec() -> bool {
        true
    }

    open spec fn eq_spec(&self, other: &Address) -> bool {
        *self == *other
    }
}

impl View for Address {
    type V = Seq<u8>;

    open spec fn view(&self) -> Seq<u8> {
        self.bytes@
    }
}

/// Two addresses are the same value exactly when they hold the same bytes.
pub proof fn lemma_address_by_bytes(a: Address, b: Address)
    ensures
        (a@ == b@) <==> (a == b),
{
    if a@ == b@ {
        assert(a.bytes =~= b.bytes);
    }
}

/// What `Pubkey::try_find_program_address` yields for one seed and an owning
/// program: the bytes of the address and its bump seed, or `None` where the
/// platform finds no address.
pub uninterp spec fn derived_address(seed: Seq<u8>, owner: Seq<u8>) -> Option<(Seq<u8>, u8)>;

/// The address that belongs to `owner` under `seed`, without its bump seed.
pub open spec fn address_for(seed: Seq<u8>, owner: Seq<u8>) -> Option<Seq<u8>> {
    match derived_address(seed, owner) {
        Some((address, _)) => Some(address),
        None => None,
    }
}

/// Calls `anchor_lang::prelude::Pubkey::try_find_program_address` with the
/// single seed `seed` and the program `owner`, and hands back what it found
/// as an `Address` with its bump seed.
///
/// Not proved: that the outcome is `derived_address` of the two arguments,
/// which is to say that the platform's derivation depends on nothing but
/// the seed and the owner. Nothing is claimed of which address comes out.
#[verifier::external_body]
fn try_find_program_address(seed: &[u8], owner: &Address) -> (found: Option<(Address, u8)>)
    ensures
        match found {
            Some((address, bump)) => derived_address(seed@, owner@) == Some((address@, bump)),
            None => derived_address(seed@, owner@) is None,
        },
{
    let program_id = anchor_lang::prelude::Pubkey::new_from_array(owner.bytes);
    match anchor_lang::prelude::Pubkey::try_find_program_address(&[seed], &program_id) {
        Some((key, bump)) => Some((Address { bytes: key.to_bytes() }, bump)),
        None => None,
    }
}

/// Derives the address that belongs to `owner` under `seed`; `None` where
/// the platform finds none.
pub fn derive_address(seed: &[u8], owner: &Address) -> (found: Option<Address>)
    ensures
        match found {
            Some(address) => address_for(seed@, owner@) == Some(address@),
            None => address_for(seed@, owner@) is None,
        },
{
    match try_find_program_address(seed, owner) {
        Some((address, _)) => Some(address),
        None => None,
    }
}

/// The seed under which the program's one counter account is derived.
pub const COUNTER_SEED: [u8; 7] = [99, 111, 117, 110, 116, 101, 114];

/// The seed of the counter account, as a sequence: the ASCII of `counter`.
pub open spec fn counter_seed() -> Seq<u8> {
    seq![99u8, 111u8, 117u8, 110u8, 116u8, 101u8, 114u8]
}

/// The address of the system allocator service: thirty-two zero bytes.
pub open spec fn system_program() -> Address {
    Address {
        bytes: [
            0u8, 0u8, 0u8, 0u8, 0u8, 0u8, 0u8, 0u8, 0u8, 0u8, 0u8, 0u8, 0u8, 0u8, 0u8, 0u8,
            0u8, 0u8, 0u8, 0u8, 0u8, 0u8, 0u8, 0u8, 0u8, 0u8, 0u8, 0u8, 0u8, 0u8, 0u8, 0u8,
        ],
    }
}

/// The address of the system allocator service.
pub fn system_program_id() -> (id: Address)
    ensures
        id == system_program(),
{
    let id = Address { bytes: [0u8; 32] };
    proof {
        assert(id@ =~= system_program()@);
        lemma_address_by_bytes(id, system_program());
    }
    id
}

/// Derives the address of the counter account that belongs to `program_id`.
pub fn counter_address(program_id: &Address) -> (found: Option<Address>)
    ensures
        match found {
            Some(address) => address_for(counter_seed(), program_id@) == Some(address@),
            None => address_for(counter_seed(), program_id@) is None,
        },
{
    let seed = COUNTER_SEED;
    assert(seed@ =~= counter_seed());
    derive_address(seed.as_slice(), program_id)
}

} // verus!
