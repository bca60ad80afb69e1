use anchor_counter::address::{
    counter_address, derive_address, system_program_id, Address, COUNTER_SEED,
};
use anchor_counter::counter::{discriminator_bytes, DISCRIMINATOR};
use anchor_counter::instruction::{INCREMENT_TAG, INITIALIZE_TAG};
use anchor_counter::processor::{id, Program};
use anchor_lang::prelude::Pubkey;
use anchor_lang::solana_program::hash::hash;

fn key(address: &Address) -> Pubkey {
    Pubkey::new_from_array(address.bytes)
}

#[test]
fn program_id_is_the_declared_one() {
    assert_eq!(
        key(&id()).to_string(),
        "BManGV3uwhHypt6FDZsHcdQHDsUZDLCYSfCEQ1j81xFu"
    );
}

#[test]
fn system_program_is_the_platform_one() {
    assert_eq!(
        system_program_id().bytes,
        anchor_lang::system_program::ID.to_bytes()
    );
}

#[test]
fn counter_seed_is_the_word_counter() {
    assert_eq!(&COUNTER_SEED, b"counter");
}

#[test]
fn derived_address_is_the_platform_one() {
    let (expected, _) = Pubkey::find_program_address(&[b"counter"], &key(&id()));
    let found = derive_address(b"counter", &id()).unwrap();
    assert_eq!(found.bytes, expected.to_bytes());
    assert_ne!(found, id());
    assert_eq!(counter_address(&id()), Some(found));
    assert_eq!(Program::new(id()).unwrap().counter_address, found);
    assert_eq!(Program::new(id()).unwrap().id, id());
}

#[test]
fn derived_address_depends_on_seed_and_owner() {
    let counter = derive_address(b"counter", &id()).unwrap();
    let bogus = derive_address(b"counter_bad", &id()).unwrap();
    assert_ne!(counter, bogus);
    let (expected, _) = Pubkey::find_program_address(&[b"counter_bad"], &key(&id()));
    assert_eq!(bogus.bytes, expected.to_bytes());

    let other_owner = Address { bytes: [9u8; 32] };
    let elsewhere = derive_address(b"counter", &other_owner).unwrap();
    assert_ne!(counter, elsewhere);
    assert!(!key(&counter).is_on_curve());
}

#[test]
fn derivation_fails_for_a_seed_that_is_too_long() {
    assert_eq!(derive_address(&[1u8; 33], &id()), None);
    assert!(derive_address(&[1u8; 32], &id()).is_some());
}

#[test]
fn record_tag_is_the_hash_prefix_of_the_account_name() {
    assert_eq!(
        &DISCRIMINATOR[..],
        &hash(b"account:Counter").to_bytes()[..8]
    );
    assert_eq!(discriminator_bytes(), DISCRIMINATOR);
}

#[test]
fn operation_tags_are_the_hash_prefixes_of_the_method_names() {
    assert_eq!(
        &INITIALIZE_TAG[..],
        &hash(b"global:initialize").to_bytes()[..8]
    );
    assert_eq!(
        &INCREMENT_TAG[..],
        &hash(b"global:increment").to_bytes()[..8]
    );
}
