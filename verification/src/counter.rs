//! The counter record and its fixed byte layout: an 8-byte tag followed by
//! the count as 8 little-endian bytes.

use vstd::prelude::*;
use crate::error::CounterError;

verus! {

/// Length of the tag that opens a record.
pub const DISCRIMINATOR_LEN: usize = 8;

/// Length of a whole record: the tag and the count.
pub const RECORD_LEN: usize = 16;

/// The tag that identifies a counter record.
pub const DISCRIMINATOR: [u8; 8] = [255, 176, 4, 245, 188, 253, 124, 25];

/// The tag as a sequence.
pub open spec fn discriminator() -> Seq<u8> {
    seq![255u8, 176u8, 4u8, 245u8, 188u8, 253u8, 124u8, 25u8]
}

/// The counter record.
#[derive(Clone, Copy, Debug, PartialEq, Eq, Structural)]
pub struct Counter {
    pub count: u64,
}

/// What an account's storage amounts to.
#[derive(Clone, Copy, Debug, PartialEq, Eq, Structural)]
pub enum AccountState {
    /// No storage, or storage that is still all zero.
    Uninitialized,
    /// Storage that begins with a counter record.
    Initialized { count: u64 },
    /// Anything else.
    Corrupt,
}

/// The number that eight bytes spell in little-endian order.
pub open spec fn le_value(bytes: Seq<u8>) -> nat
    recommends
        bytes.len() == 8,
{
    (bytes[0] as nat) + (bytes[1] as nat) * 0x100 + (bytes[2] as nat) * 0x1_0000
        + (bytes[3] as nat) * 0x100_0000 + (bytes[4] as nat) * 0x1_0000_0000
        + (bytes[5] as nat) * 0x100_0000_0000 + (bytes[6] as nat) * 0x1_0000_0000_0000
        + (bytes[7] as nat) * 0x100_0000_0000_0000
}

/// The eight bytes that spell `value` in little-endian order.
pub open spec fn le_bytes(value: u64) -> Seq<u8> {
    seq![
        (value % 0x100) as u8,
        (value / 0x100 % 0x100) as u8,
        (value / 0x1_0000 % 0x100) as u8,
        (value / 0x100_0000 % 0x100) as u8,
        (value / 0x1_0000_0000 % 0x100) as u8,
        (value / 0x100_0000_0000 % 0x100) as u8,
        (value / 0x1_0000_0000_0000 % 0x100) as u8,
        (value / 0x100_0000_0000_0000 % 0x100) as u8,
    ]
}

/// Dividing by a power of 256 and then by 256 is dividing by the next power.
proof fn lemma_next_digit(value: int, quotient: int, weight: int, next_weight: int)
    requires
        0 <= value,
        0 < weight,
        next_weight == 0x100 * weight,
        quotient == value / weight,
    ensures
        value / next_weight == quotient / 0x100,
{
    let rest = value % weight;
    let digit = quotient % 0x100;
    assert(value == quotient * weight + rest) by (nonlinear_arith)
        requires
            0 < weight,
            quotient == value / weight,
            rest == value % weight,
    ;
    assert(quotient * weight == (quotient / 0x100) * next_weight + digit * weight)
        by (nonlinear_arith)
        requires
            next_weight == 0x100 * weight,
            digit == quotient % 0x100,
    ;
    assert(0 <= digit * weight + rest < next_weight) by (nonlinear_arith)
        requires
            0 <= digit < 0x100,
            0 <= rest < weight,
            next_weight == 0x100 * weight,
    ;
    vstd::arithmetic::div_mod::lemma_fundamental_div_mod_converse(
        value,
        next_weight,
        quotient / 0x100,
        digit * weight + rest,
    );
}

/// Little-endian bytes spell the value they were made from.
pub proof fn lemma_le_value_of_bytes(value: u64)
    ensures
        le_bytes(value).len() == 8,
        le_value(le_bytes(value)) == value,
{
    let v = value as int;
    let q0 = v;
    let q1 = v / 0x100;
    let q2 = v / 0x1_0000;
    let q3 = v / 0x100_0000;
    let q4 = v / 0x1_0000_0000;
    let q5 = v / 0x100_0000_0000;
    let q6 = v / 0x1_0000_0000_0000;
    let q7 = v / 0x100_0000_0000_0000;
    lemma_next_digit(v, q0, 1, 0x100);
    lemma_next_digit(v, q1, 0x100, 0x1_0000);
    lemma_next_digit(v, q2, 0x1_0000, 0x100_0000);
    lemma_next_digit(v, q3, 0x100_0000, 0x1_0000_0000);
    lemma_next_digit(v, q4, 0x1_0000_0000, 0x100_0000_0000);
    lemma_next_digit(v, q5, 0x100_0000_0000, 0x1_0000_0000_0000);
    lemma_next_digit(v, q6, 0x1_0000_0000_0000, 0x100_0000_0000_0000);
    assert(q7 < 0x100);
    assert(q0 == q0 % 0x100 + 0x100 * q1);
    assert(q1 == q1 % 0x100 + 0x100 * q2);
    assert(q2 == q2 % 0x100 + 0x100 * q3);
    assert(q3 == q3 % 0x100 + 0x100 * q4);
    assert(q4 == q4 % 0x100 + 0x100 * q5);
    assert(q5 == q5 % 0x100 + 0x100 * q6);
    assert(q6 == q6 % 0x100 + 0x100 * q7);
}

/// Eight bytes are the little-endian bytes of the value they spell.
pub proof fn lemma_le_bytes_of_value(bytes: Seq<u8>)
    requires
        bytes.len() == 8,
    ensures
        le_value(bytes) <= u64::MAX,
        le_bytes(le_value(bytes) as u64) == bytes,
{
    let v = le_value(bytes) as int;
    let t7 = bytes[7] as int;
    let t6 = bytes[6] as int + 0x100 * t7;
    let t5 = bytes[5] as int + 0x100 * t6;
    let t4 = bytes[4] as int + 0x100 * t5;
    let t3 = bytes[3] as int + 0x100 * t4;
    let t2 = bytes[2] as int + 0x100 * t3;
    let t1 = bytes[1] as int + 0x100 * t2;
    assert(v == bytes[0] as int + 0x100 * t1);
    lemma_next_digit(v, v, 1, 0x100);
    assert(v / 0x100 == t1);
    lemma_next_digit(v, t1, 0x100, 0x1_0000);
    assert(v / 0x1_0000 == t2);
    lemma_next_digit(v, t2, 0x1_0000, 0x100_0000);
    assert(v / 0x100_0000 == t3);
    lemma_next_digit(v, t3, 0x100_0000, 0x1_0000_0000);
    assert(v / 0x1_0000_0000 == t4);
    lemma_next_digit(v, t4, 0x1_0000_0000, 0x100_0000_0000);
    assert(v / 0x100_0000_0000 == t5);
    lemma_next_digit(v, t5, 0x100_0000_0000, 0x1_0000_0000_0000);
    assert(v / 0x1_0000_0000_0000 == t6);
    lemma_next_digit(v, t6, 0x1_0000_0000_0000, 0x100_0000_0000_0000);
    assert(v / 0x100_0000_0000_0000 == t7);
    assert(le_bytes(v as u64) =~= bytes);
}

/// Every byte is zero; true of the empty sequence.
pub open spec fn is_zeroed(bytes: Seq<u8>) -> bool {
    forall|i: int| 0 <= i < bytes.len() ==> bytes[i] == 0
}

/// The bytes begin with a whole counter record.
pub open spec fn is_record(bytes: Seq<u8>) -> bool {
    bytes.len() >= RECORD_LEN && bytes.subrange(0, 8) == discriminator()
}

/// The count that a record's bytes hold.
pub open spec fn record_count(bytes: Seq<u8>) -> u64
    recommends
        is_record(bytes),
{
    le_value(bytes.subrange(8, 16)) as u64
}

/// The sixteen bytes of the record that holds `count`.
pub open spec fn record_bytes(count: u64) -> Seq<u8> {
    discriminator() + le_bytes(count)
}

/// `bytes` with its first sixteen bytes replaced by the record of `count`.
pub open spec fn with_record(bytes: Seq<u8>, count: u64) -> Seq<u8>
    recommends
        bytes.len() >= RECORD_LEN,
{
    record_bytes(count) + bytes.skip(16)
}

/// The state that an account's bytes stand for.
pub open spec fn state_of(bytes: Seq<u8>) -> AccountState {
    if is_record(bytes) {
        AccountState::Initialized { count: record_count(bytes) }
    } else if is_zeroed(bytes) {
        AccountState::Uninitialized
    } else {
        AccountState::Corrupt
    }
}

/// What reading a record from `bytes` gives.
pub open spec fn decoded(bytes: Seq<u8>) -> Result<Counter, CounterError> {
    match state_of(bytes) {
        AccountState::Initialized { count } => Ok(Counter { count }),
        AccountState::Uninitialized => Err(CounterError::NotInitialized),
        AccountState::Corrupt => Err(CounterError::DeserializationError),
    }
}

/// Writing back the count that was read from a record leaves the bytes as
/// they were.
pub proof fn lemma_read_then_write(bytes: Seq<u8>)
    requires
        is_record(bytes),
    ensures
        with_record(bytes, record_count(bytes)) == bytes,
{
    let field = bytes.subrange(8, 16);
    lemma_le_bytes_of_value(field);
    assert(with_record(bytes, record_count(bytes)) =~= bytes) by {
        assert forall|i: int| 0 <= i < 8 implies discriminator()[i] == bytes[i] by {
            assert(bytes.subrange(0, 8)[i] == bytes[i]);
        }
        assert forall|i: int| 8 <= i < 16 implies le_bytes(record_count(bytes))[i - 8]
            == bytes[i] by {
            assert(field[i - 8] == bytes[i]);
        }
    }
}

/// Reading after a write gives the count that was written, whatever the
/// storage held before.
pub proof fn lemma_write_then_read(bytes: Seq<u8>, count: u64)
    requires
        bytes.len() >= RECORD_LEN,
    ensures
        with_record(bytes, count).len() == bytes.len(),
        state_of(with_record(bytes, count)) == (AccountState::Initialized { count }),
        decoded(with_record(bytes, count)) == Ok::<Counter, CounterError>(Counter { count }),
{
    let written = with_record(bytes, count);
    lemma_le_value_of_bytes(count);
    assert(written.subrange(0, 8) =~= discriminator());
    assert(written.subrange(8, 16) =~= le_bytes(count));
}

/// Zeroed storage never passes for a record.
pub proof fn lemma_zeroed_is_no_record(bytes: Seq<u8>)
    requires
        is_zeroed(bytes),
    ensures
        !is_record(bytes),
        state_of(bytes) == AccountState::Uninitialized,
{
    if bytes.len() >= RECORD_LEN {
        assert(bytes.subrange(0, 8)[0] == bytes[0]);
        assert(discriminator()[0] == 255);
    }
}

/// The tag, as bytes.
pub fn discriminator_bytes() -> (tag: [u8; 8])
    ensures
        tag@ == discriminator(),
{
    let tag = DISCRIMINATOR;
    assert(tag@ =~= discriminator());
    tag
}

/// Tells whether `data` begins with a whole record.
fn begins_with_record(data: &[u8]) -> (yes: bool)
    ensures
        yes == is_record(data@),
{
    if data.len() < RECORD_LEN {
        return false;
    }
    let tag = discriminator_bytes();
    let mut i: usize = 0;
    while i < DISCRIMINATOR_LEN
        invariant
            i <= DISCRIMINATOR_LEN,
            data@.len() >= RECORD_LEN,
            tag@ == discriminator(),
            forall|j: int| 0 <= j < i ==> data@[j] == discriminator()[j],
        decreases DISCRIMINATOR_LEN - i,
    {
        if data[i] != tag[i] {
            assert(data@.subrange(0, 8)[i as int] == data@[i as int]);
            return false;
        }
        i += 1;
    }
    assert(data@.subrange(0, 8) =~= discriminator());
    true
}

/// Tells whether every byte of `data` is zero.
fn all_zero(data: &[u8]) -> (yes: bool)
    ensures
        yes == is_zeroed(data@),
{
    let mut i: usize = 0;
    while i < data.len()
        invariant
            i <= data.len(),
            forall|j: int| 0 <= j < i ==> data@[j] == 0,
        decreases data.len() - i,
    {
        if data[i] != 0 {
            return false;
        }
        i += 1;
    }
    true
}

/// Reads the count field of a record.
fn read_count(data: &[u8]) -> (count: u64)
    requires
        data@.len() >= RECORD_LEN,
    ensures
        count == le_value(data@.subrange(8, 16)),
        count == record_count(data@),
{
    let ghost field = data@.subrange(8, 16);
    proof {
        assert(field[0] == data@[8] && field[1] == data@[9] && field[2] == data@[10]
            && field[3] == data@[11]);
        assert(field[4] == data@[12] && field[5] == data@[13] && field[6] == data@[14]
            && field[7] == data@[15]);
    }
    let low: u64 = (data[8] as u64) + (data[9] as u64) * 0x100 + (data[10] as u64) * 0x1_0000 + (
    data[11] as u64) * 0x100_0000;
    let high: u64 = (data[12] as u64) + (data[13] as u64) * 0x100 + (data[14] as u64) * 0x1_0000
        + (data[15] as u64) * 0x100_0000;
    low + high * 0x1_0000_0000
}

/// The little-endian bytes of `value`.
fn le_array(value: u64) -> (bytes: [u8; 8])
    ensures
        bytes@ == le_bytes(value),
{
    let bytes: [u8; 8] = [
        (value % 0x100) as u8,
        (value / 0x100 % 0x100) as u8,
        (value / 0x1_0000 % 0x100) as u8,
        (value / 0x100_0000 % 0x100) as u8,
        (value / 0x1_0000_0000 % 0x100) as u8,
        (value / 0x100_0000_0000 % 0x100) as u8,
        (value / 0x1_0000_0000_0000 % 0x100) as u8,
        (value / 0x100_0000_0000_0000 % 0x100) as u8,
    ];
    assert(bytes@ =~= le_bytes(value));
    bytes
}

/// Classifies an account's storage.
pub fn account_state(data: &[u8]) -> (state: AccountState)
    ensures
        state == state_of(data@),
{
    if begins_with_record(data) {
        AccountState::Initialized { count: read_count(data) }
    } else if all_zero(data) {
        AccountState::Uninitialized
    } else {
        AccountState::Corrupt
    }
}

impl Counter {
    /// Reads a record from the front of `data`. Zeroed or empty storage is
    /// reported as not initialized, any other mismatch as a deserialization
    /// error; bytes after the record are ignored.
    pub fn try_deserialize(data: &[u8]) -> (read: Result<Counter, CounterError>)
        ensures
            read == decoded(data@),
    {
        match account_state(data) {
            AccountState::Initialized { count } => Ok(Counter { count }),
            AccountState::Uninitialized => Err(CounterError::NotInitialized),
            AccountState::Corrupt => Err(CounterError::DeserializationError),
        }
    }

    /// The record as sixteen bytes of its own.
    pub fn to_bytes(&self) -> (bytes: Vec<u8>)
        ensures
            bytes@ == record_bytes(self.count),
            decoded(bytes@) == Ok::<Counter, CounterError>(*self),
    {
        let tag = discriminator_bytes();
        let field = le_array(self.count);
        let mut bytes: Vec<u8> = Vec::new();
        let mut i: usize = 0;
        while i < DISCRIMINATOR_LEN
            invariant
                i <= DISCRIMINATOR_LEN,
                tag@ == discriminator(),
                bytes@ == discriminator().subrange(0, i as int),
            decreases DISCRIMINATOR_LEN - i,
        {
            bytes.push(tag[i]);
            assert(bytes@ =~= discriminator().subrange(0, i + 1));
            i += 1;
        }
        let mut k: usize = 0;
        while k < 8
            invariant
                k <= 8,
                field@ == le_bytes(self.count),
                bytes@ == discriminator() + le_bytes(self.count).subrange(0, k as int),
            decreases 8 - k,
        {
            bytes.push(field[k]);
            assert(bytes@ =~= discriminator() + le_bytes(self.count).subrange(0, k + 1));
            k += 1;
        }
        proof {
            assert(bytes@ =~= record_bytes(self.count));
            lemma_write_then_read(bytes@, self.count);
            assert(with_record(bytes@, self.count) =~= bytes@);
        }
        bytes
    }

    /// Writes the record over the first sixteen bytes of `data`, in place:
    /// the length and every later byte stay. Storage that is too short is
    /// left untouched.
    pub fn try_serialize(&self, data: &mut Vec<u8>) -> (written: Result<(), CounterError>)
        ensures
            old(data)@.len() >= RECORD_LEN ==> written is Ok && final(data)@ == with_record(
                old(data)@,
                self.count,
            ),
            old(data)@.len() < RECORD_LEN ==> written == Err::<(), CounterError>(
                CounterError::AccountTooSmall,
            ) && final(data)@ == old(data)@,
    {
        if data.len() < RECORD_LEN {
            return Err(CounterError::AccountTooSmall);
        }
        let tag = discriminator_bytes();
        let field = le_array(self.count);
        let mut i: usize = 0;
        while i < RECORD_LEN
            invariant
                i <= RECORD_LEN,
                tag@ == discriminator(),
                field@ == le_bytes(self.count),
                data@.len() == old(data)@.len(),
                data@.len() >= RECORD_LEN,
                forall|j: int| 0 <= j < i ==> data@[j] == record_bytes(self.count)[j],
                forall|j: int| i <= j < data@.len() ==> data@[j] == old(data)@[j],
            decreases RECORD_LEN - i,
        {
            let byte = if i < DISCRIMINATOR_LEN {
                tag[i]
            } else {
                field[i - DISCRIMINATOR_LEN]
            };
            data[i] = byte;
            i += 1;
        }
        assert(data@ =~= with_record(old(data)@, self.count));
        Ok(())
    }
}

} // verus!
