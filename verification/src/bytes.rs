//! Byte sequences.

use vstd::prelude::*;

verus! {

/// Whether two byte sequences are the same.
pub fn bytes_equal(left: &[u8], right: &[u8]) -> (equal: bool)
    ensures
        equal <==> left@ == right@,
{
    if left.len() != right.len() {
        return false;
    }
    let mut index: usize = 0;
    while index < left.len()
        invariant
            left@.len() == right@.len(),
            index <= left@.len(),
            forall|i: int| 0 <= i < index ==> left@[i] == right@[i],
        decreases left@.len() - index,
    {
        if left[index] != right[index] {
            return false;
        }
        index = index + 1;
    }
    assert(left@ =~= right@);
    true
}

/// A copy of a byte sequence.
pub fn copy_bytes(bytes: &[u8]) -> (copy: Vec<u8>)
    ensures
        copy@ == bytes@,
{
    copy_range(bytes, 0, bytes.len())
}

/// A copy of the bytes from `start` up to `end`.
pub fn copy_range(bytes: &[u8], start: usize, end: usize) -> (copy: Vec<u8>)
    requires
        start <= end <= bytes@.len(),
    ensures
        copy@ == bytes@.subrange(start as int, end as int),
{
    let mut copy: Vec<u8> = Vec::with_capacity(end - start);
    let mut index: usize = start;
    while index < end
        invariant
            start <= index <= end <= bytes@.len(),
            copy@ == bytes@.subrange(start as int, index as int),
        decreases end - index,
    {
        copy.push(bytes[index]);
        index = index + 1;
        assert(copy@ =~= bytes@.subrange(start as int, index as int));
    }
    copy
}

/// Appends the bytes of `more`.
pub fn append_bytes(bytes: &mut Vec<u8>, more: &[u8])
    ensures
        final(bytes)@ == old(bytes)@ + more@,
{
    let mut index: usize = 0;
    while index < more.len()
        invariant
            index <= more@.len(),
            bytes@ == old(bytes)@ + more@.subrange(0, index as int),
        decreases more@.len() - index,
    {
        bytes.push(more[index]);
        index = index + 1;
        assert(bytes@ =~= old(bytes)@ + more@.subrange(0, index as int));
    }
    assert(more@.subrange(0, more@.len() as int) =~= more@);
}

/// The number that the bytes write, from the highest.
pub open spec fn be_value(bytes: Seq<u8>) -> nat
    decreases bytes.len(),
{
    if bytes.len() == 0 {
        0
    } else {
        be_value(bytes.drop_last()) * 256 + bytes.last() as nat
    }
}

/// The lowest `length` bytes of a number, from the highest.
pub open spec fn be_bytes(value: nat, length: nat) -> Seq<u8>
    decreases length,
{
    if length == 0 {
        Seq::empty()
    } else {
        be_bytes(value / 256, (length - 1) as nat).push((value % 256) as u8)
    }
}

/// One more than the greatest number that `length` bytes can write.
pub open spec fn be_limit(length: nat) -> nat
    decreases length,
{
    if length == 0 {
        1
    } else {
        be_limit((length - 1) as nat) * 256
    }
}

/// `length` bytes are written.
pub proof fn lemma_be_len(value: nat, length: nat)
    ensures
        be_bytes(value, length).len() == length,
    decreases length,
{
    if length > 0 {
        lemma_be_len(value / 256, (length - 1) as nat);
    }
}

/// A number that is written is read again.
pub proof fn law_be_read_gives_what_was_written(value: nat, length: nat)
    requires
        value < be_limit(length),
    ensures
        be_value(be_bytes(value, length)) == value,
        be_bytes(value, length).len() == length,
    decreases length,
{
    if length > 0 {
        law_be_read_gives_what_was_written(value / 256, (length - 1) as nat);
        assert(be_bytes(value, length).drop_last() =~= be_bytes(
            value / 256,
            (length - 1) as nat,
        ));
    }
}

/// Bytes that are read are written again, and write a number within the limit.
pub proof fn law_be_write_gives_what_was_read(bytes: Seq<u8>)
    ensures
        be_bytes(be_value(bytes), bytes.len()) == bytes,
        be_value(bytes) < be_limit(bytes.len()),
    decreases bytes.len(),
{
    if bytes.len() > 0 {
        law_be_write_gives_what_was_read(bytes.drop_last());
        assert(be_value(bytes) / 256 == be_value(bytes.drop_last()));
        assert(bytes.drop_last().push(bytes.last()) =~= bytes);
    }
}

/// The limits of the machine's integers.
pub proof fn lemma_be_limits()
    ensures
        be_limit(1) == 0x100,
        be_limit(2) == 0x1_0000,
        be_limit(4) == 0x1_0000_0000,
        be_limit(8) == 0x1_0000_0000_0000_0000,
        be_limit(16) == 0x1_0000_0000_0000_0000_0000_0000_0000_0000,
{
    reveal_with_fuel(be_limit, 17);
}

proof fn lemma_be_limit_grows(less: nat, more: nat)
    requires
        less <= more,
    ensures
        be_limit(less) <= be_limit(more),
    decreases more - less,
{
    if less < more {
        lemma_be_limit_grows(less, (more - 1) as nat);
    }
}

/// Appends the lowest `length` bytes of a number, from the highest.
pub fn push_be(bytes: &mut Vec<u8>, value: u128, length: usize)
    ensures
        final(bytes)@ == old(bytes)@ + be_bytes(value as nat, length as nat),
    decreases length,
{
    if length > 0 {
        push_be(bytes, value / 256, length - 1);
        bytes.push((value % 256) as u8);
        assert(bytes@ =~= old(bytes)@ + be_bytes(value as nat, length as nat));
    } else {
        assert(bytes@ =~= old(bytes)@ + be_bytes(value as nat, length as nat));
    }
}

/// The number that `length` bytes from `start` write, from the highest.
pub fn read_be(bytes: &[u8], start: usize, length: usize) -> (value: u128)
    requires
        length <= 16,
        start + length <= bytes@.len(),
    ensures
        value == be_value(bytes@.subrange(start as int, start + length)),
        value < be_limit(length as nat),
{
    let total: usize = bytes.len();
    let mut value: u128 = 0;
    let mut index: usize = 0;
    assert(bytes@.subrange(start as int, start as int) =~= Seq::empty());
    while index < length
        invariant
            index <= length <= 16,
            start + length <= bytes@.len() == total,
            value == be_value(bytes@.subrange(start as int, start + index)),
            value < be_limit(index as nat),
        decreases length - index,
    {
        let ghost next = bytes@.subrange(start as int, start + index + 1);
        proof {
            lemma_be_limits();
            lemma_be_limit_grows((index + 1) as nat, 16);
            assert(next.drop_last() =~= bytes@.subrange(start as int, start + index));
            assert(next.last() == bytes@[start + index]);
        }
        value = value * 256 + bytes[start + index] as u128;
        index = index + 1;
    }
    value
}

} // verus!
