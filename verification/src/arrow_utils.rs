//! Bit level helpers over the byte buffers that hold validity and boolean columns.
//!
//! Bit `i` of a buffer is bit `i % 8`, counted from the least significant, of byte `i / 8`.

use vstd::prelude::*;

verus! {

/// Bit `k` of a byte, counted from the least significant.
pub open spec fn byte_bit(byte: u8, k: u8) -> bool {
    (byte >> k) & 1u8 == 1u8
}

/// Bit `i` of a buffer.
pub open spec fn bit_at(buffer: Seq<u8>, i: int) -> bool {
    byte_bit(buffer[i / 8], (i % 8) as u8)
}

/// The number of whole bytes that hold `bits` bits.
pub open spec fn bytes_for_bits(bits: int) -> int {
    (bits + 7) / 8
}

/// `arrow::util::bit_util::get_bit`: reads bit `i` of the slice.
pub assume_specification[ arrow::util::bit_util::get_bit ](data: &[u8], i: usize) -> (r: bool)
    requires
        i / 8 < data@.len(),
    ensures
        r == bit_at(data@, i as int),
;

/// `arrow::util::bit_util::set_bit`: sets bit `i` of the slice and leaves every other bit alone.
pub assume_specification[ arrow::util::bit_util::set_bit ](data: &mut [u8], i: usize)
    requires
        i / 8 < old(data)@.len(),
    ensures
        final(data)@.len() == old(data)@.len(),
        forall|j: int|
            0 <= j < old(data)@.len() * 8 ==> #[trigger] bit_at(final(data)@, j) == (j == i || bit_at(
                old(data)@,
                j,
            )),
;

/// `arrow::util::bit_util::unset_bit`: clears bit `i` of the slice and leaves every other bit alone.
pub assume_specification[ arrow::util::bit_util::unset_bit ](data: &mut [u8], i: usize)
    requires
        i / 8 < old(data)@.len(),
    ensures
        final(data)@.len() == old(data)@.len(),
        forall|j: int|
            0 <= j < old(data)@.len() * 8 ==> #[trigger] bit_at(final(data)@, j) == (j != i && bit_at(
                old(data)@,
                j,
            )),
;

/// `arrow::util::bit_util::ceil`: the quotient of the two numbers, rounded up.
pub assume_specification[ arrow::util::bit_util::ceil ](value: usize, divisor: usize) -> (r: usize)
    requires
        divisor > 0,
    ensures
        r == (value + divisor - 1) / (divisor as int),
;

/// Sets byte `i` to the bitwise or of itself and `mask`.
fn or_byte(buffer: &mut Vec<u8>, i: usize, mask: u8)
    requires
        i < old(buffer)@.len(),
    ensures
        final(buffer)@ == old(buffer)@.update(i as int, old(buffer)@[i as int] | mask),
{
    let byte: u8 = buffer[i] | mask;
    buffer.set(i, byte);
}

/// Overwrites the bytes `from..to` with `0xFF`.
fn fill_bytes(buffer: &mut Vec<u8>, from: usize, to: usize)
    requires
        from <= to <= old(buffer)@.len(),
    ensures
        final(buffer)@.len() == old(buffer)@.len(),
        forall|i: int|
            0 <= i < old(buffer)@.len() ==> #[trigger] final(buffer)@[i] == (if from <= i < to {
                0xFFu8
            } else {
                old(buffer)@[i]
            }),
{
    let mut i: usize = from;
    while i < to
        invariant
            from <= i <= to <= buffer@.len(),
            buffer@.len() == old(buffer)@.len(),
            forall|j: int|
                0 <= j < old(buffer)@.len() ==> #[trigger] buffer@[j] == (if from <= j < i {
                    0xFFu8
                } else {
                    old(buffer)@[j]
                }),
        decreases to - i,
    {
        buffer.set(i, 0xFFu8);
        i = i + 1;
    }
}

proof fn lemma_or_bit(a: u8, b: u8, k: u8)
    requires
        k < 8,
    ensures
        byte_bit(a | b, k) == (byte_bit(a, k) || byte_bit(b, k)),
{
    assert(k < 8 ==> ((((a | b) >> k) & 1u8 == 1u8) == ((a >> k) & 1u8 == 1u8 || (b >> k) & 1u8
        == 1u8))) by (bit_vector);
}

proof fn lemma_masks(start: u8, end: u8, k: u8)
    requires
        start < 8,
        end < 8,
        k < 8,
    ensures
        byte_bit(0xFFu8, k),
        byte_bit(0xFFu8 << start, k) == (start <= k),
        byte_bit(0xFFu8 >> ((7 - end) as u8), k) == (k <= end),
        byte_bit((0xFFu8 << start) & (0xFFu8 >> ((7 - end) as u8)), k) == (start <= k <= end),
{
    assert(start < 8 && end < 8 && k < 8 ==> ((0xFFu8 >> k) & 1u8 == 1u8) && ((((0xFFu8 << start)
        >> k) & 1u8 == 1u8) == (start <= k)) && ((((0xFFu8 >> ((7 - end) as u8)) >> k) & 1u8 == 1u8)
        == (k <= end)) && (((((0xFFu8 << start) & (0xFFu8 >> ((7 - end) as u8))) >> k) & 1u8 == 1u8)
        == (start <= k && k <= end))) by (bit_vector);
}

/// Sets the first `count` bits of the buffer.
pub fn fill_bits_from_start_unchecked(buffer: &mut Vec<u8>, count: usize)
    requires
        count <= old(buffer)@.len() * 8,
    ensures
        final(buffer)@.len() == old(buffer)@.len(),
        forall|i: int|
            0 <= i < old(buffer)@.len() * 8 ==> #[trigger] bit_at(final(buffer)@, i) == (i < count
                || bit_at(old(buffer)@, i)),
{
    if count == 0 {
        return;
    }
    let full_bytes: usize = count / 8;
    let remainder_bits: usize = count % 8;
    if full_bytes > 0 {
        fill_bytes(buffer, 0, full_bytes);
    }
    let ghost filled = buffer@;
    if remainder_bits > 0 {
        let mask: u8 = 0xFFu8 >> ((8 - remainder_bits) as u8);
        or_byte(buffer, full_bytes, mask);
    }
    proof {
        assert forall|i: int| 0 <= i < old(buffer)@.len() * 8 implies #[trigger] bit_at(buffer@, i)
            == (i < count || bit_at(old(buffer)@, i)) by {
            let k: u8 = (i % 8) as u8;
            if remainder_bits > 0 {
                let end: u8 = (remainder_bits - 1) as u8;
                lemma_masks(0, end, k);
                assert((8 - remainder_bits) as u8 == (7 - end) as u8);
                lemma_or_bit(filled[i / 8], 0xFFu8 >> ((8 - remainder_bits) as u8), k);
            } else {
                lemma_masks(0, 0, k);
            }
        }
    }
}

/// Sets the bits `start_bit_inclusive..end_bit_exclusive` of the buffer.
pub fn fill_bit_range_unchecked(
    buffer: &mut Vec<u8>,
    start_bit_inclusive: usize,
    end_bit_exclusive: usize,
)
    requires
        start_bit_inclusive <= end_bit_exclusive <= old(buffer)@.len() * 8,
    ensures
        final(buffer)@.len() == old(buffer)@.len(),
        forall|i: int|
            0 <= i < old(buffer)@.len() * 8 ==> #[trigger] bit_at(final(buffer)@, i) == (
            start_bit_inclusive <= i < end_bit_exclusive || bit_at(old(buffer)@, i)),
{
    if start_bit_inclusive == end_bit_exclusive {
        return;
    }
    let start_byte: usize = start_bit_inclusive / 8;
    let end_byte: usize = (end_bit_exclusive - 1) / 8;
    let start_bit: u8 = (start_bit_inclusive % 8) as u8;
    let end_bit: u8 = ((end_bit_exclusive - 1) % 8) as u8;
    if start_byte == end_byte {
        let mask: u8 = (0xFFu8 << start_bit) & (0xFFu8 >> (7 - end_bit));
        or_byte(buffer, start_byte, mask);
        proof {
            assert forall|i: int| 0 <= i < old(buffer)@.len() * 8 implies #[trigger] bit_at(
                buffer@,
                i,
            ) == (start_bit_inclusive <= i < end_bit_exclusive || bit_at(old(buffer)@, i)) by {
                let k: u8 = (i % 8) as u8;
                lemma_masks(start_bit, end_bit, k);
                lemma_or_bit(old(buffer)@[i / 8], mask, k);
            }
        }
        return;
    }
    or_byte(buffer, start_byte, 0xFFu8 << start_bit);
    fill_bytes(buffer, start_byte + 1, end_byte);
    or_byte(buffer, end_byte, 0xFFu8 >> (7 - end_bit));
    proof {
        assert forall|i: int| 0 <= i < old(buffer)@.len() * 8 implies #[trigger] bit_at(buffer@, i)
            == (start_bit_inclusive <= i < end_bit_exclusive || bit_at(old(buffer)@, i)) by {
            let k: u8 = (i % 8) as u8;
            lemma_masks(start_bit, end_bit, k);
            lemma_or_bit(old(buffer)@[i / 8], 0xFFu8 << start_bit, k);
            lemma_or_bit(old(buffer)@[i / 8], 0xFFu8 >> ((7 - end_bit) as u8), k);
        }
    }
}

/// A buffer of zero bits, long enough for `bit_length` bits.
pub fn new_null_buffer(bit_length: usize) -> (buffer: Vec<u8>)
    ensures
        buffer@.len() == bytes_for_bits(bit_length as int),
        forall|i: int| 0 <= i < buffer@.len() ==> #[trigger] buffer@[i] == 0u8,
        forall|i: int| 0 <= i < buffer@.len() * 8 ==> !#[trigger] bit_at(buffer@, i),
{
    let length: usize = arrow::util::bit_util::ceil(bit_length, 8);
    let mut buffer: Vec<u8> = Vec::new();
    buffer.resize(length, 0u8);
    proof {
        assert forall|i: int| 0 <= i < buffer@.len() * 8 implies !#[trigger] bit_at(
            buffer@,
            i,
        ) by {
            let k: u8 = (i % 8) as u8;
            assert(k < 8 ==> (0u8 >> k) & 1u8 != 1u8) by (bit_vector);
        }
    }
    buffer
}

/// A buffer of `byte_length` bytes whose bits are all set.
pub fn new_set_buffer(byte_length: usize) -> (buffer: Vec<u8>)
    ensures
        buffer@.len() == byte_length,
        forall|i: int| 0 <= i < byte_length * 8 ==> #[trigger] bit_at(buffer@, i),
{
    let mut buffer: Vec<u8> = Vec::new();
    buffer.resize(byte_length, 0xFFu8);
    proof {
        assert forall|i: int| 0 <= i < byte_length * 8 implies #[trigger] bit_at(buffer@, i) by {
            lemma_masks(0, 0, (i % 8) as u8);
        }
    }
    buffer
}

/// Marks entry `index` as null in a validity buffer. One of `byte_length` bytes is made, with every
/// entry valid, if there is none yet.
pub fn push_null(null_buffer: &mut Option<Vec<u8>>, index: usize, byte_length: usize)
    requires
        match *old(null_buffer) {
            Some(buffer) => index < buffer@.len() * 8,
            None => index < byte_length * 8,
        },
    ensures
        *final(null_buffer) matches Some(buffer) && {
            &&& buffer@.len() == (match *old(null_buffer) {
                Some(before) => before@.len(),
                None => byte_length as nat,
            })
            &&& forall|i: int|
                0 <= i < buffer@.len() * 8 ==> #[trigger] bit_at(buffer@, i) == (i != index
                    && (match *old(null_buffer) {
                    Some(before) => bit_at(before@, i),
                    None => true,
                }))
        },
{
    let mut buffer: Vec<u8> = match null_buffer.take() {
        Some(buffer) => buffer,
        None => new_set_buffer(byte_length),
    };
    arrow::util::bit_util::unset_bit(buffer.as_mut_slice(), index);
    *null_buffer = Some(buffer);
}

/// Gives `nulls` a validity buffer for `bit_length` entries whose first `fill_count` are valid,
/// unless it has one already.
pub fn ensure_nulls_unchecked(nulls: &mut Option<Vec<u8>>, bit_length: usize, fill_count: usize)
    requires
        fill_count <= bit_length,
    ensures
        *old(nulls) is Some ==> *final(nulls) == *old(nulls),
        *old(nulls) is None ==> {
            &&& *final(nulls) matches Some(buffer)
            &&& buffer@.len() == bytes_for_bits(bit_length as int)
            &&& forall|i: int|
                0 <= i < buffer@.len() * 8 ==> #[trigger] bit_at(buffer@, i) == (i < fill_count)
        },
{
    if nulls.is_none() {
        let mut buffer: Vec<u8> = new_null_buffer(bit_length);
        fill_bits_from_start_unchecked(&mut buffer, fill_count);
        *nulls = Some(buffer);
    }
}

/// Copies the first `count` bytes of `source` over the bytes of `destination` from
/// `destination_offset` on.
pub fn fill_from_slice_unchecked(
    source: &[u8],
    destination: &mut Vec<u8>,
    destination_offset: usize,
    count: usize,
)
    requires
        count <= source@.len(),
        destination_offset + count <= old(destination)@.len(),
    ensures
        final(destination)@.len() == old(destination)@.len(),
        forall|i: int|
            0 <= i < old(destination)@.len() ==> #[trigger] final(destination)@[i] == (if
            destination_offset <= i < destination_offset + count {
                source@[i - destination_offset]
            } else {
                old(destination)@[i]
            }),
{
    let length: usize = destination.len();
    let mut i: usize = 0;
    while i < count
        invariant
            i <= count <= source@.len(),
            length == destination@.len(),
            destination_offset + count <= destination@.len(),
            destination@.len() == old(destination)@.len(),
            forall|j: int|
                0 <= j < destination@.len() ==> #[trigger] destination@[j] == (if destination_offset
                    <= j < destination_offset + i {
                    source@[j - destination_offset]
                } else {
                    old(destination)@[j]
                }),
        decreases count - i,
    {
        destination.set(destination_offset + i, source[i]);
        i = i + 1;
    }
}

}
