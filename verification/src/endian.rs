//! Unsigned integers of fixed width as the bytes that an image stores them in.

use vstd::arithmetic::div_mod::lemma_div_denominator;
use vstd::arithmetic::power::{lemma_pow0, lemma_pow_increases, lemma_pow_positive, pow};
use vstd::prelude::*;

verus! {

/// The order in which an image stores the bytes of an integer.
#[derive(Debug, Clone, Copy, PartialEq, Eq, Structural)]
pub enum Endian {
    /// The lowest byte first.
    Little,
    /// The highest byte first.
    Big,
}

/// The integer that `bytes` store, the lowest byte first.
pub open spec fn le_value(bytes: Seq<u8>) -> nat
    decreases bytes.len(),
{
    if bytes.len() == 0 {
        0
    } else {
        bytes[0] as nat + 0x100 * le_value(bytes.drop_first())
    }
}

/// The `width` lowest bytes of `value`, the lowest byte first.
pub open spec fn le_bytes(value: nat, width: nat) -> Seq<u8>
    decreases width,
{
    if width == 0 {
        Seq::empty()
    } else {
        seq![(value % 0x100) as u8] + le_bytes(value / 0x100, (width - 1) as nat)
    }
}

impl Endian {
    /// The integer that `bytes` store in this order.
    pub open spec fn value(self, bytes: Seq<u8>) -> nat {
        match self {
            Endian::Little => le_value(bytes),
            Endian::Big => le_value(bytes.reverse()),
        }
    }

    /// The `width` bytes that store `value` in this order.
    pub open spec fn bytes(self, value: nat, width: nat) -> Seq<u8> {
        match self {
            Endian::Little => le_bytes(value, width),
            Endian::Big => le_bytes(value, width).reverse(),
        }
    }

    /// Reading an integer gives back what writing it stored.
    pub proof fn lemma_value_of_bytes(self, value: nat, width: nat)
        requires
            value < pow(0x100, width),
        ensures
            self.bytes(value, width).len() == width,
            self.value(self.bytes(value, width)) == value,
    {
        lemma_le_value_of_bytes(value, width);
        assert(le_bytes(value, width).reverse().reverse() == le_bytes(value, width));
    }

    /// Writing an integer gives back the bytes it was read from.
    pub proof fn lemma_bytes_of_value(self, bytes: Seq<u8>)
        ensures
            self.value(bytes) < pow(0x100, bytes.len()),
            self.bytes(self.value(bytes), bytes.len()) == bytes,
    {
        match self {
            Endian::Little => lemma_le_bytes_of_value(bytes),
            Endian::Big => {
                lemma_le_bytes_of_value(bytes.reverse());
                assert(bytes.reverse().reverse() == bytes);
            },
        }
    }
}

/// The ranges of one, two, four and eight bytes.
pub proof fn lemma_widths()
    ensures
        pow(0x100, 1) == 0x100,
        pow(0x100, 2) == 0x1_0000,
        pow(0x100, 4) == 0x1_0000_0000,
        pow(0x100, 8) == 0x1_0000_0000_0000_0000,
{
    reveal_with_fuel(pow, 9);
}

proof fn lemma_le_value_of_bytes(value: nat, width: nat)
    requires
        value < pow(0x100, width),
    ensures
        le_bytes(value, width).len() == width,
        le_value(le_bytes(value, width)) == value,
    decreases width,
{
    reveal(pow);
    if width > 0 {
        let rest = le_bytes(value / 0x100, (width - 1) as nat);
        lemma_le_value_of_bytes(value / 0x100, (width - 1) as nat);
        assert(le_bytes(value, width).drop_first() == rest);
    }
}

proof fn lemma_le_bytes_of_value(bytes: Seq<u8>)
    ensures
        le_value(bytes) < pow(0x100, bytes.len()),
        le_bytes(le_value(bytes), bytes.len()) == bytes,
    decreases bytes.len(),
{
    reveal(pow);
    if bytes.len() > 0 {
        let rest = bytes.drop_first();
        lemma_le_bytes_of_value(rest);
        assert(le_value(bytes) % 0x100 == bytes[0] as nat);
        assert(le_value(bytes) / 0x100 == le_value(rest));
        assert(seq![bytes[0]] + rest == bytes);
    }
}

/// An integer of two bytes: its low byte comes first or last.
pub proof fn law_value_of_two(endian: Endian, bytes: Seq<u8>)
    requires
        bytes.len() == 2,
    ensures
        endian is Little ==> endian.value(bytes) == bytes[0] + 0x100 * bytes[1],
        endian is Big ==> endian.value(bytes) == bytes[1] + 0x100 * bytes[0],
{
    reveal_with_fuel(le_value, 3);
}

/// An integer of four bytes: each is worth 256 times the one before it, from the low end on.
pub proof fn law_value_of_four(endian: Endian, bytes: Seq<u8>)
    requires
        bytes.len() == 4,
    ensures
        endian is Little ==> endian.value(bytes) == bytes[0] + 0x100 * bytes[1] + 0x1_0000
            * bytes[2] + 0x100_0000 * bytes[3],
        endian is Big ==> endian.value(bytes) == bytes[3] + 0x100 * bytes[2] + 0x1_0000 * bytes[1]
            + 0x100_0000 * bytes[0],
{
    reveal_with_fuel(le_value, 5);
}

/// An integer of eight bytes: its halves are integers of four bytes.
pub proof fn law_value_of_eight(endian: Endian, bytes: Seq<u8>)
    requires
        bytes.len() == 8,
    ensures
        endian is Little ==> endian.value(bytes) == bytes[0] + 0x100 * bytes[1] + 0x1_0000
            * bytes[2] + 0x100_0000 * bytes[3] + 0x1_0000_0000 * (bytes[4] + 0x100 * bytes[5]
            + 0x1_0000 * bytes[6] + 0x100_0000 * bytes[7]),
        endian is Big ==> endian.value(bytes) == bytes[7] + 0x100 * bytes[6] + 0x1_0000 * bytes[5]
            + 0x100_0000 * bytes[4] + 0x1_0000_0000 * (bytes[3] + 0x100 * bytes[2] + 0x1_0000
            * bytes[1] + 0x100_0000 * bytes[0]),
{
    reveal_with_fuel(le_value, 9);
}

/// The byte at a place of an integer is its digit to the base 256 there, counted from the low end;
/// the integer is less than what one more digit would be worth.
pub proof fn law_value_digits(endian: Endian, bytes: Seq<u8>, place: nat)
    requires
        place < bytes.len(),
    ensures
        endian.value(bytes) < pow(0x100, bytes.len()),
        endian is Little ==> endian.value(bytes) as int / pow(0x100, place) % 0x100 == bytes[
            place as int],
        endian is Big ==> endian.value(bytes) as int / pow(0x100, place) % 0x100 == bytes[
            bytes.len() - 1 - place],
{
    match endian {
        Endian::Little => {
            lemma_le_bytes_of_value(bytes);
            lemma_le_digit(bytes, place);
        },
        Endian::Big => {
            lemma_le_bytes_of_value(bytes.reverse());
            lemma_le_digit(bytes.reverse(), place);
        },
    }
}

/// The bytes that are written for an integer are its digits to the base 256, from the low end or
/// from the high end on; digits that do not fit are left out.
pub proof fn law_bytes_digits(endian: Endian, value: nat, width: nat, place: nat)
    requires
        place < width,
    ensures
        endian.bytes(value, width).len() == width,
        endian is Little ==> endian.bytes(value, width)[place as int] == value as int / pow(
            0x100,
            place,
        ) % 0x100,
        endian is Big ==> endian.bytes(value, width)[width - 1 - place] == value as int / pow(
            0x100,
            place,
        ) % 0x100,
{
    lemma_written_digit(value, width, place);
}

/// As many bytes are written as are asked for, and no bytes at all stand for zero.
pub proof fn law_byte_count(endian: Endian, value: nat, width: nat)
    ensures
        endian.bytes(value, width).len() == width,
        endian.value(Seq::empty()) == 0,
{
    if width > 0 {
        lemma_written_digit(value, width, 0);
    }
    assert(Seq::<u8>::empty().reverse().len() == 0);
}

/// The bytes of one order are those of the other, back to front.
pub proof fn law_orders_mirror(value: nat, width: nat, bytes: Seq<u8>)
    ensures
        Endian::Big.bytes(value, width) == Endian::Little.bytes(value, width).reverse(),
        Endian::Big.value(bytes) == Endian::Little.value(bytes.reverse()),
{
}

proof fn lemma_le_digit(bytes: Seq<u8>, place: nat)
    requires
        place < bytes.len(),
    ensures
        le_value(bytes) as int / pow(0x100, place) % 0x100 == bytes[place as int],
    decreases place,
{
    let rest = bytes.drop_first();
    if place == 0 {
        lemma_pow0(0x100);
    } else {
        lemma_le_digit(rest, (place - 1) as nat);
        lemma_shift(le_value(bytes), place);
        assert(le_value(bytes) / 0x100 == le_value(rest));
    }
}

proof fn lemma_written_digit(value: nat, width: nat, place: nat)
    requires
        place < width,
    ensures
        le_bytes(value, width).len() == width,
        le_bytes(value, width)[place as int] == value as int / pow(0x100, place) % 0x100,
    decreases width,
{
    let rest = le_bytes(value / 0x100, (width - 1) as nat);
    if width > 1 {
        lemma_written_digit(value / 0x100, (width - 1) as nat, 0);
    }
    if place == 0 {
        lemma_pow0(0x100);
    } else {
        lemma_written_digit(value / 0x100, (width - 1) as nat, (place - 1) as nat);
        lemma_shift(value, place);
    }
}

/// Dropping one digit and then `place - 1` more is dropping `place` of them.
proof fn lemma_shift(value: nat, place: nat)
    requires
        place > 0,
    ensures
        value as int / pow(0x100, place) == (value / 0x100) as int / pow(
            0x100,
            (place - 1) as nat,
        ),
{
    reveal(pow);
    lemma_pow_positive(0x100, (place - 1) as nat);
    lemma_div_denominator(value as int, 0x100, pow(0x100, (place - 1) as nat));
}

/// The integer in `width` bytes of `bytes`, from `at` on.
pub fn read_uint(bytes: &[u8], at: usize, width: usize, endian: Endian) -> (value: u64)
    requires
        at + width <= bytes@.len(),
        width <= 8,
    ensures
        value == endian.value(bytes@.subrange(at as int, at + width)),
        value < pow(0x100, width as nat),
{
    let ghost stored = bytes@.subrange(at as int, at + width);
    let mut value: u64 = 0;
    let mut done: usize = 0;
    proof {
        lemma_pow0(0x100);
    }
    while done < width
        invariant
            done <= width <= 8,
            at + width <= bytes.len(),
            stored == bytes@.subrange(at as int, at + width),
            endian is Little ==> value == le_value(stored.skip(width - done)),
            endian is Big ==> value == le_value(stored.take(done as int).reverse()),
            value < pow(0x100, done as nat),
        decreases width - done,
    {
        let byte: u8 = match endian {
            Endian::Little => bytes[at + (width - 1 - done)],
            Endian::Big => bytes[at + done],
        };
        proof {
            match endian {
                Endian::Little => {
                    let next = stored.skip(width - done - 1);
                    assert(next.drop_first() == stored.skip(width - done));
                    assert(next[0] == byte);
                },
                Endian::Big => {
                    let next = stored.take(done + 1).reverse();
                    assert(next.drop_first() == stored.take(done as int).reverse());
                    assert(next[0] == byte);
                },
            }
            reveal(pow);
            assert(pow(0x100, (done + 1) as nat) == 0x100 * pow(0x100, done as nat));
            lemma_widths();
            lemma_pow_increases(0x100, (done + 1) as nat, 8);
        }
        value = value * 0x100 + byte as u64;
        done = done + 1;
    }
    proof {
        assert(stored.skip(0) == stored);
        assert(stored.take(width as int) == stored);
    }
    value
}

/// Appends the `width` bytes that store `value`.
pub fn write_uint(out: &mut Vec<u8>, value: u64, width: usize, endian: Endian)
    ensures
        final(out)@ == old(out)@ + endian.bytes(value as nat, width as nat),
{
    let mut digits: Vec<u8> = Vec::new();
    let mut rest: u64 = value;
    while digits.len() < width
        invariant
            digits@.len() <= width,
            digits@ + le_bytes(rest as nat, (width - digits@.len()) as nat) == le_bytes(
                value as nat,
                width as nat,
            ),
        decreases width - digits@.len(),
    {
        let ghost left = le_bytes(rest as nat, (width - digits@.len()) as nat);
        let ghost before = digits@;
        digits.push((rest % 0x100) as u8);
        rest = rest / 0x100;
        proof {
            let tail = le_bytes(rest as nat, (width - digits@.len()) as nat);
            assert(left == seq![digits@.last()] + tail);
            assert(before + left == digits@ + tail);
        }
    }
    let ghost before = out@;
    let mut done: usize = 0;
    while done < width
        invariant
            done <= width,
            digits@ == le_bytes(value as nat, width as nat),
            digits@.len() == width,
            endian is Little ==> out@ == before + digits@.take(done as int),
            endian is Big ==> out@ == before + digits@.reverse().take(done as int),
        decreases width - done,
    {
        match endian {
            Endian::Little => out.push(digits[done]),
            Endian::Big => out.push(digits[width - 1 - done]),
        }
        done = done + 1;
    }
    proof {
        assert(digits@.take(width as int) == digits@);
        assert(digits@.reverse().take(width as int) == digits@.reverse());
    }
}

} // verus!
