//! What holds of every extended attribute and of every table entry.

use super::xattr::{
    hex_digits, prefix_of_type, XattrEntry, XattrEntryView, XattrId, XattrIdTable, XattrPrefix,
    XattrValue, XattrValueView, XATTR_PREFIX_MASK, XATTR_VALUE_OOL, XATTR_VALUE_OOL_SIZE,
};
use crate::endian::{
    law_value_digits, law_value_of_eight, law_value_of_four, law_value_of_two, lemma_widths, Endian,
};
use vstd::prelude::*;

verus! {

/// Whether a value is stored out-of-line does not bear on its namespace.
pub proof fn law_prefix_ignores_out_of_line(xattr_type: u16)
    ensures
        prefix_of_type(xattr_type | XATTR_VALUE_OOL) == prefix_of_type(xattr_type),
{
    assert((xattr_type | 0x0100) % 0x100 == xattr_type % 0x100) by (bit_vector);
}

/// Only the low byte of a type bears on its namespace.
pub proof fn law_prefix_is_low_byte(xattr_type: u16)
    ensures
        prefix_of_type(xattr_type & XATTR_PREFIX_MASK) == prefix_of_type(xattr_type),
{
    assert((xattr_type & 0x00ff) % 0x100 == xattr_type % 0x100) by (bit_vector);
}

/// Two attributes with the same full name have the same namespace and the same name.
pub proof fn law_full_name_is_unique(
    prefix: XattrPrefix,
    name: Seq<char>,
    other_prefix: XattrPrefix,
    other_name: Seq<char>,
)
    requires
        prefix.chars() + name == other_prefix.chars() + other_name,
    ensures
        prefix == other_prefix,
        name == other_name,
{
    reveal_strlit("user.");
    reveal_strlit("trusted.");
    reveal_strlit("security.");
    let full = prefix.chars() + name;
    assert(full[0] == prefix.chars()[0]);
    assert(full[0] == other_prefix.chars()[0]);
    assert(full.skip(prefix.chars().len() as int) == name);
    assert(full.skip(prefix.chars().len() as int) == other_name);
}

/// Reading a written header gives it back, whatever follows it.
pub proof fn law_id_table_write_read(table: XattrIdTable, endian: Endian, rest: Seq<u8>)
    ensures
        table.stored(endian).len() == XattrIdTable::SIZE,
        XattrIdTable::parsed(table.stored(endian) + rest, endian) == Some(table),
{
    lemma_widths();
    endian.lemma_value_of_bytes(table.xattr_table_start as nat, 8);
    endian.lemma_value_of_bytes(table.xattr_ids as nat, 4);
    endian.lemma_value_of_bytes(table.unused as nat, 4);
    let bytes = table.stored(endian) + rest;
    assert(bytes.subrange(0, 8) == endian.bytes(table.xattr_table_start as nat, 8));
    assert(bytes.subrange(8, 12) == endian.bytes(table.xattr_ids as nat, 4));
    assert(bytes.subrange(12, 16) == endian.bytes(table.unused as nat, 4));
}

/// Writing a header that was read gives its bytes back.
pub proof fn law_id_table_read_write(bytes: Seq<u8>, endian: Endian)
    ensures
        XattrIdTable::parsed(bytes, endian) matches Some(table) ==> table.stored(endian)
            == bytes.take(XattrIdTable::SIZE as int),
{
    if bytes.len() >= XattrIdTable::SIZE {
        lemma_widths();
        endian.lemma_bytes_of_value(bytes.subrange(0, 8));
        endian.lemma_bytes_of_value(bytes.subrange(8, 12));
        endian.lemma_bytes_of_value(bytes.subrange(12, 16));
        assert(bytes.subrange(0, 8) + bytes.subrange(8, 12) + bytes.subrange(12, 16)
            == bytes.take(16));
    }
}

/// Reading a written id gives it back, whatever follows it.
pub proof fn law_id_write_read(id: XattrId, endian: Endian, rest: Seq<u8>)
    ensures
        id.stored(endian).len() == XattrId::SIZE,
        XattrId::parsed(id.stored(endian) + rest, endian) == Some(id),
{
    lemma_widths();
    endian.lemma_value_of_bytes(id.xattr as nat, 8);
    endian.lemma_value_of_bytes(id.count as nat, 4);
    endian.lemma_value_of_bytes(id.size as nat, 4);
    let bytes = id.stored(endian) + rest;
    assert(bytes.subrange(0, 8) == endian.bytes(id.xattr as nat, 8));
    assert(bytes.subrange(8, 12) == endian.bytes(id.count as nat, 4));
    assert(bytes.subrange(12, 16) == endian.bytes(id.size as nat, 4));
}

/// Writing an id that was read gives its bytes back.
pub proof fn law_id_read_write(bytes: Seq<u8>, endian: Endian)
    ensures
        XattrId::parsed(bytes, endian) matches Some(id) ==> id.stored(endian) == bytes.take(
            XattrId::SIZE as int,
        ),
{
    if bytes.len() >= XattrId::SIZE {
        lemma_widths();
        endian.lemma_bytes_of_value(bytes.subrange(0, 8));
        endian.lemma_bytes_of_value(bytes.subrange(8, 12));
        endian.lemma_bytes_of_value(bytes.subrange(12, 16));
        assert(bytes.subrange(0, 8) + bytes.subrange(8, 12) + bytes.subrange(12, 16)
            == bytes.take(16));
    }
}

/// Reading a written entry gives it back, whatever follows it.
pub proof fn law_entry_write_read(entry: XattrEntryView, endian: Endian, rest: Seq<u8>)
    requires
        entry.well_formed(),
    ensures
        entry.stored(endian).len() == 4 + entry.name_size,
        XattrEntryView::parsed(entry.stored(endian) + rest, endian) == Some(entry),
{
    lemma_widths();
    endian.lemma_value_of_bytes(entry.xattr_type as nat, 2);
    endian.lemma_value_of_bytes(entry.name_size as nat, 2);
    let bytes = entry.stored(endian) + rest;
    assert(bytes.subrange(0, 2) == endian.bytes(entry.xattr_type as nat, 2));
    assert(bytes.subrange(2, 4) == endian.bytes(entry.name_size as nat, 2));
    assert(bytes.skip(4).take(entry.name_size as int) == entry.name);
}

/// Writing an entry that was read gives its bytes back, and its name is as long as it says.
pub proof fn law_entry_read_write(bytes: Seq<u8>, endian: Endian)
    ensures
        XattrEntryView::parsed(bytes, endian) matches Some(entry) ==> entry.well_formed()
            && entry.stored(endian) == bytes.take(4 + entry.name_size),
{
    if XattrEntryView::parsed(bytes, endian) is Some {
        let entry = XattrEntryView::parsed(bytes, endian)->0;
        lemma_widths();
        endian.lemma_bytes_of_value(bytes.subrange(0, 2));
        endian.lemma_bytes_of_value(bytes.subrange(2, 4));
        assert(bytes.subrange(0, 2) + bytes.subrange(2, 4) + entry.name == bytes.take(
            4 + entry.name_size,
        ));
    }
}

/// Reading a written value gives it back, whatever follows it.
pub proof fn law_value_write_read(value: XattrValueView, endian: Endian, rest: Seq<u8>)
    requires
        value.well_formed(),
    ensures
        value.stored(endian).len() == 4 + value.vsize,
        XattrValueView::parsed(value.stored(endian) + rest, endian) == Some(value),
{
    lemma_widths();
    endian.lemma_value_of_bytes(value.vsize as nat, 4);
    let bytes = value.stored(endian) + rest;
    assert(bytes.subrange(0, 4) == endian.bytes(value.vsize as nat, 4));
    assert(bytes.skip(4).take(value.vsize as int) == value.value);
}

/// Writing a value that was read gives its bytes back, and it is as long as its size says.
pub proof fn law_value_read_write(bytes: Seq<u8>, endian: Endian)
    ensures
        XattrValueView::parsed(bytes, endian) matches Some(value) ==> value.well_formed()
            && value.stored(endian) == bytes.take(4 + value.vsize),
{
    if XattrValueView::parsed(bytes, endian) is Some {
        let value = XattrValueView::parsed(bytes, endian)->0;
        lemma_widths();
        endian.lemma_bytes_of_value(bytes.subrange(0, 4));
        assert(bytes.subrange(0, 4) + value.value == bytes.take(4 + value.vsize));
    }
}

/// Where the fields of a header lie, whether it is read or written: the start of the region in
/// bytes 0 to 8, the number of ids in bytes 8 to 12 and the unused field in bytes 12 to 16, each in
/// the byte order that was asked for.
pub proof fn law_id_table_layout(table: XattrIdTable, endian: Endian, bytes: Seq<u8>)
    requires
        XattrIdTable::parsed(bytes, endian) == Some(table) || table.stored(endian) == bytes,
    ensures
        bytes.len() >= 16,
        table.stored(endian) == bytes ==> bytes.len() == 16,
        endian is Little ==> {
            &&& table.xattr_table_start == bytes[0] + 0x100 * bytes[1] + 0x1_0000 * bytes[2]
                + 0x100_0000 * bytes[3] + 0x1_0000_0000 * (bytes[4] + 0x100 * bytes[5]
                + 0x1_0000 * bytes[6] + 0x100_0000 * bytes[7])
            &&& table.xattr_ids == bytes[8] + 0x100 * bytes[9] + 0x1_0000 * bytes[10]
                + 0x100_0000 * bytes[11]
            &&& table.unused == bytes[12] + 0x100 * bytes[13] + 0x1_0000 * bytes[14]
                + 0x100_0000 * bytes[15]
        },
        endian is Big ==> {
            &&& table.xattr_table_start == bytes[7] + 0x100 * bytes[6] + 0x1_0000 * bytes[5]
                + 0x100_0000 * bytes[4] + 0x1_0000_0000 * (bytes[3] + 0x100 * bytes[2]
                + 0x1_0000 * bytes[1] + 0x100_0000 * bytes[0])
            &&& table.xattr_ids == bytes[11] + 0x100 * bytes[10] + 0x1_0000 * bytes[9]
                + 0x100_0000 * bytes[8]
            &&& table.unused == bytes[15] + 0x100 * bytes[14] + 0x1_0000 * bytes[13]
                + 0x100_0000 * bytes[12]
        },
{
    if table.stored(endian) == bytes {
        law_id_table_write_read(table, endian, Seq::empty());
        assert(bytes + Seq::<u8>::empty() == bytes);
    }
    lemma_widths();
    law_value_digits(endian, bytes.subrange(0, 8), 0);
    law_value_digits(endian, bytes.subrange(8, 12), 0);
    law_value_digits(endian, bytes.subrange(12, 16), 0);
    law_value_of_eight(endian, bytes.subrange(0, 8));
    law_value_of_four(endian, bytes.subrange(8, 12));
    law_value_of_four(endian, bytes.subrange(12, 16));
}

/// A header is read exactly if there are bytes enough for one.
pub proof fn law_id_table_needs_sixteen_bytes(bytes: Seq<u8>, endian: Endian)
    ensures
        XattrIdTable::parsed(bytes, endian) is Some <==> bytes.len() >= 16,
{
}

/// Where the fields of an id lie, whether it is read or written: the reference in bytes 0 to 8, the
/// count in bytes 8 to 12 and the size in bytes 12 to 16, whatever their values.
pub proof fn law_id_layout(id: XattrId, endian: Endian, bytes: Seq<u8>)
    requires
        XattrId::parsed(bytes, endian) == Some(id) || id.stored(endian) == bytes,
    ensures
        bytes.len() >= 16,
        id.stored(endian) == bytes ==> bytes.len() == 16,
        endian is Little ==> {
            &&& id.xattr == bytes[0] + 0x100 * bytes[1] + 0x1_0000 * bytes[2]
                + 0x100_0000 * bytes[3] + 0x1_0000_0000 * (bytes[4] + 0x100 * bytes[5]
                + 0x1_0000 * bytes[6] + 0x100_0000 * bytes[7])
            &&& id.count == bytes[8] + 0x100 * bytes[9] + 0x1_0000 * bytes[10]
                + 0x100_0000 * bytes[11]
            &&& id.size == bytes[12] + 0x100 * bytes[13] + 0x1_0000 * bytes[14]
                + 0x100_0000 * bytes[15]
        },
        endian is Big ==> {
            &&& id.xattr == bytes[7] + 0x100 * bytes[6] + 0x1_0000 * bytes[5]
                + 0x100_0000 * bytes[4] + 0x1_0000_0000 * (bytes[3] + 0x100 * bytes[2]
                + 0x1_0000 * bytes[1] + 0x100_0000 * bytes[0])
            &&& id.count == bytes[11] + 0x100 * bytes[10] + 0x1_0000 * bytes[9]
                + 0x100_0000 * bytes[8]
            &&& id.size == bytes[15] + 0x100 * bytes[14] + 0x1_0000 * bytes[13]
                + 0x100_0000 * bytes[12]
        },
{
    if id.stored(endian) == bytes {
        law_id_write_read(id, endian, Seq::empty());
        assert(bytes + Seq::<u8>::empty() == bytes);
    }
    lemma_widths();
    law_value_digits(endian, bytes.subrange(0, 8), 0);
    law_value_digits(endian, bytes.subrange(8, 12), 0);
    law_value_digits(endian, bytes.subrange(12, 16), 0);
    law_value_of_eight(endian, bytes.subrange(0, 8));
    law_value_of_four(endian, bytes.subrange(8, 12));
    law_value_of_four(endian, bytes.subrange(12, 16));
}

/// An id is read exactly if there are bytes enough for one.
pub proof fn law_id_needs_sixteen_bytes(bytes: Seq<u8>, endian: Endian)
    ensures
        XattrId::parsed(bytes, endian) is Some <==> bytes.len() >= 16,
{
}

/// Each field of an id depends on its own bytes alone: two images that agree on the bytes of a field
/// give ids that agree on it.
pub proof fn law_id_fields_are_apart(
    bytes: Seq<u8>,
    id: XattrId,
    other_bytes: Seq<u8>,
    other: XattrId,
    endian: Endian,
)
    requires
        XattrId::parsed(bytes, endian) == Some(id),
        XattrId::parsed(other_bytes, endian) == Some(other),
    ensures
        bytes.take(8) == other_bytes.take(8) ==> id.xattr == other.xattr,
        bytes.subrange(8, 12) == other_bytes.subrange(8, 12) ==> id.count == other.count,
        bytes.subrange(12, 16) == other_bytes.subrange(12, 16) ==> id.size == other.size,
{
    assert(bytes.take(8) == bytes.subrange(0, 8));
    assert(other_bytes.take(8) == other_bytes.subrange(0, 8));
}

/// Where the parts of an entry lie when it is read: the type in bytes 0 and 1 and the size of the
/// name in bytes 2 and 3, each in the byte order that was asked for, and the name behind them, byte
/// for byte.
pub proof fn law_entry_read_layout(entry: XattrEntry, endian: Endian, bytes: Seq<u8>)
    requires
        XattrEntryView::parsed(bytes, endian) == Some(entry@),
    ensures
        bytes.len() >= 4 + entry.name_size,
        endian is Little ==> {
            &&& entry.xattr_type == bytes[0] + 0x100 * bytes[1]
            &&& entry.name_size == bytes[2] + 0x100 * bytes[3]
        },
        endian is Big ==> {
            &&& entry.xattr_type == bytes[1] + 0x100 * bytes[0]
            &&& entry.name_size == bytes[3] + 0x100 * bytes[2]
        },
        entry.name@.len() == entry.name_size,
        forall|i: int| 0 <= i < entry.name_size ==> #[trigger] entry.name@[i] == bytes[4 + i],
{
    lemma_widths();
    law_value_digits(endian, bytes.subrange(0, 2), 0);
    law_value_digits(endian, bytes.subrange(2, 4), 0);
    law_value_of_two(endian, bytes.subrange(0, 2));
    law_value_of_two(endian, bytes.subrange(2, 4));
}

/// Where the parts of an entry lie when it is written: as when it is read, with the whole name.
pub proof fn law_entry_written_layout(entry: XattrEntry, endian: Endian, bytes: Seq<u8>)
    requires
        bytes == entry@.stored(endian),
    ensures
        bytes.len() == 4 + entry.name@.len(),
        endian is Little ==> {
            &&& entry.xattr_type == bytes[0] + 0x100 * bytes[1]
            &&& entry.name_size == bytes[2] + 0x100 * bytes[3]
        },
        endian is Big ==> {
            &&& entry.xattr_type == bytes[1] + 0x100 * bytes[0]
            &&& entry.name_size == bytes[3] + 0x100 * bytes[2]
        },
        forall|i: int| 0 <= i < entry.name@.len() ==> #[trigger] entry.name@[i] == bytes[4 + i],
{
    lemma_widths();
    endian.lemma_value_of_bytes(entry.xattr_type as nat, 2);
    endian.lemma_value_of_bytes(entry.name_size as nat, 2);
    assert(bytes.subrange(0, 2) == endian.bytes(entry.xattr_type as nat, 2));
    assert(bytes.subrange(2, 4) == endian.bytes(entry.name_size as nat, 2));
    law_value_of_two(endian, bytes.subrange(0, 2));
    law_value_of_two(endian, bytes.subrange(2, 4));
}

/// An entry is read exactly if there are bytes enough for its sizes and for its name.
pub proof fn law_entry_needs_its_bytes(bytes: Seq<u8>, endian: Endian)
    ensures
        bytes.len() < 4 ==> XattrEntryView::parsed(bytes, endian) is None,
        bytes.len() >= 4 && endian is Little ==> (XattrEntryView::parsed(bytes, endian) is Some
            <==> bytes.len() >= 4 + bytes[2] + 0x100 * bytes[3]),
        bytes.len() >= 4 && endian is Big ==> (XattrEntryView::parsed(bytes, endian) is Some
            <==> bytes.len() >= 4 + bytes[3] + 0x100 * bytes[2]),
{
    if bytes.len() >= 4 {
        law_value_of_two(endian, bytes.subrange(2, 4));
    }
}

/// Where the parts of a value lie when it is read: its size in bytes 0 to 4, in the byte order that
/// was asked for, and the value behind it, byte for byte.
pub proof fn law_value_read_layout(value: XattrValue, endian: Endian, bytes: Seq<u8>)
    requires
        XattrValueView::parsed(bytes, endian) == Some(value@),
    ensures
        bytes.len() >= 4 + value.vsize,
        endian is Little ==> {
            &&& value.vsize == bytes[0] + 0x100 * bytes[1] + 0x1_0000 * bytes[2]
                + 0x100_0000 * bytes[3]
        },
        endian is Big ==> {
            &&& value.vsize == bytes[3] + 0x100 * bytes[2] + 0x1_0000 * bytes[1]
                + 0x100_0000 * bytes[0]
        },
        value.value@.len() == value.vsize,
        forall|i: int| 0 <= i < value.vsize ==> #[trigger] value.value@[i] == bytes[4 + i],
{
    lemma_widths();
    law_value_digits(endian, bytes.subrange(0, 4), 0);
    law_value_of_four(endian, bytes.subrange(0, 4));
}

/// Where the parts of a value lie when it is written: as when it is read, with the whole value.
pub proof fn law_value_written_layout(value: XattrValue, endian: Endian, bytes: Seq<u8>)
    requires
        bytes == value@.stored(endian),
    ensures
        bytes.len() == 4 + value.value@.len(),
        endian is Little ==> {
            &&& value.vsize == bytes[0] + 0x100 * bytes[1] + 0x1_0000 * bytes[2]
                + 0x100_0000 * bytes[3]
        },
        endian is Big ==> {
            &&& value.vsize == bytes[3] + 0x100 * bytes[2] + 0x1_0000 * bytes[1]
                + 0x100_0000 * bytes[0]
        },
        forall|i: int| 0 <= i < value.value@.len() ==> #[trigger] value.value@[i] == bytes[4 + i],
{
    lemma_widths();
    endian.lemma_value_of_bytes(value.vsize as nat, 4);
    assert(bytes.subrange(0, 4) == endian.bytes(value.vsize as nat, 4));
    law_value_of_four(endian, bytes.subrange(0, 4));
}

/// A value is read exactly if there are bytes enough for its size and for as many as that says.
pub proof fn law_value_needs_its_bytes(bytes: Seq<u8>, endian: Endian)
    ensures
        bytes.len() < 4 ==> XattrValueView::parsed(bytes, endian) is None,
        bytes.len() >= 4 && endian is Little ==> (XattrValueView::parsed(bytes, endian) is Some
            <==> bytes.len() >= 4 + bytes[0] + 0x100 * bytes[1] + 0x1_0000 * bytes[2]
                + 0x100_0000 * bytes[3]),
        bytes.len() >= 4 && endian is Big ==> (XattrValueView::parsed(bytes, endian) is Some
            <==> bytes.len() >= 4 + bytes[3] + 0x100 * bytes[2] + 0x1_0000 * bytes[1]
                + 0x100_0000 * bytes[0]),
{
    if bytes.len() >= 4 {
        law_value_of_four(endian, bytes.subrange(0, 4));
    }
}

/// The low bytes that name a namespace: 0, 1 and 2, and no others.
pub proof fn law_prefix_numbers(xattr_type: u16)
    ensures
        prefix_of_type(xattr_type) == Some(XattrPrefix::User) <==> xattr_type % 0x100 == 0,
        prefix_of_type(xattr_type) == Some(XattrPrefix::Trusted) <==> xattr_type % 0x100 == 1,
        prefix_of_type(xattr_type) == Some(XattrPrefix::Security) <==> xattr_type % 0x100 == 2,
        prefix_of_type(xattr_type) is None <==> xattr_type % 0x100 > 2,
{
}

/// How the namespaces are spelled.
pub proof fn law_prefix_spelling()
    ensures
        XattrPrefix::User.chars() == seq!['u', 's', 'e', 'r', '.'],
        XattrPrefix::Trusted.chars() == seq!['t', 'r', 'u', 's', 't', 'e', 'd', '.'],
        XattrPrefix::Security.chars() == seq!['s', 'e', 'c', 'u', 'r', 'i', 't', 'y', '.'],
{
    reveal_strlit("user.");
    reveal_strlit("trusted.");
    reveal_strlit("security.");
    assert(XattrPrefix::User.chars() =~= seq!['u', 's', 'e', 'r', '.']);
    assert(XattrPrefix::Trusted.chars() =~= seq!['t', 'r', 'u', 's', 't', 'e', 'd', '.']);
    assert(XattrPrefix::Security.chars() =~= seq!['s', 'e', 'c', 'u', 'r', 'i', 't', 'y', '.']);
}

/// The digits of a number in base 16 end in the digit for its remainder by 16, `0` to `9` or `a` to
/// `f`, behind the digits of its quotient, of which there are none if that is zero.
pub proof fn law_hex_digits(n: nat)
    ensures
        n % 16 < 10 ==> hex_digits(n).last() as int == 0x30 + n % 16,
        n % 16 >= 10 ==> hex_digits(n).last() as int == 0x61 + (n % 16 - 10),
        n < 16 ==> hex_digits(n).len() == 1,
        n >= 16 ==> hex_digits(n).drop_last() == hex_digits(n / 16),
        n >= 16 ==> hex_digits(n).len() == hex_digits(n / 16).len() + 1,
{
    reveal_strlit("0123456789abcdef");
    if n >= 16 {
        assert(hex_digits(n).drop_last() =~= hex_digits(n / 16));
    }
}

/// The sizes and bits that an image fixes.
pub proof fn law_fixed_numbers()
    ensures
        XATTR_PREFIX_MASK == 0xff,
        XATTR_VALUE_OOL == 0x100,
        XATTR_VALUE_OOL_SIZE == 8,
        XattrIdTable::SIZE == 16,
        XattrId::SIZE == 16,
{
}

} // verus!
