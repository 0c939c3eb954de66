//! Extended attribute (xattr) support
//!
//! The on-disk xattr table has two regions:
//! - an id table, one [`XattrId`] per inode that has xattrs, itself preceded by an
//!   [`XattrIdTable`] header
//! - a key/value metadata region (pointed to by [`XattrIdTable::xattr_table_start`]) containing
//!   the actual [`XattrEntry`]/[`XattrValue`] pairs referenced by each [`XattrId`]

use crate::endian::{lemma_widths, read_uint, write_uint, Endian};
use crate::error::BackhandError;
use solana_nohash_hasher::IntMap;
use vstd::prelude::*;
use vstd::slice::{slice_subrange, slice_to_vec};
use vstd::string::{StrSliceExecFns, StringExecFns};

verus! {

/// Low byte of [`XattrEntry::xattr_type`]: which namespace this attribute belongs to.
pub const XATTR_PREFIX_MASK: u16 = 0x00ff;

/// Bit of [`XattrEntry::xattr_type`] indicating the value is stored out-of-line: the entry's
/// [`XattrValue`] holds a reference to the real value elsewhere, rather than inline bytes.
pub const XATTR_VALUE_OOL: u16 = 0x0100;

/// Byte size of an out-of-line reference stored as the `value` of a [`XattrValue`].
pub const XATTR_VALUE_OOL_SIZE: usize = 8;

/// Namespace prefix of an extended attribute. SquashFS only supports these three; POSIX ACLs and
/// other `system.*` xattrs are not representable in the on-disk xattr table.
#[derive(Debug, Copy, Clone, PartialEq, Eq, Structural)]
pub enum XattrPrefix {
    User,
    Trusted,
    Security,
}

impl XattrPrefix {
    /// The characters of the on-disk prefix.
    pub open spec fn chars(self) -> Seq<char> {
        match self {
            XattrPrefix::User => "user."@,
            XattrPrefix::Trusted => "trusted."@,
            XattrPrefix::Security => "security."@,
        }
    }

    /// On-disk prefix string, including the trailing `.`
    pub fn as_str(self) -> (s: &'static str)
        ensures
            s@ == self.chars(),
    {
        match self {
            XattrPrefix::User => "user.",
            XattrPrefix::Trusted => "trusted.",
            XattrPrefix::Security => "security.",
        }
    }
}

/// The namespace that the low byte of an attribute type names, if it names one.
pub open spec fn prefix_of_type(xattr_type: u16) -> Option<XattrPrefix> {
    if xattr_type % 0x100 == 0 {
        Some(XattrPrefix::User)
    } else if xattr_type % 0x100 == 1 {
        Some(XattrPrefix::Trusted)
    } else if xattr_type % 0x100 == 2 {
        Some(XattrPrefix::Security)
    } else {
        None
    }
}

/// The digits of base 16, in lower case.
pub const HEX_DIGITS: &'static str = "0123456789abcdef";

/// The digits of `n` in base 16, the highest first, in lower case.
pub open spec fn hex_digits(n: nat) -> Seq<char>
    decreases n,
{
    if n < 16 {
        seq![HEX_DIGITS@[n as int]]
    } else {
        hex_digits(n / 16).push(HEX_DIGITS@[(n % 16) as int])
    }
}

/// Appends the digits of `n` in base 16 to `s`.
fn append_hex(s: &mut String, n: u16)
    ensures
        final(s)@ == old(s)@ + hex_digits(n as nat),
    decreases n,
{
    if n >= 16 {
        append_hex(s, n / 16);
    }
    let digit = (n % 16) as usize;
    proof {
        reveal_strlit("0123456789abcdef");
    }
    s.append(HEX_DIGITS.substring_char(digit, digit + 1));
}

impl TryFrom<u16> for XattrPrefix {
    type Error = BackhandError;

    fn try_from(xattr_type: u16) -> (prefix: Result<Self, BackhandError>)
        ensures
            match prefix {
                Ok(prefix) => prefix_of_type(xattr_type) == Some(prefix),
                Err(error) => {
                    &&& prefix_of_type(xattr_type) is None
                    &&& error matches BackhandError::InvalidXattrTable(message)
                    &&& message@ == "unknown xattr prefix: 0x"@ + hex_digits(
                        (xattr_type % 0x100) as nat,
                    )
                },
            },
    {
        assert(xattr_type & 0x00ff == xattr_type % 0x100) by (bit_vector);
        match xattr_type & XATTR_PREFIX_MASK {
            0 => Ok(XattrPrefix::User),
            1 => Ok(XattrPrefix::Trusted),
            2 => Ok(XattrPrefix::Security),
            other => {
                let mut message = "unknown xattr prefix: 0x".to_string();
                append_hex(&mut message, other);
                Err(BackhandError::InvalidXattrTable(message))
            },
        }
    }
}

/// What `try_from` returns is stated in its own `ensures`: an error holds a `String`, which has no
/// value to name here.
impl vstd::std_specs::convert::TryFromSpecImpl<u16> for XattrPrefix {
    open spec fn obeys_try_from_spec() -> bool {
        false
    }

    open spec fn try_from_spec(xattr_type: u16) -> Result<Self, BackhandError> {
        arbitrary()
    }
}

/// A single decoded extended attribute
#[derive(Debug, Clone, PartialEq, Eq)]
pub struct Xattr {
    pub prefix: XattrPrefix,
    pub name: String,
    pub value: Vec<u8>,
}

impl Xattr {
    /// Full attribute name including its namespace prefix, e.g. `user.foo`
    pub fn full_name(&self) -> (name: String)
        ensures
            name@ == self.prefix.chars() + self.name@,
    {
        let mut name = self.prefix.as_str().to_string();
        name.append(self.name.as_str());
        name
    }
}

/// Header of the on-disk xattr id table. Immediately followed on-disk by the raw index array of
/// metadata block pointers for the [`XattrId`] entries.
#[derive(Debug, Copy, Clone, PartialEq, Eq, Structural)]
pub struct XattrIdTable {
    /// Start of the xattr key/value metadata region
    pub xattr_table_start: u64,
    /// Number of [`XattrId`] entries
    pub xattr_ids: u32,
    pub unused: u32,
}

impl XattrIdTable {
    /// Byte size of the header.
    pub const SIZE: usize = 16;

    /// The bytes of the header in an image: its fields in order.
    pub open spec fn stored(self, endian: Endian) -> Seq<u8> {
        endian.bytes(self.xattr_table_start as nat, 8) + endian.bytes(self.xattr_ids as nat, 4)
            + endian.bytes(self.unused as nat, 4)
    }

    /// The header at the start of `bytes`, if they are long enough for one.
    pub open spec fn parsed(bytes: Seq<u8>, endian: Endian) -> Option<XattrIdTable> {
        if bytes.len() < Self::SIZE {
            None
        } else {
            Some(
                XattrIdTable {
                    xattr_table_start: endian.value(bytes.subrange(0, 8)) as u64,
                    xattr_ids: endian.value(bytes.subrange(8, 12)) as u32,
                    unused: endian.value(bytes.subrange(12, 16)) as u32,
                },
            )
        }
    }

    /// Reads the header that `bytes` start with.
    pub fn from_bytes(bytes: &[u8], endian: Endian) -> (table: Option<XattrIdTable>)
        ensures
            table == XattrIdTable::parsed(bytes@, endian),
    {
        if bytes.len() < Self::SIZE {
            return None;
        }
        proof {
            lemma_widths();
        }
        Some(
            XattrIdTable {
                xattr_table_start: read_uint(bytes, 0, 8, endian),
                xattr_ids: read_uint(bytes, 8, 4, endian) as u32,
                unused: read_uint(bytes, 12, 4, endian) as u32,
            },
        )
    }

    /// Writes the header.
    pub fn to_bytes(&self, endian: Endian) -> (bytes: Vec<u8>)
        ensures
            bytes@ == self.stored(endian),
    {
        let mut bytes: Vec<u8> = Vec::new();
        write_uint(&mut bytes, self.xattr_table_start, 8, endian);
        write_uint(&mut bytes, self.xattr_ids as u64, 4, endian);
        write_uint(&mut bytes, self.unused as u64, 4, endian);
        bytes
    }
}

/// Entry in the xattr id lookup table, one per inode that has xattrs
#[derive(Debug, Copy, Clone, PartialEq, Eq, Structural)]
pub struct XattrId {
    /// `(block << 16) | offset` into the xattr key/value metadata region, pointing at the first
    /// of `count` key/value pairs for this inode
    pub xattr: u64,
    /// Number of key/value pairs starting at `xattr`
    pub count: u32,
    /// Uncompressed byte size of the name+value data for this entry
    pub size: u32,
}

impl XattrId {
    /// Byte size of the entry.
    pub const SIZE: usize = 16;

    /// The bytes of the entry in an image: its fields in order.
    pub open spec fn stored(self, endian: Endian) -> Seq<u8> {
        endian.bytes(self.xattr as nat, 8) + endian.bytes(self.count as nat, 4) + endian.bytes(
            self.size as nat,
            4,
        )
    }

    /// The entry at the start of `bytes`, if they are long enough for one.
    pub open spec fn parsed(bytes: Seq<u8>, endian: Endian) -> Option<XattrId> {
        if bytes.len() < Self::SIZE {
            None
        } else {
            Some(
                XattrId {
                    xattr: endian.value(bytes.subrange(0, 8)) as u64,
                    count: endian.value(bytes.subrange(8, 12)) as u32,
                    size: endian.value(bytes.subrange(12, 16)) as u32,
                },
            )
        }
    }

    /// Reads the entry that `bytes` start with.
    pub fn from_bytes(bytes: &[u8], endian: Endian) -> (id: Option<XattrId>)
        ensures
            id == XattrId::parsed(bytes@, endian),
    {
        if bytes.len() < Self::SIZE {
            return None;
        }
        proof {
            lemma_widths();
        }
        Some(
            XattrId {
                xattr: read_uint(bytes, 0, 8, endian),
                count: read_uint(bytes, 8, 4, endian) as u32,
                size: read_uint(bytes, 12, 4, endian) as u32,
            },
        )
    }

    /// Writes the entry.
    pub fn to_bytes(&self, endian: Endian) -> (bytes: Vec<u8>)
        ensures
            bytes@ == self.stored(endian),
    {
        let mut bytes: Vec<u8> = Vec::new();
        write_uint(&mut bytes, self.xattr, 8, endian);
        write_uint(&mut bytes, self.count as u64, 4, endian);
        write_uint(&mut bytes, self.size as u64, 4, endian);
        bytes
    }
}

/// Key (and inline-value marker) of a single xattr key/value pair
#[derive(Debug, Clone, PartialEq, Eq)]
pub struct XattrEntry {
    pub xattr_type: u16,
    pub name_size: u16,
    pub name: Vec<u8>,
}

/// What a [`XattrEntry`] holds.
pub struct XattrEntryView {
    pub xattr_type: u16,
    pub name_size: u16,
    pub name: Seq<u8>,
}

impl View for XattrEntry {
    type V = XattrEntryView;

    open spec fn view(&self) -> XattrEntryView {
        XattrEntryView {
            xattr_type: self.xattr_type,
            name_size: self.name_size,
            name: self.name@,
        }
    }
}

impl XattrEntryView {
    /// The name is as long as the entry says.
    pub open spec fn well_formed(self) -> bool {
        self.name.len() == self.name_size
    }

    /// The bytes of the entry in an image: type, name size and name.
    pub open spec fn stored(self, endian: Endian) -> Seq<u8> {
        endian.bytes(self.xattr_type as nat, 2) + endian.bytes(self.name_size as nat, 2)
            + self.name
    }

    /// The entry at the start of `bytes`, if they are long enough for it and its name.
    pub open spec fn parsed(bytes: Seq<u8>, endian: Endian) -> Option<XattrEntryView> {
        if bytes.len() < 4 {
            None
        } else {
            let name_size = endian.value(bytes.subrange(2, 4));
            if bytes.len() < 4 + name_size {
                None
            } else {
                Some(
                    XattrEntryView {
                        xattr_type: endian.value(bytes.subrange(0, 2)) as u16,
                        name_size: name_size as u16,
                        name: bytes.skip(4).take(name_size as int),
                    },
                )
            }
        }
    }
}

impl XattrEntry {
    /// Reads the entry that `bytes` start with, and tells how many bytes it takes up.
    pub fn from_bytes(bytes: &[u8], endian: Endian) -> (entry: Option<(XattrEntry, usize)>)
        ensures
            match entry {
                Some((entry, size)) => {
                    &&& XattrEntryView::parsed(bytes@, endian) == Some(entry@)
                    &&& size == 4 + entry.name_size
                },
                None => XattrEntryView::parsed(bytes@, endian) is None,
            },
    {
        if bytes.len() < 4 {
            return None;
        }
        proof {
            lemma_widths();
        }
        let xattr_type = read_uint(bytes, 0, 2, endian) as u16;
        let name_size = read_uint(bytes, 2, 2, endian) as u16;
        let size = 4 + name_size as usize;
        if bytes.len() < size {
            return None;
        }
        let name = slice_to_vec(slice_subrange(bytes, 4, size));
        proof {
            assert(name@ == bytes@.skip(4).take(name_size as int));
        }
        Some((XattrEntry { xattr_type, name_size, name }, size))
    }

    /// Writes the entry, with its whole name.
    pub fn to_bytes(&self, endian: Endian) -> (bytes: Vec<u8>)
        ensures
            bytes@ == self@.stored(endian),
    {
        let mut bytes: Vec<u8> = Vec::new();
        write_uint(&mut bytes, self.xattr_type as u64, 2, endian);
        write_uint(&mut bytes, self.name_size as u64, 2, endian);
        bytes.extend_from_slice(self.name.as_slice());
        bytes
    }
}

/// Value of a xattr key/value pair. When `XattrEntry::xattr_type & XATTR_VALUE_OOL == 0`,
/// `value` is the attribute's actual data. When the bit is set, this struct is reused as a
/// wrapper: `vsize` is always [`XATTR_VALUE_OOL_SIZE`] and `value` holds an 8-byte
/// `(block << 16) | offset` reference to the real [`XattrValue`], stored elsewhere in the
/// key/value metadata region (shared with other entries that have the same value).
#[derive(Debug, Clone, PartialEq, Eq)]
pub struct XattrValue {
    pub vsize: u32,
    pub value: Vec<u8>,
}

/// What a [`XattrValue`] holds.
pub struct XattrValueView {
    pub vsize: u32,
    pub value: Seq<u8>,
}

impl View for XattrValue {
    type V = XattrValueView;

    open spec fn view(&self) -> XattrValueView {
        XattrValueView { vsize: self.vsize, value: self.value@ }
    }
}

impl XattrValueView {
    /// The value is as long as its size says.
    pub open spec fn well_formed(self) -> bool {
        self.value.len() == self.vsize
    }

    /// The bytes of the value in an image: its size, then the value itself.
    pub open spec fn stored(self, endian: Endian) -> Seq<u8> {
        endian.bytes(self.vsize as nat, 4) + self.value
    }

    /// The value at the start of `bytes`, if they are long enough for it.
    pub open spec fn parsed(bytes: Seq<u8>, endian: Endian) -> Option<XattrValueView> {
        if bytes.len() < 4 {
            None
        } else {
            let vsize = endian.value(bytes.subrange(0, 4));
            if bytes.len() < 4 + vsize {
                None
            } else {
                Some(XattrValueView { vsize: vsize as u32, value: bytes.skip(4).take(vsize as int) })
            }
        }
    }
}

impl XattrValue {
    /// Reads the value that `bytes` start with, and tells how many bytes it takes up.
    pub fn from_bytes(bytes: &[u8], endian: Endian) -> (value: Option<(XattrValue, usize)>)
        ensures
            match value {
                Some((value, size)) => {
                    &&& XattrValueView::parsed(bytes@, endian) == Some(value@)
                    &&& size == 4 + value.vsize
                },
                None => XattrValueView::parsed(bytes@, endian) is None,
            },
    {
        if bytes.len() < 4 {
            return None;
        }
        proof {
            lemma_widths();
        }
        let vsize = read_uint(bytes, 0, 4, endian) as u32;
        if bytes.len() - 4 < vsize as usize {
            return None;
        }
        let size = 4 + vsize as usize;
        let value = slice_to_vec(slice_subrange(bytes, 4, size));
        proof {
            assert(value@ == bytes@.skip(4).take(vsize as int));
        }
        Some((XattrValue { vsize, value }, size))
    }

    /// Writes the value, whole.
    pub fn to_bytes(&self, endian: Endian) -> (bytes: Vec<u8>)
        ensures
            bytes@ == self@.stored(endian),
    {
        let mut bytes: Vec<u8> = Vec::new();
        write_uint(&mut bytes, self.vsize as u64, 4, endian);
        bytes.extend_from_slice(self.value.as_slice());
        bytes
    }
}

/// The hasher of [`IntMap`], which takes an integer key for its own hash.
#[verifier::external_type_specification]
#[verifier::external_body]
#[verifier::reject_recursive_types(T)]
pub struct ExNoHashHasher<T>(solana_nohash_hasher::NoHashHasher<T>);

/// What builds the hashers of [`IntMap`].
#[verifier::external_type_specification]
#[verifier::external_body]
#[verifier::reject_recursive_types(H)]
pub struct ExBuildHasherDefault<H>(core::hash::BuildHasherDefault<H>);

/// Cached, parsed xattr id table + key/value metadata region for a filesystem
pub struct XattrTable {
    pub ids: Vec<XattrId>,
    /// `(offset_from_kv_region_start, offset_in_kv_bytes)`
    pub kv_map: IntMap<u64, u64>,
    pub kv_bytes: Vec<u8>,
}

} // verus!
