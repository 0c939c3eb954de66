use backhand::endian::{read_uint, write_uint, Endian};
use backhand::error::BackhandError;
use backhand::v4::xattr::{
    Xattr, XattrEntry, XattrId, XattrIdTable, XattrPrefix, XattrTable, XattrValue,
    XATTR_VALUE_OOL, XATTR_VALUE_OOL_SIZE,
};
use solana_nohash_hasher::IntMap;

fn message(xattr_type: u16) -> String {
    match XattrPrefix::try_from(xattr_type) {
        Err(BackhandError::InvalidXattrTable(message)) => message,
        _ => panic!("type {} has a prefix", xattr_type),
    }
}

#[test]
fn prefixes_are_spelled_out() {
    assert_eq!(XattrPrefix::User.as_str(), "user.");
    assert_eq!(XattrPrefix::Trusted.as_str(), "trusted.");
    assert_eq!(XattrPrefix::Security.as_str(), "security.");
}

#[test]
fn low_byte_names_the_prefix() {
    assert_eq!(XattrPrefix::try_from(0).unwrap(), XattrPrefix::User);
    assert_eq!(XattrPrefix::try_from(1).unwrap(), XattrPrefix::Trusted);
    assert_eq!(XattrPrefix::try_from(2).unwrap(), XattrPrefix::Security);
    assert_eq!(XattrPrefix::try_from(1 | XATTR_VALUE_OOL).unwrap(), XattrPrefix::Trusted);
    assert_eq!(XattrPrefix::try_from(0xff02).unwrap(), XattrPrefix::Security);
}

#[test]
fn unknown_prefixes_are_reported() {
    assert_eq!(message(3), "unknown xattr prefix: 0x3");
    assert_eq!(message(0x00a0), "unknown xattr prefix: 0xa0");
    assert_eq!(message(0x01ff), "unknown xattr prefix: 0xff");
}

#[test]
fn full_names_hold_prefix_and_name() {
    let xattr = |prefix: XattrPrefix, name: &str| Xattr {
        prefix,
        name: name.to_string(),
        value: b"bar".to_vec(),
    };
    assert_eq!(xattr(XattrPrefix::User, "foo").full_name(), "user.foo");
    assert_eq!(xattr(XattrPrefix::Trusted, "big").full_name(), "trusted.big");
    assert_eq!(xattr(XattrPrefix::Security, "").full_name(), "security.");
    assert_ne!(
        xattr(XattrPrefix::User, "trusted.a").full_name(),
        xattr(XattrPrefix::Trusted, "a").full_name()
    );
}

#[test]
fn id_table_round_trip() {
    let table =
        XattrIdTable { xattr_table_start: 0x0102_0304_0506_0708, xattr_ids: 0x11, unused: 0 };
    let little = table.to_bytes(Endian::Little);
    assert_eq!(little, vec![8, 7, 6, 5, 4, 3, 2, 1, 0x11, 0, 0, 0, 0, 0, 0, 0]);
    let big = table.to_bytes(Endian::Big);
    assert_eq!(big, vec![1, 2, 3, 4, 5, 6, 7, 8, 0, 0, 0, 0x11, 0, 0, 0, 0]);
    assert_eq!(XattrIdTable::from_bytes(&little, Endian::Little), Some(table));
    assert_eq!(XattrIdTable::from_bytes(&big, Endian::Big), Some(table));
    assert_eq!(XattrIdTable::from_bytes(&big[..15], Endian::Big), None);
    assert_eq!(big.len(), XattrIdTable::SIZE);
}

#[test]
fn id_round_trip() {
    let id = XattrId { xattr: (0x20 << 16) | 0x18, count: 3, size: 0xfeff_0001 };
    let mut little = id.to_bytes(Endian::Little);
    assert_eq!(little, vec![0x18, 0, 0x20, 0, 0, 0, 0, 0, 3, 0, 0, 0, 1, 0, 0xff, 0xfe]);
    assert_eq!(little.len(), XattrId::SIZE);
    little.push(0xaa);
    assert_eq!(XattrId::from_bytes(&little, Endian::Little), Some(id));
    assert_eq!(XattrId::from_bytes(&id.to_bytes(Endian::Big), Endian::Big), Some(id));
    assert_eq!(XattrId::from_bytes(&[], Endian::Big), None);
}

#[test]
fn entry_round_trip() {
    let entry = XattrEntry { xattr_type: 0x0101, name_size: 3, name: b"big".to_vec() };
    let bytes = entry.to_bytes(Endian::Big);
    assert_eq!(bytes, vec![1, 1, 0, 3, b'b', b'i', b'g']);
    assert_eq!(XattrEntry::from_bytes(&bytes, Endian::Big), Some((entry.clone(), 7)));
    let mut more = entry.to_bytes(Endian::Little);
    more.extend_from_slice(b"more");
    assert_eq!(XattrEntry::from_bytes(&more, Endian::Little), Some((entry, 7)));
    assert_eq!(XattrEntry::from_bytes(&bytes[..6], Endian::Big), None);
    assert_eq!(XattrEntry::from_bytes(&bytes[..3], Endian::Big), None);
}

#[test]
fn entry_is_written_as_it_stands() {
    let entry = XattrEntry { xattr_type: 0, name_size: 1, name: b"foo".to_vec() };
    let bytes = entry.to_bytes(Endian::Little);
    assert_eq!(bytes, vec![0, 0, 1, 0, b'f', b'o', b'o']);
    let (read, size) = XattrEntry::from_bytes(&bytes, Endian::Little).unwrap();
    assert_eq!((read.name, size), (b"f".to_vec(), 5));
}

#[test]
fn value_round_trip() {
    let value = XattrValue { vsize: 200, value: vec![b'A'; 200] };
    let bytes = value.to_bytes(Endian::Little);
    assert_eq!(&bytes[..5], &[200u8, 0, 0, 0, b'A'][..]);
    assert_eq!(XattrValue::from_bytes(&bytes, Endian::Little), Some((value, 204)));
    assert_eq!(XattrValue::from_bytes(&bytes[..203], Endian::Little), None);
    assert_eq!(XattrValue::from_bytes(&[0xff; 8], Endian::Big), None);
    let empty = XattrValue { vsize: 0, value: vec![] };
    assert_eq!(XattrValue::from_bytes(&[0; 4], Endian::Big), Some((empty, 4)));
}

#[test]
fn out_of_line_reference_fills_a_value() {
    let reference: u64 = (0x30 << 16) | 0x44;
    let mut value = Vec::new();
    write_uint(&mut value, reference, XATTR_VALUE_OOL_SIZE, Endian::Little);
    let wrapper = XattrValue { vsize: 8, value };
    let (read, _) =
        XattrValue::from_bytes(&wrapper.to_bytes(Endian::Little), Endian::Little).unwrap();
    assert_eq!(read_uint(&read.value, 0, XATTR_VALUE_OOL_SIZE, Endian::Little), reference);
}

#[test]
fn integers_are_stored_in_either_order() {
    let mut out = vec![0xee];
    write_uint(&mut out, 0x0102, 2, Endian::Big);
    write_uint(&mut out, 0x0304, 2, Endian::Little);
    write_uint(&mut out, 0x0102_0304, 2, Endian::Big);
    assert_eq!(out, vec![0xee, 1, 2, 4, 3, 3, 4]);
    assert_eq!(read_uint(&out, 1, 2, Endian::Big), 0x0102);
    assert_eq!(read_uint(&out, 1, 2, Endian::Little), 0x0201);
    assert_eq!(read_uint(&[0xff; 8], 0, 8, Endian::Little), u64::MAX);
    assert_eq!(read_uint(&out, 7, 0, Endian::Little), 0);
}

#[test]
fn table_holds_ids_and_key_value_region() {
    let mut kv_map: IntMap<u64, u64> = IntMap::default();
    kv_map.insert(0, 0);
    kv_map.insert(0x200, 0x2000);
    let table = XattrTable {
        ids: vec![XattrId { xattr: 0, count: 1, size: 10 }],
        kv_map,
        kv_bytes: vec![0; 0x2000],
    };
    assert_eq!(table.kv_map.get(&0x200), Some(&0x2000));
    assert_eq!(table.ids[0].count, 1);
    assert_eq!(table.kv_bytes.len(), 0x2000);
}
