use cdrs::cursor::{cursor_next_value, Cursor};
use cdrs::error::Error;
use cdrs::types::{CBytes, CBytesShort, CInet, CInt, CIntShort, CString, CStringList, CStringLong};
use cdrs::{FromBytes, FromCursor, IntoBytes};

// CString

#[test]
fn test_cstring_new() {
    let foo = "foo".to_string();
    let _ = CString::new(foo);
}

#[test]
fn test_cstring_as_str() {
    let foo = "foo".to_string();
    let cstring = CString::new(foo);

    assert_eq!(cstring.as_str(), "foo");
}

#[test]
fn test_cstring_into_plain() {
    let foo = "foo".to_string();
    let cstring = CString::new(foo);

    assert_eq!(cstring.into_plain(), "foo".to_string());
}

#[test]
fn test_cstring_into_cbytes() {
    let foo = "foo".to_string();
    let cstring = CString::new(foo);

    assert_eq!(cstring.into_cbytes(), vec![0, 3, 102, 111, 111]);
}

#[test]
fn test_cstring_from_cursor() {
    let mut cursor = Cursor::new(vec![0, 3, 102, 111, 111, 0]);
    let cstring = CString::from_cursor(&mut cursor).unwrap();
    assert_eq!(cstring.as_str(), "foo");
}

// CStringLong

#[test]
fn test_cstringlong_new() {
    let foo = "foo".to_string();
    let _ = CStringLong::new(foo);
}

#[test]
fn test_cstringlong_as_str() {
    let foo = "foo".to_string();
    let cstring = CStringLong::new(foo);

    assert_eq!(cstring.as_str(), "foo");
}

#[test]
fn test_cstringlong_into_plain() {
    let foo = "foo".to_string();
    let cstring = CStringLong::new(foo);

    assert_eq!(cstring.into_plain(), "foo".to_string());
}

#[test]
fn test_cstringlong_into_cbytes() {
    let foo = "foo".to_string();
    let cstring = CStringLong::new(foo);

    assert_eq!(cstring.into_cbytes(), vec![0, 0, 0, 3, 102, 111, 111]);
}

#[test]
fn test_cstringlong_from_cursor() {
    let mut cursor = Cursor::new(vec![0, 0, 0, 3, 102, 111, 111, 0]);
    let cstring = CStringLong::from_cursor(&mut cursor).unwrap();
    assert_eq!(cstring.as_str(), "foo");
}

// CStringList

#[test]
fn test_cstringlist() {
    let mut cursor = Cursor::new(vec![0, 2, 0, 3, 102, 111, 111, 0, 3, 102, 111, 111]);
    let list = CStringList::from_cursor(&mut cursor).unwrap();
    let plain = list.into_plain();
    assert_eq!(plain.len(), 2);
    for s in plain.iter() {
        assert_eq!(s.as_str(), "foo");
    }
}

// CBytes

#[test]
fn test_cbytes_new() {
    let bytes_vec: Vec<u8> = vec![1, 2, 3];
    let _ = CBytes::new(bytes_vec);
}

#[test]
fn test_cbytes_into_plain() {
    let cbytes = CBytes::new(vec![1, 2, 3]);
    assert_eq!(cbytes.into_plain(), vec![1, 2, 3]);
}

#[test]
fn test_cbytes_from_cursor() {
    let mut cursor = Cursor::new(vec![0, 0, 0, 3, 1, 2, 3]);
    let cbytes = CBytes::from_cursor(&mut cursor).unwrap();
    assert_eq!(cbytes.into_plain(), vec![1, 2, 3]);
}

#[test]
fn test_cbytes_into_cbytes() {
    let bytes_vec: Vec<u8> = vec![1, 2, 3];
    let cbytes = CBytes::new(bytes_vec);
    assert_eq!(cbytes.into_cbytes(), vec![0, 0, 0, 3, 1, 2, 3]);
}

// CBytesShort

#[test]
fn test_cbytesshort_new() {
    let bytes_vec: Vec<u8> = vec![1, 2, 3];
    let _ = CBytesShort::new(bytes_vec);
}

#[test]
fn test_cbytesshort_into_plain() {
    let cbytes = CBytesShort::new(vec![1, 2, 3]);
    assert_eq!(cbytes.into_plain(), vec![1, 2, 3]);
}

#[test]
fn test_cbytesshort_from_cursor() {
    let mut cursor = Cursor::new(vec![0, 3, 1, 2, 3]);
    let cbytes = CBytesShort::from_cursor(&mut cursor).unwrap();
    assert_eq!(cbytes.into_plain(), vec![1, 2, 3]);
}

#[test]
fn test_cbytesshort_into_cbytes() {
    let bytes_vec: Vec<u8> = vec![1, 2, 3];
    let cbytes = CBytesShort::new(bytes_vec);
    assert_eq!(cbytes.into_cbytes(), vec![0, 3, 1, 2, 3]);
}

// CInt

#[test]
fn test_cint_from_cursor() {
    let mut cursor = Cursor::new(vec![0, 0, 0, 5]);
    let i = <CInt as FromCursor>::from_cursor(&mut cursor).unwrap();
    assert_eq!(i, 5);
}

// CIntShort

#[test]
fn test_cintshort_from_cursor() {
    let mut cursor = Cursor::new(vec![0, 5]);
    let i = <CIntShort as FromCursor>::from_cursor(&mut cursor).unwrap();
    assert_eq!(i, 5);
}

// cursor_next_value

#[test]
fn test_cursor_next_value() {
    let mut cursor = Cursor::new(vec![0, 1, 2, 3, 4]);
    let l: u64 = 3;
    let val = cursor_next_value(&mut cursor, l).unwrap();
    assert_eq!(val, vec![0, 1, 2]);
}

// Wire scenarios

#[test]
fn test_string_wire_bytes() {
    let cstring = CString::new("foo".to_string());
    assert_eq!(cstring.into_cbytes(), vec![0x00, 0x03, 0x66, 0x6F, 0x6F]);
    let mut cursor = Cursor::new(vec![0x00, 0x03, 0x66, 0x6F, 0x6F]);
    let back = CString::from_cursor(&mut cursor).unwrap();
    assert_eq!(back.as_str(), "foo");
    assert_eq!(cursor.position(), 5);
}

#[test]
fn test_long_string_wire_bytes() {
    let cstring = CStringLong::new("foo".to_string());
    assert_eq!(
        cstring.into_cbytes(),
        vec![0x00, 0x00, 0x00, 0x03, 0x66, 0x6F, 0x6F]
    );
}

#[test]
fn test_string_list_wire_bytes() {
    let list = CStringList {
        list: vec![
            CString::new("foo".to_string()),
            CString::new("foo".to_string()),
        ],
    };
    assert_eq!(
        list.into_cbytes(),
        vec![0x00, 0x02, 0x00, 0x03, 0x66, 0x6F, 0x6F, 0x00, 0x03, 0x66, 0x6F, 0x6F]
    );
}

#[test]
fn test_bytes_wire_forms() {
    assert_eq!(
        CBytes::new(vec![1, 2, 3]).into_cbytes(),
        vec![0x00, 0x00, 0x00, 0x03, 0x01, 0x02, 0x03]
    );
    assert_eq!(
        CBytesShort::new(vec![1, 2, 3]).into_cbytes(),
        vec![0x00, 0x03, 0x01, 0x02, 0x03]
    );
    assert_eq!(
        CBytes::new_null().into_cbytes(),
        vec![0xFF, 0xFF, 0xFF, 0xFF]
    );
}

#[test]
fn test_null_bytes_round_trip() {
    let mut cursor = Cursor::new(vec![0xFF, 0xFF, 0xFF, 0xFF]);
    let cbytes = CBytes::from_cursor(&mut cursor).unwrap();
    assert!(matches!(cbytes, CBytes::Null));
}

#[test]
fn test_not_set_value_round_trip() {
    let wire = CBytes::new_not_set().into_value_bytes();
    assert_eq!(wire, vec![0xFF, 0xFF, 0xFF, 0xFE]);
    let mut cursor = Cursor::new(wire);
    let back = CBytes::value_from_cursor(&mut cursor).unwrap();
    assert!(matches!(back, CBytes::NotSet));
}

#[test]
fn test_not_set_rejected_in_bytes_context() {
    let mut cursor = Cursor::new(vec![0xFF, 0xFF, 0xFF, 0xFE]);
    assert_eq!(CBytes::from_cursor(&mut cursor), Err(Error::Protocol));
}

#[test]
fn test_empty_string_round_trip() {
    let cstring = CString::new(String::new());
    let wire = cstring.into_cbytes();
    assert_eq!(wire, vec![0x00, 0x00]);
    let mut cursor = Cursor::new(wire);
    let back = CString::from_cursor(&mut cursor).unwrap();
    assert_eq!(back.as_str(), "");
}

#[test]
fn test_string_truncated() {
    let mut cursor = Cursor::new(vec![0x00, 0x03, 0x66]);
    assert_eq!(CString::from_cursor(&mut cursor), Err(Error::Truncated));
}

#[test]
fn test_string_invalid_utf8() {
    let mut cursor = Cursor::new(vec![0x00, 0x01, 0xFF]);
    assert_eq!(CString::from_cursor(&mut cursor), Err(Error::InvalidUtf8));
}

#[test]
fn test_string_overflow() {
    let big = "a".repeat(65536);
    let cstring = CString::new(big);
    assert_eq!(cstring.try_into_cbytes(), Err(Error::Overflow));
}

#[test]
fn test_inet_round_trip() {
    let inet = CInet {
        addr: vec![127, 0, 0, 1],
        port: 9042,
    };
    let wire = inet.into_cbytes();
    assert_eq!(wire, vec![4, 127, 0, 0, 1, 0x00, 0x00, 0x23, 0x52]);
    let mut cursor = Cursor::new(wire);
    let back = CInet::from_cursor(&mut cursor).unwrap();
    assert_eq!(back.addr, vec![127, 0, 0, 1]);
    assert_eq!(back.port, 9042);
}

#[test]
fn test_inet_invalid_size() {
    let mut cursor = Cursor::new(vec![5, 1, 2, 3, 4, 5, 0, 0, 0, 1]);
    assert_eq!(CInet::from_cursor(&mut cursor), Err(Error::InvalidInet));
}

#[test]
fn test_vec_from_bytes() {
    let v = <Vec<u8> as FromBytes>::from_bytes(vec![0, 2, 7, 8, 9]).unwrap();
    assert_eq!(v, vec![7, 8]);
}

#[test]
fn test_negative_int_from_cursor() {
    let mut cursor = Cursor::new(vec![0xFF, 0xFF, 0xFF, 0xFB]);
    let i = <CInt as FromCursor>::from_cursor(&mut cursor).unwrap();
    assert_eq!(i, -5);
}

#[test]
fn test_negative_short_from_cursor() {
    let mut cursor = Cursor::new(vec![0xFF, 0xFB]);
    let i = <CIntShort as FromCursor>::from_cursor(&mut cursor).unwrap();
    assert_eq!(i, -5);
}
