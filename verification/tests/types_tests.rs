//! Tests of the primitive wire types: strings, byte blobs, fixed-width
//! integers and varints.

use cdrs_core::types::{
    cint_from_cursor, cint_short_from_cursor, cursor_fill_value, cursor_next_value, from_i_bytes,
    from_u16_bytes, to_varint, CBytes, CBytesShort, CString, CStringList, CStringLong,
};

// CString
#[test]
fn test_cstring_new() {
    let value = "foo".to_string();
    let _ = CString::new(value);
}

#[test]
fn test_cstring_as_str() {
    let value = "foo".to_string();
    let cstring = CString::new(value);

    assert_eq!(cstring.as_str(), "foo");
}

#[test]
fn test_cstring_into_plain() {
    let value = "foo".to_string();
    let cstring = CString::new(value);

    assert_eq!(cstring.into_plain(), "foo".to_string());
}

#[test]
fn test_cstring_into_cbytes() {
    let value = "foo".to_string();
    let cstring = CString::new(value);

    assert_eq!(cstring.as_bytes(), vec![0, 3, 102, 111, 111]);
}

#[test]
fn test_cstring_from_cursor() {
    let a = &[0, 3, 102, 111, 111, 0];
    let mut pos: usize = 0;
    let cstring = CString::from_cursor(a, &mut pos).unwrap();
    assert_eq!(cstring.as_str(), "foo");
}

// CStringLong
#[test]
fn test_cstringlong_new() {
    let value = "foo".to_string();
    let _ = CStringLong::new(value);
}

#[test]
fn test_cstringlong_as_str() {
    let value = "foo".to_string();
    let cstring = CStringLong::new(value);

    assert_eq!(cstring.as_str(), "foo");
}

#[test]
fn test_cstringlong_into_plain() {
    let value = "foo".to_string();
    let cstring = CStringLong::new(value);

    assert_eq!(cstring.into_plain(), "foo".to_string());
}

#[test]
fn test_cstringlong_into_cbytes() {
    let value = "foo".to_string();
    let cstring = CStringLong::new(value);

    assert_eq!(cstring.as_bytes(), vec![0, 0, 0, 3, 102, 111, 111]);
}

#[test]
fn test_cstringlong_from_cursor() {
    let a = &[0, 0, 0, 3, 102, 111, 111, 0];
    let mut pos: usize = 0;
    let cstring = CStringLong::from_cursor(a, &mut pos).unwrap();
    assert_eq!(cstring.as_str(), "foo");
}

// CStringList
#[test]
fn test_cstringlist() {
    let a = &[0, 2, 0, 3, 102, 111, 111, 0, 3, 102, 111, 111];
    let mut pos: usize = 0;
    let list = CStringList::from_cursor(a, &mut pos).unwrap();
    let plain = list.into_plain();
    assert_eq!(plain.len(), 2);
    for s in plain.iter() {
        assert_eq!(s.as_str(), "foo");
    }
}

// CBytes
#[test]
fn test_cbytes_new() {
    let bytes_vec: Vec<u8> = vec![1, 2, 3];
    let _ = CBytes::new(bytes_vec);
}

#[test]
fn test_cbytes_into_plain() {
    let cbytes = CBytes::new(vec![1, 2, 3]);
    assert_eq!(cbytes.into_plain().unwrap(), &[1, 2, 3]);
}

#[test]
fn test_cbytes_from_cursor() {
    let a = &[0, 0, 0, 3, 1, 2, 3];
    let mut pos: usize = 0;
    let cbytes = CBytes::from_cursor(a, &mut pos).unwrap();
    assert_eq!(cbytes.into_plain().unwrap(), vec![1, 2, 3]);
}

#[test]
fn test_cbytes_into_cbytes() {
    let bytes_vec: Vec<u8> = vec![1, 2, 3];
    let cbytes = CBytes::new(bytes_vec);
    assert_eq!(cbytes.as_bytes(), vec![0, 0, 0, 3, 1, 2, 3]);
}

#[test]
fn test_cbytes_null_and_empty_encodings() {
    // a null value is written as the int length -1: four 0xFF bytes
    assert_eq!(CBytes::new_empty().as_bytes(), vec![0xFF, 0xFF, 0xFF, 0xFF]);
    // an empty value is distinct from null: length 0 and no trailing bytes
    assert_eq!(CBytes::new(vec![]).as_bytes(), vec![0, 0, 0, 0]);
    // both survive a decode
    let mut pos: usize = 0;
    let null_back = CBytes::from_cursor(&[0xFF, 0xFF, 0xFF, 0xFF], &mut pos).unwrap();
    assert!(null_back.into_plain().is_none());
    pos = 0;
    let empty_back = CBytes::from_cursor(&[0, 0, 0, 0], &mut pos).unwrap();
    assert_eq!(empty_back.into_plain().unwrap(), Vec::<u8>::new());
}

// CBytesShort
#[test]
fn test_cbytesshort_new() {
    let bytes_vec: Vec<u8> = vec![1, 2, 3];
    let _ = CBytesShort::new(bytes_vec);
}

#[test]
fn test_cbytesshort_into_plain() {
    let cbytes = CBytesShort::new(vec![1, 2, 3]);
    assert_eq!(cbytes.into_plain().unwrap(), vec![1, 2, 3]);
}

#[test]
fn test_cbytesshort_from_cursor() {
    let a = &[0, 3, 1, 2, 3];
    let mut pos: usize = 0;
    let cbytes = CBytesShort::from_cursor(a, &mut pos).unwrap();
    assert_eq!(cbytes.into_plain().unwrap(), vec![1, 2, 3]);
}

#[test]
fn test_cbytesshort_into_cbytes() {
    let bytes_vec: Vec<u8> = vec![1, 2, 3];
    let cbytes = CBytesShort::new(bytes_vec);
    assert_eq!(cbytes.as_bytes(), vec![0, 3, 1, 2, 3]);
}

// CInt
#[test]
fn test_cint_from_cursor() {
    let a = &[0, 0, 0, 5];
    let mut pos: usize = 0;
    let i = cint_from_cursor(a, &mut pos).unwrap();
    assert_eq!(i, 5);
}

// CIntShort
#[test]
fn test_cintshort_from_cursor() {
    let a = &[0, 5];
    let mut pos: usize = 0;
    let i = cint_short_from_cursor(a, &mut pos).unwrap();
    assert_eq!(i, 5);
}

// cursor_next_value
#[test]
fn test_cursor_next_value() {
    let a = &[0, 1, 2, 3, 4];
    let mut pos: usize = 0;
    let l: usize = 3;
    let val = cursor_next_value(a, &mut pos, l).unwrap();
    assert_eq!(val, vec![0, 1, 2]);
}

#[test]
fn test_cursor_fill_value() {
    let a = &[7, 8, 9];
    let mut pos: usize = 0;
    let mut buff = vec![0u8, 0u8];
    assert!(cursor_fill_value(a, &mut pos, &mut buff));
    assert_eq!(buff, vec![7, 8]);
    assert_eq!(pos, 2);
    // asking for more than remains leaves everything unchanged
    let mut big = vec![0u8; 4];
    assert!(!cursor_fill_value(a, &mut pos, &mut big));
    assert_eq!(pos, 2);
}

#[test]
fn test_try_u16_from_bytes() {
    let bytes: [u8; 2] = 12u16.to_be_bytes();
    let val = from_u16_bytes(&bytes);
    assert_eq!(val, 12u16);
}

#[test]
fn test_from_i_bytes() {
    let bytes: [u8; 8] = 12i64.to_be_bytes();
    let val = from_i_bytes(&bytes);
    assert_eq!(val, 12i64);
}

#[test]
fn test_to_varint() {
    assert_eq!(to_varint(0), vec![0x00]);
    assert_eq!(to_varint(1), vec![0x01]);
    assert_eq!(to_varint(127), vec![0x7F]);
    assert_eq!(to_varint(128), vec![0x00, 0x80]);
    assert_eq!(to_varint(129), vec![0x00, 0x81]);
    assert_eq!(to_varint(-1), vec![0xFF]);
    assert_eq!(to_varint(-128), vec![0x80]);
    assert_eq!(to_varint(-129), vec![0xFF, 0x7F]);
}

#[test]
fn test_varint_decode_round_trip() {
    for &n in [
        0i64,
        1,
        -1,
        127,
        128,
        -128,
        -129,
        255,
        256,
        65535,
        -65536,
        i64::MAX,
        i64::MIN,
    ]
    .iter()
    {
        assert_eq!(from_i_bytes(&to_varint(n)), n);
    }
}
