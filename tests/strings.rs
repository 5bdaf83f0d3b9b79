use falco_event::codec::read_field;
use falco_event::value::{FieldError, FieldType, FieldValue, RelativePath};

#[test]
fn test_str_array() {
    let arr = FieldValue::CharBufArray(vec![b"foo".as_slice(), b"bar".as_slice()]);

    let mut binary = Vec::new();
    arr.write(&mut binary);

    assert_eq!(binary.as_slice(), b"foo\0bar\0".as_slice());

    let (loaded, used) = read_field(FieldType::CharBufArray, binary.as_slice(), 0).unwrap();
    assert_eq!(used, binary.len());
    assert_eq!(arr, loaded)
}

#[test]
fn test_str_empty_array() {
    let arr = FieldValue::CharBufArray(Vec::new());

    let mut binary = Vec::new();
    arr.write(&mut binary);

    assert!(binary.as_slice().is_empty());

    let (loaded, _) = read_field(FieldType::CharBufArray, binary.as_slice(), 0).unwrap();
    assert_eq!(arr, loaded)
}

#[test]
fn test_str_array_with_empty_strings() {
    let buf = b"\0\0\0".as_slice();
    let (loaded, _) = read_field(FieldType::CharBufArray, buf, 0).unwrap();
    match loaded {
        FieldValue::CharBufArray(items) => {
            assert_eq!(items.len(), 3);
            assert!(items.iter().all(|s| s.is_empty()))
        }
        other => panic!("unexpected value {:?}", other),
    }
}

#[test]
fn test_str_pair_array() {
    let arr = FieldValue::CharBufPairArray(vec![(b"foo".as_slice(), b"bar".as_slice())]);

    let mut binary = Vec::new();
    arr.write(&mut binary);

    assert_eq!(binary.as_slice(), b"foo\0bar\0".as_slice());

    let (loaded, _) = read_field(FieldType::CharBufPairArray, binary.as_slice(), 0).unwrap();
    assert_eq!(arr, loaded)
}

#[test]
fn test_str_pair_array_odd() {
    let buf = b"foo\0bar\0baz\0".as_slice();
    assert!(read_field(FieldType::CharBufPairArray, buf, 0).is_err());
}

#[test]
fn test_relative_path() {
    let rel_path = FieldValue::FsRelPath(RelativePath(b"/foo".as_slice()));
    let mut binary = Vec::new();

    rel_path.write(&mut binary);

    assert_eq!(binary.as_slice(), "/foo\0".as_bytes());

    let (path, _) = read_field(FieldType::FsRelPath, binary.as_slice(), 0).unwrap();
    match path {
        FieldValue::FsRelPath(p) => {
            assert_eq!(typed_path::UnixPath::new(p.0).to_str().unwrap(), "/foo")
        }
        other => panic!("unexpected value {:?}", other),
    }
}

#[test]
fn pair_array_odd_reports_odd_item_count() {
    let buf = b"a\0b\0c\0".as_slice();
    assert_eq!(
        read_field(FieldType::CharBufPairArray, buf, 0),
        Err(FieldError::OddItemCount)
    );
}

#[test]
fn pair_array_keeps_order() {
    let buf = b"k1\0v1\0k2\0v2\0".as_slice();
    let (v, used) = read_field(FieldType::CharBufPairArray, buf, 0).unwrap();
    assert_eq!(used, buf.len());
    assert_eq!(
        v,
        FieldValue::CharBufPairArray(vec![
            (b"k1".as_slice(), b"v1".as_slice()),
            (b"k2".as_slice(), b"v2".as_slice()),
        ])
    );
}

#[test]
fn string_without_terminator_is_truncated() {
    assert_eq!(
        read_field(FieldType::CharBuf, b"abc".as_slice(), 0),
        Err(FieldError::Truncated)
    );
    assert_eq!(
        read_field(FieldType::CharBufArray, b"ab\0cd".as_slice(), 0),
        Err(FieldError::Truncated)
    );
}

#[test]
fn string_stops_at_first_nul() {
    let (v, used) = read_field(FieldType::CharBuf, b"ab\0cd\0".as_slice(), 0).unwrap();
    assert_eq!(v, FieldValue::CharBuf(b"ab".as_slice()));
    assert_eq!(used, 3);
    assert_eq!(v.binary_size(), 3);
}

#[test]
fn empty_string_round_trip() {
    let v = FieldValue::CharBuf(b"".as_slice());
    let mut out = Vec::new();
    v.write(&mut out);
    assert_eq!(out, vec![0u8]);
    assert_eq!(read_field(FieldType::CharBuf, out.as_slice(), 0), Ok((v, 1)));
}
