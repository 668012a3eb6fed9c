use std::str::FromStr;

use conrt::cstring::CString;
use conrt::cstring::CStringError;
use conrt::sys::Argv;

#[test]
fn cstr_borrow_from_cstring() {
    let c = CString::from_str("hello").unwrap();
    let borrowed = c.borrow();
    assert_eq!(borrowed.to_bytes(), b"hello");
    assert_eq!(borrowed.as_raw(), c.as_raw());
}

#[test]
fn roundtrip() {
    let s = "hello world";
    let c = CString::from_str(s).unwrap();
    assert_eq!(c.to_bytes(), b"hello world");
}

#[test]
fn null_terminated() {
    let s = "test";
    let c = CString::from_str(s).unwrap();
    let bytes = c.to_bytes();
    let after = c.as_raw()[bytes.len()];
    assert_eq!(after, 0);
}

#[test]
fn empty_string() {
    let c = CString::from_str("").unwrap();
    assert_eq!(c.to_bytes(), b"");
    let after = c.as_raw()[0];
    assert_eq!(after, 0);
}

#[test]
fn clone_is_equal() {
    let c = CString::from_str("clone me").unwrap();
    let d = c.clone();
    assert_eq!(c.to_bytes(), d.to_bytes());
}

#[test]
fn drop_does_not_crash() {
    let c = CString::from_str("drop me").unwrap();
    drop(c);
}

#[test]
fn into_raw_returns_valid_ptr() {
    let c = CString::from_str("leaked").unwrap();
    let raw = c.into_raw();
    assert_eq!(raw, b"leaked\0");
}

#[test]
fn into_raw_vec_reinterprets() {
    let v = vec![
        CString::from_str("a").unwrap(),
        CString::from_str("b").unwrap(),
    ];
    let raw = CString::into_raw_vec(v);
    assert_eq!(raw.len(), 2);
    assert_eq!(raw[0], b"a\0");
    assert_eq!(raw[1], b"b\0");
}

#[test]
fn try_from_valid() {
    let c = CString::try_from_bytes(b"hello".as_slice()).unwrap();
    assert_eq!(c.to_bytes(), b"hello");
}

#[test]
fn try_from_empty() {
    let c = CString::try_from_bytes(b"".as_slice()).unwrap();
    assert_eq!(c.to_bytes(), b"");
}

#[test]
fn try_from_interior_null() {
    let err = CString::try_from_bytes(b"ab\0cd".as_slice()).unwrap_err();
    assert_eq!(err, CStringError::ContainsNull(2));
}

#[test]
fn try_from_leading_null() {
    let err = CString::try_from_bytes(b"\0hello".as_slice()).unwrap_err();
    assert_eq!(err, CStringError::ContainsNull(0));
}

#[test]
fn try_from_trailing_null() {
    let err = CString::try_from_bytes(b"hello\0".as_slice()).unwrap_err();
    assert_eq!(err, CStringError::ContainsNull(5));
}

#[test]
fn try_from_display() {
    let err = CStringError::ContainsNull(3);
    assert_eq!(err.message(), "null byte at position 3");
}

#[test]
fn argument_vector_ends_with_nothing() {
    let argv = Argv::new(vec![CString::of("ls"), CString::of("-l")]);
    let words = argv.as_slice().as_raw();
    assert_eq!(words.len(), 3);
    assert_eq!(words[0].as_ref().unwrap().to_bytes(), b"ls");
    assert!(words[2].is_none());
    let command = argv.into_command();
    assert_eq!(command.len(), 2);
    assert_eq!(command[1].to_bytes(), b"-l");
}
