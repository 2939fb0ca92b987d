use fbx_writer::binary::BinaryEmitter;
use fbx_writer::error::{Error, ErrorKind};

#[test]
fn error_keeps_position_and_kind() {
    let err = Error::new(42, ErrorKind::InvalidMagic);
    assert_eq!(err.position(), 42);
    assert!(matches!(err.kind(), ErrorKind::InvalidMagic));
}

#[test]
fn error_kind_variants_construct() {
    let err = Error::new(7, ErrorKind::UnexpectedEof);
    assert!(matches!(err.kind(), ErrorKind::UnexpectedEof));
    let err = Error::new(0, ErrorKind::Unimplemented(String::from("nope")));
    assert!(matches!(err.kind(), ErrorKind::Unimplemented(m) if m == "nope"));
    let err = Error::new(3, ErrorKind::DataError(String::from("bad")));
    assert!(matches!(err.kind(), ErrorKind::DataError(m) if m == "bad"));
}

#[test]
fn io_error_converts_to_io_kind() {
    let io_err = std::io::Error::new(std::io::ErrorKind::BrokenPipe, "pipe");
    let kind = ErrorKind::from(io_err);
    assert!(matches!(kind, ErrorKind::Io(_)));
}

#[test]
fn utf8_error_converts_to_utf8_kind() {
    let bad = String::from_utf8(vec![0xff, 0xfe]).unwrap_err();
    let kind = ErrorKind::from(bad);
    assert!(matches!(kind, ErrorKind::FromUtf8Error(_)));
}

#[test]
fn binary_start_fbx_is_unimplemented() {
    let mut em = BinaryEmitter::new(7400);
    let mut sink: Vec<u8> = Vec::new();
    let err = em.emit_start_fbx(&mut sink, 7400).unwrap_err();
    assert!(matches!(err.kind(), ErrorKind::Unimplemented(_)));
    assert!(sink.is_empty());
}

#[test]
fn binary_start_fbx_fails_for_any_version() {
    for ver in [0, 6999, 7400, 8000, u32::MAX] {
        let mut em = BinaryEmitter::new(ver);
        let mut sink: Vec<u8> = Vec::new();
        assert!(em.emit_start_fbx(&mut sink, ver).is_err());
        assert!(sink.is_empty());
    }
}
