use mirae_tts_engine::connect::ConnectMatrix;
#[test]
fn parse_and_get() {
    let buf = [2u8, 0, 0, 0, 9, 8, 7, 6];
    let m = ConnectMatrix::parse(&buf).unwrap();
    assert_eq!(m.n, 2);
    assert_eq!(m.get(0, 0), 9);
    assert_eq!(m.get(1, 1), 6);
    assert_eq!(m.get(0, 1), 8);
    assert_eq!(m.get(5, 0), 0);
    assert_eq!(m.row(1), Some(&[7u8, 6][..]));
    assert_eq!(m.row(2), None);
}

#[test]
fn rejects_too_small() {
    assert!(ConnectMatrix::parse(&[0u8; 3]).is_none());
}
