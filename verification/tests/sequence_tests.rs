use gwyh::sequence::Seq32;

#[test]
fn test_seq() {
    let mut s = Seq32::new();
    assert_eq!(s.0, 0);
    s.inc();
    assert_eq!(s.0, 1);

    let mut s: Seq32 = u32::MAX.into();
    assert_eq!(s.0, u32::MAX);
    s.inc();
    assert_eq!(s.0, 0);
}
