use riscv_paging::span::Span;

#[test]
fn it_works() {
    assert_eq!(2 + 2, 4);
}

#[test]
fn intersect_examples() {
    let s11 = Span::new(1, 1);
    let s12 = Span::new(1, 2);
    let s13 = Span::new(1, 3);
    let s23 = Span::new(2, 3);
    let s24 = Span::new(2, 3);
    let s34 = Span::new(3, 4);
    assert_eq!(s12.intersect(s34), s34.intersect(s12));
    assert_eq!(s12.intersect(s34), None);
    assert_eq!(s12.intersect(s23), s23.intersect(s12));
    assert_eq!(s12.intersect(s23), None);
    assert_eq!(s11.intersect(s11), None);
    assert_eq!(s13.intersect(s24), Some(Span::new(2, 3)));
    assert_eq!(s12.intersect(s12), Some(s12));
}

#[test]
fn merge_examples() {
    let s12 = Span::new(1, 2);
    let s23 = Span::new(2, 3);
    let s13 = Span::new(1, 3);
    let s34 = Span::new(3, 4);
    assert_eq!(Some(s13), s12.merge(s23));
    assert_eq!(Some(s13), s23.merge(s12));
    assert_eq!(None, s12.merge(s34));
    assert_eq!(None, s34.merge(s12));
    assert_eq!(Some(s13), s13.merge(s13));
    assert_eq!(Some(s13), s13.merge(s12).unwrap().merge(s23));
}

#[test]
fn offset_len_and_contains() {
    let s = Span::new(0x1000, 0x3000);
    assert_eq!(s.len(), 0x2000);
    assert_eq!(s.begin(), 0x1000);
    assert_eq!(s.end(), 0x3000);
    let t = s.offset(-0x1000).offset(0x8000);
    assert_eq!(t, Span::new(0x8000, 0xa000));
    assert!(s.contains(0x1000));
    assert!(s.contains(0x2fff));
    assert!(!s.contains(0x3000));
    assert!(!s.contains(0xfff));
}
