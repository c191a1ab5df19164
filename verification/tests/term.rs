use lzr::term::{Term, TermType, NUMBER_LIMIT, POINTER_MASK};

#[test]
fn test_term_encoding() {
    const NUMBER: f64 = 3.141592;
    const TYPE: TermType = TermType::Data;
    const ADDR: u64 = 0x1234;

    let term: Term = NUMBER.to_bits().into();
    assert_eq!(f64::from_bits(term.as_number()), NUMBER);
    assert_eq!(term.get_type(), TermType::Number);

    let term: Term = Term::from_ptr(ADDR, TYPE);
    assert_eq!(term.as_ptr(), ADDR);
    assert_eq!(term.get_type(), TYPE);
}

#[test]
fn every_kind_round_trips() {
    let kinds = [
        TermType::Number,
        TermType::Mapping,
        TermType::Atom,
        TermType::Data,
        TermType::List,
        TermType::Tuple,
        TermType::Binary,
        TermType::Function,
    ];
    for kind in kinds {
        for address in [0u64, 8, 0x1234, 0x7fff_dead_beef, POINTER_MASK] {
            let term = Term::from_ptr(address, kind);
            assert_eq!(term.as_ptr(), address);
            assert_eq!(term.get_type(), kind);
            assert!(term.is(kind));
        }
    }
}

#[test]
fn packed_bits_are_exact() {
    assert_eq!(Term::from_ptr(0x1234, TermType::Data).as_number(), 0xfffb_0000_0000_1234);
    assert_eq!(Term::from_ptr(0, TermType::Function).as_number(), 0xffff_0000_0000_0000);
    assert_eq!(Term::from_ptr(1, TermType::Number).as_number(), 0xfff8_0000_0000_0001);
}

#[test]
fn doubles_are_numbers() {
    for number in [0.0f64, -0.0, 1.5, -2.75, f64::MAX, f64::MIN, f64::INFINITY, f64::NEG_INFINITY, f64::EPSILON] {
        let term = Term::from(number.to_bits());
        assert_eq!(term.get_type(), TermType::Number);
        assert_eq!(term.as_number(), number.to_bits());
        assert!(term.is(TermType::Number));
        assert!(!term.is(TermType::Atom));
    }
    assert_eq!(Term::from(NUMBER_LIMIT).get_type(), TermType::Number);
    assert_eq!(Term::from(NUMBER_LIMIT + (1 << 48)).get_type(), TermType::Mapping);
}
