use libgeotiles::cli::{ZoomError, ZoomRange};
use libgeotiles::text::IntErrorKind;

#[test]
fn parse_single_zoom() {
    let r = ZoomRange::parse("5").unwrap();
    assert_eq!(r.min, 5);
    assert_eq!(r.max, 5);
}

#[test]
fn parse_range() {
    let r = ZoomRange::parse("2..8").unwrap();
    assert_eq!(r.min, 2);
    assert_eq!(r.max, 8);
}

#[test]
fn parse_range_same() {
    let r = ZoomRange::parse("3..3").unwrap();
    assert_eq!(r.min, 3);
    assert_eq!(r.max, 3);
}

#[test]
fn parse_invalid_range_order() {
    assert!(ZoomRange::parse("8..2").is_err());
}

#[test]
fn parse_invalid_not_a_number() {
    assert!(ZoomRange::parse("abc").is_err());
}

#[test]
fn parse_edge_zoom_zero() {
    let r = ZoomRange::parse("0").unwrap();
    assert_eq!(r.min, 0);
    assert_eq!(r.max, 0);
}

#[test]
fn parse_trims_each_side_of_the_range() {
    let r = ZoomRange::parse(" 1 .. 12 ").unwrap();
    assert_eq!((r.min, r.max), (1, 12));
    let r = ZoomRange::parse("\t7\n").unwrap();
    assert_eq!((r.min, r.max), (7, 7));
}

#[test]
fn parse_accepts_a_plus_sign() {
    let r = ZoomRange::parse("+4..+6").unwrap();
    assert_eq!((r.min, r.max), (4, 6));
}

#[test]
fn parse_reports_each_failure() {
    match ZoomRange::parse("x..3") {
        Err(ZoomError::InvalidMin { text, kind }) => {
            assert_eq!(text, "x");
            assert_eq!(kind, IntErrorKind::InvalidDigit);
        }
        other => panic!("unexpected {:?}", other),
    }
    match ZoomRange::parse("3..") {
        Err(ZoomError::InvalidMax { text, kind }) => {
            assert_eq!(text, "");
            assert_eq!(kind, IntErrorKind::Empty);
        }
        other => panic!("unexpected {:?}", other),
    }
    match ZoomRange::parse("0..256") {
        Err(ZoomError::InvalidMax { text, kind }) => {
            assert_eq!(text, "256");
            assert_eq!(kind, IntErrorKind::PosOverflow);
        }
        other => panic!("unexpected {:?}", other),
    }
    match ZoomRange::parse("8..2") {
        Err(ZoomError::MinAboveMax { min, max }) => assert_eq!((min, max), (8, 2)),
        other => panic!("unexpected {:?}", other),
    }
    match ZoomRange::parse(" -1 ") {
        Err(ZoomError::Invalid { text, kind }) => {
            assert_eq!(text, " -1 ");
            assert_eq!(kind, IntErrorKind::InvalidDigit);
        }
        other => panic!("unexpected {:?}", other),
    }
}

#[test]
fn parse_splits_at_the_first_dots() {
    // "1..2..3" splits into "1" and "2..3"; the second part is not a number.
    match ZoomRange::parse("1..2..3") {
        Err(ZoomError::InvalidMax { text, .. }) => assert_eq!(text, "2..3"),
        other => panic!("unexpected {:?}", other),
    }
    // The full u8 range is accepted.
    let r = ZoomRange::parse("0..255").unwrap();
    assert_eq!((r.min, r.max), (0, 255));
}
