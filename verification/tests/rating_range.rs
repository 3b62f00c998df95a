use liro::bot::rating_range::RatingRange;
use liro::lichess::format::Format;

#[test]
// This test is for ranges like U1000
fn is_match_recognises_exclusively_under() {
    let f = Format::Blitz;
    let rr = RatingRange::new(f, None, Some(10));

    assert!(rr.is_match(f, 9));
    assert!(!rr.is_match(f, 10));
    assert!(!rr.is_match(f, 11));
}

#[test]
// This test is for ranges like 2200+
fn is_match_recognises_exclusively_over() {
    let f = Format::Blitz;
    let rr = RatingRange::new(f, Some(10), None);

    assert!(!rr.is_match(f, 9));
    assert!(rr.is_match(f, 10));
    assert!(rr.is_match(f, 11));
}

#[test]
// This test is for ranges like 1000-1099 or 1400-1699
fn is_match_recognises_in_between() {
    let f = Format::Blitz;
    let rr = RatingRange::new(f, Some(10), Some(19));

    assert!(!rr.is_match(f, 9));
    assert!(rr.is_match(f, 10));
    assert!(rr.is_match(f, 19));
    assert!(!rr.is_match(f, 20));
}

#[test]
fn is_match_differentiates_on_format() {
    let rr = RatingRange::new(Format::Blitz, Some(10), Some(19));

    assert!(!rr.is_match(Format::Bullet, 15));
}

#[test]
fn parse_correctly_detects_format() {
    assert_eq!(
        "2200+ classical".parse::<RatingRange>().unwrap().format,
        Format::Classical
    );
    assert_eq!(
        "2200+ blitz".parse::<RatingRange>().unwrap().format,
        Format::Blitz
    );
    assert_eq!(
        "2200+ bullet".parse::<RatingRange>().unwrap().format,
        Format::Bullet
    );
    assert_eq!(
        "2200+ rapid".parse::<RatingRange>().unwrap().format,
        Format::Rapid
    );
}

#[test]
fn parse_correctly_handles_under() {
    let rr = "U3000 blitz".parse::<RatingRange>().unwrap();

    assert_eq!(rr.min, None);
    assert_eq!(rr.max, Some(3000));
    assert!(rr.is_match(Format::Blitz, 2999));
    assert!(!rr.is_match(Format::Blitz, 3000));
}

#[test]
fn parse_correctly_handles_over() {
    let rr = "2200+ blitz".parse::<RatingRange>().unwrap();

    assert_eq!(rr.min, Some(2200));
    assert_eq!(rr.max, None);
    assert!(rr.is_match(Format::Blitz, 2300));
    assert!(rr.is_match(Format::Blitz, 2200));
    assert!(!rr.is_match(Format::Blitz, 2199));
}

#[test]
fn parse_correctly_handles_between() {
    let rr = "1400-1599 bullet".parse::<RatingRange>().unwrap();

    assert_eq!(rr.min, Some(1400));
    assert_eq!(rr.max, Some(1599));

    assert!(!rr.is_match(Format::Bullet, 1399));
    assert!(rr.is_match(Format::Bullet, 1400));
    assert!(rr.is_match(Format::Bullet, 1599));
    assert!(!rr.is_match(Format::Bullet, 1600));
}
