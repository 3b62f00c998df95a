use liro::lichess::format::Format;

#[test]
fn format_can_be_compared() {
    assert_ne!(Format::Blitz, Format::Bullet);
    assert_ne!(Format::Bullet, Format::Rapid);
    assert_ne!(Format::Bullet, Format::Rapid);
}

#[test]
fn format_can_be_parsed_from_string() {
    assert_eq!("classical".parse::<Format>().unwrap(), Format::Classical);
    assert_eq!("blitz".parse::<Format>().unwrap(), Format::Blitz);
    assert_eq!("bullet".parse::<Format>().unwrap(), Format::Bullet);
    assert_eq!("rapid".parse::<Format>().unwrap(), Format::Rapid);
}

#[test]
fn format_parser_reports_error() {
    assert!("foo".parse::<Format>().is_err());
}
