use dsym_batch::ident::{format_identifiers, parse_targets};

const CANONICAL: &str = "67e55044-10b1-426f-9247-bb680e5fe0c8";
const VALUE: u128 = 0x67e5504410b1426f9247bb680e5fe0c8;

#[test]
fn canonical_text_parses_to_its_value() {
    let parsed = parse_targets(&vec![CANONICAL.to_string()]).unwrap();
    assert_eq!(parsed, vec![VALUE]);
}

#[test]
fn first_invalid_string_is_reported_by_position() {
    let inputs = vec![CANONICAL.to_string(), "not-an-identifier".to_string()];
    let err = match parse_targets(&inputs) {
        Err(e) => e,
        Ok(_) => panic!("an invalid identifier was accepted"),
    };
    assert_eq!(err.index, 1);
}

#[test]
fn formatting_writes_canonical_text() {
    let texts = format_identifiers(&vec![VALUE]);
    assert_eq!(texts, vec![CANONICAL.to_string()]);
}

#[test]
fn parse_and_format_round_trip() {
    let parsed = parse_targets(&vec![CANONICAL.to_string()]).unwrap();
    let texts = format_identifiers(&parsed);
    assert_eq!(texts[0], CANONICAL);
}
