use program_types::access::Access;
use program_types::errors::ProgramError;
use program_types::identifier::Identifier;

#[test]
fn test_parse() -> Result<(), ProgramError> {
    assert_eq!(Access::parse("[0]"), Ok(("", Access::Index(0))));
    assert_eq!(
        Access::parse(".data"),
        Ok(("", Access::Member(Identifier::from_str("data")?)))
    );
    Ok(())
}

#[test]
fn test_parse_fails() -> Result<(), ProgramError> {
    // Must be non-empty.
    assert!(Access::parse("").is_err());
    assert!(Access::parse(".").is_err());
    assert!(Access::parse("[]").is_err());

    // Invalid accesses.
    assert!(Access::parse(".0").is_err());
    assert!(Access::parse("[index]").is_err());
    assert!(Access::parse("[0.0]").is_err());
    assert!(Access::parse("[999999999999]").is_err());

    // Must fit within the data capacity of a base field element.
    let access =
        Access::parse(".foo_bar_baz_qux_quux_quuz_corge_grault_garply_waldo_fred_plugh_xyzzy");
    assert!(access.is_err());

    Ok(())
}

#[test]
fn test_display() -> Result<(), ProgramError> {
    assert_eq!(Access::Index(0).to_string(), "[0]");
    assert_eq!(
        Access::Member(Identifier::from_str("foo")?).to_string(),
        ".foo"
    );
    Ok(())
}

#[test]
fn test_index_bounds() {
    // The largest index parses; one past it overflows.
    assert_eq!(
        Access::parse("[4294967295]"),
        Ok(("", Access::Index(4294967295)))
    );
    assert_eq!(Access::parse("[4294967296]"), Err(ProgramError::Overflow));
}

#[test]
fn test_index_round_trip() {
    for u in [0u32, 1, 9, 10, 99, 100, 12345, u32::MAX] {
        let text = Access::Index(u).to_string();
        assert_eq!(Access::parse(&text), Ok(("", Access::Index(u))));
    }
}

#[test]
fn test_underscore_grouping() {
    // Underscores after digits are stripped; the value is that of the
    // stripped digit string, and rendering canonicalizes.
    assert_eq!(Access::parse("[1_2_3]"), Ok(("", Access::Index(123))));
    assert_eq!(Access::parse("[1___]"), Ok(("", Access::Index(1))));
    assert_eq!(Access::parse("[4_294_967_295]"), Ok(("", Access::Index(u32::MAX))));
    assert_eq!(Access::from_str("[1_2_3]").unwrap().to_string(), "[123]");
    // An underscore cannot open the digit run.
    assert_eq!(Access::parse("[_1]"), Err(ProgramError::NoMatch));
}

#[test]
fn test_parse_leaves_remainder() {
    assert_eq!(Access::parse("[3].rest"), Ok((".rest", Access::Index(3))));
    let (rem, a) = Access::parse(".data[0]").unwrap();
    assert_eq!(rem, "[0]");
    assert_eq!(a.to_string(), ".data");
}

#[test]
fn test_from_str_demands_empty_remainder() {
    assert_eq!(Access::from_str("[0]"), Ok(Access::Index(0)));
    assert_eq!(
        Access::from_str("[0]x"),
        Err(ProgramError::Remainder("x".to_string()))
    );
    assert_eq!(
        Access::from_str(".data[0]"),
        Err(ProgramError::Remainder("[0]".to_string()))
    );
}

#[test]
fn test_identifier_rules() {
    // A 31-character name fits the field-element bound; 32 do not.
    let name31 = "a234567890123456789012345678901";
    assert_eq!(name31.len(), 31);
    assert!(Identifier::from_str(name31).is_ok());
    let name32 = "a2345678901234567890123456789012";
    assert_eq!(
        Identifier::from_str(name32),
        Err(ProgramError::IdentifierTooLong)
    );
    // A name cannot open with a digit or be empty.
    assert_eq!(Identifier::from_str("9abc"), Err(ProgramError::NoMatch));
    assert_eq!(Identifier::from_str(""), Err(ProgramError::NoMatch));
    assert!(Identifier::from_str("foo_bar1").is_ok());
}
