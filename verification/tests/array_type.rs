use program_types::array_type::ArrayType;
use program_types::element_type::{ElementType, LiteralType};
use program_types::errors::{ProgramError, SerializationError};
use program_types::identifier::Identifier;

#[test]
fn test_array_type() -> Result<(), ProgramError> {
    // Test literal array types.
    let type_ = ArrayType::from_str("[field; 4]")?;
    assert_eq!(
        type_,
        ArrayType::new(ElementType::from(LiteralType::Field), 4)?
    );
    assert_eq!(
        type_.to_bytes_le(),
        ArrayType::from_bytes_le(&type_.to_bytes_le())
            .unwrap()
            .to_bytes_le()
    );
    assert_eq!(type_.element_type(), &ElementType::from(LiteralType::Field));
    assert_eq!(type_.length(), 4);

    // Test struct array types.
    let type_ = ArrayType::from_str("[foo; 1]")?;
    assert_eq!(
        type_,
        ArrayType::new(ElementType::from(Identifier::from_str("foo")?), 1)?
    );
    assert_eq!(
        type_.to_bytes_le(),
        ArrayType::from_bytes_le(&type_.to_bytes_le())
            .unwrap()
            .to_bytes_le()
    );
    assert_eq!(
        type_.element_type(),
        &ElementType::from(Identifier::from_str("foo")?)
    );
    assert_eq!(type_.length(), 1);

    // Test array type with maximum length.
    let type_ = ArrayType::from_str("[scalar; 4294967295]")?;
    assert_eq!(
        type_,
        ArrayType::new(ElementType::from(LiteralType::Scalar), 4294967295)?
    );
    assert_eq!(
        type_.to_bytes_le(),
        ArrayType::from_bytes_le(&type_.to_bytes_le())
            .unwrap()
            .to_bytes_le()
    );
    assert_eq!(
        type_.element_type(),
        &ElementType::from(LiteralType::Scalar)
    );
    assert_eq!(type_.length(), 4294967295);

    Ok(())
}

#[test]
fn test_array_type_fails() -> Result<(), ProgramError> {
    let type_ = ArrayType::from_str("[field; 0]");
    assert!(type_.is_err());

    let type_ = ArrayType::from_str("[field; 4294967296]");
    assert!(type_.is_err());

    let type_ = ArrayType::from_str("[foo; -1]");
    assert!(type_.is_err());

    Ok(())
}

#[test]
fn test_new_bounds() {
    // Zero elements are refused; every length from one up is accepted.
    assert_eq!(
        ArrayType::new(ElementType::from(LiteralType::Field), 0),
        Err(ProgramError::EmptyArray)
    );
    assert!(ArrayType::new(ElementType::from(LiteralType::Field), 1).is_ok());
    assert!(ArrayType::new(ElementType::from(LiteralType::Field), u32::MAX).is_ok());
}

#[test]
fn test_from_str_error_shapes() {
    assert_eq!(
        ArrayType::from_str("[field; 0]"),
        Err(ProgramError::EmptyArray)
    );
    assert_eq!(
        ArrayType::from_str("[field; 4294967296]"),
        Err(ProgramError::Overflow)
    );
    assert_eq!(ArrayType::from_str("[foo; -1]"), Err(ProgramError::NoMatch));
    assert_eq!(ArrayType::from_str("field; 1]"), Err(ProgramError::NoMatch));
    assert_eq!(
        ArrayType::from_str("[field;1]"),
        Err(ProgramError::NoMatch)
    );
    assert_eq!(
        ArrayType::from_str("[field; 1]x"),
        Err(ProgramError::Remainder("x".to_string()))
    );
    // The literal keyword is committed to before the separator is seen.
    assert!(ArrayType::from_str("[fieldish; 1]").is_err());
}

#[test]
fn test_display_round_trip() -> Result<(), ProgramError> {
    for text in ["[field; 4]", "[foo; 1]", "[u128; 17]", "[scalar; 4294967295]"] {
        let type_ = ArrayType::from_str(text)?;
        assert_eq!(type_.to_string(), text);
        assert_eq!(ArrayType::from_str(&type_.to_string())?, type_);
    }
    // Underscore grouping canonicalizes.
    assert_eq!(ArrayType::from_str("[field; 1_000]")?.to_string(), "[field; 1000]");
    Ok(())
}

#[test]
fn test_bytes_round_trip_values() -> Result<(), ProgramError> {
    for text in ["[field; 1]", "[group; 32]", "[my_struct; 7]", "[string; 2]"] {
        let type_ = ArrayType::from_str(text)?;
        let decoded = ArrayType::from_bytes_le(&type_.to_bytes_le()).unwrap();
        assert_eq!(decoded, type_);
        assert_eq!(decoded.to_string(), text);
    }
    Ok(())
}

#[test]
fn test_decode_rejects_bad_bytes() -> Result<(), ProgramError> {
    // Too short for even the element tag.
    assert_eq!(
        ArrayType::from_bytes_le(&[]),
        Err(SerializationError::NotEnoughBytes)
    );
    assert_eq!(
        ArrayType::from_bytes_le(&[0u8]),
        Err(SerializationError::NotEnoughBytes)
    );
    // An unknown element tag.
    assert_eq!(
        ArrayType::from_bytes_le(&[9u8, 0, 1, 0, 0, 0]),
        Err(SerializationError::InvalidData)
    );
    // An unknown literal code.
    assert_eq!(
        ArrayType::from_bytes_le(&[0u8, 200, 1, 0, 0, 0]),
        Err(SerializationError::InvalidData)
    );
    // A crafted zero length is rejected at decode time.
    let mut bytes = ArrayType::from_str("[field; 1]")?.to_bytes_le();
    let n = bytes.len();
    bytes[n - 4] = 0;
    assert_eq!(
        ArrayType::from_bytes_le(&bytes),
        Err(SerializationError::InvalidData)
    );
    // A struct name is re-validated, never trusted: '9' cannot open a name.
    assert_eq!(
        ArrayType::from_bytes_le(&[1u8, 1, b'9', 1, 0, 0, 0]),
        Err(SerializationError::InvalidData)
    );
    // Missing length bytes.
    assert_eq!(
        ArrayType::from_bytes_le(&[0u8, 2, 1, 0]),
        Err(SerializationError::NotEnoughBytes)
    );
    Ok(())
}

#[test]
fn test_length_grammar_in_array() -> Result<(), ProgramError> {
    // The array length reuses the digit-sequence grammar, underscores and
    // all.
    let type_ = ArrayType::from_str("[field; 1_0]")?;
    assert_eq!(type_.length(), 10);
    Ok(())
}

#[test]
fn test_all_literal_keywords() -> Result<(), ProgramError> {
    let keywords = [
        "address",
        "boolean",
        "field",
        "group",
        "i8",
        "i16",
        "i32",
        "i64",
        "i128",
        "u8",
        "u16",
        "u32",
        "u64",
        "u128",
        "scalar",
        "signature",
        "string",
    ];
    for kw in keywords {
        let text = format!("[{kw}; 2]");
        let type_ = ArrayType::from_str(&text)?;
        assert!(matches!(type_.element_type(), ElementType::Literal(_)));
        assert_eq!(type_.to_string(), text);
        assert_eq!(ArrayType::from_bytes_le(&type_.to_bytes_le()).unwrap(), type_);
    }
    Ok(())
}
