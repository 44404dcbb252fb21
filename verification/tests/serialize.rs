use program_types::array_type::ArrayType;
use program_types::errors::{ProgramError, SerializationError};
use program_types::flags::{EmptyFlags, SWFlags};
use program_types::serialize::{
    CanonicalDeserialize, CanonicalDeserializeWithFlags, CanonicalSerialize,
    CanonicalSerializeWithFlags, Compress, Flags, Valid, Validate,
};

#[test]
fn test_size_agreement() -> Result<(), ProgramError> {
    // serialized_size(mode) equals the count of bytes written, per mode.
    for text in ["[field; 4]", "[my_struct; 9]", "[scalar; 4294967295]"] {
        let type_ = ArrayType::from_str(text)?;
        for mode in [Compress::Yes, Compress::No] {
            let mut out: Vec<u8> = Vec::new();
            type_.serialize_with_mode(&mut out, mode).unwrap();
            assert_eq!(out.len(), type_.serialized_size(mode));
        }
        let mut compressed: Vec<u8> = Vec::new();
        type_.serialize_compressed(&mut compressed).unwrap();
        assert_eq!(compressed.len(), type_.compressed_size());
        let mut uncompressed: Vec<u8> = Vec::new();
        type_.serialize_uncompressed(&mut uncompressed).unwrap();
        assert_eq!(uncompressed.len(), type_.uncompressed_size());
    }
    Ok(())
}

#[test]
fn test_mode_pairs_round_trip() -> Result<(), ProgramError> {
    let type_ = ArrayType::from_str("[group; 11]")?;
    let mut bytes: Vec<u8> = Vec::new();
    type_.serialize_compressed(&mut bytes).unwrap();
    assert_eq!(ArrayType::deserialize_compressed(&bytes).unwrap(), type_);
    assert_eq!(
        ArrayType::deserialize_compressed_unchecked(&bytes).unwrap(),
        type_
    );
    let mut bytes: Vec<u8> = Vec::new();
    type_.serialize_uncompressed(&mut bytes).unwrap();
    assert_eq!(ArrayType::deserialize_uncompressed(&bytes).unwrap(), type_);
    assert_eq!(
        ArrayType::deserialize_uncompressed_unchecked(&bytes).unwrap(),
        type_
    );
    assert_eq!(
        ArrayType::deserialize_with_mode(&bytes, Compress::No, Validate::Yes).unwrap(),
        type_
    );
    Ok(())
}

#[test]
fn test_check_and_batch_check() -> Result<(), ProgramError> {
    let a = ArrayType::from_str("[field; 4]")?;
    let b = ArrayType::from_str("[foo; 1]")?;
    assert!(a.check().is_ok());
    assert!(b.check().is_ok());
    let batch = [a, b];
    assert!(ArrayType::batch_check(&batch).is_ok());
    assert!(ArrayType::batch_check(&[]).is_ok());
    Ok(())
}

#[test]
fn test_empty_flags() {
    // Empty flags occupy no bits: any byte matches and is never modified.
    assert_eq!(EmptyFlags::bit_size(), 0);
    assert_eq!(EmptyFlags.u8_bitmask(), 0);
    for b in [0u8, 1, 0x7f, 0x80, 0xff] {
        assert_eq!(EmptyFlags::from_u8(b), Some(EmptyFlags));
        let mut byte = b;
        assert_eq!(EmptyFlags::from_u8_remove_flags(&mut byte), Some(EmptyFlags));
        assert_eq!(byte, b);
    }
}

#[test]
fn test_sw_flags_bitmasks() {
    assert_eq!(SWFlags::bit_size(), 2);
    assert_eq!(SWFlags::PositiveY.u8_bitmask(), 0x00);
    assert_eq!(SWFlags::NegativeY.u8_bitmask(), 0x40);
    assert_eq!(SWFlags::Infinity.u8_bitmask(), 0x80);
    // A value's own bitmask reads back as the value.
    for f in [SWFlags::PositiveY, SWFlags::NegativeY, SWFlags::Infinity] {
        assert_eq!(SWFlags::from_u8(f.u8_bitmask()), Some(f));
    }
    // The unassigned top-bit pattern matches nothing.
    assert_eq!(SWFlags::from_u8(0xc0), None);
    // Only the top two bits are inspected.
    assert_eq!(SWFlags::from_u8(0x3f), Some(SWFlags::PositiveY));
    assert_eq!(SWFlags::from_u8(0x40 | 0x2a), Some(SWFlags::NegativeY));
}

#[test]
fn test_remove_flags_keeps_payload() {
    // On a match, exactly the bitmask's bits are cleared; the low payload
    // bits survive untouched.
    let mut byte = 0x40u8 | 0x2a;
    assert_eq!(SWFlags::from_u8_remove_flags(&mut byte), Some(SWFlags::NegativeY));
    assert_eq!(byte, 0x2a);

    let mut byte = 0x80u8 | 0x15;
    assert_eq!(SWFlags::from_u8_remove_flags(&mut byte), Some(SWFlags::Infinity));
    assert_eq!(byte, 0x15);

    let mut byte = 0x3fu8;
    assert_eq!(SWFlags::from_u8_remove_flags(&mut byte), Some(SWFlags::PositiveY));
    assert_eq!(byte, 0x3f);

    // On no match the byte is left completely unmodified.
    let mut byte = 0xc0u8 | 0x2a;
    assert_eq!(SWFlags::from_u8_remove_flags(&mut byte), None);
    assert_eq!(byte, 0xc0 | 0x2a);
}

#[test]
fn test_flags_round_trip() -> Result<(), ProgramError> {
    let type_ = ArrayType::from_str("[field; 3]")?;
    for f in [SWFlags::PositiveY, SWFlags::NegativeY, SWFlags::Infinity] {
        let mut bytes: Vec<u8> = Vec::new();
        type_.serialize_with_flags(&mut bytes, f).unwrap();
        assert_eq!(bytes.len(), type_.serialized_size_with_flags::<SWFlags>());
        let (back, g): (ArrayType, SWFlags) =
            ArrayType::deserialize_with_flags(&bytes).unwrap();
        assert_eq!(back, type_);
        assert_eq!(g, f);
    }
    Ok(())
}

#[test]
fn test_empty_flags_add_no_byte() -> Result<(), ProgramError> {
    // Flags that occupy no bits cost no extra byte; two-bit flags cost one,
    // since the length may use all bits of its trailing byte.
    let type_ = ArrayType::from_str("[field; 3]")?;
    let plain = type_.compressed_size();
    assert_eq!(type_.serialized_size_with_flags::<EmptyFlags>(), plain);
    assert_eq!(type_.serialized_size_with_flags::<SWFlags>(), plain + 1);
    let mut bytes: Vec<u8> = Vec::new();
    type_.serialize_with_flags(&mut bytes, EmptyFlags).unwrap();
    assert_eq!(bytes, type_.to_bytes_le());
    let (back, _f): (ArrayType, EmptyFlags) =
        ArrayType::deserialize_with_flags(&bytes).unwrap();
    assert_eq!(back, type_);
    Ok(())
}

#[test]
fn test_unexpected_flags_on_decode() -> Result<(), ProgramError> {
    let type_ = ArrayType::from_str("[field; 3]")?;
    let mut bytes = type_.to_bytes_le();
    // The unassigned two-bit pattern in the flags byte is refused.
    bytes.push(0xc0);
    let r: Result<(ArrayType, SWFlags), SerializationError> =
        ArrayType::deserialize_with_flags(&bytes);
    assert_eq!(r, Err(SerializationError::UnexpectedFlags));
    // A missing flags byte is refused as truncation.
    let bytes = type_.to_bytes_le();
    let r: Result<(ArrayType, SWFlags), SerializationError> =
        ArrayType::deserialize_with_flags(&bytes);
    assert_eq!(r, Err(SerializationError::NotEnoughBytes));
    Ok(())
}
