//! Array types: an element type paired with a validated length. The length
//! is bounded by the network's ceiling; the bound is enforced by the only
//! constructor, by the parser, and again by the decoder, which never trusts
//! the byte stream.

use vstd::prelude::*;

use crate::digits::{decimal_digits, decimal_string, parse_digit_sequence, spec_parse_digits};
use crate::element_type::{
    spec_decode_element, spec_display_element, spec_element_wf, spec_encode_element,
    lemma_element_round_trip, spec_parse_element, ElementType, SpecElementType,
};
use crate::errors::{ProgramError, SerializationError};
use crate::serialize::{
    CanonicalDeserialize, CanonicalDeserializeWithFlags, CanonicalSerialize,
    CanonicalSerializeWithFlags, Compress, Flags, Valid, Validate,
};

verus! {

/// The ceiling the network imposes on an array's entry count, tied to the
/// bit width of its base field.
pub const MAX_ARRAY_ENTRIES: u32 = 4294967295;

/// The mathematical value of an array type.
pub struct SpecArrayType {
    pub element_type: SpecElementType,
    pub length: u32,
}

/// A well-formed array type: at least one entry, at most the ceiling, and a
/// well-formed element type.
pub open spec fn spec_array_wf(a: SpecArrayType) -> bool {
    1 <= a.length <= MAX_ARRAY_ENTRIES && spec_element_wf(a.element_type)
}

/// A composite type: the type of the elements and the length of the array.
/// Immutable; only constructible through the validating factory, the
/// parser, or the decoder.
#[derive(Debug, Clone, PartialEq, Eq, Hash)]
pub struct ArrayType {
    element_type: ElementType,
    length: u32,
}

impl View for ArrayType {
    type V = SpecArrayType;

    closed spec fn view(&self) -> SpecArrayType {
        SpecArrayType { element_type: self.element_type@, length: self.length }
    }
}

/// The array-type production: `[`, an element type, `; `, a digit sequence,
/// `]`, with the factory's bounds enforced on the parsed length.
pub open spec fn spec_parse_array_type(s: Seq<char>) -> Result<(SpecArrayType, int), ProgramError> {
    if s.len() == 0 || s[0] != '[' {
        Err(ProgramError::NoMatch)
    } else {
        match spec_parse_element(s, 1) {
            Err(e) => Err(e),
            Ok((e_end, et)) => if !(e_end + 1 < s.len() && s[e_end] == ';' && s[e_end + 1] == ' ') {
                Err(ProgramError::NoMatch)
            } else {
                match spec_parse_digits(s, e_end + 2) {
                    Err(e) => Err(e),
                    Ok((d_end, v)) => if !(d_end < s.len() && s[d_end] == ']') {
                        Err(ProgramError::NoMatch)
                    } else if v == 0 {
                        Err(ProgramError::EmptyArray)
                    } else if v > MAX_ARRAY_ENTRIES {
                        Err(ProgramError::TooManyElements)
                    } else {
                        Ok((SpecArrayType { element_type: et, length: v }, d_end + 1))
                    },
                }
            },
        }
    }
}

/// The canonical rendering: `[` + element type + `; ` + decimal length + `]`.
pub open spec fn spec_display_array_type(a: SpecArrayType) -> Seq<char> {
    seq!['['] + spec_display_element(a.element_type) + seq![';', ' '] + decimal_digits(
        a.length as nat,
    ) + seq![']']
}

/// The binary encoding: the element type's bytes, then the length in four
/// little-endian bytes.
pub open spec fn spec_encode_array_type(a: SpecArrayType) -> Seq<u8> {
    spec_encode_element(a.element_type) + vstd::bytes::spec_u32_to_le_bytes(a.length)
}

/// Decoding from a byte prefix: the consumed count and the value; the
/// factory's bounds are re-checked on the decoded length.
pub open spec fn spec_decode_array_type(s: Seq<u8>) -> Result<
    (int, SpecArrayType),
    SerializationError,
> {
    match spec_decode_element(s) {
        Err(e) => Err(e),
        Ok((used, et)) => if s.len() < used + 4 {
            Err(SerializationError::NotEnoughBytes)
        } else {
            let v = vstd::bytes::spec_u32_from_le_bytes(s.subrange(used, used + 4));
            if v == 0 || v > MAX_ARRAY_ENTRIES {
                Err(SerializationError::InvalidData)
            } else {
                Ok((used + 4, SpecArrayType { element_type: et, length: v }))
            }
        },
    }
}

impl ArrayType {
    pub open spec fn wf(&self) -> bool {
        spec_array_wf(self@)
    }

    /// Constructs a new array type; fails on a zero length and on a length
    /// past the network's ceiling, and succeeds on every length between.
    pub fn new(element_type: ElementType, length: u32) -> (r: Result<ArrayType, ProgramError>)
        ensures
            (match r {
                Ok(a) => 1 <= length <= MAX_ARRAY_ENTRIES && a@ == (SpecArrayType {
                    element_type: element_type@,
                    length,
                }) && (element_type.wf() ==> a.wf()),
                Err(e) => (length == 0 && e == ProgramError::EmptyArray) || (length
                    > MAX_ARRAY_ENTRIES && e == ProgramError::TooManyElements),
            }),
    {
        if length == 0 {
            Err(ProgramError::EmptyArray)
        } else if length > MAX_ARRAY_ENTRIES {
            Err(ProgramError::TooManyElements)
        } else {
            Ok(ArrayType { element_type, length })
        }
    }

    /// Returns the element type.
    pub fn element_type(&self) -> (r: &ElementType)
        ensures
            r@ == self@.element_type,
    {
        &self.element_type
    }

    /// Returns the length of the array.
    pub fn length(&self) -> (r: u32)
        ensures
            r == self@.length,
    {
        self.length
    }

    /// Parses a prefix of the input as an array type and returns the
    /// unconsumed remainder beside the value.
    pub fn parse(string: &str) -> (r: Result<(&str, ArrayType), ProgramError>)
        ensures
            (match r {
                Ok((rem, a)) => spec_parse_array_type(string@) matches Ok(p) && a@ == p.0 && rem@
                    == string@.skip(p.1) && a.wf() && 0 <= p.1 <= string@.len(),
                Err(e) => spec_parse_array_type(string@) == Err::<
                    (SpecArrayType, int),
                    ProgramError,
                >(e),
            }),
    {
        let n: usize = string.unicode_len();
        if n == 0 || string.get_char(0) != '[' {
            return Err(ProgramError::NoMatch);
        }
        let (e_end, element_type) = match ElementType::parse_at(string, 1) {
            Ok(p) => p,
            Err(e) => {
                return Err(e);
            },
        };
        if !(e_end < n - 1 && string.get_char(e_end) == ';' && string.get_char(e_end + 1) == ' ') {
            return Err(ProgramError::NoMatch);
        }
        let (d_end, v) = match parse_digit_sequence(string, e_end + 2) {
            Ok(p) => p,
            Err(e) => {
                return Err(e);
            },
        };
        if !(d_end < n && string.get_char(d_end) == ']') {
            return Err(ProgramError::NoMatch);
        }
        if v == 0 {
            return Err(ProgramError::EmptyArray);
        }
        if v > MAX_ARRAY_ENTRIES {
            return Err(ProgramError::TooManyElements);
        }
        let rem = string.substring_char(d_end + 1, n);
        proof {
            assert(rem@ =~= string@.skip(d_end as int + 1));
        }
        Ok((rem, ArrayType { element_type, length: v }))
    }

    /// Parses a whole string as one array type; a non-empty remainder after
    /// the parsed prefix is a `Remainder` failure naming it.
    pub fn from_str(string: &str) -> (r: Result<ArrayType, ProgramError>)
        ensures
            (match r {
                Ok(a) => spec_parse_array_type(string@) matches Ok(p) && a@ == p.0 && p.1
                    == string@.len() && a.wf(),
                Err(e) => match spec_parse_array_type(string@) {
                    Ok((_, end)) => end < string@.len() && (e matches ProgramError::Remainder(rem)
                        && rem@ == string@.skip(end)),
                    Err(pe) => e == pe,
                },
            }),
    {
        match ArrayType::parse(string) {
            Ok((rem, a)) => {
                if rem.is_empty() {
                    proof {
                        let p = spec_parse_array_type(string@)->Ok_0;
                        assert(string@.skip(p.1).len() == 0);
                    }
                    Ok(a)
                } else {
                    Err(ProgramError::Remainder(rem.to_owned()))
                }
            },
            Err(e) => Err(e),
        }
    }

    /// Renders the array type in its canonical textual form.
    pub fn to_string(&self) -> (r: String)
        ensures
            r@ == spec_display_array_type(self@),
    {
        let mut out = String::new();
        out.append("[");
        let et = self.element_type.to_string();
        out.append(et.as_str());
        out.append("; ");
        let len = decimal_string(self.length);
        out.append(len.as_str());
        out.append("]");
        proof {
            reveal_strlit("[");
            reveal_strlit("; ");
            reveal_strlit("]");
            assert(("; ")@ =~= seq![';', ' ']);
            assert(out@ =~= spec_display_array_type(self@));
        }
        out
    }

    /// The binary encoding as a byte vector.
    pub fn to_bytes_le(&self) -> (r: Vec<u8>)
        ensures
            r@ == spec_encode_array_type(self@),
    {
        let mut out: Vec<u8> = Vec::new();
        self.element_type.write_le(&mut out);
        let le = vstd::bytes::u32_to_le_bytes(self.length);
        proof {
            vstd::bytes::lemma_auto_spec_u32_to_from_le_bytes();
        }
        out.push(le[0]);
        out.push(le[1]);
        out.push(le[2]);
        out.push(le[3]);
        proof {
            assert(le@ =~= seq![le@[0], le@[1], le@[2], le@[3]]);
            assert(out@ =~= spec_encode_array_type(self@));
        }
        out
    }

    /// Reads an array type from a prefix of the bytes, with the count of
    /// bytes consumed; the length bounds are re-validated.
    pub fn read_le(bytes: &[u8]) -> (r: Result<(usize, ArrayType), SerializationError>)
        ensures
            (match r {
                Ok((used, a)) => spec_decode_array_type(bytes@) == Ok::<
                    (int, SpecArrayType),
                    SerializationError,
                >((used as int, a@)) && a.wf() && used <= bytes@.len(),
                Err(e) => spec_decode_array_type(bytes@) == Err::<
                    (int, SpecArrayType),
                    SerializationError,
                >(e),
            }),
    {
        let n: usize = bytes.len();
        let (used, element_type) = match ElementType::read_le(bytes) {
            Ok(p) => p,
            Err(e) => {
                return Err(e);
            },
        };
        if n - used < 4 {
            return Err(SerializationError::NotEnoughBytes);
        }
        let le = vstd::slice::slice_subrange(bytes, used, used + 4);
        let v = vstd::bytes::u32_from_le_bytes(le);
        if v == 0 {
            return Err(SerializationError::InvalidData);
        }
        if v > MAX_ARRAY_ENTRIES {
            return Err(SerializationError::InvalidData);
        }
        Ok((used + 4, ArrayType { element_type, length: v }))
    }

    /// The binary decoding of a byte prefix; bytes past the value are left
    /// unread.
    pub fn from_bytes_le(bytes: &[u8]) -> (r: Result<ArrayType, SerializationError>)
        ensures
            (match r {
                Ok(a) => spec_decode_array_type(bytes@) matches Ok(p) && a@ == p.1 && a.wf(),
                Err(e) => spec_decode_array_type(bytes@) == Err::<
                    (int, SpecArrayType),
                    SerializationError,
                >(e),
            }),
    {
        match ArrayType::read_le(bytes) {
            Ok((_, a)) => Ok(a),
            Err(e) => Err(e),
        }
    }
}

/// Law: a well-formed array type's encoding decodes back to the same value,
/// consuming exactly the encoding, whatever bytes follow it.
pub proof fn lemma_array_type_round_trip(a: SpecArrayType)
    requires
        spec_array_wf(a),
    ensures
        spec_decode_array_type(spec_encode_array_type(a)) == Ok::<
            (int, SpecArrayType),
            SerializationError,
        >((spec_encode_array_type(a).len() as int, a)),
{
    let eb = spec_encode_element(a.element_type);
    let lb = vstd::bytes::spec_u32_to_le_bytes(a.length);
    vstd::bytes::lemma_auto_spec_u32_to_from_le_bytes();
    lemma_element_round_trip(a.element_type, lb);
    let s = eb + lb;
    assert(s.len() == eb.len() + 4);
    assert(s.subrange(eb.len() as int, eb.len() as int + 4) =~= lb);
    assert(vstd::bytes::spec_u32_from_le_bytes(lb) == a.length);
    assert(a == (SpecArrayType { element_type: a.element_type, length: a.length }));
}

impl Valid for ArrayType {
    /// An array type checks out exactly when it is well formed.
    open spec fn spec_check(&self) -> Result<(), SerializationError> {
        if self.wf() {
            Ok(())
        } else {
            Err(SerializationError::InvalidData)
        }
    }

    fn check(&self) -> (r: Result<(), SerializationError>) {
        let element_ok = match &self.element_type {
            ElementType::Literal(_) => true,
            ElementType::Struct(id) => id.is_valid(),
        };
        if self.length >= 1 && self.length <= MAX_ARRAY_ENTRIES && element_ok {
            Ok(())
        } else {
            Err(SerializationError::InvalidData)
        }
    }
}

impl CanonicalSerialize for ArrayType {
    /// Both modes write the same canonical bytes: an array type has no
    /// derivable data a compressed form could omit.
    open spec fn spec_serialize(&self, compress: Compress) -> Seq<u8> {
        spec_encode_array_type(self@)
    }

    fn serialize_with_mode(&self, writer: &mut Vec<u8>, compress: Compress) -> (r: Result<
        (),
        SerializationError,
    >) {
        self.element_type.write_le(writer);
        let le = vstd::bytes::u32_to_le_bytes(self.length);
        proof {
            vstd::bytes::lemma_auto_spec_u32_to_from_le_bytes();
        }
        writer.push(le[0]);
        writer.push(le[1]);
        writer.push(le[2]);
        writer.push(le[3]);
        proof {
            assert(le@ =~= seq![le@[0], le@[1], le@[2], le@[3]]);
            assert(writer@ =~= old(writer)@ + spec_encode_array_type(self@));
        }
        Ok(())
    }

    fn serialized_size(&self, compress: Compress) -> (r: usize) {
        proof {
            vstd::bytes::lemma_auto_spec_u32_to_from_le_bytes();
        }
        match &self.element_type {
            ElementType::Literal(_) => 6,
            ElementType::Struct(id) => {
                proof {
                    use_type_invariant(id);
                }
                let l = id.len();
                proof {
                    assert(spec_encode_element(self@.element_type).len() == 2 + id@.len());
                }
                6 + l
            },
        }
    }
}

impl CanonicalDeserialize for ArrayType {
    /// What decoding gives: the bounds are re-validated during the decode
    /// itself, so a decoded value always passes its integrity check and the
    /// validation mode cannot change the outcome.
    open spec fn spec_deserialize(s: Seq<u8>, compress: Compress, validate: Validate) -> Result<
        SpecArrayType,
        SerializationError,
    > {
        match spec_decode_array_type(s) {
            Ok((_, a)) => Ok(a),
            Err(e) => Err(e),
        }
    }

    fn deserialize_with_mode(reader: &[u8], compress: Compress, validate: Validate) -> (r: Result<
        ArrayType,
        SerializationError,
    >) {
        let a = match ArrayType::from_bytes_le(reader) {
            Ok(a) => a,
            Err(e) => {
                return Err(e);
            },
        };
        match validate {
            Validate::Yes => match a.check() {
                Ok(_) => Ok(a),
                Err(e) => Err(e),
            },
            Validate::No => Ok(a),
        }
    }
}

impl CanonicalSerializeWithFlags for ArrayType {
    /// The length may use all bits of its trailing byte, so flags that
    /// occupy any bits at all go to one extra trailing byte; empty flags
    /// add nothing.
    open spec fn spec_serialize_with_flags(&self, bit_size: nat, bitmask: u8) -> Seq<u8> {
        if bit_size == 0 {
            spec_encode_array_type(self@)
        } else {
            spec_encode_array_type(self@) + seq![bitmask]
        }
    }

    fn serialize_with_flags<F: Flags>(&self, writer: &mut Vec<u8>, flags: F) -> (r: Result<
        (),
        SerializationError,
    >) {
        let r = self.serialize_with_mode(writer, Compress::Yes);
        if F::bit_size() > 0 {
            writer.push(flags.u8_bitmask());
            proof {
                assert(writer@ =~= old(writer)@ + self.spec_serialize_with_flags(
                    F::spec_bit_size(),
                    flags.spec_bitmask(),
                ));
            }
        }
        r
    }

    fn serialized_size_with_flags<F: Flags>(&self) -> (r: usize) {
        proof {
            vstd::bytes::lemma_auto_spec_u32_to_from_le_bytes();
            match &self.element_type {
                ElementType::Literal(_) => {},
                ElementType::Struct(id) => {
                    use_type_invariant(id);
                },
            }
        }
        let base = self.serialized_size(Compress::Yes);
        let extra: usize = if F::bit_size() == 0 {
            0
        } else {
            1
        };
        proof {
            assert forall|m: u8| base + extra == self.spec_serialize_with_flags(
                F::spec_bit_size(),
                m,
            ).len() by {
                if F::spec_bit_size() != 0 {
                    assert(self.spec_serialize_with_flags(F::spec_bit_size(), m)
                        =~= spec_encode_array_type(self@) + seq![m]);
                }
            }
        }
        base + extra
    }
}

impl CanonicalDeserializeWithFlags for ArrayType {
    /// The value is read first; flags that occupy bits are then read from
    /// one extra byte past it.
    open spec fn spec_read_with_flags(s: Seq<u8>, bit_size: nat) -> Result<
        (SpecArrayType, u8),
        SerializationError,
    > {
        match spec_decode_array_type(s) {
            Err(e) => Err(e),
            Ok((used, a)) => if bit_size == 0 {
                Ok((a, 0))
            } else if s.len() < used + 1 {
                Err(SerializationError::NotEnoughBytes)
            } else {
                Ok((a, s[used]))
            },
        }
    }

    fn deserialize_with_flags<F: Flags>(reader: &[u8]) -> (r: Result<
        (ArrayType, F),
        SerializationError,
    >) {
        let n: usize = reader.len();
        let (used, a) = match ArrayType::read_le(reader) {
            Ok(p) => p,
            Err(e) => {
                return Err(e);
            },
        };
        if F::bit_size() == 0 {
            match F::from_u8(0) {
                Some(f) => Ok((a, f)),
                None => Err(SerializationError::UnexpectedFlags),
            }
        } else {
            if n - used < 1 {
                return Err(SerializationError::NotEnoughBytes);
            }
            let b = reader[used];
            match F::from_u8(b) {
                Some(f) => Ok((a, f)),
                None => Err(SerializationError::UnexpectedFlags),
            }
        }
    }
}

} // verus!
