//! The type of an array's elements: one of the virtual machine's literal
//! types, named by its keyword, or a struct type named by an identifier.

use vstd::prelude::*;

use crate::errors::{ProgramError, SerializationError};
use crate::identifier::{
    bytes_of_chars, chars_of_bytes, is_identifier_char, is_valid_identifier,
    spec_parse_identifier, Identifier,
};

verus! {

/// The literal types the virtual machine knows, named by their keywords.
#[derive(Debug, Clone, Copy, PartialEq, Eq, Hash, Structural)]
pub enum LiteralType {
    Address,
    Boolean,
    Field,
    Group,
    I8,
    I16,
    I32,
    I64,
    I128,
    U8,
    U16,
    U32,
    U64,
    U128,
    Scalar,
    Signature,
    Str,
}

/// The mathematical value of an element type.
pub enum SpecElementType {
    Literal(LiteralType),
    Struct(Seq<char>),
}

/// The type of the elements in an array: a literal type or a named struct.
#[derive(Debug, Clone, PartialEq, Eq, Hash)]
pub enum ElementType {
    /// A literal type, i.e. `field`.
    Literal(LiteralType),
    /// A struct type, named by its identifier.
    Struct(Identifier),
}

impl View for ElementType {
    type V = SpecElementType;

    open spec fn view(&self) -> SpecElementType {
        match self {
            ElementType::Literal(t) => SpecElementType::Literal(*t),
            ElementType::Struct(id) => SpecElementType::Struct(id@),
        }
    }
}

impl From<LiteralType> for ElementType {
    fn from(t: LiteralType) -> (r: ElementType) {
        ElementType::Literal(t)
    }
}

impl vstd::std_specs::convert::FromSpecImpl<LiteralType> for ElementType {
    open spec fn obeys_from_spec() -> bool {
        true
    }

    open spec fn from_spec(t: LiteralType) -> ElementType {
        ElementType::Literal(t)
    }
}

impl From<Identifier> for ElementType {
    fn from(id: Identifier) -> (r: ElementType) {
        ElementType::Struct(id)
    }
}

impl vstd::std_specs::convert::FromSpecImpl<Identifier> for ElementType {
    open spec fn obeys_from_spec() -> bool {
        true
    }

    open spec fn from_spec(id: Identifier) -> ElementType {
        ElementType::Struct(id)
    }
}

/// Whether `p` stands in `s` beginning at position `i`.
pub open spec fn is_prefix_at(s: Seq<char>, i: int, p: Seq<char>) -> bool {
    0 <= i && i + p.len() <= s.len() && s.subrange(i, i + p.len()) == p
}

/// Whether `s` holds the characters of `kw` beginning at `pos`.
pub fn starts_with_at(s: &str, pos: usize, kw: &str) -> (b: bool)
    requires
        pos <= s@.len(),
    ensures
        b == is_prefix_at(s@, pos as int, kw@),
{
    let m: usize = kw.unicode_len();
    let n: usize = s.unicode_len();
    if m > n - pos {
        return false;
    }
    let mut j: usize = 0;
    while j < m
        invariant
            0 <= j <= m,
            m == kw@.len(),
            n == s@.len(),
            pos + m <= n,
            forall|k: int| 0 <= k < j ==> s@[pos + k] == kw@[k],
        decreases m - j,
    {
        if s.get_char(pos + j) != kw.get_char(j) {
            proof {
                if is_prefix_at(s@, pos as int, kw@) {
                    assert(s@.subrange(pos as int, pos + m as int)[j as int] == kw@[j as int]);
                }
            }
            return false;
        }
        j = j + 1;
    }
    proof {
        assert(s@.subrange(pos as int, pos + m as int) =~= kw@);
    }
    true
}

/// The literal keyword standing at position `i`, with the position one past
/// it; the keywords are tried in a fixed order and none is a prefix of
/// another.
pub open spec fn spec_parse_literal_type(s: Seq<char>, i: int) -> Option<(LiteralType, int)> {
    if is_prefix_at(s, i, "address"@) {
        Some((LiteralType::Address, i + "address"@.len()))
    } else if is_prefix_at(s, i, "boolean"@) {
        Some((LiteralType::Boolean, i + "boolean"@.len()))
    } else if is_prefix_at(s, i, "field"@) {
        Some((LiteralType::Field, i + "field"@.len()))
    } else if is_prefix_at(s, i, "group"@) {
        Some((LiteralType::Group, i + "group"@.len()))
    } else if is_prefix_at(s, i, "i8"@) {
        Some((LiteralType::I8, i + "i8"@.len()))
    } else if is_prefix_at(s, i, "i16"@) {
        Some((LiteralType::I16, i + "i16"@.len()))
    } else if is_prefix_at(s, i, "i32"@) {
        Some((LiteralType::I32, i + "i32"@.len()))
    } else if is_prefix_at(s, i, "i64"@) {
        Some((LiteralType::I64, i + "i64"@.len()))
    } else if is_prefix_at(s, i, "i128"@) {
        Some((LiteralType::I128, i + "i128"@.len()))
    } else if is_prefix_at(s, i, "u8"@) {
        Some((LiteralType::U8, i + "u8"@.len()))
    } else if is_prefix_at(s, i, "u16"@) {
        Some((LiteralType::U16, i + "u16"@.len()))
    } else if is_prefix_at(s, i, "u32"@) {
        Some((LiteralType::U32, i + "u32"@.len()))
    } else if is_prefix_at(s, i, "u64"@) {
        Some((LiteralType::U64, i + "u64"@.len()))
    } else if is_prefix_at(s, i, "u128"@) {
        Some((LiteralType::U128, i + "u128"@.len()))
    } else if is_prefix_at(s, i, "scalar"@) {
        Some((LiteralType::Scalar, i + "scalar"@.len()))
    } else if is_prefix_at(s, i, "signature"@) {
        Some((LiteralType::Signature, i + "signature"@.len()))
    } else if is_prefix_at(s, i, "string"@) {
        Some((LiteralType::Str, i + "string"@.len()))
    } else {
        None
    }
}

/// Reads a literal-type keyword at `pos`.
pub fn parse_literal_type_at(s: &str, pos: usize) -> (r: Option<(LiteralType, usize)>)
    requires
        pos <= s@.len(),
    ensures
        (match r {
            Some((t, end)) => spec_parse_literal_type(s@, pos as int) == Some::<
                (LiteralType, int),
            >((t, end as int)) && pos <= end <= s@.len(),
            None => spec_parse_literal_type(s@, pos as int) is None,
        }),
{
    let n: usize = s.unicode_len();
    proof {
        assert(s@.len() == n);
    }
    if starts_with_at(s, pos, "address") {
        let m: usize = "address".unicode_len();
        return Some((LiteralType::Address, pos + m));
    }
    if starts_with_at(s, pos, "boolean") {
        let m: usize = "boolean".unicode_len();
        return Some((LiteralType::Boolean, pos + m));
    }
    if starts_with_at(s, pos, "field") {
        let m: usize = "field".unicode_len();
        return Some((LiteralType::Field, pos + m));
    }
    if starts_with_at(s, pos, "group") {
        let m: usize = "group".unicode_len();
        return Some((LiteralType::Group, pos + m));
    }
    if starts_with_at(s, pos, "i8") {
        let m: usize = "i8".unicode_len();
        return Some((LiteralType::I8, pos + m));
    }
    if starts_with_at(s, pos, "i16") {
        let m: usize = "i16".unicode_len();
        return Some((LiteralType::I16, pos + m));
    }
    if starts_with_at(s, pos, "i32") {
        let m: usize = "i32".unicode_len();
        return Some((LiteralType::I32, pos + m));
    }
    if starts_with_at(s, pos, "i64") {
        let m: usize = "i64".unicode_len();
        return Some((LiteralType::I64, pos + m));
    }
    if starts_with_at(s, pos, "i128") {
        let m: usize = "i128".unicode_len();
        return Some((LiteralType::I128, pos + m));
    }
    if starts_with_at(s, pos, "u8") {
        let m: usize = "u8".unicode_len();
        return Some((LiteralType::U8, pos + m));
    }
    if starts_with_at(s, pos, "u16") {
        let m: usize = "u16".unicode_len();
        return Some((LiteralType::U16, pos + m));
    }
    if starts_with_at(s, pos, "u32") {
        let m: usize = "u32".unicode_len();
        return Some((LiteralType::U32, pos + m));
    }
    if starts_with_at(s, pos, "u64") {
        let m: usize = "u64".unicode_len();
        return Some((LiteralType::U64, pos + m));
    }
    if starts_with_at(s, pos, "u128") {
        let m: usize = "u128".unicode_len();
        return Some((LiteralType::U128, pos + m));
    }
    if starts_with_at(s, pos, "scalar") {
        let m: usize = "scalar".unicode_len();
        return Some((LiteralType::Scalar, pos + m));
    }
    if starts_with_at(s, pos, "signature") {
        let m: usize = "signature".unicode_len();
        return Some((LiteralType::Signature, pos + m));
    }
    if starts_with_at(s, pos, "string") {
        let m: usize = "string".unicode_len();
        return Some((LiteralType::Str, pos + m));
    }
    None
}

/// The keyword of a literal type.
pub open spec fn spec_literal_keyword(t: LiteralType) -> Seq<char> {
    match t {
        LiteralType::Address => "address"@,
        LiteralType::Boolean => "boolean"@,
        LiteralType::Field => "field"@,
        LiteralType::Group => "group"@,
        LiteralType::I8 => "i8"@,
        LiteralType::I16 => "i16"@,
        LiteralType::I32 => "i32"@,
        LiteralType::I64 => "i64"@,
        LiteralType::I128 => "i128"@,
        LiteralType::U8 => "u8"@,
        LiteralType::U16 => "u16"@,
        LiteralType::U32 => "u32"@,
        LiteralType::U64 => "u64"@,
        LiteralType::U128 => "u128"@,
        LiteralType::Scalar => "scalar"@,
        LiteralType::Signature => "signature"@,
        LiteralType::Str => "string"@,
    }
}

impl LiteralType {
    /// The keyword as a string.
    pub fn to_str(&self) -> (r: &'static str)
        ensures
            r@ == spec_literal_keyword(*self),
    {
        match self {
        LiteralType::Address => "address",
        LiteralType::Boolean => "boolean",
        LiteralType::Field => "field",
        LiteralType::Group => "group",
        LiteralType::I8 => "i8",
        LiteralType::I16 => "i16",
        LiteralType::I32 => "i32",
        LiteralType::I64 => "i64",
        LiteralType::I128 => "i128",
        LiteralType::U8 => "u8",
        LiteralType::U16 => "u16",
        LiteralType::U32 => "u32",
        LiteralType::U64 => "u64",
        LiteralType::U128 => "u128",
        LiteralType::Scalar => "scalar",
        LiteralType::Signature => "signature",
        LiteralType::Str => "string",
        }
    }
}

/// The code byte of a literal type in the binary encoding.
pub open spec fn spec_literal_code(t: LiteralType) -> u8 {
    match t {
        LiteralType::Address => 0,
        LiteralType::Boolean => 1,
        LiteralType::Field => 2,
        LiteralType::Group => 3,
        LiteralType::I8 => 4,
        LiteralType::I16 => 5,
        LiteralType::I32 => 6,
        LiteralType::I64 => 7,
        LiteralType::I128 => 8,
        LiteralType::U8 => 9,
        LiteralType::U16 => 10,
        LiteralType::U32 => 11,
        LiteralType::U64 => 12,
        LiteralType::U128 => 13,
        LiteralType::Scalar => 14,
        LiteralType::Signature => 15,
        LiteralType::Str => 16,
    }
}

/// The literal type a code byte denotes, if any.
pub open spec fn spec_literal_of_code(b: u8) -> Option<LiteralType> {
    if b == 0 {
        Some(LiteralType::Address)
    } else if b == 1 {
        Some(LiteralType::Boolean)
    } else if b == 2 {
        Some(LiteralType::Field)
    } else if b == 3 {
        Some(LiteralType::Group)
    } else if b == 4 {
        Some(LiteralType::I8)
    } else if b == 5 {
        Some(LiteralType::I16)
    } else if b == 6 {
        Some(LiteralType::I32)
    } else if b == 7 {
        Some(LiteralType::I64)
    } else if b == 8 {
        Some(LiteralType::I128)
    } else if b == 9 {
        Some(LiteralType::U8)
    } else if b == 10 {
        Some(LiteralType::U16)
    } else if b == 11 {
        Some(LiteralType::U32)
    } else if b == 12 {
        Some(LiteralType::U64)
    } else if b == 13 {
        Some(LiteralType::U128)
    } else if b == 14 {
        Some(LiteralType::Scalar)
    } else if b == 15 {
        Some(LiteralType::Signature)
    } else if b == 16 {
        Some(LiteralType::Str)
    } else {
        None
    }
}

impl ElementType {
    /// A struct element type carries a well-formed identifier.
    pub open spec fn wf(&self) -> bool {
        match self {
            ElementType::Literal(_) => true,
            ElementType::Struct(id) => id.wf(),
        }
    }

    /// Reads an element type at character position `pos`.
    pub fn parse_at(s: &str, pos: usize) -> (r: Result<(usize, ElementType), ProgramError>)
        requires
            pos <= s@.len(),
        ensures
            (match r {
                Ok((end, e)) => spec_parse_element(s@, pos as int) == Ok::<
                    (int, SpecElementType),
                    ProgramError,
                >((end as int, e@)) && e.wf() && pos <= end <= s@.len(),
                Err(err) => spec_parse_element(s@, pos as int) == Err::<
                    (int, SpecElementType),
                    ProgramError,
                >(err),
            }),
    {
        match parse_literal_type_at(s, pos) {
            Some((t, end)) => Ok((end, ElementType::Literal(t))),
            None => match Identifier::parse_at(s, pos) {
                Ok((end, id)) => Ok((end, ElementType::Struct(id))),
                Err(e) => Err(e),
            },
        }
    }

    /// Renders the element type: the literal keyword, or the struct name.
    pub fn to_string(&self) -> (r: String)
        ensures
            (match self@ {
                SpecElementType::Literal(t) => r@ == spec_literal_keyword(t),
                SpecElementType::Struct(name) => r@ == name,
            }),
    {
        match self {
            ElementType::Literal(t) => {
                let mut out = String::new();
                out.append(t.to_str());
                proof {
                    assert(out@ =~= spec_literal_keyword(*t));
                }
                out
            },
            ElementType::Struct(id) => id.to_string(),
        }
    }
}

/// The element-type production: a literal keyword, or an identifier naming
/// a struct; the keyword branch is tried first.
pub open spec fn spec_parse_element(s: Seq<char>, i: int) -> Result<
    (int, SpecElementType),
    ProgramError,
> {
    match spec_parse_literal_type(s, i) {
        Some((t, end)) => Ok((end, SpecElementType::Literal(t))),
        None => match spec_parse_identifier(s, i) {
            Ok((end, name)) => Ok((end, SpecElementType::Struct(name))),
            Err(e) => Err(e),
        },
    }
}

/// The binary encoding of an element type: a tag byte, then the literal's
/// code byte, or the struct name's length byte and its ASCII bytes.
pub open spec fn spec_encode_element(e: SpecElementType) -> Seq<u8> {
    match e {
        SpecElementType::Literal(t) => seq![0u8, spec_literal_code(t)],
        SpecElementType::Struct(name) => seq![1u8, name.len() as u8] + bytes_of_chars(name),
    }
}

/// Decoding an element type from a byte prefix: the consumed count and the
/// value; a struct name is re-validated rather than trusted.
pub open spec fn spec_decode_element(s: Seq<u8>) -> Result<
    (int, SpecElementType),
    SerializationError,
> {
    if s.len() < 1 {
        Err(SerializationError::NotEnoughBytes)
    } else if s[0] == 0 {
        if s.len() < 2 {
            Err(SerializationError::NotEnoughBytes)
        } else {
            match spec_literal_of_code(s[1]) {
                Some(t) => Ok((2, SpecElementType::Literal(t))),
                None => Err(SerializationError::InvalidData),
            }
        }
    } else if s[0] == 1 {
        if s.len() < 2 {
            Err(SerializationError::NotEnoughBytes)
        } else {
            let l = s[1] as int;
            if s.len() < 2 + l {
                Err(SerializationError::NotEnoughBytes)
            } else if is_valid_identifier(chars_of_bytes(s.subrange(2, 2 + l))) {
                Ok((2 + l, SpecElementType::Struct(chars_of_bytes(s.subrange(2, 2 + l)))))
            } else {
                Err(SerializationError::InvalidData)
            }
        }
    } else {
        Err(SerializationError::InvalidData)
    }
}

/// A well-formed element type at the spec level.
pub open spec fn spec_element_wf(e: SpecElementType) -> bool {
    match e {
        SpecElementType::Literal(_) => true,
        SpecElementType::Struct(name) => is_valid_identifier(name),
    }
}

/// The canonical rendering of an element type.
pub open spec fn spec_display_element(e: SpecElementType) -> Seq<char> {
    match e {
        SpecElementType::Literal(t) => spec_literal_keyword(t),
        SpecElementType::Struct(name) => name,
    }
}

impl LiteralType {
    /// The code byte of this literal type.
    pub fn code(&self) -> (r: u8)
        ensures
            r == spec_literal_code(*self),
    {
        match self {
            LiteralType::Address => 0,
            LiteralType::Boolean => 1,
            LiteralType::Field => 2,
            LiteralType::Group => 3,
            LiteralType::I8 => 4,
            LiteralType::I16 => 5,
            LiteralType::I32 => 6,
            LiteralType::I64 => 7,
            LiteralType::I128 => 8,
            LiteralType::U8 => 9,
            LiteralType::U16 => 10,
            LiteralType::U32 => 11,
            LiteralType::U64 => 12,
            LiteralType::U128 => 13,
            LiteralType::Scalar => 14,
            LiteralType::Signature => 15,
            LiteralType::Str => 16,
        }
    }

    /// The literal type of a code byte, if any.
    pub fn from_code(b: u8) -> (r: Option<LiteralType>)
        ensures
            r == spec_literal_of_code(b),
    {
        if b == 0 {
            Some(LiteralType::Address)
        } else if b == 1 {
            Some(LiteralType::Boolean)
        } else if b == 2 {
            Some(LiteralType::Field)
        } else if b == 3 {
            Some(LiteralType::Group)
        } else if b == 4 {
            Some(LiteralType::I8)
        } else if b == 5 {
            Some(LiteralType::I16)
        } else if b == 6 {
            Some(LiteralType::I32)
        } else if b == 7 {
            Some(LiteralType::I64)
        } else if b == 8 {
            Some(LiteralType::I128)
        } else if b == 9 {
            Some(LiteralType::U8)
        } else if b == 10 {
            Some(LiteralType::U16)
        } else if b == 11 {
            Some(LiteralType::U32)
        } else if b == 12 {
            Some(LiteralType::U64)
        } else if b == 13 {
            Some(LiteralType::U128)
        } else if b == 14 {
            Some(LiteralType::Scalar)
        } else if b == 15 {
            Some(LiteralType::Signature)
        } else if b == 16 {
            Some(LiteralType::Str)
        } else {
            None
        }
    }
}

impl ElementType {
    /// Appends the binary encoding of the element type.
    pub fn write_le(&self, out: &mut Vec<u8>)
        ensures
            final(out)@ == old(out)@ + spec_encode_element(self@),
    {
        match self {
            ElementType::Literal(t) => {
                out.push(0u8);
                out.push(t.code());
                proof {
                    assert(out@ =~= old(out)@ + spec_encode_element(self@));
                }
            },
            ElementType::Struct(id) => {
                let bytes = id.to_ascii_bytes();
                out.push(1u8);
                out.push(#[verifier::truncate] (bytes.len() as u8));
                let m: usize = bytes.len();
                let mut k: usize = 0;
                while k < m
                    invariant
                        0 <= k <= m,
                        m == bytes@.len(),
                        out@ == old(out)@ + seq![1u8, (m as u8)] + bytes@.take(k as int),
                    decreases m - k,
                {
                    let b = bytes[k];
                    out.push(b);
                    proof {
                        assert(out@ =~= old(out)@ + seq![1u8, (m as u8)] + bytes@.take(
                            k as int + 1,
                        ));
                    }
                    k = k + 1;
                }
                proof {
                    assert(bytes@.take(m as int) =~= bytes@);
                    assert(bytes@.len() == id@.len());
                    assert(out@ =~= old(out)@ + spec_encode_element(self@));
                }
            },
        }
    }

    /// Reads an element type from a prefix of the bytes, with the count of
    /// bytes consumed; a struct name is re-validated, never trusted.
    pub fn read_le(bytes: &[u8]) -> (r: Result<(usize, ElementType), SerializationError>)
        ensures
            (match r {
                Ok((used, e)) => spec_decode_element(bytes@) == Ok::<
                    (int, SpecElementType),
                    SerializationError,
                >((used as int, e@)) && e.wf() && used <= bytes@.len(),
                Err(err) => spec_decode_element(bytes@) == Err::<
                    (int, SpecElementType),
                    SerializationError,
                >(err),
            }),
    {
        let n: usize = bytes.len();
        if n < 1 {
            return Err(SerializationError::NotEnoughBytes);
        }
        let tag = bytes[0];
        if tag == 0 {
            if n < 2 {
                return Err(SerializationError::NotEnoughBytes);
            }
            match LiteralType::from_code(bytes[1]) {
                Some(t) => Ok((2, ElementType::Literal(t))),
                None => Err(SerializationError::InvalidData),
            }
        } else if tag == 1 {
            if n < 2 {
                return Err(SerializationError::NotEnoughBytes);
            }
            let l = bytes[1] as usize;
            if n - 2 < l {
                return Err(SerializationError::NotEnoughBytes);
            }
            let name_slice = vstd::slice::slice_subrange(bytes, 2, 2 + l);
            let v = vstd::slice::slice_to_vec(name_slice);
            match Identifier::from_ascii_bytes(&v) {
                Ok(id) => {
                    proof {
                        assert(v@ == bytes@.subrange(2, 2 + l as int));
                    }
                    Ok((2 + l, ElementType::Struct(id)))
                },
                Err(e) => Err(e),
            }
        } else {
            Err(SerializationError::InvalidData)
        }
    }
}

/// Law: decoding an encoded element, with any bytes following it, consumes
/// exactly the encoding and gives the element back.
pub proof fn lemma_element_round_trip(e: SpecElementType, t: Seq<u8>)
    requires
        spec_element_wf(e),
    ensures
        spec_decode_element(spec_encode_element(e) + t) == Ok::<
            (int, SpecElementType),
            SerializationError,
        >((spec_encode_element(e).len() as int, e)),
{
    let eb = spec_encode_element(e);
    let s = eb + t;
    match e {
        SpecElementType::Literal(lt) => {
            assert(s[0] == 0u8);
            assert(s[1] == spec_literal_code(lt));
            assert(spec_literal_of_code(spec_literal_code(lt)) == Some(lt));
        },
        SpecElementType::Struct(name) => {
            assert(s[0] == 1u8);
            assert(s[1] == name.len() as u8);
            assert(s[1] as int == name.len());
            let l = s[1] as int;
            assert(s.len() >= 2 + l);
            assert(s.subrange(2, 2 + l) =~= bytes_of_chars(name));
            assert forall|i: int| 0 <= i < name.len() implies chars_of_bytes(bytes_of_chars(name))[
                i
            ] == name[i] by {
                assert(is_identifier_char(name[i]));
                assert((name[i] as int) < 128);
            }
            assert(chars_of_bytes(bytes_of_chars(name)) =~= name);
        },
    }
}

} // verus!

