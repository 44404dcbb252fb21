//! The binary contract: canonical little-endian encoding with independently
//! selectable compression and validation modes, ordered integrity checking,
//! and flag metadata of at most eight bits packed alongside payload bytes.

use vstd::prelude::*;

use crate::errors::SerializationError;

verus! {

/// Whether an encoding may omit derivable data.
#[derive(Debug, Clone, Copy, PartialEq, Eq, Structural)]
pub enum Compress {
    Yes,
    No,
}

/// Whether integrity checks run during decoding. `No` exists only for
/// callers that have independently established trust in the bytes.
#[derive(Debug, Clone, Copy, PartialEq, Eq, Structural)]
pub enum Validate {
    Yes,
    No,
}

/// The mask over the low bits of a byte that flag bits of the given width
/// leave to the payload.
pub open spec fn spec_payload_mask(bit_size: nat) -> u8
    recommends
        bit_size <= 8,
{
    if bit_size == 0 {
        0xff
    } else if bit_size == 1 {
        0x7f
    } else if bit_size == 2 {
        0x3f
    } else if bit_size == 3 {
        0x1f
    } else if bit_size == 4 {
        0x0f
    } else if bit_size == 5 {
        0x07
    } else if bit_size == 6 {
        0x03
    } else if bit_size == 7 {
        0x01
    } else {
        0x00
    }
}

/// Clearing bits that lie outside a mask leaves the masked bits unchanged.
proof fn lemma_clear_outside_payload(v: u8, m: u8, pm: u8)
    requires
        m & pm == 0,
    ensures
        (v & !m) & pm == v & pm,
{
    assert((m & pm == 0) ==> ((v & !m) & pm == v & pm)) by (bit_vector);
}

/// Metadata representable in at most eight bits, attachable to the trailing
/// byte of a serialized payload: for example, whether a curve point is the
/// point at infinity, or the sign of its second coordinate.
pub trait Flags: Sized + Clone + Copy {
    /// The number of bits needed to encode a value of this type.
    spec fn spec_bit_size() -> nat;

    /// The top-aligned bit pattern of this value.
    spec fn spec_bitmask(&self) -> u8;

    /// The value the top `spec_bit_size()` bits of a byte denote, if any.
    spec fn spec_from_u8(b: u8) -> Option<Self>;

    /// Law: at most eight bits are used.
    proof fn lemma_bit_size()
        ensures
            Self::spec_bit_size() <= 8,
    ;

    /// Law: a bitmask stays out of the payload's low bits.
    proof fn lemma_bitmask_top_bits(&self)
        ensures
            self.spec_bitmask() & spec_payload_mask(Self::spec_bit_size()) == 0,
    ;

    /// Law: distinct flag values have distinct bitmasks.
    proof fn lemma_bitmask_distinct(a: Self, b: Self)
        requires
            a.spec_bitmask() == b.spec_bitmask(),
        ensures
            a == b,
    ;

    /// Law: reading a byte inspects only the bits outside the payload mask.
    proof fn lemma_from_u8_reads_top_bits(b1: u8, b2: u8)
        requires
            b1 & !spec_payload_mask(Self::spec_bit_size()) == b2 & !spec_payload_mask(
                Self::spec_bit_size(),
            ),
        ensures
            Self::spec_from_u8(b1) == Self::spec_from_u8(b2),
    ;

    /// Law: a value's own bitmask reads back as that value.
    proof fn lemma_from_u8_of_bitmask(&self)
        ensures
            Self::spec_from_u8(self.spec_bitmask()) == Some(*self),
    ;

    /// The number of bits required to encode `Self`; at most 8.
    fn bit_size() -> (r: usize)
        ensures
            r == Self::spec_bit_size(),
    ;

    /// The bit mask corresponding to `self`.
    fn u8_bitmask(&self) -> (r: u8)
        ensures
            r == self.spec_bitmask(),
    ;

    /// Reads `Self` from the top `spec_bit_size()` bits of `value`, ignoring
    /// the low payload bits entirely; `None` when the top bits correspond to
    /// no known bitmask.
    fn from_u8(value: u8) -> (r: Option<Self>)
        ensures
            r == Self::spec_from_u8(value),
    ;

    /// Reads `Self` from `value` as `from_u8` does and, on a match alone,
    /// clears exactly the recognized bitmask's bits in `value`. The low
    /// payload bits are left unchanged regardless; on no match the whole
    /// byte is left unmodified.
    fn from_u8_remove_flags(value: &mut u8) -> (r: Option<Self>)
        ensures
            r == Self::spec_from_u8(*old(value)),
            r matches Some(f) ==> *final(value) == (*old(value) & !f.spec_bitmask()),
            r is None ==> *final(value) == *old(value),
            *final(value) & spec_payload_mask(Self::spec_bit_size()) == *old(value)
                & spec_payload_mask(Self::spec_bit_size()),
    {
        let flags = Self::from_u8(*value);
        if let Some(f) = flags {
            let m = f.u8_bitmask();
            proof {
                f.lemma_bitmask_top_bits();
                lemma_clear_outside_payload(*value, m, spec_payload_mask(Self::spec_bit_size()));
            }
            *value = *value & !m;
        }
        flags
    }
}

/// A post-construction or post-decode integrity check.
pub trait Valid: Sized {
    /// What the check returns: success, or this type's validation failure.
    spec fn spec_check(&self) -> Result<(), SerializationError>;

    fn check(&self) -> (r: Result<(), SerializationError>)
        ensures
            r == self.spec_check(),
    ;

    /// Checks the items in order, short-circuiting on the first failing item
    /// and surfacing that item's error.
    fn batch_check(batch: &[Self]) -> (r: Result<(), SerializationError>)
        ensures
            r is Ok <==> (forall|i: int| 0 <= i < batch@.len() ==> batch@[i].spec_check() is Ok),
            r matches Err(e) ==> exists|i: int|
                0 <= i < batch@.len() && batch@[i].spec_check() == Err::<(), SerializationError>(e)
                    && (forall|j: int| 0 <= j < i ==> batch@[j].spec_check() is Ok),
    {
        let n: usize = batch.len();
        let mut i: usize = 0;
        while i < n
            invariant
                0 <= i <= n,
                n == batch@.len(),
                forall|j: int| 0 <= j < i ==> batch@[j].spec_check() is Ok,
            decreases n - i,
        {
            match slice_index(batch, i).check() {
                Ok(_) => {},
                Err(e) => {
                    return Err(e);
                },
            }
            i = i + 1;
        }
        Ok(())
    }
}

/// One slice element; the index is in bounds.
fn slice_index<T>(s: &[T], i: usize) -> (r: &T)
    requires
        i < s@.len(),
    ensures
        *r == s@[i as int],
{
    &s[i]
}

/// Serializer in little-endian format. The bytes a mode writes are a pure
/// function of the value, and `serialized_size` states their exact count.
pub trait CanonicalSerialize: Sized {
    /// The bytes the given mode writes.
    spec fn spec_serialize(&self, compress: Compress) -> Seq<u8>;

    /// Appends the compressed or uncompressed form to the writer: exactly
    /// `spec_serialize(compress)`, whose length `serialized_size` returns.
    fn serialize_with_mode(&self, writer: &mut Vec<u8>, compress: Compress) -> (r: Result<
        (),
        SerializationError,
    >)
        ensures
            r is Ok,
            final(writer)@ == old(writer)@ + self.spec_serialize(compress),
    ;

    /// The exact count of bytes `serialize_with_mode` writes in this mode.
    fn serialized_size(&self, compress: Compress) -> (r: usize)
        ensures
            r == self.spec_serialize(compress).len(),
    ;

    fn serialize_compressed(&self, writer: &mut Vec<u8>) -> (r: Result<(), SerializationError>)
        ensures
            r is Ok,
            final(writer)@ == old(writer)@ + self.spec_serialize(Compress::Yes),
    {
        self.serialize_with_mode(writer, Compress::Yes)
    }

    fn compressed_size(&self) -> (r: usize)
        ensures
            r == self.spec_serialize(Compress::Yes).len(),
    {
        self.serialized_size(Compress::Yes)
    }

    fn serialize_uncompressed(&self, writer: &mut Vec<u8>) -> (r: Result<(), SerializationError>)
        ensures
            r is Ok,
            final(writer)@ == old(writer)@ + self.spec_serialize(Compress::No),
    {
        self.serialize_with_mode(writer, Compress::No)
    }

    fn uncompressed_size(&self) -> (r: usize)
        ensures
            r == self.spec_serialize(Compress::No).len(),
    {
        self.serialized_size(Compress::No)
    }
}

/// Deserializer in little-endian format. Reads a value from a prefix of the
/// bytes; failure never yields a value. With `Validate::Yes` the decoded
/// value's integrity check runs and must pass; with `Validate::No` it is
/// skipped entirely.
pub trait CanonicalDeserialize: Valid + View {
    /// The value the given modes read from the bytes, or the failure.
    spec fn spec_deserialize(s: Seq<u8>, compress: Compress, validate: Validate) -> Result<
        Self::V,
        SerializationError,
    >;

    fn deserialize_with_mode(reader: &[u8], compress: Compress, validate: Validate) -> (r: Result<
        Self,
        SerializationError,
    >)
        ensures
            (match r {
                Ok(v) => Self::spec_deserialize(reader@, compress, validate) == Ok::<
                    Self::V,
                    SerializationError,
                >(v@) && (validate == Validate::Yes ==> v.spec_check() is Ok),
                Err(e) => Self::spec_deserialize(reader@, compress, validate) == Err::<
                    Self::V,
                    SerializationError,
                >(e),
            }),
    ;

    fn deserialize_compressed(reader: &[u8]) -> (r: Result<Self, SerializationError>)
        ensures
            (match r {
                Ok(v) => Self::spec_deserialize(reader@, Compress::Yes, Validate::Yes) == Ok::<
                    Self::V,
                    SerializationError,
                >(v@) && v.spec_check() is Ok,
                Err(e) => Self::spec_deserialize(reader@, Compress::Yes, Validate::Yes) == Err::<
                    Self::V,
                    SerializationError,
                >(e),
            }),
    {
        Self::deserialize_with_mode(reader, Compress::Yes, Validate::Yes)
    }

    fn deserialize_compressed_unchecked(reader: &[u8]) -> (r: Result<Self, SerializationError>)
        ensures
            (match r {
                Ok(v) => Self::spec_deserialize(reader@, Compress::Yes, Validate::No) == Ok::<
                    Self::V,
                    SerializationError,
                >(v@),
                Err(e) => Self::spec_deserialize(reader@, Compress::Yes, Validate::No) == Err::<
                    Self::V,
                    SerializationError,
                >(e),
            }),
    {
        Self::deserialize_with_mode(reader, Compress::Yes, Validate::No)
    }

    fn deserialize_uncompressed(reader: &[u8]) -> (r: Result<Self, SerializationError>)
        ensures
            (match r {
                Ok(v) => Self::spec_deserialize(reader@, Compress::No, Validate::Yes) == Ok::<
                    Self::V,
                    SerializationError,
                >(v@) && v.spec_check() is Ok,
                Err(e) => Self::spec_deserialize(reader@, Compress::No, Validate::Yes) == Err::<
                    Self::V,
                    SerializationError,
                >(e),
            }),
    {
        Self::deserialize_with_mode(reader, Compress::No, Validate::Yes)
    }

    fn deserialize_uncompressed_unchecked(reader: &[u8]) -> (r: Result<Self, SerializationError>)
        ensures
            (match r {
                Ok(v) => Self::spec_deserialize(reader@, Compress::No, Validate::No) == Ok::<
                    Self::V,
                    SerializationError,
                >(v@),
                Err(e) => Self::spec_deserialize(reader@, Compress::No, Validate::No) == Err::<
                    Self::V,
                    SerializationError,
                >(e),
            }),
    {
        Self::deserialize_with_mode(reader, Compress::No, Validate::No)
    }
}

/// Serializer that encodes a value jointly with a flags value, reusing
/// spare high bits of the trailing byte where the type has them before
/// allocating an extra byte.
pub trait CanonicalSerializeWithFlags: CanonicalSerialize {
    /// The bytes written for the value joint with flags of the given bit
    /// width and bitmask.
    spec fn spec_serialize_with_flags(&self, bit_size: nat, bitmask: u8) -> Seq<u8>;

    /// Appends the joint encoding of `self` and `flags` to the writer.
    fn serialize_with_flags<F: Flags>(&self, writer: &mut Vec<u8>, flags: F) -> (r: Result<
        (),
        SerializationError,
    >)
        ensures
            r is Ok,
            final(writer)@ == old(writer)@ + self.spec_serialize_with_flags(
                F::spec_bit_size(),
                flags.spec_bitmask(),
            ),
    ;

    /// The exact count of bytes `serialize_with_flags` writes, the same for
    /// every flags value of `F`.
    fn serialized_size_with_flags<F: Flags>(&self) -> (r: usize)
        ensures
            forall|m: u8| r == self.spec_serialize_with_flags(F::spec_bit_size(), m).len(),
    ;
}

/// Deserializer that reads a value and its flags back together; it fails
/// when bytes are missing or the stored flag bits match no known bitmask.
pub trait CanonicalDeserializeWithFlags: Sized + View {
    /// The value the bytes hold, and the byte its flag bits are read from
    /// (zero where the flags occupy no bits), or the failure.
    spec fn spec_read_with_flags(s: Seq<u8>, bit_size: nat) -> Result<
        (Self::V, u8),
        SerializationError,
    >;

    /// Reads `Self` and a flags value back from a prefix of the bytes.
    fn deserialize_with_flags<F: Flags>(reader: &[u8]) -> (r: Result<
        (Self, F),
        SerializationError,
    >)
        ensures
            (match r {
                Ok((v, f)) => Self::spec_read_with_flags(reader@, F::spec_bit_size()) matches Ok(p)
                    && p.0 == v@ && F::spec_from_u8(p.1) == Some(f),
                Err(e) => (Self::spec_read_with_flags(reader@, F::spec_bit_size()) matches Err(e2)
                    && e == e2) || (Self::spec_read_with_flags(reader@, F::spec_bit_size())
                    matches Ok(p) && F::spec_from_u8(p.1) is None && e
                    == SerializationError::UnexpectedFlags),
            }),
    ;
}

} // verus!
