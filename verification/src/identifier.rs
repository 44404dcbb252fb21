//! Identifiers: names for members and struct types. A name opens with an
//! ASCII letter, continues with ASCII letters, digits and underscores, and
//! is bounded so that it fits the data capacity of one base field element.

use vstd::prelude::*;

use crate::digits::{is_digit, lemma_scan_end_from_witness, scan_end};
use crate::errors::{ProgramError, SerializationError};

verus! {

/// The data capacity of one base field element, in bytes: the ceiling on an
/// identifier's length.
pub const MAX_IDENTIFIER_BYTES: usize = 31;

pub open spec fn is_letter(c: char) -> bool {
    ('a' <= c && c <= 'z') || ('A' <= c && c <= 'Z')
}

pub open spec fn is_identifier_char(c: char) -> bool {
    is_letter(c) || is_digit(c) || c == '_'
}

/// A well-formed identifier: non-empty, within the field-element bound,
/// opening with a letter, made of identifier characters throughout.
pub open spec fn is_valid_identifier(s: Seq<char>) -> bool {
    &&& 1 <= s.len() <= MAX_IDENTIFIER_BYTES as int
    &&& is_letter(s[0])
    &&& forall|i: int| 0 <= i < s.len() ==> is_identifier_char(s[i])
}

/// The predicate the identifier-run scanner uses.
pub open spec fn identifier_run_pred() -> spec_fn(char) -> bool {
    |c: char| is_identifier_char(c)
}

/// The characters of a sequence of ASCII bytes.
pub open spec fn chars_of_bytes(v: Seq<u8>) -> Seq<char> {
    Seq::new(v.len(), |i: int| v[i] as char)
}

/// The ASCII bytes of a sequence of ASCII characters.
pub open spec fn bytes_of_chars(s: Seq<char>) -> Seq<u8> {
    Seq::new(s.len(), |i: int| s[i] as u8)
}

/// The result of reading an identifier at position `start`: the position one
/// past the consumed run and the name, or the error the grammar gives.
pub open spec fn spec_parse_identifier(s: Seq<char>, start: int) -> Result<
    (int, Seq<char>),
    ProgramError,
>
    recommends
        0 <= start <= s.len(),
{
    if start >= s.len() || !is_letter(s[start]) {
        Err(ProgramError::NoMatch)
    } else {
        let end = scan_end(s, start, identifier_run_pred());
        if end - start > MAX_IDENTIFIER_BYTES as int {
            Err(ProgramError::IdentifierTooLong)
        } else {
            Ok((end, s.subrange(start, end)))
        }
    }
}

/// A validated name, immutable once constructed.
#[derive(Debug, PartialEq, Eq, Hash)]
pub struct Identifier {
    name: String,
}

impl Clone for Identifier {
    /// A clone carries the same name.
    fn clone(&self) -> (r: Identifier)
        ensures
            r@ == self@,
    {
        proof {
            use_type_invariant(self);
        }
        Identifier { name: self.name.clone() }
    }
}

impl View for Identifier {
    type V = Seq<char>;

    closed spec fn view(&self) -> Seq<char> {
        self.name@
    }
}

/// Relies on std's String::from_utf8: bytes below 128 are valid UTF-8 and
/// decode to the characters with the same code points.
#[verifier::external_body]
fn string_from_ascii(v: &Vec<u8>) -> (s: String)
    requires
        forall|i: int| 0 <= i < v@.len() ==> v@[i] < 128,
    ensures
        s@ == chars_of_bytes(v@),
{
    match String::from_utf8(v.clone()) {
        Ok(s) => s,
        Err(_) => String::new(),
    }
}

impl Identifier {
    /// Every identifier ever constructed fits the field-element bound.
    #[verifier::type_invariant]
    pub open spec fn length_bounded(self) -> bool {
        self@.len() <= MAX_IDENTIFIER_BYTES as int
    }

    pub open spec fn wf(&self) -> bool {
        is_valid_identifier(self@)
    }

    /// Reads an identifier from character position `start`, consuming the
    /// longest run of identifier characters.
    pub fn parse_at(s: &str, start: usize) -> (r: Result<(usize, Identifier), ProgramError>)
        requires
            start <= s@.len(),
        ensures
            (match r {
                Ok((end, id)) => spec_parse_identifier(s@, start as int) == Ok::<
                    (int, Seq<char>),
                    ProgramError,
                >((end as int, id@)) && id.wf() && start < end <= s@.len(),
                Err(e) => spec_parse_identifier(s@, start as int) == Err::<
                    (int, Seq<char>),
                    ProgramError,
                >(e),
            }),
    {
        let n: usize = s.unicode_len();
        if start >= n {
            return Err(ProgramError::NoMatch);
        }
        let c0 = s.get_char(start);
        let c0_letter = (c0 >= 'a' && c0 <= 'z') || (c0 >= 'A' && c0 <= 'Z');
        if !c0_letter {
            return Err(ProgramError::NoMatch);
        }
        let mut i: usize = start;
        loop
            invariant
                start <= i <= n,
                n == s@.len(),
                forall|k: int| start <= k < i ==> is_identifier_char(s@[k]),
            ensures
                start <= i <= n,
                forall|k: int| start <= k < i ==> is_identifier_char(s@[k]),
                i == n || !is_identifier_char(s@[i as int]),
            decreases n - i,
        {
            if i >= n {
                break ;
            }
            let c = s.get_char(i);
            let ok = (c >= 'a' && c <= 'z') || (c >= 'A' && c <= 'Z') || (c >= '0' && c <= '9')
                || c == '_';
            if !ok {
                break ;
            }
            i = i + 1;
        }
        proof {
            lemma_scan_end_from_witness(s@, start as int, i as int, identifier_run_pred());
            assert forall|k: int| start <= k < i implies (identifier_run_pred())(s@[k]) by {
                assert(is_identifier_char(s@[k]));
            }
            if i == start {
                assert((identifier_run_pred())(s@[start as int]));
            }
        }
        if i - start > MAX_IDENTIFIER_BYTES {
            return Err(ProgramError::IdentifierTooLong);
        }
        let sub = s.substring_char(start, i);
        let id = Identifier { name: sub.to_owned() };
        Ok((i, id))
    }

    /// Parses a whole string as one identifier; characters past the
    /// identifier run are a `Remainder` failure.
    pub fn from_str(s: &str) -> (r: Result<Identifier, ProgramError>)
        ensures
            (match r {
                Ok(id) => spec_parse_identifier(s@, 0) == Ok::<(int, Seq<char>), ProgramError>(
                    (s@.len() as int, id@),
                ) && id.wf() && id@ == s@,
                Err(e) => match spec_parse_identifier(s@, 0) {
                    Ok((end, _)) => end < s@.len() && (e matches ProgramError::Remainder(rem)
                        && rem@ == s@.skip(end)),
                    Err(pe) => e == pe,
                },
            }),
    {
        match Identifier::parse_at(s, 0) {
            Ok((end, id)) => {
                let n: usize = s.unicode_len();
                if end == n {
                    proof {
                        assert(id@ =~= s@);
                    }
                    Ok(id)
                } else {
                    let rem = s.substring_char(end, n);
                    proof {
                        assert(rem@ =~= s@.skip(end as int));
                    }
                    Err(ProgramError::Remainder(rem.to_owned()))
                }
            },
            Err(e) => Err(e),
        }
    }

    /// The name as an owned string.
    pub fn to_string(&self) -> (r: String)
        ensures
            r@ == self@,
    {
        self.name.clone()
    }

    /// Whether the held name is a well-formed identifier.
    pub fn is_valid(&self) -> (r: bool)
        ensures
            r == self.wf(),
    {
        let s = self.name.as_str();
        let n: usize = s.unicode_len();
        if n == 0 || n > MAX_IDENTIFIER_BYTES {
            return false;
        }
        let c0 = s.get_char(0);
        if !((c0 >= 'a' && c0 <= 'z') || (c0 >= 'A' && c0 <= 'Z')) {
            return false;
        }
        let mut i: usize = 0;
        loop
            invariant
                0 <= i <= n,
                n == s@.len(),
                s@ == self@,
                forall|k: int| 0 <= k < i ==> is_identifier_char(s@[k]),
            ensures
                (i == n && forall|k: int| 0 <= k < n ==> is_identifier_char(s@[k])) || (i < n
                    && !is_identifier_char(s@[i as int])),
            decreases n - i,
        {
            if i >= n {
                break ;
            }
            let c = s.get_char(i);
            let ok = (c >= 'a' && c <= 'z') || (c >= 'A' && c <= 'Z') || (c >= '0' && c <= '9')
                || c == '_';
            if !ok {
                break ;
            }
            i = i + 1;
        }
        i == n
    }

    /// The ASCII bytes of the name, one byte per character.
    pub fn to_ascii_bytes(&self) -> (r: Vec<u8>)
        ensures
            r@ == bytes_of_chars(self@),
    {
        let s = self.name.as_str();
        let n: usize = s.unicode_len();
        let mut out: Vec<u8> = Vec::new();
        let mut i: usize = 0;
        while i < n
            invariant
                0 <= i <= n,
                n == s@.len(),
                s@ == self@,
                out@ == bytes_of_chars(self@).take(i as int),
            decreases n - i,
        {
            let c = s.get_char(i);
            out.push(#[verifier::truncate] (c as u8));
            proof {
                assert(out@ =~= bytes_of_chars(self@).take(i as int + 1));
            }
            i = i + 1;
        }
        proof {
            assert(bytes_of_chars(self@).take(n as int) =~= bytes_of_chars(self@));
        }
        out
    }

    /// The length of the name in characters (equally, in bytes).
    pub fn len(&self) -> (r: usize)
        ensures
            r == self@.len(),
    {
        self.name.as_str().unicode_len()
    }

    /// Rebuilds an identifier from ASCII bytes, re-validating the name; the
    /// decoder's path in from a byte source.
    pub fn from_ascii_bytes(v: &Vec<u8>) -> (r: Result<Identifier, SerializationError>)
        ensures
            (match r {
                Ok(id) => is_valid_identifier(chars_of_bytes(v@)) && id@ == chars_of_bytes(v@)
                    && id.wf(),
                Err(e) => e == SerializationError::InvalidData && !is_valid_identifier(
                    chars_of_bytes(v@),
                ),
            }),
    {
        let ghost cs = chars_of_bytes(v@);
        let n: usize = v.len();
        if n == 0 || n > MAX_IDENTIFIER_BYTES {
            return Err(SerializationError::InvalidData);
        }
        let b0 = v[0];
        let c0 = b0 as char;
        if !((c0 >= 'a' && c0 <= 'z') || (c0 >= 'A' && c0 <= 'Z')) {
            proof {
                assert(cs[0] == b0 as char);
            }
            return Err(SerializationError::InvalidData);
        }
        let mut i: usize = 0;
        loop
            invariant
                0 <= i <= n,
                n == v@.len(),
                cs == chars_of_bytes(v@),
                forall|k: int| 0 <= k < i ==> is_identifier_char(cs[k]),
                forall|k: int| 0 <= k < i ==> v@[k] < 128,
            ensures
                i <= n,
                n == v@.len(),
                (i == n && (forall|k: int| 0 <= k < n ==> is_identifier_char(cs[k])) && (forall|
                    k: int,
                | 0 <= k < n ==> v@[k] < 128)) || (i < n && !is_identifier_char(cs[i as int])),
            decreases n - i,
        {
            if i >= n {
                break ;
            }
            let b = v[i];
            let c = b as char;
            let ok = (c >= 'a' && c <= 'z') || (c >= 'A' && c <= 'Z') || (c >= '0' && c <= '9')
                || c == '_';
            proof {
                assert(v@[i as int] == b);
                assert(cs[i as int] == b as char);
                if ok {
                    assert((b as char) as int == b as int);
                    assert(v@[i as int] < 128);
                    assert(is_identifier_char(cs[i as int]));
                }
            }
            if !ok {
                break ;
            }
            i = i + 1;
        }
        if i < n {
            return Err(SerializationError::InvalidData);
        }
        let name = string_from_ascii(v);
        let id = Identifier { name };
        Ok(id)
    }
}

} // verus!
