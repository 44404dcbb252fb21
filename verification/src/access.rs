//! One step of a path expression: an array index (`[0]`) or a named member
//! (`.foo`). The parser consumes a prefix of its input and hands the caller
//! the unconsumed remainder; string conversion additionally demands that the
//! remainder is empty.

use vstd::prelude::*;

use crate::digits::{
    decimal_digits, decimal_string, digit_run_pred, digits_value, is_digit,
    is_digit_or_underscore, is_digit_sequence, lemma_decimal_digits, lemma_scan_end_from_witness,
    lemma_strip_clean, lemma_strip_no_underscores, parse_digit_sequence, spec_parse_digits,
    strip_underscores,
};
use crate::errors::ProgramError;
use crate::identifier::{
    is_identifier_char, is_valid_identifier, identifier_run_pred, spec_parse_identifier,
    Identifier,
};

verus! {

/// The mathematical value of an access: an index magnitude or a member name.
pub enum SpecAccess {
    Index(u32),
    Member(Seq<char>),
}

/// An access step, created by parsing or direct construction.
#[derive(Debug, Clone, PartialEq, Eq, Hash)]
pub enum Access {
    /// An array index, i.e. `[0]`.
    Index(u32),
    /// A named member, i.e. `.foo`.
    Member(Identifier),
}

impl View for Access {
    type V = SpecAccess;

    open spec fn view(&self) -> SpecAccess {
        match self {
            Access::Index(u) => SpecAccess::Index(*u),
            Access::Member(id) => SpecAccess::Member(id@),
        }
    }
}

/// The index production: `[`, a digit sequence, `]`.
pub open spec fn spec_parse_index(s: Seq<char>) -> Result<(u32, int), ProgramError> {
    if s.len() == 0 || s[0] != '[' {
        Err(ProgramError::NoMatch)
    } else {
        match spec_parse_digits(s, 1) {
            Err(e) => Err(e),
            Ok((end, v)) => if end < s.len() && s[end] == ']' {
                Ok((v, end + 1))
            } else {
                Err(ProgramError::NoMatch)
            },
        }
    }
}

/// The member production: `.`, then an identifier.
pub open spec fn spec_parse_member(s: Seq<char>) -> Result<(Seq<char>, int), ProgramError> {
    if s.len() == 0 || s[0] != '.' {
        Err(ProgramError::NoMatch)
    } else {
        match spec_parse_identifier(s, 1) {
            Err(e) => Err(e),
            Ok((end, name)) => Ok((name, end)),
        }
    }
}

/// The access grammar: the index production is tried first, then the member
/// production; the two open with distinct characters.
pub open spec fn spec_parse_access(s: Seq<char>) -> Result<(SpecAccess, int), ProgramError> {
    if s.len() > 0 && s[0] == '[' {
        match spec_parse_index(s) {
            Err(e) => Err(e),
            Ok((v, end)) => Ok((SpecAccess::Index(v), end)),
        }
    } else {
        match spec_parse_member(s) {
            Err(e) => Err(e),
            Ok((name, end)) => Ok((SpecAccess::Member(name), end)),
        }
    }
}

/// The canonical rendering: `[i]` in plain decimal, or `.name`.
pub open spec fn spec_display_access(a: SpecAccess) -> Seq<char> {
    match a {
        SpecAccess::Index(u) => seq!['['] + decimal_digits(u as nat) + seq![']'],
        SpecAccess::Member(name) => seq!['.'] + name,
    }
}

impl Access {
    /// A member access carries a well-formed identifier.
    pub open spec fn wf(&self) -> bool {
        match self {
            Access::Index(_) => true,
            Access::Member(id) => id.wf(),
        }
    }

    /// Parses a prefix of the input as an access and returns the unconsumed
    /// remainder beside the value, or the error the grammar gives.
    pub fn parse(string: &str) -> (r: Result<(&str, Access), ProgramError>)
        ensures
            (match r {
                Ok((rem, a)) => spec_parse_access(string@) matches Ok(p) && a@ == p.0 && rem@
                    == string@.skip(p.1) && a.wf() && 0 <= p.1 <= string@.len(),
                Err(e) => spec_parse_access(string@) == Err::<(SpecAccess, int), ProgramError>(e),
            }),
    {
        let n: usize = string.unicode_len();
        if n > 0 && string.get_char(0) == '[' {
            match parse_digit_sequence(string, 1) {
                Ok((end, v)) => {
                    if end < n && string.get_char(end) == ']' {
                        let rem = string.substring_char(end + 1, n);
                        proof {
                            assert(rem@ =~= string@.skip(end as int + 1));
                        }
                        Ok((rem, Access::Index(v)))
                    } else {
                        Err(ProgramError::NoMatch)
                    }
                },
                Err(e) => Err(e),
            }
        } else if n > 0 && string.get_char(0) == '.' {
            match Identifier::parse_at(string, 1) {
                Ok((end, id)) => {
                    let rem = string.substring_char(end, n);
                    proof {
                        assert(rem@ =~= string@.skip(end as int));
                    }
                    Ok((rem, Access::Member(id)))
                },
                Err(e) => Err(e),
            }
        } else {
            Err(ProgramError::NoMatch)
        }
    }

    /// Parses a whole string as one access; a non-empty remainder after the
    /// parsed prefix is reported as a `Remainder` failure naming it.
    pub fn from_str(string: &str) -> (r: Result<Access, ProgramError>)
        ensures
            (match r {
                Ok(a) => spec_parse_access(string@) matches Ok(p) && a@ == p.0 && p.1
                    == string@.len() && a.wf(),
                Err(e) => match spec_parse_access(string@) {
                    Ok((_, end)) => end < string@.len() && (e matches ProgramError::Remainder(rem)
                        && rem@ == string@.skip(end)),
                    Err(pe) => e == pe,
                },
            }),
    {
        match Access::parse(string) {
            Ok((rem, a)) => {
                if rem.is_empty() {
                    proof {
                        let p = spec_parse_access(string@)->Ok_0;
                        assert(string@.skip(p.1).len() == 0);
                    }
                    Ok(a)
                } else {
                    Err(ProgramError::Remainder(rem.to_owned()))
                }
            },
            Err(e) => Err(e),
        }
    }

    /// Renders the access in its canonical textual form.
    pub fn to_string(&self) -> (r: String)
        ensures
            r@ == spec_display_access(self@),
    {
        match self {
            Access::Index(u) => {
                let mut out = String::new();
                out.append("[");
                let ds = decimal_string(*u);
                out.append(ds.as_str());
                out.append("]");
                proof {
                    reveal_strlit("[");
                    reveal_strlit("]");
                    assert(out@ =~= seq!['['] + decimal_digits(*u as nat) + seq![']']);
                }
                out
            },
            Access::Member(id) => {
                let mut out = String::new();
                out.append(".");
                let name = id.to_string();
                out.append(name.as_str());
                proof {
                    reveal_strlit(".");
                    assert(out@ =~= seq!['.'] + id@);
                }
                out
            },
        }
    }
}

/// Law: rendering an access and parsing it back gives the same access with
/// an empty remainder. For an index this holds of every 32-bit magnitude:
/// `[` + the decimal digits of `u` + `]` parses to that index.
pub proof fn lemma_parse_display_round_trip(a: SpecAccess)
    requires
        a matches SpecAccess::Member(name) ==> is_valid_identifier(name),
    ensures
        spec_parse_access(spec_display_access(a)) == Ok::<(SpecAccess, int), ProgramError>(
            (a, spec_display_access(a).len() as int),
        ),
{
    match a {
        SpecAccess::Index(u) => {
            let ds = decimal_digits(u as nat);
            lemma_decimal_digits(u as nat);
            let s = seq!['['] + ds + seq![']'];
            assert(s.len() == ds.len() + 2);
            assert(s[0] == '[');
            assert forall|k: int| 1 <= k < 1 + ds.len() as int implies (digit_run_pred())(s[k]) by {
                assert(s[k] == ds[k - 1]);
                assert(is_digit(ds[k - 1]));
            }
            assert(s[1 + ds.len() as int] == ']');
            assert(!(digit_run_pred())(']'));
            lemma_scan_end_from_witness(s, 1, 1 + ds.len() as int, digit_run_pred());
            let run = s.subrange(1, 1 + ds.len() as int);
            assert(run =~= ds);
            assert(forall|i: int| 0 <= i < ds.len() ==> ds[i] != '_');
            lemma_strip_clean(ds);
            assert(digits_value(strip_underscores(run)) == u as nat);
            assert(spec_parse_digits(s, 1) == Ok::<(int, u32), ProgramError>(
                ((1 + ds.len() as int) as int, u),
            ));
            assert(spec_parse_index(s) == Ok::<(u32, int), ProgramError>((u, s.len() as int)));
        },
        SpecAccess::Member(name) => {
            let s = seq!['.'] + name;
            assert(s.len() == name.len() + 1);
            assert(s[0] == '.');
            assert(s[0] != '[');
            assert(s[1] == name[0]);
            assert forall|k: int| 1 <= k < 1 + name.len() as int implies (identifier_run_pred())(
                s[k],
            ) by {
                assert(s[k] == name[k - 1]);
                assert(is_identifier_char(name[k - 1]));
            }
            lemma_scan_end_from_witness(s, 1, 1 + name.len() as int, identifier_run_pred());
            assert(s.subrange(1, 1 + name.len() as int) =~= name);
            assert(spec_parse_identifier(s, 1) == Ok::<(int, Seq<char>), ProgramError>(
                (s.len() as int, name),
            ));
        },
    }
}

/// Law: underscores interspersed after digits do not change what an index
/// literal denotes. Parsing `[` + s + `]` and parsing the underscore-stripped
/// form succeed together and give the same index value, or fail together
/// with the same error.
pub proof fn lemma_underscores_insensitive(s: Seq<char>)
    requires
        is_digit_sequence(s),
    ensures
        (spec_parse_access(seq!['['] + s + seq![']']) is Ok) == (spec_parse_access(
            seq!['['] + strip_underscores(s) + seq![']'],
        ) is Ok),
        spec_parse_access(seq!['['] + s + seq![']']) matches Ok(p) ==> spec_parse_access(
            seq!['['] + strip_underscores(s) + seq![']'],
        ) matches Ok(q) && p.0 == q.0,
        spec_parse_access(seq!['['] + s + seq![']']) matches Err(e) ==> spec_parse_access(
            seq!['['] + strip_underscores(s) + seq![']'],
        ) == Err::<(SpecAccess, int), ProgramError>(e),
{
    let t = strip_underscores(s);
    lemma_strip_no_underscores(s);
    lemma_strip_first_kept(s);
    lemma_strip_clean(t);
    let bs = seq!['['] + s + seq![']'];
    let bt = seq!['['] + t + seq![']'];
    assert(bs[0] == '[') ;
    assert(bt[0] == '[');
    assert forall|k: int| 1 <= k < 1 + s.len() as int implies (digit_run_pred())(bs[k]) by {
        assert(bs[k] == s[k - 1]);
        assert(is_digit_or_underscore(s[k - 1]));
    }
    assert(bs[1 + s.len() as int] == ']');
    assert(!(digit_run_pred())(']'));
    lemma_scan_end_from_witness(bs, 1, 1 + s.len() as int, digit_run_pred());
    assert forall|k: int| 1 <= k < 1 + t.len() as int implies (digit_run_pred())(bt[k]) by {
        assert(bt[k] == t[k - 1]);
        assert(is_digit(t[k - 1]));
    }
    assert(bt[1 + t.len() as int] == ']');
    lemma_scan_end_from_witness(bt, 1, 1 + t.len() as int, digit_run_pred());
    assert(bs.subrange(1, 1 + s.len() as int) =~= s);
    assert(bt.subrange(1, 1 + t.len() as int) =~= t);
    assert(is_digit(bs[1]));
    assert(is_digit(bt[1]));
    assert(digits_value(strip_underscores(t)) == digits_value(t));
}

/// Stripping keeps the opening digit in place.
proof fn lemma_strip_first_kept(s: Seq<char>)
    requires
        s.len() > 0,
        s[0] != '_',
    ensures
        strip_underscores(s).len() > 0,
        strip_underscores(s)[0] == s[0],
    decreases s.len(),
{
    if s.len() == 1 {
        assert(strip_underscores(s) =~= strip_underscores(s.drop_last()).push(s.last()));
    } else {
        lemma_strip_first_kept(s.drop_last());
        assert(s.drop_last()[0] == s[0]);
    }
}

} // verus!
