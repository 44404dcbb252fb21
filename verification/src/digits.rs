//! The digit-sequence grammar shared by index accesses and array lengths:
//! one or more decimal digits, where any digit may be followed by any number
//! of underscores. Underscores are stripped before the digits are read as a
//! 32-bit unsigned decimal number.

use vstd::prelude::*;

use crate::errors::ProgramError;

verus! {

/// A decimal digit.
pub open spec fn is_digit(c: char) -> bool {
    '0' <= c && c <= '9'
}

/// A character the digit-sequence grammar accepts after its first digit.
pub open spec fn is_digit_or_underscore(c: char) -> bool {
    is_digit(c) || c == '_'
}

/// The value of one digit character.
pub open spec fn digit_value(c: char) -> nat
    recommends
        is_digit(c),
{
    (c as nat - 48) as nat
}

/// The digit character for a value below ten.
pub open spec fn digit_char(d: nat) -> char
    recommends
        d < 10,
{
    ((d + 48) as u8) as char
}

/// The sequence with every underscore removed and all else kept in order.
pub open spec fn strip_underscores(s: Seq<char>) -> Seq<char>
    decreases s.len(),
{
    if s.len() == 0 {
        Seq::empty()
    } else if s.last() == '_' {
        strip_underscores(s.drop_last())
    } else {
        strip_underscores(s.drop_last()).push(s.last())
    }
}

/// The number a plain digit string denotes, most significant digit first.
pub open spec fn digits_value(s: Seq<char>) -> nat
    decreases s.len(),
{
    if s.len() == 0 {
        0
    } else {
        digits_value(s.drop_last()) * 10 + digit_value(s.last())
    }
}

pub open spec fn all_digits(s: Seq<char>) -> bool {
    forall|i: int| 0 <= i < s.len() ==> is_digit(s[i])
}

pub open spec fn all_digits_or_underscores(s: Seq<char>) -> bool {
    forall|i: int| 0 <= i < s.len() ==> is_digit_or_underscore(s[i])
}

/// A well-formed digit sequence: non-empty, opening with a digit, every
/// underscore standing after a digit or another underscore.
pub open spec fn is_digit_sequence(s: Seq<char>) -> bool {
    s.len() > 0 && is_digit(s[0]) && all_digits_or_underscores(s)
}

/// The canonical decimal rendering of a number: no underscores, no leading
/// zeros.
pub open spec fn decimal_digits(n: nat) -> Seq<char>
    decreases n,
{
    if n < 10 {
        seq![digit_char(n)]
    } else {
        decimal_digits(n / 10).push(digit_char(n % 10))
    }
}

/// The predicate the digit-run scanner uses.
pub open spec fn digit_run_pred() -> spec_fn(char) -> bool {
    |c: char| is_digit_or_underscore(c)
}

/// The first position at or after `i` where `pred` fails, or the end of `s`.
pub open spec fn scan_end(s: Seq<char>, i: int, pred: spec_fn(char) -> bool) -> int
    recommends
        0 <= i <= s.len(),
    decreases s.len() - i,
{
    if i < 0 || i >= s.len() || !pred(s[i]) {
        i
    } else {
        scan_end(s, i + 1, pred)
    }
}

pub proof fn lemma_scan_end_from_witness(
    s: Seq<char>,
    i: int,
    j: int,
    pred: spec_fn(char) -> bool,
)
    requires
        0 <= i <= j <= s.len(),
        forall|k: int| i <= k < j ==> pred(s[k]),
        j == s.len() || !pred(s[j]),
    ensures
        scan_end(s, i, pred) == j,
    decreases j - i,
{
    if i < j {
        lemma_scan_end_from_witness(s, i + 1, j, pred);
    }
}

pub proof fn lemma_scan_end_bounds(s: Seq<char>, i: int, pred: spec_fn(char) -> bool)
    requires
        0 <= i <= s.len(),
    ensures
        i <= scan_end(s, i, pred) <= s.len(),
        forall|k: int| i <= k < scan_end(s, i, pred) ==> pred(s[k]),
        scan_end(s, i, pred) < s.len() ==> !pred(s[scan_end(s, i, pred)]),
    decreases s.len() - i,
{
    if i < s.len() && pred(s[i]) {
        lemma_scan_end_bounds(s, i + 1, pred);
    }
}

pub proof fn lemma_digits_value_push(s: Seq<char>, c: char)
    ensures
        digits_value(s.push(c)) == digits_value(s) * 10 + digit_value(c),
{
    assert(s.push(c).drop_last() =~= s);
    assert(s.push(c).last() == c);
}

pub proof fn lemma_strip_push(s: Seq<char>, c: char)
    ensures
        strip_underscores(s.push(c)) == if c == '_' {
            strip_underscores(s)
        } else {
            strip_underscores(s).push(c)
        },
{
    assert(s.push(c).drop_last() =~= s);
    assert(s.push(c).last() == c);
}

/// Stripping a sequence without underscores changes nothing.
pub proof fn lemma_strip_clean(s: Seq<char>)
    requires
        forall|i: int| 0 <= i < s.len() ==> s[i] != '_',
    ensures
        strip_underscores(s) == s,
    decreases s.len(),
{
    if s.len() > 0 {
        assert(forall|i: int| 0 <= i < s.drop_last().len() ==> s.drop_last()[i] != '_');
        lemma_strip_clean(s.drop_last());
        assert(s.drop_last().push(s.last()) =~= s);
    }
}

/// Stripping leaves only digits when the input held digits and underscores.
pub proof fn lemma_strip_no_underscores(s: Seq<char>)
    ensures
        forall|i: int| 0 <= i < strip_underscores(s).len() ==> strip_underscores(s)[i] != '_',
        all_digits_or_underscores(s) ==> all_digits(strip_underscores(s)),
    decreases s.len(),
{
    if s.len() > 0 {
        lemma_strip_no_underscores(s.drop_last());
        assert(all_digits_or_underscores(s) ==> all_digits_or_underscores(s.drop_last()));
        if s.last() != '_' {
            let t = strip_underscores(s.drop_last());
            assert(forall|i: int|
                0 <= i < t.push(s.last()).len() ==> t.push(s.last())[i] == if i < t.len() {
                    t[i]
                } else {
                    s.last()
                });
        }
    }
}

pub proof fn lemma_strip_idempotent(s: Seq<char>)
    ensures
        strip_underscores(strip_underscores(s)) == strip_underscores(s),
{
    lemma_strip_no_underscores(s);
    lemma_strip_clean(strip_underscores(s));
}

pub proof fn lemma_strip_append(s: Seq<char>, t: Seq<char>)
    ensures
        strip_underscores(s + t) == strip_underscores(s) + strip_underscores(t),
    decreases t.len(),
{
    if t.len() == 0 {
        assert(s + t =~= s);
        assert(strip_underscores(s) + strip_underscores(t) =~= strip_underscores(s));
    } else {
        lemma_strip_append(s, t.drop_last());
        assert((s + t).drop_last() =~= s + t.drop_last());
        assert((s + t).last() == t.last());
        if t.last() != '_' {
            assert(strip_underscores(s) + strip_underscores(t) =~= (strip_underscores(s)
                + strip_underscores(t.drop_last())).push(t.last()));
        }
    }
}

/// Appending more digits never shrinks the value.
pub proof fn lemma_digits_value_append_grows(s: Seq<char>, t: Seq<char>)
    ensures
        digits_value(s + t) >= digits_value(s),
    decreases t.len(),
{
    if t.len() == 0 {
        assert(s + t =~= s);
    } else {
        lemma_digits_value_append_grows(s, t.drop_last());
        assert((s + t).drop_last() =~= s + t.drop_last());
    }
}

pub proof fn lemma_digit_char_value(d: nat)
    requires
        d < 10,
    ensures
        is_digit(digit_char(d)),
        digit_value(digit_char(d)) == d,
        digit_char(d) != '_',
{
}

/// The canonical rendering reads back as the number it was made from.
pub proof fn lemma_decimal_digits(n: nat)
    ensures
        decimal_digits(n).len() >= 1,
        all_digits(decimal_digits(n)),
        digits_value(decimal_digits(n)) == n,
    decreases n,
{
    if n < 10 {
        lemma_digit_char_value(n);
        assert(decimal_digits(n) =~= Seq::empty().push(digit_char(n)));
        lemma_digits_value_push(Seq::empty(), digit_char(n));
    } else {
        lemma_decimal_digits(n / 10);
        lemma_digit_char_value(n % 10);
        lemma_digits_value_push(decimal_digits(n / 10), digit_char(n % 10));
        vstd::arithmetic::div_mod::lemma_fundamental_div_mod(n as int, 10);
        let t = decimal_digits(n / 10);
        assert(forall|i: int|
            0 <= i < t.push(digit_char(n % 10)).len() ==> t.push(digit_char(n % 10))[i] == if i
                < t.len() {
                t[i]
            } else {
                digit_char(n % 10)
            });
    }
}

/// The result of reading a digit sequence at `start`: the position one past
/// the consumed run and the value, or the error the grammar gives.
pub open spec fn spec_parse_digits(s: Seq<char>, start: int) -> Result<(int, u32), ProgramError>
    recommends
        0 <= start <= s.len(),
{
    if start >= s.len() || !is_digit(s[start]) {
        Err(ProgramError::NoMatch)
    } else {
        let end = scan_end(s, start, digit_run_pred());
        let v = digits_value(strip_underscores(s.subrange(start, end)));
        if v > u32::MAX {
            Err(ProgramError::Overflow)
        } else {
            Ok((end, v as u32))
        }
    }
}

/// Reads a digit sequence starting at character position `start`: one or
/// more digits, each optionally followed by underscores, stripped and read
/// as a decimal 32-bit unsigned number.
pub fn parse_digit_sequence(s: &str, start: usize) -> (r: Result<(usize, u32), ProgramError>)
    requires
        start <= s@.len(),
    ensures
        (match r {
            Ok((end, v)) => spec_parse_digits(s@, start as int) == Ok::<(int, u32), ProgramError>(
                (end as int, v),
            ) && start < end <= s@.len(),
            Err(e) => spec_parse_digits(s@, start as int) == Err::<(int, u32), ProgramError>(e),
        }),
{
    let ghost pred = digit_run_pred();
    let n: usize = s.unicode_len();
    if start >= n {
        return Err(ProgramError::NoMatch);
    }
    let c0 = s.get_char(start);
    if !(c0 >= '0' && c0 <= '9') {
        return Err(ProgramError::NoMatch);
    }
    let mut i: usize = start;
    let mut acc: u32 = 0;
    loop
        invariant
            start <= i <= n,
            n == s@.len(),
            start < s@.len(),
            is_digit(s@[start as int]),
            forall|k: int| start <= k < i ==> is_digit_or_underscore(s@[k]),
            acc as nat == digits_value(strip_underscores(s@.subrange(start as int, i as int))),
        ensures
            start <= i <= n,
            forall|k: int| start <= k < i ==> is_digit_or_underscore(s@[k]),
            i == n || !is_digit_or_underscore(s@[i as int]),
            acc as nat == digits_value(strip_underscores(s@.subrange(start as int, i as int))),
        decreases n - i,
    {
        if i >= n {
            break ;
        }
        let c = s.get_char(i);
        let is_d = c >= '0' && c <= '9';
        if !(is_d || c == '_') {
            break ;
        }
        let ghost before = s@.subrange(start as int, i as int);
        proof {
            assert(s@.subrange(start as int, i as int + 1) =~= before.push(s@[i as int]));
            lemma_strip_push(before, s@[i as int]);
        }
        if is_d {
            let d: u32 = (c as u32) - 48;
            proof {
                lemma_digits_value_push(strip_underscores(before), c);
            }
            if acc > (0xFFFF_FFFFu32 - d) / 10 {
                proof {
                    vstd::arithmetic::div_mod::lemma_fundamental_div_mod(
                        (0xFFFF_FFFFu32 - d) as int,
                        10,
                    );
                    lemma_scan_end_bounds(s@, start as int, digit_run_pred());
                    let end = scan_end(s@, start as int, digit_run_pred());
                    assert forall|k: int| start <= k <= i implies (digit_run_pred())(s@[k]) by {
                        assert(k == i || is_digit_or_underscore(s@[k]));
                    }
                    if end <= i {
                        assert(!(digit_run_pred())(s@[end]));
                        assert(false);
                    }
                    assert(i + 1 <= end);
                    let upto = s@.subrange(start as int, i as int + 1);
                    assert(strip_underscores(upto) == strip_underscores(
                        s@.subrange(start as int, i as int),
                    ).push(c));
                    assert(digits_value(strip_underscores(upto)) == acc * 10 + digit_value(c));
                    assert(acc * 10 + digit_value(c) > u32::MAX);
                    assert(s@.subrange(start as int, end) =~= upto + s@.subrange(
                        i as int + 1,
                        end,
                    ));
                    lemma_strip_append(upto, s@.subrange(i as int + 1, end));
                    lemma_digits_value_append_grows(
                        strip_underscores(upto),
                        strip_underscores(s@.subrange(i as int + 1, end)),
                    );
                }
                return Err(ProgramError::Overflow);
            }
            acc = acc * 10 + d;
        }
        i = i + 1;
    }
    proof {
        lemma_scan_end_from_witness(s@, start as int, i as int, digit_run_pred());
        assert forall|k: int| start <= k < i implies (digit_run_pred())(s@[k]) by {
            assert(is_digit_or_underscore(s@[k]));
        }
    }
    Ok((i, acc))
}

/// The one-character string for a digit value.
pub fn digit_str(d: u8) -> (r: &'static str)
    requires
        d < 10,
    ensures
        r@ == seq![digit_char(d as nat)],
{
    proof {
        reveal_strlit("0");
        reveal_strlit("1");
        reveal_strlit("2");
        reveal_strlit("3");
        reveal_strlit("4");
        reveal_strlit("5");
        reveal_strlit("6");
        reveal_strlit("7");
        reveal_strlit("8");
        reveal_strlit("9");
    }
    match d {
        0 => "0",
        1 => "1",
        2 => "2",
        3 => "3",
        4 => "4",
        5 => "5",
        6 => "6",
        7 => "7",
        8 => "8",
        _ => "9",
    }
}

/// Renders a number as its canonical decimal string.
pub fn decimal_string(x: u32) -> (r: String)
    ensures
        r@ == decimal_digits(x as nat),
{
    let mut digits_rev: Vec<u8> = Vec::new();
    let ghost mut suffix: Seq<char> = Seq::empty();
    let mut v: u32 = x;
    proof {
        assert(decimal_digits(x as nat) =~= decimal_digits(v as nat) + suffix);
    }
    while v >= 10
        invariant
            decimal_digits(x as nat) == decimal_digits(v as nat) + suffix,
            suffix.len() == digits_rev@.len(),
            forall|k: int|
                0 <= k < digits_rev@.len() ==> digits_rev@[k] < 10 && suffix[
                    suffix.len() - 1 - k
                ] == digit_char(digits_rev@[k] as nat),
        decreases v,
    {
        let d: u32 = v % 10;
        digits_rev.push(d as u8);
        v = v / 10;
        proof {
            let ghost old_suffix = suffix;
            suffix = seq![digit_char(d as nat)] + suffix;
            assert(decimal_digits((10 * v + d) as nat) == decimal_digits(v as nat).push(
                digit_char(d as nat),
            ));
            assert(decimal_digits(v as nat).push(digit_char(d as nat)) + old_suffix
                =~= decimal_digits(v as nat) + suffix);
        }
    }
    digits_rev.push(v as u8);
    proof {
        let ghost old_suffix = suffix;
        suffix = seq![digit_char(v as nat)] + suffix;
        assert(decimal_digits(v as nat) == seq![digit_char(v as nat)]);
        assert(decimal_digits(x as nat) =~= suffix);
    }
    let mut out = String::new();
    let len: usize = digits_rev.len();
    let mut j: usize = len;
    while j > 0
        invariant
            j <= len,
            len == digits_rev@.len(),
            suffix.len() == len,
            forall|k: int|
                0 <= k < len ==> digits_rev@[k] < 10 && suffix[len - 1 - k] == digit_char(
                    digits_rev@[k] as nat,
                ),
            out@ == suffix.take(len - j),
        decreases j,
    {
        j = j - 1;
        let ds = digit_str(digits_rev[j]);
        out.append(ds);
        proof {
            assert(out@ =~= suffix.take(len - j));
        }
    }
    proof {
        assert(out@ =~= suffix);
    }
    out
}

} // verus!
