//! The list of size exponents to sweep, read from an optional configuration
//! string: comma-separated non-negative integers, each standing for an input
//! of two to that power bytes.

use crate::text::{
    blank, chars_of, is_blank, split_commas, split_on_commas, string_of, trim, trimmed, views_of,
};
use vstd::prelude::*;
use vstd::string::StringExecFns;

verus! {

/// The exponent used when no list is configured: one mebibyte of input.
pub const DEFAULT_EXPONENT: usize = 20;

/// Why a token is not a size exponent.
#[derive(Clone, Copy, Debug, PartialEq, Eq, Structural)]
pub enum ParseFault {
    /// The token has no characters.
    Empty,
    /// The token is a lone sign, or holds something other than decimal digits
    /// after an optional leading `+`.
    InvalidDigit,
    /// The token is a decimal number too large for `usize`.
    Overflow,
}

/// The first token of a configured list that is not a size exponent.
#[derive(Clone, Debug, PartialEq, Eq)]
pub struct SizeError {
    /// Position of the token among the comma-separated tokens, from zero.
    pub index: usize,
    /// The token, without surrounding whitespace.
    pub token: String,
    /// What is wrong with it.
    pub fault: ParseFault,
}

impl SizeError {
    /// A one-line report that quotes the offending token.
    pub fn message(&self) -> (m: String)
        ensures
            m@ == "invalid size exponent: \""@ + self.token@ + "\""@,
    {
        let mut m: String = "invalid size exponent: \"".to_owned();
        m.append(self.token.as_str());
        m.append("\"");
        m
    }
}

/// Whether `c` is one of the ten decimal digits.
pub open spec fn is_digit(c: char) -> bool {
    0x30 <= c as u32 <= 0x39
}

/// The number that the decimal digit `c` writes.
pub open spec fn digit_value(c: char) -> nat {
    (c as u32 - 0x30) as nat
}

/// Whether `s` holds nothing but decimal digits.
pub open spec fn all_digits(s: Seq<char>) -> bool {
    forall|i: int| 0 <= i < s.len() ==> is_digit(#[trigger] s[i])
}

/// The number that the decimal digits `s` write, most significant first.
pub open spec fn digits_value(s: Seq<char>) -> nat
    decreases s.len(),
{
    if s.len() == 0 {
        0
    } else {
        digits_value(s.drop_last()) * 10 + digit_value(s.last())
    }
}

/// `tok` without one leading `+`, if it has one.
pub open spec fn unsigned_part(tok: Seq<char>) -> Seq<char> {
    if tok.len() > 0 && tok[0] == '+' {
        tok.skip(1)
    } else {
        tok
    }
}

/// The exponent that `tok` writes: decimal digits after an optional `+`,
/// with a value that fits `usize`.
pub open spec fn parse_exponent(tok: Seq<char>) -> Result<usize, ParseFault> {
    let digits = unsigned_part(tok);
    if tok.len() == 0 {
        Err(ParseFault::Empty)
    } else if digits.len() == 0 || !all_digits(digits) {
        Err(ParseFault::InvalidDigit)
    } else if digits_value(digits) > usize::MAX {
        Err(ParseFault::Overflow)
    } else {
        Ok(digits_value(digits) as usize)
    }
}

/// A prefix of a digit string never writes a larger number than the whole.
proof fn lemma_prefix_value(s: Seq<char>, k: int)
    requires
        0 <= k <= s.len(),
    ensures
        digits_value(s.take(k)) <= digits_value(s),
    decreases s.len(),
{
    if k == s.len() {
        assert(s.take(k) =~= s);
    } else {
        assert(s.drop_last().take(k) =~= s.take(k));
        lemma_prefix_value(s.drop_last(), k);
    }
}

/// Reads one token as a size exponent.
pub fn parse_token(tok: &Vec<char>) -> (r: Result<usize, ParseFault>)
    ensures
        r == parse_exponent(tok@),
{
    let n: usize = tok.len();
    if n == 0 {
        return Err(ParseFault::Empty);
    }
    let start: usize = if tok[0] == '+' { 1 } else { 0 };
    let ghost digits = unsigned_part(tok@);
    assert(digits =~= tok@.skip(start as int));
    if start == n {
        return Err(ParseFault::InvalidDigit);
    }
    let mut i: usize = start;
    while i < n
        invariant
            n == tok@.len(),
            start <= i <= n,
            start < n,
            digits == unsigned_part(tok@),
            digits == tok@.skip(start as int),
            forall|j: int| 0 <= j < i - start ==> is_digit(#[trigger] digits[j]),
        decreases n - i,
    {
        let c: char = tok[i];
        let u: u32 = c as u32;
        if u < 0x30 || u > 0x39 {
            assert(!is_digit(digits[i - start]));
            return Err(ParseFault::InvalidDigit);
        }
        i += 1;
    }
    let mut value: usize = 0;
    i = start;
    assert(digits.take(0) =~= Seq::<char>::empty());
    while i < n
        invariant
            n == tok@.len(),
            start <= i <= n,
            start < n,
            digits == unsigned_part(tok@),
            digits == tok@.skip(start as int),
            all_digits(digits),
            value == digits_value(digits.take(i - start)),
        decreases n - i,
    {
        let ghost next = digits.take(i - start + 1);
        proof {
            assert(next.drop_last() =~= digits.take(i - start));
            assert(next.last() == tok@[i as int]);
            assert(is_digit(digits[i - start]));
            lemma_prefix_value(digits, i - start + 1);
        }
        let c: char = tok[i];
        let d: usize = (c as u32 - 0x30) as usize;
        assert(d == digit_value(next.last()));
        assert(digits_value(next) == value * 10 + d);
        if value > (usize::MAX - d) / 10 {
            return Err(ParseFault::Overflow);
        }
        value = value * 10 + d;
        i += 1;
    }
    assert(digits.take(n - start) =~= digits);
    Ok(value)
}

/// The `i`-th comma-separated token of `s`, without surrounding whitespace.
pub open spec fn token(s: Seq<char>, i: int) -> Seq<char> {
    trim(split_commas(s)[i])
}

/// Whether every token of `s` is a size exponent.
pub open spec fn well_formed(s: Seq<char>) -> bool {
    forall|i: int| 0 <= i < split_commas(s).len() ==> parse_exponent(#[trigger] token(s, i)) is Ok
}

/// The exponents that the tokens of a well-formed `s` write, in order.
pub open spec fn sizes_of(s: Seq<char>) -> Seq<usize> {
    Seq::new(split_commas(s).len(), |i: int| parse_exponent(token(s, i))->Ok_0)
}

/// Whether `e` reports the first token of `s` that is not a size exponent:
/// its position, its text and what is wrong with it.
pub open spec fn first_fault(s: Seq<char>, e: SizeError) -> bool {
    &&& 0 <= e.index < split_commas(s).len()
    &&& forall|j: int| 0 <= j < e.index ==> parse_exponent(#[trigger] token(s, j)) is Ok
    &&& e.token@ == token(s, e.index as int)
    &&& parse_exponent(token(s, e.index as int)) == Err::<usize, ParseFault>(e.fault)
}

/// Whether `r` is the outcome of reading `s` as a list of size exponents:
/// every exponent in order, or the first token that is none.
pub open spec fn reads_as(s: Seq<char>, r: Result<Vec<usize>, SizeError>) -> bool {
    match r {
        Ok(sizes) => well_formed(s) && sizes@ == sizes_of(s),
        Err(e) => first_fault(s, e),
    }
}

/// Reads `s` as a comma-separated list of size exponents. Whitespace around
/// a token is ignored. One bad token fails the whole list.
pub fn parse_size_list(s: &str) -> (r: Result<Vec<usize>, SizeError>)
    ensures
        reads_as(s@, r),
{
    let chars: Vec<char> = chars_of(s);
    let pieces: Vec<Vec<char>> = split_on_commas(&chars);
    let mut sizes: Vec<usize> = Vec::new();
    let mut i: usize = 0;
    while i < pieces.len()
        invariant
            i <= pieces.len(),
            views_of(pieces@) == split_commas(s@),
            sizes@.len() == i,
            forall|j: int|
                0 <= j < i ==> parse_exponent(#[trigger] token(s@, j)) == Ok::<usize, ParseFault>(
                    sizes@[j],
                ),
        decreases pieces.len() - i,
    {
        let tok: Vec<char> = trimmed(&pieces[i]);
        assert(views_of(pieces@)[i as int] == pieces@[i as int]@);
        assert(tok@ == token(s@, i as int));
        match parse_token(&tok) {
            Ok(size) => {
                sizes.push(size);
            },
            Err(fault) => {
                return Err(SizeError { index: i, token: string_of(&tok), fault });
            },
        }
        i += 1;
    }
    assert(sizes@ =~= sizes_of(s@));
    Ok(sizes)
}

/// The configured text, if there is one and it is not blank.
pub open spec fn configured(raw: Option<String>) -> Option<String> {
    match raw {
        Some(text) if !is_blank(text@) => raw,
        _ => None,
    }
}

/// The size list that `raw` stands for: the single default when nothing is
/// configured, the configured exponents when all of them are well formed,
/// and none otherwise.
pub open spec fn resolved(raw: Option<String>) -> Option<Seq<usize>> {
    match configured(raw) {
        None => Some(seq![DEFAULT_EXPONENT]),
        Some(text) => if well_formed(text@) {
            Some(sizes_of(text@))
        } else {
            None
        },
    }
}

/// Keeps a configuration value only if it says something: a value that is
/// absent, empty or all whitespace counts as not set. A value that is kept is
/// handed back unchanged, whitespace included.
pub fn action_input(raw: Option<String>) -> (r: Option<String>)
    ensures
        r == configured(raw),
{
    match raw {
        Some(text) => {
            let chars: Vec<char> = chars_of(text.as_str());
            if blank(&chars) {
                None
            } else {
                Some(text)
            }
        },
        None => None,
    }
}

/// The size exponents to sweep: the single default when nothing is
/// configured, else the configured list in the order written. A configured
/// list with a bad token gives no list, only the report of that token.
pub fn get_sizes(raw: Option<String>) -> (r: Result<Vec<usize>, SizeError>)
    ensures
        match resolved(raw) {
            Some(sizes) => r is Ok && r->Ok_0@ == sizes,
            None => r is Err && first_fault(configured(raw)->0@, r->Err_0),
        },
{
    match action_input(raw) {
        Some(text) => parse_size_list(text.as_str()),
        None => {
            let mut sizes: Vec<usize> = Vec::new();
            sizes.push(DEFAULT_EXPONENT);
            assert(sizes@ =~= seq![DEFAULT_EXPONENT]);
            Ok(sizes)
        },
    }
}

/// A value that is absent or blank resolves to the single default exponent.
pub proof fn lemma_unset_resolves_to_default(raw: Option<String>)
    requires
        raw is None || is_blank(raw->0@),
    ensures
        resolved(raw) == Some(seq![20usize]),
{
}

} // verus!
