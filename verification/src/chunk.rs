//! The cases of a chunked benchmark: one per size exponent, each with the
//! label it is reported under and the number of input bytes it is run on.

use crate::sizes::{
    all_digits, configured, digit_value, digits_value, first_fault, get_sizes, is_digit,
    parse_exponent, resolved, unsigned_part, ParseFault, SizeError,
};
use crate::text::push_char;
use vstd::arithmetic::power2::pow2;
use vstd::bits::{lemma_usize_pow2_no_overflow, lemma_usize_shl_is_mul};
use vstd::prelude::*;
use vstd::string::StringExecFns;

verus! {

/// One benchmark case of a sweep over input sizes.
#[derive(Clone, Debug, PartialEq, Eq)]
pub struct ChunkCase {
    /// The name the case is reported under.
    pub label: String,
    /// The size exponent of the case.
    pub exponent: usize,
    /// The input length in bytes, two to the power `exponent`.
    pub len: usize,
}

/// The character that writes the decimal digit `d`.
pub open spec fn digit_char(d: nat) -> char
    recommends
        d < 10,
{
    ((0x30 + d) as u8) as char
}

/// The decimal digits of `n`, most significant first, without leading zeros.
pub open spec fn decimal(n: nat) -> Seq<char>
    decreases n,
{
    if n < 10 {
        seq![digit_char(n)]
    } else {
        decimal(n / 10).push(digit_char(n % 10))
    }
}

/// The label of the case of benchmark `name` at size exponent `exponent`.
pub open spec fn label_of(name: Seq<char>, exponent: nat) -> Seq<char> {
    name + " (1 << "@ + decimal(exponent) + ")"@
}

/// Whether two to the power `exponent` fits the machine's `usize`.
pub open spec fn fits(exponent: usize) -> bool {
    exponent < usize::BITS
}

/// Whether every exponent of `sizes` fits.
pub open spec fn all_fit(sizes: Seq<usize>) -> bool {
    forall|i: int| 0 <= i < sizes.len() ==> fits(#[trigger] sizes[i])
}

/// Whether `case` is the case of benchmark `name` at `exponent`.
pub open spec fn is_case(case: ChunkCase, name: Seq<char>, exponent: usize) -> bool {
    &&& case.label@ == label_of(name, exponent as nat)
    &&& case.exponent == exponent
    &&& case.len == pow2(exponent as nat)
}

/// Whether `cases` holds one case per exponent of `sizes`, in the same order.
pub open spec fn cases_of(cases: Seq<ChunkCase>, name: Seq<char>, sizes: Seq<usize>) -> bool {
    &&& cases.len() == sizes.len()
    &&& forall|i: int| 0 <= i < sizes.len() ==> is_case(#[trigger] cases[i], name, sizes[i])
}

/// Appends the decimal digits of `n` to `out`.
fn push_decimal(out: &mut String, n: usize)
    ensures
        final(out)@ == old(out)@ + decimal(n as nat),
    decreases n,
{
    if n >= 10 {
        push_decimal(out, n / 10);
    }
    let d: u8 = (n % 10) as u8;
    let ghost before = out@;
    push_char(out, (0x30u8 + d) as char);
    proof {
        if n >= 10 {
            assert(out@ =~= old(out)@ + decimal(n as nat));
        } else {
            assert(before.push(digit_char(n as nat)) =~= before + decimal(n as nat));
        }
    }
}

/// The label of the case of benchmark `name` at size exponent `exponent`:
/// the name, then the shift that gives the input length, in parentheses.
pub fn case_label(name: &str, exponent: usize) -> (label: String)
    ensures
        label@ == label_of(name@, exponent as nat),
{
    let mut label: String = name.to_owned();
    label.append(" (1 << ");
    push_decimal(&mut label, exponent);
    label.append(")");
    label
}

/// The input length of the case at `exponent`, in bytes.
pub fn chunk_len(exponent: usize) -> (len: usize)
    requires
        fits(exponent),
    ensures
        len == pow2(exponent as nat),
{
    proof {
        lemma_usize_pow2_no_overflow(exponent as nat);
        lemma_usize_shl_is_mul(1usize, exponent);
    }
    1usize << exponent
}

/// The cases of benchmark `name` over `sizes`: one per exponent, in order.
pub fn chunk_cases(name: &str, sizes: &Vec<usize>) -> (cases: Vec<ChunkCase>)
    requires
        all_fit(sizes@),
    ensures
        cases_of(cases@, name@, sizes@),
{
    let mut cases: Vec<ChunkCase> = Vec::new();
    let mut i: usize = 0;
    while i < sizes.len()
        invariant
            i <= sizes.len(),
            all_fit(sizes@),
            cases_of(cases@, name@, sizes@.take(i as int)),
        decreases sizes.len() - i,
    {
        let exponent: usize = sizes[i];
        let case = ChunkCase { label: case_label(name, exponent), exponent, len: chunk_len(exponent) };
        cases.push(case);
        i += 1;
    }
    proof {
        assert(sizes@.take(i as int) =~= sizes@);
    }
    cases
}

/// Why a sweep could not be planned.
#[derive(Clone, Debug, PartialEq, Eq)]
pub enum PlanError {
    /// The configured size list holds a token that is not a size exponent.
    Invalid(SizeError),
    /// The exponent at `index` of the size list asks for more bytes than a
    /// `usize` can count.
    TooLarge { index: usize, exponent: usize },
}

/// Whether `index` is the first position of `sizes` whose exponent does not
/// fit.
pub open spec fn first_unfit(sizes: Seq<usize>, index: int) -> bool {
    &&& 0 <= index < sizes.len()
    &&& !fits(sizes[index])
    &&& forall|j: int| 0 <= j < index ==> fits(#[trigger] sizes[j])
}

/// The position of the first exponent of `sizes` that does not fit, if any.
pub fn find_unfit(sizes: &Vec<usize>) -> (r: Option<usize>)
    ensures
        match r {
            Some(index) => first_unfit(sizes@, index as int),
            None => all_fit(sizes@),
        },
{
    let mut i: usize = 0;
    while i < sizes.len()
        invariant
            i <= sizes.len(),
            forall|j: int| 0 <= j < i ==> fits(#[trigger] sizes@[j]),
        decreases sizes.len() - i,
    {
        if sizes[i] >= usize::BITS as usize {
            return Some(i);
        }
        i += 1;
    }
    None
}

/// Plans the sweep of benchmark `name` from the configuration value `raw`:
/// resolves the size list once, then gives one case per exponent, in list
/// order. Nothing is planned when the list is malformed or an exponent does
/// not fit; the error names the first offender.
pub fn plan(name: &str, raw: Option<String>) -> (r: Result<Vec<ChunkCase>, PlanError>)
    ensures
        match resolved(raw) {
            None => r matches Err(PlanError::Invalid(e)) && first_fault(configured(raw)->0@, e),
            Some(sizes) => if all_fit(sizes) {
                r matches Ok(cases) && cases_of(cases@, name@, sizes)
            } else {
                r matches Err(PlanError::TooLarge { index, exponent }) && first_unfit(
                    sizes,
                    index as int,
                ) && exponent == sizes[index as int]
            },
        },
{
    match get_sizes(raw) {
        Err(e) => Err(PlanError::Invalid(e)),
        Ok(sizes) => match find_unfit(&sizes) {
            Some(index) => Err(PlanError::TooLarge { index, exponent: sizes[index] }),
            None => Ok(chunk_cases(name, &sizes)),
        },
    }
}

/// The decimal digits of a number are digits, and write that number.
pub proof fn lemma_decimal_value(n: nat)
    ensures
        decimal(n).len() > 0,
        all_digits(decimal(n)),
        digits_value(decimal(n)) == n,
    decreases n,
{
    let d = digit_char(n % 10);
    assert(is_digit(d) && digit_value(d) == n % 10);
    if n < 10 {
        assert(decimal(n).drop_last() =~= Seq::<char>::empty());
        assert(digits_value(decimal(n).drop_last()) == 0);
    } else {
        lemma_decimal_value(n / 10);
        assert(decimal(n).drop_last() =~= decimal(n / 10));
    }
}

/// The exponent written in a label reads back as itself: the decimal digits
/// of a `usize` are a token that parses to that `usize`.
pub proof fn lemma_decimal_parses(exponent: usize)
    ensures
        parse_exponent(decimal(exponent as nat)) == Ok::<usize, ParseFault>(exponent),
{
    lemma_decimal_value(exponent as nat);
    let text = decimal(exponent as nat);
    assert(is_digit(text[0]));
    assert(unsigned_part(text) == text);
}

} // verus!
