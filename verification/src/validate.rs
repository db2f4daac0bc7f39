use vstd::prelude::*;

use vstd::string::StrSliceExecFns;

use crate::stats::lemma_filter_take_step;

verus! {

// ---------------------------------------------------------------------------
// Requirements and verdicts
// ---------------------------------------------------------------------------

/// The closed set of character-class requirements a text can be validated
/// against.
#[derive(PartialEq, Eq, Debug, Clone, Copy)]
pub enum InputType {
    Lowercase,
    Uppercase,
    /// Lowercase or uppercase.
    Letters,
    /// The whole text must parse as a signed 32-bit integer.
    Integer,
}

/// A failed validation.  A failure over a character class carries every
/// offending character, in input order and not deduplicated; a failed
/// integer parse carries the characters outside `0`–`9` as a diagnostic,
/// which deliberately approximates the authoritative parse check.
#[derive(PartialEq, Eq, Debug)]
pub enum ValidationError {
    EmptyInput,
    CharacterClassViolation { offenders: Vec<char> },
    ParseFailure { offenders: Vec<char> },
}

// ---------------------------------------------------------------------------
// Character classes
// ---------------------------------------------------------------------------

/// Whether `c` belongs to the character class of `req`.  For the integer
/// requirement this is the digit class used for offender reporting, not
/// the authoritative parse check.
pub open spec fn char_in_class(c: char, req: InputType) -> bool {
    match req {
        InputType::Lowercase => 'a' <= c && c <= 'z',
        InputType::Uppercase => 'A' <= c && c <= 'Z',
        InputType::Letters => ('a' <= c && c <= 'z') || ('A' <= c && c <= 'Z'),
        InputType::Integer => '0' <= c && c <= '9',
    }
}

/// Every character of the text belongs to the class.
pub open spec fn all_in_class(s: Seq<char>, req: InputType) -> bool {
    forall|i: int| 0 <= i < s.len() ==> char_in_class(#[trigger] s[i], req)
}

/// The characters of the text outside the class, in input order, kept as
/// often as they appear.
pub open spec fn class_offenders(s: Seq<char>, req: InputType) -> Seq<char> {
    s.filter(|c: char| !char_in_class(c, req))
}

// ---------------------------------------------------------------------------
// The signed 32-bit integer grammar
// ---------------------------------------------------------------------------

/// Whether `c` is an ASCII decimal digit.
pub open spec fn is_digit_char(c: char) -> bool {
    '0' <= c && c <= '9'
}

/// The numeric value of a digit character.
pub open spec fn digit_val(c: char) -> int {
    c as int - '0' as int
}

/// The text begins with an explicit sign.
pub open spec fn has_sign(s: Seq<char>) -> bool {
    s.len() > 0 && (s[0] == '+' || s[0] == '-')
}

/// The digits of the text, after any sign.
pub open spec fn int_body(s: Seq<char>) -> Seq<char> {
    if has_sign(s) {
        s.skip(1)
    } else {
        s
    }
}

/// Every character is a digit.
pub open spec fn all_digits(s: Seq<char>) -> bool {
    forall|i: int| 0 <= i < s.len() ==> is_digit_char(#[trigger] s[i])
}

/// The value of a digit string read in base ten.
pub open spec fn digits_val(s: Seq<char>) -> int
    decreases s.len(),
{
    if s.len() == 0 {
        0
    } else {
        digits_val(s.drop_last()) * 10 + digit_val(s.last())
    }
}

/// The signed value the text denotes.
pub open spec fn i32_text_value(s: Seq<char>) -> int {
    if s.len() > 0 && s[0] == '-' {
        -digits_val(int_body(s))
    } else {
        digits_val(int_body(s))
    }
}

/// The grammar `i32` parsing accepts: an optional sign, then one or more
/// ASCII digits, denoting a value within the signed 32-bit range.
pub open spec fn parses_as_i32(s: Seq<char>) -> bool {
    &&& int_body(s).len() > 0
    &&& all_digits(int_body(s))
    &&& -0x8000_0000 <= i32_text_value(s) <= 0x7FFF_FFFF
}

proof fn lemma_digits_take_step(s: Seq<char>, k: int)
    requires
        0 <= k < s.len(),
    ensures
        digits_val(s.take(k + 1)) == digits_val(s.take(k)) * 10 + digit_val(s[k]),
{
    assert(s.take(k + 1).drop_last() =~= s.take(k));
    assert(s.take(k + 1).last() == s[k]);
}

proof fn lemma_digits_nonneg(s: Seq<char>)
    requires
        all_digits(s),
    ensures
        digits_val(s) >= 0,
    decreases s.len(),
{
    if s.len() > 0 {
        let d = s.drop_last();
        assert(forall|i: int| 0 <= i < d.len() ==> d[i] == s[i]);
        lemma_digits_nonneg(d);
        assert(is_digit_char(s[s.len() - 1]));
    }
}

proof fn lemma_digits_prefix_le(s: Seq<char>, k: int)
    requires
        all_digits(s),
        0 <= k <= s.len(),
    ensures
        digits_val(s.take(k)) <= digits_val(s),
    decreases s.len() - k,
{
    if k == s.len() {
        assert(s.take(k) =~= s);
    } else {
        lemma_digits_take_step(s, k);
        assert(forall|i: int| 0 <= i < k ==> s.take(k)[i] == s[i]);
        assert(all_digits(s.take(k)));
        lemma_digits_nonneg(s.take(k));
        assert(is_digit_char(s[k]));
        lemma_digits_prefix_le(s, k + 1);
    }
}

/// Parses the characters as a signed 32-bit integer: an optional sign,
/// then one or more ASCII digits, with the value within range — exactly
/// the inputs `parses_as_i32` admits.  This check is authoritative for the
/// integer validation requirement.
pub fn parse_i32(text: &Vec<char>) -> (r: Option<i32>)
    ensures
        r is Some <==> parses_as_i32(text@),
        r is Some ==> r->0 as int == i32_text_value(text@),
{
    if text.len() == 0 {
        return None;
    }
    let first = text[0];
    let start: usize = if first == '+' || first == '-' {
        1
    } else {
        0
    };
    let ghost body = int_body(text@);
    proof {
        assert(body =~= text@.skip(start as int));
    }
    if start == text.len() {
        return None;
    }
    let mut acc: u64 = 0;
    let mut idx: usize = start;
    while idx < text.len()
        invariant
            start <= idx <= text@.len(),
            start <= 1,
            body == int_body(text@),
            body =~= text@.skip(start as int),
            all_digits(body.take(idx - start)),
            acc as int == digits_val(body.take(idx - start)),
            acc <= 0x8000_0000,
        decreases text@.len() - idx,
    {
        let c = text[idx];
        proof {
            assert(body[idx - start] == text@[idx as int]);
        }
        if !(c >= '0' && c <= '9') {
            return None;
        }
        let d: u64 = c as u64 - 48;
        proof {
            lemma_digits_take_step(body, idx - start);
            assert(body.take(idx + 1 - start) =~= body.take(idx - start).push(body[idx - start]));
        }
        acc = acc * 10 + d;
        if acc > 0x8000_0000 {
            proof {
                if parses_as_i32(text@) {
                    lemma_digits_prefix_le(body, idx + 1 - start);
                }
            }
            return None;
        }
        idx = idx + 1;
    }
    proof {
        assert(body.take(body.len() as int) =~= body);
    }
    let neg = first == '-';
    if neg {
        if acc == 0x8000_0000 {
            Some(i32::MIN)
        } else {
            Some(-(acc as i32))
        }
    } else {
        if acc > 0x7FFF_FFFF {
            None
        } else {
            Some(acc as i32)
        }
    }
}

// ---------------------------------------------------------------------------
// Validation
// ---------------------------------------------------------------------------

/// What a validation verdict must say of the text it judged: success
/// exactly when the non-empty text passes its requirement, the empty-input
/// error exactly on the empty text, and otherwise the error of the
/// requirement's kind carrying every offending character.
pub open spec fn validate_post(s: Seq<char>, req: InputType, r: Result<(), ValidationError>) -> bool {
    match r {
        Ok(()) => s.len() > 0 && match req {
            InputType::Integer => parses_as_i32(s),
            _ => all_in_class(s, req),
        },
        Err(e) => match e {
            ValidationError::EmptyInput => s.len() == 0,
            ValidationError::CharacterClassViolation { offenders } => {
                &&& s.len() > 0
                &&& !(req is Integer)
                &&& !all_in_class(s, req)
                &&& offenders@ == class_offenders(s, req)
            },
            ValidationError::ParseFailure { offenders } => {
                &&& s.len() > 0
                &&& req is Integer
                &&& !parses_as_i32(s)
                &&& offenders@ == class_offenders(s, InputType::Integer)
            },
        },
    }
}

/// Whether `c` belongs to the character class of `req`.
fn char_in_class_exec(c: char, req: InputType) -> (b: bool)
    ensures
        b == char_in_class(c, req),
{
    match req {
        InputType::Lowercase => c >= 'a' && c <= 'z',
        InputType::Uppercase => c >= 'A' && c <= 'Z',
        InputType::Letters => (c >= 'a' && c <= 'z') || (c >= 'A' && c <= 'Z'),
        InputType::Integer => c >= '0' && c <= '9',
    }
}

fn all_in_class_exec(text: &Vec<char>, req: InputType) -> (b: bool)
    ensures
        b == all_in_class(text@, req),
{
    let mut i: usize = 0;
    while i < text.len()
        invariant
            0 <= i <= text@.len(),
            forall|j: int| 0 <= j < i ==> char_in_class(#[trigger] text@[j], req),
        decreases text@.len() - i,
    {
        if !char_in_class_exec(text[i], req) {
            return false;
        }
        i = i + 1;
    }
    true
}

fn collect_offenders(text: &Vec<char>, req: InputType) -> (r: Vec<char>)
    ensures
        r@ == class_offenders(text@, req),
{
    let ghost pred = |c: char| !char_in_class(c, req);
    let mut out: Vec<char> = Vec::new();
    let mut i: usize = 0;
    while i < text.len()
        invariant
            0 <= i <= text@.len(),
            out@ == text@.take(i as int).filter(pred),
            pred == (|c: char| !char_in_class(c, req)),
        decreases text@.len() - i,
    {
        proof {
            lemma_filter_take_step(text@, pred, i as int);
        }
        if !char_in_class_exec(text[i], req) {
            out.push(text[i]);
        }
        i = i + 1;
    }
    proof {
        assert(text@.take(text@.len() as int) =~= text@);
    }
    out
}

/// Validates a text, given as its characters, against a requirement.
pub fn validate_chars(text: &Vec<char>, requirement: InputType) -> (r: Result<
    (),
    ValidationError,
>)
    ensures
        validate_post(text@, requirement, r),
{
    if text.len() == 0 {
        return Err(ValidationError::EmptyInput);
    }
    match requirement {
        InputType::Integer => {
            if parse_i32(text).is_some() {
                Ok(())
            } else {
                Err(
                    ValidationError::ParseFailure {
                        offenders: collect_offenders(text, InputType::Integer),
                    },
                )
            }
        },
        _ => {
            if all_in_class_exec(text, requirement) {
                Ok(())
            } else {
                Err(
                    ValidationError::CharacterClassViolation {
                        offenders: collect_offenders(text, requirement),
                    },
                )
            }
        },
    }
}

/// The characters of a text, in order.
fn chars_of(text: &str) -> (r: Vec<char>)
    ensures
        r@ == text@,
{
    let n = text.unicode_len();
    let mut r: Vec<char> = Vec::new();
    let mut i: usize = 0;
    while i < n
        invariant
            n == text@.len(),
            0 <= i <= n,
            r@ =~= text@.take(i as int),
        decreases n - i,
    {
        r.push(text.get_char(i));
        i = i + 1;
    }
    proof {
        assert(text@.take(text@.len() as int) =~= text@);
    }
    r
}

/// Validates a text against a requirement: the empty text fails with the
/// empty-input error; a non-empty text fails with a character-class error
/// (or, for the integer requirement, a parse error) carrying every
/// offending character, and succeeds otherwise.
pub fn validate(text: &str, requirement: InputType) -> (r: Result<(), ValidationError>)
    ensures
        validate_post(text@, requirement, r),
{
    let chars = chars_of(text);
    validate_chars(&chars, requirement)
}

/// Validation of a text value held by a type with a character view.
pub trait ValidateInput {
    /// The characters the validator judges.
    spec fn text_view(&self) -> Seq<char>;

    /// Checks the text against the requirement, reporting every offending
    /// character on failure.
    fn h_validate_input(&self, input_requirements: InputType) -> (r: Result<(), ValidationError>)
        ensures
            validate_post(self.text_view(), input_requirements, r),
    ;
}

impl ValidateInput for String {
    open spec fn text_view(&self) -> Seq<char> {
        self@
    }

    fn h_validate_input(&self, input_requirements: InputType) -> (r: Result<(), ValidationError>) {
        validate(self.as_str(), input_requirements)
    }
}

} // verus!
