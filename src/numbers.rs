use vstd::prelude::*;

verus! {

pub open spec fn is_digit(b: u8) -> bool {
    48 <= b <= 57
}

/// ASCII whitespace: space, tab, line feed, vertical tab, form feed, carriage return.
pub open spec fn is_space(b: u8) -> bool {
    b == 32 || (9 <= b <= 13)
}

/// The value of a run of decimal digits.
pub open spec fn decimal(s: Seq<u8>) -> nat
    decreases s.len(),
{
    if s.len() == 0 {
        0
    } else {
        decimal(s.drop_last()) * 10 + (s.last() - 48) as nat
    }
}

/// How many decimal digits `s` starts with.
pub open spec fn leading_digits(s: Seq<u8>) -> nat
    decreases s.len(),
{
    if s.len() > 0 && is_digit(s[0]) {
        1 + leading_digits(s.drop_first())
    } else {
        0
    }
}

/// How many whitespace bytes `s` starts with.
pub open spec fn leading_spaces(s: Seq<u8>) -> nat
    decreases s.len(),
{
    if s.len() > 0 && is_space(s[0]) {
        1 + leading_spaces(s.drop_first())
    } else {
        0
    }
}

/// What a parse of the digits `s` into an integer of at most `limit` gives.
pub open spec fn spec_parse(s: Seq<u8>, limit: nat) -> Option<nat> {
    if s.len() > 0 && decimal(s) <= limit {
        Some(decimal(s))
    } else {
        None
    }
}

proof fn lemma_decimal_grows(s: Seq<u8>, i: int, j: int)
    requires
        0 <= i <= j <= s.len(),
    ensures
        decimal(s.subrange(0, i)) <= decimal(s.subrange(0, j)),
    decreases j - i,
{
    if i < j {
        lemma_decimal_grows(s, i, j - 1);
        assert(s.subrange(0, j).drop_last() =~= s.subrange(0, j - 1));
    }
}

pub(crate) proof fn lemma_leading_step(s: Seq<u8>, i: int)
    requires
        0 <= i < s.len(),
    ensures
        s.subrange(i, s.len() as int).drop_first() =~= s.subrange(i + 1, s.len() as int),
{
}

/// The length of the run of digits at the start of `data`.
pub fn count_digits(data: &[u8]) -> (r: usize)
    ensures
        r == leading_digits(data@),
        r <= data@.len(),
{
    let len = data.len();
    let mut i: usize = 0;
    proof {
        assert(data@.subrange(0, len as int) =~= data@);
    }
    while i < len && 48 <= data[i] && data[i] <= 57
        invariant
            len == data@.len(),
            i <= len,
            leading_digits(data@) == i + leading_digits(data@.subrange(i as int, len as int)),
        decreases len - i,
    {
        proof {
            lemma_leading_step(data@, i as int);
        }
        i = i + 1;
    }
    i
}

/// The length of the run of whitespace at the start of `data`.
pub fn count_spaces(data: &[u8]) -> (r: usize)
    ensures
        r == leading_spaces(data@),
        r <= data@.len(),
{
    let len = data.len();
    let mut i: usize = 0;
    proof {
        assert(data@.subrange(0, len as int) =~= data@);
    }
    while i < len && (data[i] == 32 || (9 <= data[i] && data[i] <= 13))
        invariant
            len == data@.len(),
            i <= len,
            leading_spaces(data@) == i + leading_spaces(data@.subrange(i as int, len as int)),
        decreases len - i,
    {
        proof {
            lemma_leading_step(data@, i as int);
        }
        i = i + 1;
    }
    i
}

/// Reads the digits `digits` as an integer of at most `limit`: `None` where there
/// are no digits or the value is larger.
pub fn parse_decimal(digits: &[u8], limit: u64) -> (r: Option<u64>)
    requires
        forall|i: int| 0 <= i < digits@.len() ==> is_digit(#[trigger] digits@[i]),
    ensures
        r matches Some(v) ==> spec_parse(digits@, limit as nat) == Some(v as nat),
        r is None ==> spec_parse(digits@, limit as nat) is None,
{
    let len = digits.len();
    if len == 0 {
        return None;
    }
    let mut value: u64 = 0;
    let mut i: usize = 0;
    while i < len
        invariant
            len == digits@.len(),
            i <= len,
            value == decimal(digits@.subrange(0, i as int)),
            value <= limit,
            forall|i: int| 0 <= i < digits@.len() ==> is_digit(#[trigger] digits@[i]),
        decreases len - i,
    {
        proof {
            assert(digits@.subrange(0, i + 1).drop_last() =~= digits@.subrange(0, i as int));
            lemma_decimal_grows(digits@, i + 1, len as int);
            assert(digits@.subrange(0, len as int) =~= digits@);
        }
        let digit = (digits[i] - 48) as u64;
        let next = match value.checked_mul(10) {
            Some(tens) => tens.checked_add(digit),
            None => None,
        };
        match next {
            Some(v) if v <= limit => {
                value = v;
            },
            _ => {
                return None;
            },
        }
        i = i + 1;
    }
    proof {
        assert(digits@.subrange(0, len as int) =~= digits@);
    }
    Some(value)
}


/// What the start of a line holds when a number is expected there.
pub enum FieldSpec {
    /// No digits follow the whitespace.
    NoNumber,
    /// The digits stand for a value above the limit.
    TooLarge,
    /// The value, and what follows its digits.
    Number(nat, Seq<u8>),
}

/// Reads the number that follows the whitespace at the start of `s`.
pub open spec fn spec_field(s: Seq<u8>, limit: nat) -> FieldSpec {
    let t = s.subrange(leading_spaces(s) as int, s.len() as int);
    let d = leading_digits(t);
    if d == 0 {
        FieldSpec::NoNumber
    } else {
        match spec_parse(t.subrange(0, d as int), limit) {
            Some(v) => FieldSpec::Number(v, t.subrange(d as int, t.len() as int)),
            None => FieldSpec::TooLarge,
        }
    }
}

pub(crate) proof fn lemma_leading_digits_are_digits(s: Seq<u8>)
    ensures
        leading_digits(s) <= s.len(),
        forall|i: int| 0 <= i < leading_digits(s) ==> is_digit(#[trigger] s[i]),
    decreases s.len(),
{
    if s.len() > 0 && is_digit(s[0]) {
        lemma_leading_digits_are_digits(s.drop_first());
        assert forall|i: int| 0 <= i < leading_digits(s) implies is_digit(#[trigger] s[i]) by {
            if i > 0 {
                assert(s[i] == s.drop_first()[i - 1]);
            }
        }
    }
}

/// Skips whitespace and reads the number after it, up to `limit`: `Ok(None)` where
/// no digit follows, `Err(())` where the value is above the limit, else the value
/// and the rest of `data`.
pub fn take_number(data: &[u8], limit: u64) -> (r: Result<Option<(u64, &[u8])>, ()>)
    ensures
        match spec_field(data@, limit as nat) {
            FieldSpec::NoNumber => r == Ok::<Option<(u64, &[u8])>, ()>(None),
            FieldSpec::TooLarge => r is Err,
            FieldSpec::Number(v, rest) => r matches Ok(Some((x, tail))) && x == v && tail@ == rest,
        },
{
    let spaces = count_spaces(data);
    let trimmed = vstd::slice::slice_subrange(data, spaces, data.len());
    let digits = count_digits(trimmed);
    if digits == 0 {
        return Ok(None);
    }
    let number = vstd::slice::slice_subrange(trimmed, 0, digits);
    proof {
        lemma_leading_digits_are_digits(trimmed@);
    }
    match parse_decimal(number, limit) {
        Some(v) => Ok(Some((v, vstd::slice::slice_subrange(trimmed, digits, trimmed.len())))),
        None => Err(()),
    }
}

} // verus!
