use vstd::prelude::*;

use crate::hex::invalid_data;
use crate::meminfo::saturate;
use crate::numbers::{is_digit, is_space, leading_spaces, lemma_leading_step, parse_decimal, spec_parse};

verus! {

/// One swap area.
#[derive(Debug, Clone)]
pub struct Swap {
    /// The file or device, as the kernel names it.
    pub name: Vec<u8>,
    /// Bytes.
    pub size: u64,
    /// Bytes in use; never more than the size.
    pub used: u64,
    pub priority: i32,
}

/// The swap areas of the system.
#[derive(Debug, Clone)]
pub struct SwapData {
    pub swaps: Vec<Swap>,
}

/// How many bytes that are not whitespace `s` starts with.
pub open spec fn leading_word(s: Seq<u8>) -> nat
    decreases s.len(),
{
    if s.len() > 0 && !is_space(s[0]) {
        1 + leading_word(s.drop_first())
    } else {
        0
    }
}

/// The first word of `s` and what follows it.
pub open spec fn next_word(s: Seq<u8>) -> (Seq<u8>, Seq<u8>) {
    let t = s.subrange(leading_spaces(s) as int, s.len() as int);
    let w = leading_word(t);
    (t.subrange(0, w as int), t.subrange(w as int, t.len() as int))
}

/// The first `k` words of `s`; a word is empty where the line ran out.
pub open spec fn words(s: Seq<u8>, k: nat) -> Seq<Seq<u8>>
    decreases k,
{
    if k == 0 {
        Seq::empty()
    } else {
        seq![next_word(s).0] + words(next_word(s).1, (k - 1) as nat)
    }
}

pub open spec fn all_digits(s: Seq<u8>) -> bool {
    forall|i: int| 0 <= i < s.len() ==> is_digit(#[trigger] s[i])
}

/// What reading `s` as an unsigned integer of at most `limit` gives: an optional
/// `+`, then digits only.
pub open spec fn spec_unsigned(s: Seq<u8>, limit: nat) -> Option<nat> {
    let digits = if s.len() > 0 && s[0] == 43 { s.drop_first() } else { s };
    if all_digits(digits) {
        spec_parse(digits, limit)
    } else {
        None
    }
}

/// What reading `s` as a 32-bit signed integer gives: an optional sign, then
/// digits only.
pub open spec fn spec_i32(s: Seq<u8>) -> Option<int> {
    if s.len() > 0 && s[0] == 45 {
        match spec_unsigned_digits(s.drop_first(), 0x8000_0000) {
            Some(v) => Some(-v),
            None => None,
        }
    } else {
        match spec_unsigned(s, 0x7fff_ffff) {
            Some(v) => Some(v as int),
            None => None,
        }
    }
}

pub open spec fn spec_unsigned_digits(s: Seq<u8>, limit: nat) -> Option<nat> {
    if all_digits(s) {
        spec_parse(s, limit)
    } else {
        None
    }
}

/// A whole word read as a number of at most `limit`, digits only.
pub fn parse_digits_exact(data: &[u8], limit: u64) -> (r: Option<u64>)
    ensures
        r matches Some(v) ==> spec_unsigned_digits(data@, limit as nat) == Some(v as nat) && v <= limit,
        r is None ==> spec_unsigned_digits(data@, limit as nat) is None,
{
    parse_digits(data, limit)
}

fn parse_digits(data: &[u8], limit: u64) -> (r: Option<u64>)
    ensures
        r matches Some(v) ==> spec_unsigned_digits(data@, limit as nat) == Some(v as nat),
        r is None ==> spec_unsigned_digits(data@, limit as nat) is None,
{
    let mut i: usize = 0;
    while i < data.len()
        invariant
            i <= data@.len(),
            forall|j: int| 0 <= j < i ==> is_digit(#[trigger] data@[j]),
        decreases data@.len() - i,
    {
        if !(48 <= data[i] && data[i] <= 57) {
            return None;
        }
        i = i + 1;
    }
    parse_decimal(data, limit)
}

/// Reads a whole word as an unsigned 64-bit number: an optional `+`, then digits
/// only.
pub fn parse_from_bytes(data: &[u8]) -> (r: Result<u64, String>)
    ensures
        r matches Ok(v) ==> spec_unsigned(data@, u64::MAX as nat) == Some(v as nat),
        r is Err ==> spec_unsigned(data@, u64::MAX as nat) is None,
{
    let digits = if data.len() > 0 && data[0] == 43 {
        vstd::slice::slice_subrange(data, 1, data.len())
    } else {
        data
    };
    proof {
        if data@.len() > 0 && data@[0] == 43 {
            assert(digits@ =~= data@.drop_first());
        }
    }
    match parse_digits(digits, u64::MAX) {
        Some(v) => Ok(v),
        None => Err("invalid digit or number too large".to_owned()),
    }
}

/// Reads a whole word as a signed 32-bit number: an optional sign, then digits
/// only.
pub fn parse_i32_from_bytes(data: &[u8]) -> (r: Option<i32>)
    ensures
        r matches Some(v) ==> spec_i32(data@) == Some(v as int),
        r is None ==> spec_i32(data@) is None,
{
    if data.len() > 0 && data[0] == 45 {
        let digits = vstd::slice::slice_subrange(data, 1, data.len());
        proof {
            assert(digits@ =~= data@.drop_first());
        }
        match parse_digits(digits, 0x8000_0000) {
            Some(v) => Some((0 - v as i64) as i32),
            None => None,
        }
    } else {
        let digits = if data.len() > 0 && data[0] == 43 {
            vstd::slice::slice_subrange(data, 1, data.len())
        } else {
            data
        };
        proof {
            if data@.len() > 0 && data@[0] == 43 {
                assert(digits@ =~= data@.drop_first());
            }
        }
        match parse_digits(digits, 0x7fff_ffff) {
            Some(v) => Some(v as i32),
            None => None,
        }
    }
}

/// Splits the first word off `data`.
pub fn take_word(data: &[u8]) -> (r: (&[u8], &[u8]))
    ensures
        (r.0@, r.1@) == next_word(data@),
{
    let len = data.len();
    let mut start: usize = 0;
    proof {
        assert(data@.subrange(0, len as int) =~= data@);
    }
    while start < len && (data[start] == 32 || (9 <= data[start] && data[start] <= 13))
        invariant
            start <= len == data@.len(),
            leading_spaces(data@) == start + leading_spaces(data@.subrange(start as int, len as int)),
        decreases len - start,
    {
        proof {
            lemma_leading_step(data@, start as int);
        }
        start = start + 1;
    }
    let t = vstd::slice::slice_subrange(data, start, len);
    let mut end: usize = 0;
    proof {
        assert(t@.subrange(0, t@.len() as int) =~= t@);
    }
    while end < t.len() && !(t[end] == 32 || (9 <= t[end] && t[end] <= 13))
        invariant
            end <= t@.len(),
            leading_word(t@) == end + leading_word(t@.subrange(end as int, t@.len() as int)),
        decreases t@.len() - end,
    {
        proof {
            lemma_leading_step(t@, end as int);
        }
        end = end + 1;
    }
    (vstd::slice::slice_subrange(t, 0, end), vstd::slice::slice_subrange(t, end, t.len()))
}

/// What a line of the kernel's swap table gives: name, type, size and used in KiB,
/// priority; `None` where a word is missing or a number does not parse.
pub open spec fn spec_swap(line: Seq<u8>) -> Option<(Seq<u8>, u64, u64, int)> {
    let w = words(line, 5);
    if w[0].len() == 0 || w[1].len() == 0 || w[2].len() == 0 || w[3].len() == 0 || w[4].len() == 0 {
        None
    } else {
        match (spec_unsigned(w[2], u64::MAX as nat), spec_unsigned(w[3], u64::MAX as nat), spec_i32(w[4])) {
            (Some(size), Some(used), Some(priority)) => {
                let used = if used <= size { used } else { size };
                Some((w[0], saturate(size * 1024int), saturate(used * 1024int), priority))
            },
            _ => None,
        }
    }
}

impl Swap {
    /// Reads one line of the kernel's swap table; an `InvalidData` error where a
    /// word is missing or a number does not parse. Sizes turn from KiB into bytes,
    /// saturating, and the used size is at most the size.
    pub fn from_line(line: &[u8]) -> (r: Result<Swap, std::io::Error>)
        ensures
            match spec_swap(line@) {
                Some((name, size, used, priority)) => r matches Ok(s) && s.name@ == name && s.size == size
                    && s.used == used && s.priority == priority,
                None => r is Err,
            },
    {
        let (name, rest) = take_word(line);
        let (kind, rest) = take_word(rest);
        let (size, rest) = take_word(rest);
        let (used, rest) = take_word(rest);
        let (priority, _) = take_word(rest);
        proof {
            reveal_with_fuel(words, 6);
            let w = words(line@, 5);
            assert(w[0] == name@);
            assert(w[1] == kind@);
            assert(w[2] == size@);
            assert(w[3] == used@);
            assert(w[4] == priority@);
        }
        if name.len() == 0 || kind.len() == 0 || size.len() == 0 || used.len() == 0 || priority.len() == 0 {
            return Err(invalid_data("Failed to parse line of the swap table"));
        }
        let size = match parse_from_bytes(size) {
            Ok(v) => v,
            Err(_) => {
                return Err(invalid_data("Failed to parse the size of a swap area"));
            },
        };
        let used = match parse_from_bytes(used) {
            Ok(v) => v,
            Err(_) => {
                return Err(invalid_data("Failed to parse the used size of a swap area"));
            },
        };
        let priority = match parse_i32_from_bytes(priority) {
            Some(v) => v,
            None => {
                return Err(invalid_data("Failed to parse the priority of a swap area"));
            },
        };
        let used = if used <= size { used } else { size };
        let size_bytes = match size.checked_mul(1024) {
            Some(b) => b,
            None => u64::MAX,
        };
        let used_bytes = match used.checked_mul(1024) {
            Some(b) => b,
            None => u64::MAX,
        };
        Ok(Swap { name: vstd::slice::slice_to_vec(name), size: size_bytes, used: used_bytes, priority })
    }
}

} // verus!
