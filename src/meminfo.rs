use vstd::prelude::*;

use crate::hex::invalid_data;
use crate::numbers::{
    count_digits, is_space, leading_digits, lemma_leading_digits_are_digits, parse_decimal, spec_parse,
};
use crate::system::first_index_of;
use vstd::string::StringSliceAdditionalSpecFns;

verus! {

/// The memory figures of the system, in bytes.
#[derive(Debug, Clone, Copy, PartialEq, Eq, Structural)]
pub struct MemInfo {
    pub total: u64,
    pub available: u64,
    pub used: u64,
    pub free: u64,
    pub buffers: u64,
    pub cached: u64,
    pub shmem: u64,
    pub s_reclaimable: u64,
}

/// `n` clamped into the range of `u64`.
pub open spec fn saturate(n: int) -> u64 {
    if n < 0 {
        0
    } else if n > u64::MAX {
        u64::MAX
    } else {
        n as u64
    }
}

/// Reads the decimal number that `value` starts with, and gives it with the rest of
/// `value`; an `InvalidData` error where `value` does not start with a digit or the
/// number does not fit 64 bits.
pub fn parse_first_number(value: &[u8]) -> (r: Result<(u64, &[u8]), std::io::Error>)
    ensures
        ({
            let d = leading_digits(value@);
            match spec_parse(value@.subrange(0, d as int), u64::MAX as nat) {
                Some(v) => r matches Ok((n, rest)) && n == v && rest@ == value@.subrange(
                    d as int,
                    value@.len() as int,
                ),
                None => r is Err,
            }
        }),
{
    let len = count_digits(value);
    let digits = vstd::slice::slice_subrange(value, 0, len);
    proof {
        lemma_leading_digits_are_digits(value@);
    }
    match parse_decimal(digits, u64::MAX) {
        Some(n) => Ok((n, vstd::slice::slice_subrange(value, len, value.len()))),
        None => Err(invalid_data("Failed to parse number in input value")),
    }
}

/// `s` without whitespace at either end.
pub open spec fn trim(s: Seq<u8>) -> Seq<u8>
    decreases s.len(),
{
    if s.len() > 0 && is_space(s[0]) {
        trim(s.drop_first())
    } else if s.len() > 0 && is_space(s.last()) {
        trim(s.drop_last())
    } else {
        s
    }
}

/// Removes whitespace at both ends of `data`.
pub fn trim_ascii(data: &[u8]) -> (r: &[u8])
    ensures
        r@ == trim(data@),
{
    let mut start: usize = 0;
    let mut end: usize = data.len();
    proof {
        assert(data@.subrange(0, data@.len() as int) =~= data@);
    }
    while start < end && (data[start] == 32 || (9 <= data[start] && data[start] <= 13))
        invariant
            start <= end <= data@.len(),
            end == data@.len(),
            trim(data@) == trim(data@.subrange(start as int, end as int)),
        decreases end - start,
    {
        proof {
            assert(data@.subrange(start as int, end as int).drop_first() =~= data@.subrange(start + 1, end as int));
        }
        start = start + 1;
    }
    while start < end && (data[end - 1] == 32 || (9 <= data[end - 1] && data[end - 1] <= 13))
        invariant
            start <= end <= data@.len(),
            start < end ==> !is_space(data@[start as int]),
            trim(data@) == trim(data@.subrange(start as int, end as int)),
        decreases end - start,
    {
        proof {
            assert(data@.subrange(start as int, end as int).drop_last() =~= data@.subrange(start as int, end - 1));
        }
        end = end - 1;
    }
    proof {
        assert(start == 0 && end == data@.len() ==> data@.subrange(start as int, end as int) =~= data@);
    }
    vstd::slice::slice_subrange(data, start, end)
}

/// Splits a line `name: value` at its first colon and trims both parts; `None`
/// where the line holds no colon.
pub fn split_colon_line(line: &[u8]) -> (r: Option<(&[u8], &[u8])>)
    ensures
        match first_index_of(line@, 58) {
            Some(i) => r matches Some((name, value)) && name@ == trim(line@.subrange(0, i as int))
                && value@ == trim(line@.subrange(i as int + 1, line@.len() as int)),
            None => r is None,
        },
{
    let mut i: usize = 0;
    proof {
        assert(line@.subrange(0, line@.len() as int) =~= line@);
    }
    while i < line.len()
        invariant
            i <= line@.len(),
            forall|j: int| 0 <= j < i ==> line@[j] != 58,
            first_index_of(line@, 58) == match first_index_of(line@.subrange(i as int, line@.len() as int), 58) {
                Some(k) => Some((k + i) as nat),
                None => None::<nat>,
            },
        decreases line@.len() - i,
    {
        proof {
            assert(line@.subrange(i as int, line@.len() as int).drop_first() =~= line@.subrange(i + 1, line@.len() as int));
        }
        if line[i] == 58 {
            let name = trim_ascii(vstd::slice::slice_subrange(line, 0, i));
            let value = trim_ascii(vstd::slice::slice_subrange(line, i + 1, line.len()));
            return Some((name, value));
        }
        i = i + 1;
    }
    None
}

/// Whether the bytes of `name` are those of `expected`.
pub fn name_is(name: &[u8], expected: &str) -> (r: bool)
    ensures
        r == (name@ == expected.spec_bytes()),
{
    let bytes = expected.as_bytes();
    if name.len() != bytes.len() {
        return false;
    }
    let mut i: usize = 0;
    while i < name.len()
        invariant
            name@.len() == bytes@.len(),
            bytes@ == expected.spec_bytes(),
            i <= name@.len(),
            forall|j: int| 0 <= j < i ==> name@[j] == bytes@[j],
        decreases name@.len() - i,
    {
        if name[i] != bytes[i] {
            return false;
        }
        i = i + 1;
    }
    proof {
        assert(name@ =~= bytes@);
    }
    true
}

/// `kib` KiB in bytes, saturating.
fn kib_to_bytes(kib: u64) -> (r: u64)
    ensures
        r == saturate(kib * 1024),
{
    match kib.checked_mul(1024) {
        Some(bytes) => bytes,
        None => u64::MAX,
    }
}

impl MemInfo {
    /// The figures with the one that `name` names set to `v`.
    pub open spec fn with_field(self, name: Seq<u8>, v: u64) -> MemInfo {
        if name == "MemTotal".spec_bytes() {
            MemInfo { total: v, ..self }
        } else if name == "MemAvailable".spec_bytes() {
            MemInfo { available: v, ..self }
        } else if name == "MemFree".spec_bytes() {
            MemInfo { free: v, ..self }
        } else if name == "Buffers".spec_bytes() {
            MemInfo { buffers: v, ..self }
        } else if name == "Cached".spec_bytes() {
            MemInfo { cached: v, ..self }
        } else if name == "Shmem".spec_bytes() {
            MemInfo { shmem: v, ..self }
        } else {
            MemInfo { s_reclaimable: v, ..self }
        }
    }

    pub fn new() -> (r: Self)
        ensures
            r == (MemInfo {
                total: 0,
                available: 0,
                used: 0,
                free: 0,
                buffers: 0,
                cached: 0,
                shmem: 0,
                s_reclaimable: 0,
            }),
    {
        MemInfo { total: 0, available: 0, used: 0, free: 0, buffers: 0, cached: 0, shmem: 0, s_reclaimable: 0 }
    }

    /// Takes one `name: value` line of the kernel's memory statistics, with the
    /// value in KiB. Lines about other figures change nothing; a figure whose value
    /// does not start with a number gives an `InvalidData` error.
    pub fn apply_field(&mut self, name: &[u8], value: &[u8]) -> (r: Result<(), std::io::Error>)
        ensures
            ({
                let d = leading_digits(value@);
                let parsed = spec_parse(value@.subrange(0, d as int), u64::MAX as nat);
                let known = name@ == "MemTotal".spec_bytes() || name@ == "MemAvailable".spec_bytes()
                    || name@ == "MemFree".spec_bytes() || name@ == "Buffers".spec_bytes()
                    || name@ == "Cached".spec_bytes() || name@ == "Shmem".spec_bytes()
                    || name@ == "SReclaimable".spec_bytes();
                &&& !known ==> r is Ok && *final(self) == *old(self)
                &&& known && parsed is None ==> r is Err
                &&& (known && parsed is Some) ==> (r is Ok && *final(self) == old(self).with_field(
                    name@,
                    parsed.unwrap() as u64,
                ))
            }),
    {
        let known = name_is(name, "MemTotal") || name_is(name, "MemAvailable") || name_is(name, "MemFree")
            || name_is(name, "Buffers") || name_is(name, "Cached") || name_is(name, "Shmem") || name_is(
            name,
            "SReclaimable",
        );
        if !known {
            return Ok(());
        }
        let v = match parse_first_number(value) {
            Ok((v, _)) => v,
            Err(e) => {
                return Err(e);
            },
        };
        if name_is(name, "MemTotal") {
            self.total = v;
        } else if name_is(name, "MemAvailable") {
            self.available = v;
        } else if name_is(name, "MemFree") {
            self.free = v;
        } else if name_is(name, "Buffers") {
            self.buffers = v;
        } else if name_is(name, "Cached") {
            self.cached = v;
        } else if name_is(name, "Shmem") {
            self.shmem = v;
        } else {
            self.s_reclaimable = v;
        }
        Ok(())
    }

    /// Turns the figures from KiB into bytes, saturating, and derives what is left:
    /// where the available figure is missing or not below the total, it is
    /// estimated from the free, buffer, cache and reclaimable figures less the
    /// shared one; the used figure is the total less the available one, or zero.
    pub fn finish(&mut self)
        ensures
            ({
                let total = saturate(old(self).total * 1024);
                let available = saturate(old(self).available * 1024);
                let free = saturate(old(self).free * 1024);
                let buffers = saturate(old(self).buffers * 1024);
                let cached = saturate(old(self).cached * 1024);
                let shmem = saturate(old(self).shmem * 1024);
                let s_reclaimable = saturate(old(self).s_reclaimable * 1024);
                let available = if available == 0 || available >= total {
                    saturate(saturate(free + buffers + cached + s_reclaimable) - shmem)
                } else {
                    available
                };
                *final(self) == MemInfo {
                    total,
                    available,
                    used: saturate(total - available),
                    free,
                    buffers,
                    cached,
                    shmem,
                    s_reclaimable,
                }
            }),
    {
        self.total = kib_to_bytes(self.total);
        self.available = kib_to_bytes(self.available);
        self.free = kib_to_bytes(self.free);
        self.buffers = kib_to_bytes(self.buffers);
        self.cached = kib_to_bytes(self.cached);
        self.shmem = kib_to_bytes(self.shmem);
        self.s_reclaimable = kib_to_bytes(self.s_reclaimable);
        if self.available == 0 || self.available >= self.total {
            self.available = self.free.saturating_add(self.buffers).saturating_add(self.cached).saturating_add(
                self.s_reclaimable,
            ).saturating_sub(self.shmem);
        }
        self.used = self.total.saturating_sub(self.available);
    }
}

} // verus!
