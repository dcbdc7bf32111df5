use vstd::prelude::*;

use crate::hex::{invalid_data, utf8_string};
use crate::meminfo::name_is;
use crate::swap::{parse_digits_exact, spec_unsigned_digits};
use crate::system::{contains, find_from};
use vstd::string::StringSliceAdditionalSpecFns;
use vstd::utf8::{encode_utf8, valid_utf8};
use crate::numbers::{is_digit, spec_field, take_number, FieldSpec};

verus! {

/// The vector instruction sets that the processor offers.
#[derive(Debug, Clone, Copy, PartialEq, Eq, Structural)]
pub struct CPUFeatures {
    pub sse: bool,
    pub avx2: bool,
    pub avx512: bool,
}

/// One processor as the system reports it.
#[derive(Debug, Clone)]
pub struct CPU {
    pub name: String,
    pub max_freq_khz: u32,
    pub cores: u16,
    pub threads: u16,
    pub features: CPUFeatures,
}

/// The processors of the machine.
#[derive(Debug, Clone)]
pub struct CpuData {
    pub cpus: Vec<CPU>,
}

/// Time counters of one core, or of all cores together where `core` is `None`, in
/// clock ticks.
#[derive(Debug, Clone, Copy, PartialEq, Eq, Structural)]
pub struct CoreUsageSample {
    pub user: u64,
    pub nice: u64,
    pub system: u64,
    pub idle: u64,
    pub iowait: u64,
    pub irq: u64,
    pub softirq: u64,
    pub steal: u64,
    pub core: Option<u16>,
}

/// The counters of every core, sampled at `sampled_at_ns` nanoseconds on a
/// monotonic clock.
#[derive(Debug, Clone)]
pub struct CpuUsageSample {
    pub sampled_at_ns: u64,
    pub cores: Vec<CoreUsageSample>,
}

/// How the counters of all cores together moved between two samples.
#[derive(Debug, Clone, Copy, PartialEq, Eq, Structural)]
pub struct CpuUsageDiff {
    pub total: u64,
    pub idle: u64,
    pub over_ns: u64,
}

/// What a line of the kernel's processor statistics holds.
pub enum LineSpec {
    /// The line is about something else than a processor.
    NotCpu,
    /// A processor line whose numbers are missing or too large.
    Malformed,
    /// The core number, if any, and the counters.
    Sample(Option<nat>, Seq<nat>),
}

/// `k` numbers in a row, each after whitespace; `None` where one is missing or
/// does not fit 64 bits.
pub open spec fn spec_values(s: Seq<u8>, k: nat) -> Option<Seq<nat>>
    decreases k,
{
    if k == 0 {
        Some(Seq::empty())
    } else {
        match spec_field(s, u64::MAX as nat) {
            FieldSpec::Number(v, rest) => match spec_values(rest, (k - 1) as nat) {
                Some(vs) => Some(seq![v] + vs),
                None => None,
            },
            _ => None,
        }
    }
}

pub open spec fn starts_with_cpu(line: Seq<u8>) -> bool {
    line.len() >= 3 && line[0] == 99 && line[1] == 112 && line[2] == 117
}

/// A line `cpu` or `cpuN` followed by eight counters.
pub open spec fn spec_parse_line(line: Seq<u8>) -> LineSpec {
    if !starts_with_cpu(line) {
        LineSpec::NotCpu
    } else {
        let rest = line.subrange(3, line.len() as int);
        if rest.len() > 0 && is_digit(rest[0]) {
            match spec_field(rest, u16::MAX as nat) {
                FieldSpec::Number(c, after) => match spec_values(after, 8) {
                    Some(vs) => LineSpec::Sample(Some(c), vs),
                    None => LineSpec::Malformed,
                },
                _ => LineSpec::Malformed,
            }
        } else {
            match spec_values(rest, 8) {
                Some(vs) => LineSpec::Sample(None, vs),
                None => LineSpec::Malformed,
            }
        }
    }
}

impl CoreUsageSample {
    pub open spec fn spec_total(self) -> nat {
        (self.user + self.nice + self.system + self.idle + self.iowait + self.irq + self.softirq
            + self.steal) as nat
    }

    pub open spec fn spec_idle(self) -> nat {
        (self.idle + self.iowait) as nat
    }

    pub open spec fn counters(self) -> Seq<nat> {
        seq![
            self.user as nat,
            self.nice as nat,
            self.system as nat,
            self.idle as nat,
            self.iowait as nat,
            self.irq as nat,
            self.softirq as nat,
            self.steal as nat,
        ]
    }

    /// Ticks spent idle or waiting for I/O.
    pub fn get_idle_jiffies(&self) -> (r: u64)
        requires
            self.spec_idle() <= u64::MAX,
        ensures
            r == self.spec_idle(),
    {
        self.idle + self.iowait
    }

    /// Ticks over all counters.
    pub fn get_total_jiffies(&self) -> (r: u64)
        requires
            self.spec_total() <= u64::MAX,
        ensures
            r == self.spec_total(),
    {
        self.user + self.nice + self.system + self.idle + self.iowait + self.irq + self.softirq + self.steal
    }

    /// Reads one line of the kernel's processor statistics: `Ok(None)` for a line
    /// about something else, an `InvalidData` error for a processor line whose
    /// numbers are missing or too large.
    pub fn parse_line(line: &[u8]) -> (r: Result<Option<CoreUsageSample>, std::io::Error>)
        ensures
            match spec_parse_line(line@) {
                LineSpec::NotCpu => r matches Ok(None),
                LineSpec::Malformed => r is Err,
                LineSpec::Sample(core, values) => r matches Ok(Some(s)) && s.counters() == values && match core {
                    Some(c) => s.core == Some(c as u16),
                    None => s.core is None,
                },
            },
    {
        if !(line.len() >= 3 && line[0] == 99 && line[1] == 112 && line[2] == 117) {
            return Ok(None);
        }
        let rest = vstd::slice::slice_subrange(line, 3, line.len());
        let mut core: Option<u16> = None;
        let mut fields = rest;
        if rest.len() > 0 && 48 <= rest[0] && rest[0] <= 57 {
            match take_number(rest, 65535) {
                Ok(Some((c, after))) => {
                    core = Some(c as u16);
                    fields = after;
                },
                _ => {
                    return Err(invalid_data("Couldn't parse the core number"));
                },
            }
        }
        let ghost start = fields@;
        let mut values: Vec<u64> = Vec::new();
        let mut i: usize = 0;
        while i < 8
            invariant
                i <= 8,
                values@.len() == i,
                match spec_parse_line(line@) {
                    LineSpec::NotCpu => false,
                    LineSpec::Malformed => spec_values(start, 8) is None,
                    LineSpec::Sample(c, vs) => spec_values(start, 8) == Some(vs) && match c {
                        Some(c) => core == Some(c as u16),
                        None => core is None,
                    },
                },
                spec_values(start, 8) == match spec_values(fields@, (8 - i) as nat) {
                    Some(vs) => Some(values@.map_values(|v: u64| v as nat) + vs),
                    None => None::<Seq<nat>>,
                },
            decreases 8 - i,
        {
            match take_number(fields, u64::MAX) {
                Ok(Some((v, after))) => {
                    proof {
                        let old_values = values@.map_values(|v: u64| v as nat);
                        let new_values = values@.push(v).map_values(|v: u64| v as nat);
                        assert(new_values =~= old_values.push(v as nat));
                        match spec_values(after@, (8 - i - 1) as nat) {
                            Some(vs) => {
                                assert(old_values + (seq![v as nat] + vs) =~= new_values + vs);
                            },
                            None => {},
                        }
                    }
                    values.push(v);
                    fields = after;
                },
                _ => {
                    return Err(invalid_data("Couldn't find expected entry"));
                },
            }
            i = i + 1;
        }
        proof {
            assert(values@.map_values(|v: u64| v as nat) + Seq::<nat>::empty() =~= values@.map_values(|v: u64| v as nat));
        }
        let sample = CoreUsageSample {
            user: values[0],
            nice: values[1],
            system: values[2],
            idle: values[3],
            iowait: values[4],
            irq: values[5],
            softirq: values[6],
            steal: values[7],
            core,
        };
        proof {
            assert(sample.counters() =~= values@.map_values(|v: u64| v as nat));
        }
        Ok(Some(sample))
    }
}

/// The first sample of all cores together.
pub open spec fn first_global(cores: Seq<CoreUsageSample>) -> Option<CoreUsageSample>
    decreases cores.len(),
{
    if cores.len() == 0 {
        None
    } else if cores[0].core is None {
        Some(cores[0])
    } else {
        first_global(cores.drop_first())
    }
}

/// How the counters of all cores together moved from `last` to `current`, over
/// `over_ns` nanoseconds; `None` where a sum does not fit 64 bits or a counter went
/// back.
pub open spec fn spec_counters_diff(last: CoreUsageSample, current: CoreUsageSample, over_ns: u64) -> Option<
    CpuUsageDiff,
> {
    if current.spec_total() <= u64::MAX && last.spec_total() <= current.spec_total() && last.spec_idle()
        <= current.spec_idle() && current.spec_idle() <= u64::MAX {
        Some(
            CpuUsageDiff {
                total: (current.spec_total() - last.spec_total()) as u64,
                idle: (current.spec_idle() - last.spec_idle()) as u64,
                over_ns,
            },
        )
    } else {
        None
    }
}

/// The change from `last` to `current`: `None` where no time passed, where either
/// lacks the sample of all cores together, or as [`spec_counters_diff`] says.
pub open spec fn spec_diff(current_at: u64, current: Seq<CoreUsageSample>, last_at: u64, last: Seq<CoreUsageSample>) -> Option<CpuUsageDiff> {
    let over = if current_at >= last_at { (current_at - last_at) as u64 } else { 0u64 };
    if over == 0 {
        None
    } else {
        match (first_global(last), first_global(current)) {
            (Some(l), Some(c)) => spec_counters_diff(l, c, over),
            _ => None,
        }
    }
}

/// Finds the sample of all cores together.
fn find_global(cores: &Vec<CoreUsageSample>) -> (r: Option<CoreUsageSample>)
    ensures
        r == first_global(cores@),
{
    let mut i: usize = 0;
    proof {
        assert(cores@.subrange(0, cores@.len() as int) =~= cores@);
    }
    while i < cores.len()
        invariant
            i <= cores@.len(),
            first_global(cores@) == first_global(cores@.subrange(i as int, cores@.len() as int)),
        decreases cores@.len() - i,
    {
        proof {
            assert(cores@.subrange(i as int, cores@.len() as int).drop_first() =~= cores@.subrange(i + 1, cores@.len() as int));
        }
        if cores[i].core.is_none() {
            return Some(cores[i]);
        }
        i = i + 1;
    }
    None
}

impl CoreUsageSample {
    fn checked_total(&self) -> (r: Option<u64>)
        ensures
            r == if self.spec_total() <= u64::MAX {
                Some(self.spec_total() as u64)
            } else {
                None::<u64>
            },
    {
        let mut sum: u64 = self.user;
        match sum.checked_add(self.nice) {
            Some(v) => {
                sum = v;
            },
            None => {
                return None;
            },
        }
        match sum.checked_add(self.system) {
            Some(v) => {
                sum = v;
            },
            None => {
                return None;
            },
        }
        match sum.checked_add(self.idle) {
            Some(v) => {
                sum = v;
            },
            None => {
                return None;
            },
        }
        match sum.checked_add(self.iowait) {
            Some(v) => {
                sum = v;
            },
            None => {
                return None;
            },
        }
        match sum.checked_add(self.irq) {
            Some(v) => {
                sum = v;
            },
            None => {
                return None;
            },
        }
        match sum.checked_add(self.softirq) {
            Some(v) => {
                sum = v;
            },
            None => {
                return None;
            },
        }
        match sum.checked_add(self.steal) {
            Some(v) => {
                sum = v;
            },
            None => {
                return None;
            },
        }
        Some(sum)
    }
}

impl CpuUsageSample {
    /// The change since `last`, an earlier sample.
    pub fn diff_with_last(&self, last: &CpuUsageSample) -> (r: Option<CpuUsageDiff>)
        ensures
            r == spec_diff(self.sampled_at_ns, self.cores@, last.sampled_at_ns, last.cores@),
    {
        let over_ns = self.sampled_at_ns.saturating_sub(last.sampled_at_ns);
        if over_ns == 0 {
            return None;
        }
        let last_global = match find_global(&last.cores) {
            Some(c) => c,
            None => {
                return None;
            },
        };
        let current_global = match find_global(&self.cores) {
            Some(c) => c,
            None => {
                return None;
            },
        };
        let current_total = match current_global.checked_total() {
            Some(t) => t,
            None => {
                return None;
            },
        };
        let last_total = match last_global.checked_total() {
            Some(t) => t,
            None => {
                return None;
            },
        };
        let current_idle = match current_global.idle.checked_add(current_global.iowait) {
            Some(t) => t,
            None => {
                return None;
            },
        };
        if last_total > current_total || last_global.idle as u128 + last_global.iowait as u128 > current_idle as u128 {
            return None;
        }
        let last_idle = last_global.idle + last_global.iowait;
        Some(CpuUsageDiff { total: current_total - last_total, idle: current_idle - last_idle, over_ns })
    }
}

/// What the kernel's processor listing says about one logical processor.
#[derive(Debug, Clone)]
pub struct Core {
    pub processor: u16,
    pub core_id: u16,
    pub name: String,
    pub physical_id: u16,
    pub features: CPUFeatures,
}

impl Core {
    pub fn new() -> (r: Self)
        ensures
            r.processor == 0,
            r.core_id == 0,
            r.name@ == Seq::<char>::empty(),
            r.physical_id == 0,
            r.features == (CPUFeatures { sse: false, avx2: false, avx512: false }),
    {
        Core {
            processor: 0,
            core_id: 0,
            name: String::new(),
            physical_id: 0,
            features: CPUFeatures { sse: false, avx2: false, avx512: false },
        }
    }

    /// Takes one `name: value` line of the processor listing. A number that does
    /// not parse, or a model name that is not UTF-8, leaves the figure as it was.
    pub fn apply_field(&mut self, name: &[u8], value: &[u8])
        ensures
            ({
                let number = spec_unsigned_digits(value@, u16::MAX as nat);
                let o = *old(self);
                let f = *final(self);
                if name@ == "physical id".spec_bytes() {
                    f.physical_id == (if number is Some { number.unwrap() as u16 } else { o.physical_id })
                        && f.core_id == o.core_id && f.processor == o.processor && f.name@ == o.name@
                        && f.features == o.features
                } else if name@ == "core id".spec_bytes() {
                    f.core_id == (if number is Some { number.unwrap() as u16 } else { o.core_id })
                        && f.physical_id == o.physical_id && f.processor == o.processor && f.name@ == o.name@
                        && f.features == o.features
                } else if name@ == "processor".spec_bytes() {
                    f.processor == (if number is Some { number.unwrap() as u16 } else { o.processor })
                        && f.physical_id == o.physical_id && f.core_id == o.core_id && f.name@ == o.name@
                        && f.features == o.features
                } else if name@ == "flags".spec_bytes() {
                    f.features == (CPUFeatures {
                        sse: find_from(value@, "sse".spec_bytes(), 0) is Some,
                        avx2: find_from(value@, "avx2".spec_bytes(), 0) is Some,
                        avx512: find_from(value@, "avx512f".spec_bytes(), 0) is Some,
                    }) && f.physical_id == o.physical_id && f.core_id == o.core_id && f.processor
                        == o.processor && f.name@ == o.name@
                } else if name@ == "model name".spec_bytes() {
                    (if valid_utf8(value@) { encode_utf8(f.name@) == value@ } else { f.name@ == o.name@ })
                        && f.physical_id == o.physical_id && f.core_id == o.core_id && f.processor
                        == o.processor && f.features == o.features
                } else {
                    f.physical_id == o.physical_id && f.core_id == o.core_id && f.processor == o.processor
                        && f.name@ == o.name@ && f.features == o.features
                }
            }),
    {
        if name_is(name, "physical id") {
            if let Some(v) = parse_digits_exact(value, 65535) {
                self.physical_id = v as u16;
            }
        } else if name_is(name, "core id") {
            if let Some(v) = parse_digits_exact(value, 65535) {
                self.core_id = v as u16;
            }
        } else if name_is(name, "processor") {
            if let Some(v) = parse_digits_exact(value, 65535) {
                self.processor = v as u16;
            }
        } else if name_is(name, "flags") {
            self.features = CPUFeatures {
                sse: contains(value, "sse"),
                avx2: contains(value, "avx2"),
                avx512: contains(value, "avx512f"),
            };
        } else if name_is(name, "model name") {
            if let Some(model) = utf8_string(value) {
                self.name = model;
            }
        }
    }
}

/// The index after the run of equal physical IDs that starts at `start`.
pub open spec fn run_end(ids: Seq<u16>, start: nat) -> nat
    decreases ids.len() - start,
{
    if start + 1 >= ids.len() {
        ids.len()
    } else if ids[start as int + 1] != ids[start as int] {
        start + 1
    } else {
        run_end(ids, start + 1)
    }
}

/// The runs of equal physical IDs from `start` on, as index ranges.
pub open spec fn runs(ids: Seq<u16>, start: nat) -> Seq<(nat, nat)>
    decreases ids.len() - start,
{
    if start >= ids.len() {
        Seq::empty()
    } else {
        let end = run_end(ids, start);
        if end <= start || end > ids.len() {
            Seq::empty()
        } else {
            seq![(start, end)] + runs(ids, end)
        }
    }
}

/// How many values of `s` do not occur earlier in `s`.
pub open spec fn distinct_count(s: Seq<u16>) -> nat
    decreases s.len(),
{
    if s.len() == 0 {
        0
    } else {
        distinct_count(s.drop_last()) + if s.drop_last().contains(s.last()) { 0nat } else { 1nat }
    }
}

/// The sum of the known values of `s`.
pub open spec fn known_sum(s: Seq<Option<u32>>) -> nat
    decreases s.len(),
{
    if s.len() == 0 {
        0
    } else {
        known_sum(s.drop_last()) + match s.last() {
            Some(v) => v as nat,
            None => 0nat,
        }
    }
}

/// How many values of `s` are known.
pub open spec fn known_count(s: Seq<Option<u32>>) -> nat
    decreases s.len(),
{
    if s.len() == 0 {
        0
    } else {
        known_count(s.drop_last()) + if s.last() is Some { 1nat } else { 0nat }
    }
}

pub open spec fn physical_ids(cores: Seq<Core>) -> Seq<u16> {
    cores.map_values(|c: Core| c.physical_id)
}

pub open spec fn core_ids(cores: Seq<Core>) -> Seq<u16> {
    cores.map_values(|c: Core| c.core_id)
}

pub open spec fn clamp16(n: nat) -> u16 {
    if n > u16::MAX { u16::MAX } else { n as u16 }
}

/// Whether `cpu` describes the logical processors `start..end`: the last one's
/// name and features, the average of the known maximum frequencies, the number of
/// distinct core IDs and of logical processors (both capped at `u16::MAX`).
pub open spec fn describes(cpu: CPU, cores: Seq<Core>, freqs: Seq<Option<u32>>, start: nat, end: nat) -> bool {
    let known = freqs.subrange(start as int, end as int);
    &&& cpu.name@ == cores[end - 1].name@
    &&& cpu.features == cores[end - 1].features
    &&& cpu.max_freq_khz == known_sum(known) / (if known_count(known) == 0 { 1 } else { known_count(known) })
    &&& cpu.cores == clamp16(distinct_count(core_ids(cores).subrange(start as int, end as int)))
    &&& cpu.threads == clamp16((end - start) as nat)
}

proof fn lemma_average_fits(sum: nat, count: nat)
    requires
        count >= 1,
        sum <= count * 0xffff_ffff,
    ensures
        sum / count <= 0xffff_ffff,
{
    assert(sum / count <= 0xffff_ffff) by (nonlinear_arith)
        requires
            count >= 1,
            sum <= count * 0xffff_ffff,
    ;
}

/// The description of the logical processors `start..end`.
fn describe_run(cores: &Vec<Core>, freqs: &Vec<Option<u32>>, start: usize, end: usize) -> (r: CPU)
    requires
        start < end <= cores@.len(),
        cores@.len() == freqs@.len(),
        cores@.len() <= u32::MAX,
    ensures
        describes(r, cores@, freqs@, start as nat, end as nat),
{
    let ghost ids = core_ids(cores@);
    let mut distinct: usize = 0;
    let mut sum: u64 = 0;
    let mut count: u64 = 0;
    let mut i: usize = start;
    while i < end
        invariant
            start <= i <= end <= cores@.len(),
            cores@.len() == freqs@.len(),
            cores@.len() <= u32::MAX,
            ids == core_ids(cores@),
            distinct == distinct_count(ids.subrange(start as int, i as int)),
            distinct <= i - start,
            sum == known_sum(freqs@.subrange(start as int, i as int)),
            count == known_count(freqs@.subrange(start as int, i as int)),
            count <= i - start,
            sum <= count * 0xffff_ffff,
        decreases end - i,
    {
        let target = cores[i].core_id;
        let mut seen = false;
        let mut j: usize = start;
        while j < i
            invariant
                start <= j <= i < end <= cores@.len(),
                ids == core_ids(cores@),
                target == ids[i as int],
                seen == ids.subrange(start as int, j as int).contains(target),
            decreases i - j,
        {
            proof {
                let before = ids.subrange(start as int, j as int);
                let after = ids.subrange(start as int, j + 1);
                assert(after.drop_last() =~= before);
                if before.contains(target) {
                    let k = choose|k: int| 0 <= k < before.len() && #[trigger] before[k] == target;
                    assert(after[k] == target);
                }
                if after.contains(target) {
                    let k = choose|k: int| 0 <= k < after.len() && #[trigger] after[k] == target;
                    if k < j - start {
                        assert(before[k] == target);
                    }
                }
                if cores@[j as int].core_id == target {
                    assert(after[j - start] == target);
                }
            }
            if cores[j].core_id == target {
                seen = true;
            }
            j = j + 1;
        }
        proof {
            assert(ids.subrange(start as int, i + 1).drop_last() =~= ids.subrange(start as int, i as int));
            assert(freqs@.subrange(start as int, i + 1).drop_last() =~= freqs@.subrange(start as int, i as int));
        }
        if !seen {
            distinct = distinct + 1;
        }
        match freqs[i] {
            Some(f) => {
                sum = sum + f as u64;
                count = count + 1;
            },
            None => {},
        }
        i = i + 1;
    }
    let divisor = if count == 0 { 1 } else { count };
    proof {
        lemma_average_fits(sum as nat, divisor as nat);
    }
    let average = (sum / divisor) as u32;
    let cores_in_run: u16 = if distinct > 65535 { 65535 } else { distinct as u16 };
    let threads: u16 = if end - start > 65535 { 65535 } else { (end - start) as u16 };
    CPU {
        name: cores[end - 1].name.clone(),
        max_freq_khz: average,
        cores: cores_in_run,
        threads,
        features: cores[end - 1].features,
    }
}

/// Groups logical processors into processors: each run of consecutive logical
/// processors with the same physical ID is one processor, described as
/// [`describes`] says; `freqs[i]` is the maximum frequency of logical processor
/// `i` in kHz, where known. With no logical processor at all there is one
/// processor with nothing known.
pub fn group_cores(cores: &Vec<Core>, freqs: &Vec<Option<u32>>) -> (r: Vec<CPU>)
    requires
        cores@.len() == freqs@.len(),
        cores@.len() <= u32::MAX,
    ensures
        cores@.len() == 0 ==> r@.len() == 1 && r@[0].name@ == Seq::<char>::empty() && r@[0].max_freq_khz == 0
            && r@[0].cores == 0 && r@[0].threads == 0 && r@[0].features == (CPUFeatures {
            sse: false,
            avx2: false,
            avx512: false,
        }),
        cores@.len() > 0 ==> r@.len() == runs(physical_ids(cores@), 0).len() && forall|k: int|
            0 <= k < r@.len() ==> describes(
                #[trigger] r@[k],
                cores@,
                freqs@,
                runs(physical_ids(cores@), 0)[k].0,
                runs(physical_ids(cores@), 0)[k].1,
            ),
{
    let n = cores.len();
    let mut r: Vec<CPU> = Vec::new();
    if n == 0 {
        r.push(
            CPU {
                name: String::new(),
                max_freq_khz: 0,
                cores: 0,
                threads: 0,
                features: CPUFeatures { sse: false, avx2: false, avx512: false },
            },
        );
        return r;
    }
    let ghost ids = physical_ids(cores@);
    let ghost done: Seq<(nat, nat)> = Seq::empty();
    let mut start: usize = 0;
    while start < n
        invariant
            n == cores@.len(),
            cores@.len() == freqs@.len(),
            cores@.len() <= u32::MAX,
            ids == physical_ids(cores@),
            start <= n,
            runs(ids, 0) == done + runs(ids, start as nat),
            r@.len() == done.len(),
            forall|k: int| 0 <= k < r@.len() ==> describes(#[trigger] r@[k], cores@, freqs@, done[k].0, done[k].1),
        decreases n - start,
    {
        let mut end: usize = start + 1;
        while end < n && cores[end].physical_id == cores[start].physical_id
            invariant
                n == cores@.len(),
                ids == physical_ids(cores@),
                start < end <= n,
                ids[end - 1] == ids[start as int],
                run_end(ids, start as nat) == run_end(ids, (end - 1) as nat),
            decreases n - end,
        {
            end = end + 1;
        }
        proof {
            assert(run_end(ids, (end - 1) as nat) == end);
            assert(runs(ids, start as nat) == seq![(start as nat, end as nat)] + runs(ids, end as nat));
            assert(done + runs(ids, start as nat) =~= done.push((start as nat, end as nat)) + runs(ids, end as nat));
        }
        let cpu = describe_run(cores, freqs, start, end);
        r.push(cpu);
        proof {
            done = done.push((start as nat, end as nat));
        }
        start = end;
    }
    proof {
        assert(runs(ids, n as nat) == Seq::<(nat, nat)>::empty());
        assert(done + Seq::<(nat, nat)>::empty() =~= done);
    }
    r
}

/// The maximum frequency in a sysfs file's contents: the trimmed text, digits
/// only, as a 32-bit number.
pub fn parse_max_freq(contents: &[u8]) -> (r: Option<u32>)
    ensures
        r matches Some(v) ==> spec_unsigned_digits(crate::meminfo::trim(contents@), u32::MAX as nat) == Some(v as nat),
        r is None ==> spec_unsigned_digits(crate::meminfo::trim(contents@), u32::MAX as nat) is None,
{
    let text = crate::meminfo::trim_ascii(contents);
    match parse_digits_exact(text, 0xffff_ffff) {
        Some(v) => Some(v as u32),
        None => None,
    }
}

} // verus!
