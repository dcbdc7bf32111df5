use vstd::prelude::*;

use crate::cpu::CPUFeatures;
use crate::meminfo::name_is;
use vstd::string::StringSliceAdditionalSpecFns;

verus! {

/// The machine's name and kernel release.
#[derive(Debug, Clone)]
pub struct HostData {
    pub hostname: String,
    pub kernel: String,
}

/// Memory figures as the kernel's system summary gives them.
#[derive(Debug, Clone, Copy, PartialEq, Eq, Structural)]
pub struct SysinfoRam {
    pub total: u64,
    pub free: u64,
    pub buffer: u64,
    pub shared: u64,
}

/// A block device.
#[derive(Debug, Clone)]
pub struct Disk {
    pub model: String,
    pub device_name: String,
    /// Bytes.
    pub size: u64,
}

/// The block devices of the machine.
#[derive(Debug, Clone)]
pub struct DiskData {
    pub disks: Vec<Disk>,
}

/// A USB device as the bus lists it.
#[derive(Debug, Clone)]
pub struct UsbDeviceID {
    pub vendor_id: u16,
    pub product_id: u16,
    pub manufacturer: Option<String>,
    pub product: Option<String>,
}

/// A USB device known by name from the ID database.
#[derive(Debug, Clone)]
pub struct NamedUsbDevice {
    pub vid: u16,
    pub did: u16,
    pub name: String,
    pub vendor: String,
}

/// The USB devices of the machine.
#[derive(Debug, Clone)]
pub struct UsbData {
    pub device_ids: Vec<UsbDeviceID>,
}

/// A login shell: its path, as bytes, and its version where it reported one.
#[derive(Debug, Clone)]
pub struct Shell {
    pub path: Vec<u8>,
    pub version: Option<String>,
}

/// The user that runs the program.
#[derive(Debug, Clone)]
pub struct UserData {
    pub username: String,
    pub home: Vec<u8>,
    pub shell: Shell,
}

/// The index of the first `b` in `s`.
pub open spec fn first_index_of(s: Seq<u8>, b: u8) -> Option<nat>
    decreases s.len(),
{
    if s.len() == 0 {
        None
    } else if s[0] == b {
        Some(0)
    } else {
        match first_index_of(s.drop_first(), b) {
            Some(i) => Some(i + 1),
            None => None,
        }
    }
}

/// The kernel's version in a release string: what comes before the first `-`.
pub open spec fn spec_kernel_version(release: Seq<u8>) -> Seq<u8> {
    match first_index_of(release, 45) {
        Some(i) => release.subrange(0, i as int),
        None => release,
    }
}

proof fn lemma_first_index_step(s: Seq<u8>, i: int, b: u8)
    requires
        0 <= i < s.len(),
        s[i] != b,
    ensures
        first_index_of(s.subrange(i, s.len() as int), b) == match first_index_of(
            s.subrange(i + 1, s.len() as int),
            b,
        ) {
            Some(k) => Some(k + 1),
            None => None::<nat>,
        },
{
    assert(s.subrange(i, s.len() as int).drop_first() =~= s.subrange(i + 1, s.len() as int));
}

/// The index of the first `b` in `data`.
pub fn find_byte(data: &[u8], b: u8) -> (r: Option<usize>)
    ensures
        r matches Some(i) ==> first_index_of(data@, b) == Some(i as nat) && i < data@.len(),
        r is None ==> first_index_of(data@, b) is None,
{
    let mut i: usize = 0;
    proof {
        assert(data@.subrange(0, data@.len() as int) =~= data@);
    }
    while i < data.len()
        invariant
            i <= data@.len(),
            first_index_of(data@, b) == match first_index_of(data@.subrange(i as int, data@.len() as int), b) {
                Some(k) => Some((k + i) as nat),
                None => None::<nat>,
            },
        decreases data@.len() - i,
    {
        if data[i] == b {
            proof {
                assert(data@.subrange(i as int, data@.len() as int)[0] == b);
            }
            return Some(i);
        }
        proof {
            lemma_first_index_step(data@, i as int, b);
        }
        i = i + 1;
    }
    None
}

impl HostData {
    /// The kernel's version in a release string such as `6.1.0-13-amd64`: what comes
    /// before the first `-`.
    pub fn kernel_version(release: &[u8]) -> (r: &[u8])
        ensures
            r@ == spec_kernel_version(release@),
    {
        match find_byte(release, 45) {
            Some(i) => vstd::slice::slice_subrange(release, 0, i),
            None => release,
        }
    }
}

impl Disk {
    /// The size of a disk of `blocks` blocks of `block_size` bytes, 512 where the
    /// block size is unknown; saturating.
    pub fn size_in_bytes(blocks: u64, block_size: Option<u64>) -> (r: u64)
        ensures
            ({
                let bs = match block_size {
                    Some(b) => b,
                    None => 512u64,
                };
                r == if blocks * bs <= u64::MAX {
                    (blocks * bs) as u64
                } else {
                    u64::MAX
                }
            }),
    {
        let bs = match block_size {
            Some(b) => b,
            None => 512,
        };
        match blocks.checked_mul(bs) {
            Some(size) => size,
            None => u64::MAX,
        }
    }
}

/// `path` without trailing slashes.
pub open spec fn strip_slashes(path: Seq<u8>) -> Seq<u8>
    decreases path.len(),
{
    if path.len() > 0 && path.last() == 47 {
        strip_slashes(path.drop_last())
    } else {
        path
    }
}

/// The index just after the last `/` in `s`, or zero.
pub open spec fn after_last_slash(s: Seq<u8>) -> nat
    decreases s.len(),
{
    if s.len() == 0 {
        0
    } else if s.last() == 47 {
        s.len()
    } else {
        after_last_slash(s.drop_last())
    }
}

/// The last component of `path`; empty where there is none.
pub open spec fn file_name(path: Seq<u8>) -> Seq<u8> {
    let p = strip_slashes(path);
    p.subrange(after_last_slash(p) as int, p.len() as int)
}

/// The names of the shells that answer `--version`.
pub open spec fn posix_shell_names() -> Seq<Seq<u8>> {
    seq![
        "sh".spec_bytes(),
        "zsh".spec_bytes(),
        "ksh".spec_bytes(),
        "csh".spec_bytes(),
        "tcsh".spec_bytes(),
        "bash".spec_bytes(),
        "fish".spec_bytes(),
    ]
}

/// Whether `name` is the name of a shell that answers `--version`.
pub fn is_known_posix_shell(name: &[u8]) -> (r: bool)
    ensures
        r == posix_shell_names().contains(name@),
{
    let r = name_is(name, "sh") || name_is(name, "zsh") || name_is(name, "ksh") || name_is(name, "csh")
        || name_is(name, "tcsh") || name_is(name, "bash") || name_is(name, "fish");
    proof {
        let names = posix_shell_names();
        if r {
            assert(names[0] == "sh".spec_bytes());
            assert(names[1] == "zsh".spec_bytes());
            assert(names[2] == "ksh".spec_bytes());
            assert(names[3] == "csh".spec_bytes());
            assert(names[4] == "tcsh".spec_bytes());
            assert(names[5] == "bash".spec_bytes());
            assert(names[6] == "fish".spec_bytes());
        }
    }
    r
}

/// Whether `b` can stand in a version number: a digit or a dot.
pub open spec fn is_version_byte(b: u8) -> bool {
    (48 <= b <= 57) || b == 46
}

/// Whether `pat` stands in `s` at index `i`.
pub open spec fn occurs_at(s: Seq<u8>, pat: Seq<u8>, i: int) -> bool {
    0 <= i && i + pat.len() <= s.len() && s.subrange(i, i + pat.len()) == pat
}

/// The first index at or after `from` where `pat` stands in `s`.
pub open spec fn find_from(s: Seq<u8>, pat: Seq<u8>, from: nat) -> Option<nat>
    decreases s.len() + 1 - from,
{
    if from + pat.len() > s.len() {
        None
    } else if occurs_at(s, pat, from as int) {
        Some(from)
    } else {
        find_from(s, pat, from + 1)
    }
}

/// The first index at or after `from` of a digit or a dot, or `s.len()`.
pub open spec fn first_version_byte(s: Seq<u8>, from: nat) -> nat
    decreases s.len() - from,
{
    if from >= s.len() {
        s.len()
    } else if is_version_byte(s[from as int]) {
        from
    } else {
        first_version_byte(s, from + 1)
    }
}

/// How many digits and dots follow index `from` in `s`.
pub open spec fn version_run(s: Seq<u8>, from: nat) -> nat
    decreases s.len() - from,
{
    if from < s.len() && is_version_byte(s[from as int]) {
        1 + version_run(s, from + 1)
    } else {
        0
    }
}

/// What a line of a program's `--version` output says: `None` where it does not
/// mention `version`; otherwise the digits and dots that first follow the word,
/// or nothing where none do.
pub open spec fn spec_version_in_line(line: Seq<u8>) -> Option<Option<Seq<u8>>> {
    match find_from(line, "version".spec_bytes(), 0) {
        None => None,
        Some(at) => {
            let after = line.subrange(at as int + 7, line.len() as int);
            let found = first_version_byte(after, 0);
            let start = if found < after.len() { found } else { 0 };
            let len = version_run(after, start);
            if len == 0 {
                Some(None)
            } else {
                Some(Some(after.subrange(start as int, (start + len) as int)))
            }
        },
    }
}

/// Whether `pat` stands in `data` at `i`.
fn matches_at(data: &[u8], pat: &[u8], i: usize) -> (r: bool)
    requires
        i + pat@.len() <= data@.len(),
    ensures
        r == occurs_at(data@, pat@, i as int),
{
    let n = data.len();
    let mut j: usize = 0;
    while j < pat.len()
        invariant
            n == data@.len(),
            i + pat@.len() <= data@.len(),
            j <= pat@.len(),
            forall|k: int| 0 <= k < j ==> data@[i + k] == pat@[k],
        decreases pat@.len() - j,
    {
        if data[i + j] != pat[j] {
            proof {
                assert(data@.subrange(i as int, i + pat@.len())[j as int] != pat@[j as int]);
            }
            return false;
        }
        j = j + 1;
    }
    proof {
        assert(data@.subrange(i as int, i + pat@.len()) =~= pat@);
    }
    true
}

/// The first index where `pat` stands in `data`.
pub fn find_bytes(data: &[u8], pat: &[u8]) -> (r: Option<usize>)
    ensures
        r matches Some(i) ==> find_from(data@, pat@, 0) == Some(i as nat) && i + pat@.len() <= data@.len(),
        r is None ==> find_from(data@, pat@, 0) is None,
{
    let len = data.len();
    let plen = pat.len();
    if plen > len {
        return None;
    }
    if plen == 0 {
        proof {
            assert(data@.subrange(0, 0) =~= pat@);
        }
        return Some(0);
    }
    let mut at: usize = 0;
    while at <= len - plen && !matches_at(data, pat, at)
        invariant
            len == data@.len(),
            plen == pat@.len(),
            1 <= plen <= len,
            at <= len - plen + 1,
            find_from(data@, pat@, 0) == find_from(data@, pat@, at as nat),
        decreases len - at,
    {
        at = at + 1;
    }
    if at <= len - plen {
        Some(at)
    } else {
        None
    }
}

/// Whether `pat` stands anywhere in `data`.
pub fn contains(data: &[u8], pat: &str) -> (r: bool)
    ensures
        r == find_from(data@, pat.spec_bytes(), 0) is Some,
{
    find_bytes(data, pat.as_bytes()).is_some()
}

/// The digits and dots of a program's version in one line of its `--version`
/// output: `None` where the line does not mention `version`, `Some(None)` where
/// no digit or dot follows the word.
pub fn version_in_line(line: &[u8]) -> (r: Option<Option<&[u8]>>)
    ensures
        match spec_version_in_line(line@) {
            None => r is None,
            Some(None) => r == Some(None::<&[u8]>),
            Some(Some(v)) => r matches Some(Some(x)) && x@ == v,
        },
{
    let pat = "version".as_bytes();
    proof {
        reveal_strlit("version");
        assert(pat@.len() == 7) by {
            vstd::string::is_ascii_spec_bytes("version");
        }
    }
    if line.len() < 7 {
        return None;
    }
    let len = line.len();
    let mut at: usize = 0;
    while at <= len - 7 && !matches_at(line, pat, at)
        invariant
            len == line@.len(),
            len >= 7,
            at <= len - 6,
            pat@ == "version".spec_bytes(),
            pat@.len() == 7,
            find_from(line@, pat@, 0) == find_from(line@, pat@, at as nat),
        decreases line@.len() - at,
    {
        at = at + 1;
    }
    if at > len - 7 {
        return None;
    }
    let after = vstd::slice::slice_subrange(line, at + 7, line.len());
    let mut found: usize = 0;
    while found < after.len() && !((48 <= after[found] && after[found] <= 57) || after[found] == 46)
        invariant
            found <= after@.len(),
            first_version_byte(after@, 0) == first_version_byte(after@, found as nat),
        decreases after@.len() - found,
    {
        found = found + 1;
    }
    let start = if found < after.len() { found } else { 0 };
    let mut end: usize = start;
    while end < after.len() && ((48 <= after[end] && after[end] <= 57) || after[end] == 46)
        invariant
            start <= end <= after@.len(),
            version_run(after@, start as nat) == (end - start) + version_run(after@, end as nat),
        decreases after@.len() - end,
    {
        end = end + 1;
    }
    if end == start {
        return Some(None);
    }
    Some(Some(vstd::slice::slice_subrange(after, start, end)))
}

impl Shell {
    /// The last component of the shell's path, or `UNKNOWN` where it has none or
    /// it is `..`.
    pub fn name(&self) -> (r: &[u8])
        ensures
            ({
                let n = file_name(self.path@);
                r@ == if n.len() == 0 || n == "..".spec_bytes() {
                    "UNKNOWN".spec_bytes()
                } else {
                    n
                }
            }),
    {
        let path = self.path.as_slice();
        let mut end: usize = path.len();
        proof {
            assert(path@.subrange(0, end as int) =~= path@);
        }
        while end > 0 && path[end - 1] == 47
            invariant
                end <= path@.len(),
                strip_slashes(path@) == strip_slashes(path@.subrange(0, end as int)),
            decreases end,
        {
            proof {
                assert(path@.subrange(0, end as int).drop_last() =~= path@.subrange(0, end - 1));
            }
            end = end - 1;
        }
        let stripped = vstd::slice::slice_subrange(path, 0, end);
        let mut start: usize = end;
        proof {
            assert(stripped@.subrange(0, start as int) =~= stripped@);
        }
        while start > 0 && stripped[start - 1] != 47
            invariant
                start <= stripped@.len(),
                after_last_slash(stripped@) == after_last_slash(stripped@.subrange(0, start as int)),
            decreases start,
        {
            proof {
                assert(stripped@.subrange(0, start as int).drop_last() =~= stripped@.subrange(0, start - 1));
            }
            start = start - 1;
        }
        let name = vstd::slice::slice_subrange(stripped, start, end);
        if name.len() == 0 || name_is(name, "..") {
            "UNKNOWN".as_bytes()
        } else {
            name
        }
    }

    pub fn version(&self) -> (r: Option<&str>)
        ensures
            match &self.version {
                Some(v) => r matches Some(s) && s@ == v@,
                None => r is None,
            },
    {
        match &self.version {
            Some(v) => Some(v.as_str()),
            None => None,
        }
    }
}

} // verus!
