use vstd::prelude::*;

use crate::hex::{all_hex, is_hex_digit, spec_unhex};
use crate::hex::unhex;
use crate::meminfo::{trim, trim_ascii};
use crate::system::{find_byte, find_bytes, find_from, first_index_of};
use vstd::string::StringSliceAdditionalSpecFns;
use vstd::utf8::encode_utf8;

verus! {

/// Why a PCI device's figure could not be read.
#[derive(Debug, Clone, Copy, PartialEq, Eq, Structural)]
pub enum PciBackendError {
    /// The device's data is too short or malformed.
    InvalidDevice,
    /// The device's kind has no such figure.
    NotAvailable,
}

/// A PCI device known by name from the ID database.
#[derive(Debug, Clone)]
pub struct NamedPciDevice {
    pub vid: u16,
    pub did: u16,
    pub name: String,
    pub vendor: String,
    pub subsystems: Vec<Subsystem>,
    pub is_gpu: bool,
}

/// A subsystem of a named PCI device.
#[derive(Debug, Clone)]
pub struct Subsystem {
    pub vid: u16,
    pub did: u16,
    pub name: String,
}

/// The named PCI devices of the machine.
#[derive(Debug, Clone)]
pub struct PCIData {
    pub all_devices_named: Vec<NamedPciDevice>,
}

/// The indices of the display controllers among `devices`, in order.
pub open spec fn gpu_indices(devices: Seq<NamedPciDevice>) -> Seq<int>
    decreases devices.len(),
{
    if devices.len() == 0 {
        Seq::empty()
    } else {
        let rest = gpu_indices(devices.drop_last());
        if devices.last().is_gpu {
            rest.push(devices.len() - 1)
        } else {
            rest
        }
    }
}

impl PCIData {
    /// The display controllers, in order.
    pub fn gpus(&self) -> (r: Vec<&NamedPciDevice>)
        ensures
            r@.len() == gpu_indices(self.all_devices_named@).len(),
            forall|k: int|
                0 <= k < r@.len() ==> *#[trigger] r@[k] == self.all_devices_named@[gpu_indices(
                    self.all_devices_named@,
                )[k]],
    {
        let mut r: Vec<&NamedPciDevice> = Vec::new();
        let mut i: usize = 0;
        while i < self.all_devices_named.len()
            invariant
                i <= self.all_devices_named@.len(),
                r@.len() == gpu_indices(self.all_devices_named@.subrange(0, i as int)).len(),
                forall|k: int|
                    0 <= k < r@.len() ==> *#[trigger] r@[k] == self.all_devices_named@[gpu_indices(
                        self.all_devices_named@.subrange(0, i as int),
                    )[k]],
                forall|k: int|
                    0 <= k < gpu_indices(self.all_devices_named@.subrange(0, i as int)).len() ==> 0
                        <= #[trigger] gpu_indices(self.all_devices_named@.subrange(0, i as int))[k] < i,
            decreases self.all_devices_named@.len() - i,
        {
            let ghost before = self.all_devices_named@.subrange(0, i as int);
            let ghost after = self.all_devices_named@.subrange(0, i + 1);
            proof {
                assert(after.drop_last() =~= before);
            }
            let dev = &self.all_devices_named[i];
            if dev.is_gpu {
                r.push(dev);
            }
            i = i + 1;
        }
        proof {
            assert(self.all_devices_named@.subrange(0, i as int) =~= self.all_devices_named@);
        }
        r
    }
}

/// A little-endian 16-bit number from two bytes.
pub open spec fn le16(lo: u8, hi: u8) -> u16 {
    (lo as nat + hi as nat * 256) as u16
}

/// A device's configuration space, as the kernel's PCI bus listing gives it.
#[derive(Debug)]
pub struct ProcBusProvider {
    buf: Vec<u8>,
}

impl View for ProcBusProvider {
    type V = Seq<u8>;

    closed spec fn view(&self) -> Seq<u8> {
        self.buf@
    }
}

impl ProcBusProvider {
    #[verifier::type_invariant]
    closed spec fn inv(self) -> bool {
        self.buf@.len() >= 16
    }

    /// Holds the contents of a device's file under `/proc/bus/pci/`, its
    /// configuration bytes; an error where they are fewer than a header's sixteen.
    pub fn from_devfile(buf: Vec<u8>) -> (r: Result<Self, PciBackendError>)
        ensures
            buf@.len() < 16 ==> r == Err::<Self, PciBackendError>(PciBackendError::InvalidDevice),
            buf@.len() >= 16 ==> (r matches Ok(p) && p@ == buf@),
    {
        if buf.len() < 16 {
            return Err(PciBackendError::InvalidDevice);
        }
        Ok(ProcBusProvider { buf })
    }

    pub fn get_header_type(&self) -> (r: u8)
        ensures
            r == self@[14],
            self@.len() >= 16,
    {
        proof {
            use_type_invariant(self);
        }
        self.buf[14]
    }

    /// The class and the subclass.
    pub fn get_class(&self) -> (r: Vec<u8>)
        ensures
            r@ == seq![self@[11], self@[10]],
    {
        proof {
            use_type_invariant(self);
        }
        vec![self.buf[11], self.buf[10]]
    }

    pub fn get_vendor(&self) -> (r: u16)
        ensures
            r == le16(self@[0], self@[1]),
    {
        proof {
            use_type_invariant(self);
        }
        self.buf[0] as u16 + self.buf[1] as u16 * 256
    }

    pub fn get_device(&self) -> (r: u16)
        ensures
            r == le16(self@[2], self@[3]),
    {
        proof {
            use_type_invariant(self);
        }
        self.buf[2] as u16 + self.buf[3] as u16 * 256
    }

    pub fn get_revision(&self) -> (r: u8)
        ensures
            r == self@[8],
    {
        proof {
            use_type_invariant(self);
        }
        self.buf[8]
    }

    /// A 16-bit figure at `offset`, where the data reaches that far.
    fn le16_at(&self, offset: usize) -> (r: Result<u16, PciBackendError>)
        requires
            offset <= 100,
        ensures
            offset + 2 <= self@.len() ==> r == Ok::<u16, PciBackendError>(
                le16(self@[offset as int], self@[offset + 1]),
            ),
            offset + 2 > self@.len() ==> r == Err::<u16, PciBackendError>(PciBackendError::InvalidDevice),
    {
        if offset + 2 > self.buf.len() {
            return Err(PciBackendError::InvalidDevice);
        }
        Ok(self.buf[offset] as u16 + self.buf[offset + 1] as u16 * 256)
    }

    /// The subsystem vendor: at offset 47 for an ordinary device (header type 0),
    /// at offset 66 for a CardBus bridge (type 2); no such figure for other types.
    pub fn get_susbystem_vid(&self) -> (r: Result<u16, PciBackendError>)
        ensures
            r == match self@[14] {
                0 => if 49 <= self@.len() {
                    Ok(le16(self@[47], self@[48]))
                } else {
                    Err(PciBackendError::InvalidDevice)
                },
                2 => if 68 <= self@.len() {
                    Ok(le16(self@[66], self@[67]))
                } else {
                    Err(PciBackendError::InvalidDevice)
                },
                _ => Err(PciBackendError::NotAvailable),
            },
    {
        match self.get_header_type() {
            0 => self.le16_at(47),
            2 => self.le16_at(66),
            _ => Err(PciBackendError::NotAvailable),
        }
    }

    /// The subsystem device: at offset 49 for an ordinary device (header type 0),
    /// at offset 64 for a CardBus bridge (type 2); no such figure for other types.
    pub fn get_susbystem_did(&self) -> (r: Result<u16, PciBackendError>)
        ensures
            r == match self@[14] {
                0 => if 51 <= self@.len() {
                    Ok(le16(self@[49], self@[50]))
                } else {
                    Err(PciBackendError::InvalidDevice)
                },
                2 => if 66 <= self@.len() {
                    Ok(le16(self@[64], self@[65]))
                } else {
                    Err(PciBackendError::InvalidDevice)
                },
                _ => Err(PciBackendError::NotAvailable),
            },
    {
        match self.get_header_type() {
            0 => self.le16_at(49),
            2 => self.le16_at(64),
            _ => Err(PciBackendError::NotAvailable),
        }
    }
}

/// A lower-case hexadecimal digit.
pub open spec fn hex_char(n: nat) -> u8 {
    if n < 10 {
        (48 + n) as u8
    } else {
        (87 + n) as u8
    }
}

/// `n` in `width` lower-case hexadecimal digits, most significant first.
pub open spec fn hex_digits(n: nat, width: nat) -> Seq<u8>
    decreases width,
{
    if width == 0 {
        Seq::empty()
    } else {
        hex_digits(n / 16, (width - 1) as nat).push(hex_char(n % 16))
    }
}

fn push_hex(out: &mut Vec<u8>, n: u16, width: usize)
    requires
        width <= 4,
    ensures
        final(out)@ == old(out)@ + hex_digits(n as nat, width as nat),
    decreases width,
{
    if width == 0 {
        proof {
            assert(old(out)@ + hex_digits(n as nat, 0) =~= old(out)@);
        }
        return;
    }
    push_hex(out, n / 16, width - 1);
    let d = (n % 16) as u8;
    out.push(if d < 10 { 48 + d } else { 87 + d });
    proof {
        assert(final(out)@ =~= old(out)@ + hex_digits(n as nat, width as nat));
    }
}

/// The name of a device's directory under `/sys/bus/pci/devices/`:
/// `domain:bus:device.function` in lower-case hexadecimal, with four, two, two and
/// at least one digits.
pub open spec fn device_dir(domain: u16, bus: u8, device: u8, function: u8) -> Seq<u8> {
    hex_digits(domain as nat, 4) + seq![58u8] + hex_digits(bus as nat, 2) + seq![58u8] + hex_digits(
        device as nat,
        2,
    ) + seq![46u8] + hex_digits(function as nat, if function < 16 { 1 } else { 2 })
}

/// Reads a device's figures from the files of `/sys/bus/pci/devices/`.
#[derive(Debug, Clone, Copy, PartialEq, Eq, Structural)]
pub struct SysBusProvider;

impl SysBusProvider {
    /// The path of the device's directory, as bytes.
    pub fn path_for_device(&self, domain: u16, bus: u8, device: u8, function: u8) -> (r: Vec<u8>)
        ensures
            r@ == "/sys/bus/pci/devices/".spec_bytes() + device_dir(domain, bus, device, function),
    {
        let prefix = "/sys/bus/pci/devices/".as_bytes();
        let mut out: Vec<u8> = vstd::slice::slice_to_vec(prefix);
        push_hex(&mut out, domain, 4);
        out.push(58);
        push_hex(&mut out, bus as u16, 2);
        out.push(58);
        push_hex(&mut out, device as u16, 2);
        out.push(46);
        push_hex(&mut out, function as u16, if function < 16 { 1 } else { 2 });
        proof {
            assert(out@ =~= prefix@ + device_dir(domain, bus, device, function));
        }
        out
    }

    /// A 16-bit ID from the contents of a sysfs file such as `0x10de`: the four
    /// characters after the leading `0x`, read as hexadecimal digits without a
    /// check; an error where the file is shorter than six bytes.
    pub fn parse_id(buf: &[u8]) -> (r: Result<u16, PciBackendError>)
        ensures
            buf@.len() < 6 ==> r == Err::<u16, PciBackendError>(PciBackendError::InvalidDevice),
            buf@.len() >= 6 ==> r == Ok::<u16, PciBackendError>(
                (spec_unhex(buf@[2]) as nat * 4096 + spec_unhex(buf@[3]) as nat * 256 + spec_unhex(buf@[4]) as nat
                    * 16 + spec_unhex(buf@[5]) as nat) as u16,
            ),
    {
        if buf.len() < 6 {
            return Err(PciBackendError::InvalidDevice);
        }
        let high = (unhex(buf[2]) as u16) * 16 + unhex(buf[3]) as u16;
        let low = (unhex(buf[4]) as u16) * 16 + unhex(buf[5]) as u16;
        Ok(high * 256 + low)
    }
}

/// Where a PCI device sits: domain, bus, device and function.
#[derive(Debug, Clone, Copy, PartialEq, Eq, Structural)]
pub struct PciAddress {
    pub domain: u16,
    pub bus: u8,
    pub device: u8,
    pub function: u8,
}

/// The value of hexadecimal digits, most significant first.
pub open spec fn hex_value(s: Seq<u8>) -> nat
    decreases s.len(),
{
    if s.len() == 0 {
        0
    } else {
        hex_value(s.drop_last()) * 16 + spec_unhex(s.last()) as nat
    }
}

/// Whether `s` holds `len` hexadecimal digits at `start`.
pub open spec fn hex_at(s: Seq<u8>, start: int, len: int) -> bool {
    start + len <= s.len() && all_hex(s.subrange(start, start + len))
}

pub open spec fn hex_value_at(s: Seq<u8>, start: int, len: int) -> nat {
    hex_value(s.subrange(start, start + len))
}

proof fn lemma_hex_value_bound(s: Seq<u8>)
    ensures
        hex_value(s) < pow16(s.len()),
    decreases s.len(),
{
    if s.len() > 0 {
        lemma_hex_value_bound(s.drop_last());
        assert(spec_unhex(s.last()) < 16);
        assert(hex_value(s.drop_last()) * 16 + (spec_unhex(s.last()) as nat) < pow16(s.len())) by (nonlinear_arith)
            requires
                hex_value(s.drop_last()) < pow16((s.len() - 1) as nat),
                spec_unhex(s.last()) < 16,
                pow16(s.len()) == pow16((s.len() - 1) as nat) * 16,
        ;
    }
}

pub open spec fn pow16(n: nat) -> nat
    decreases n,
{
    if n == 0 {
        1
    } else {
        pow16((n - 1) as nat) * 16
    }
}

/// `len` hexadecimal digits at `start`, at most four.
fn hex_field(s: &[u8], start: usize, len: usize) -> (r: Option<u16>)
    requires
        len <= 4,
        start + len <= s@.len(),
    ensures
        hex_at(s@, start as int, len as int) ==> r == Some(hex_value_at(s@, start as int, len as int) as u16)
            && hex_value_at(s@, start as int, len as int) < pow16(len as nat),
        !hex_at(s@, start as int, len as int) ==> r is None,
{
    let ghost field = s@.subrange(start as int, start + len);
    let n = s.len();
    let mut value: u16 = 0;
    let mut i: usize = 0;
    proof {
        lemma_hex_value_bound(field);
        lemma_pow16_values();
    }
    while i < len
        invariant
            len <= 4,
            start + len <= s@.len(),
            n == s@.len(),
            i <= len,
            field == s@.subrange(start as int, start + len),
            forall|k: int| 0 <= k < i ==> is_hex_digit(#[trigger] field[k]),
            value == hex_value(field.subrange(0, i as int)),
            hex_value(field.subrange(0, i as int)) < pow16(i as nat),
            pow16(4) == 65536,
        decreases len - i,
    {
        let b = s[start + i];
        if !((48 <= b && b <= 57) || (97 <= b && b <= 102) || (65 <= b && b <= 70)) {
            assert(!is_hex_digit(field[i as int]));
            return None;
        }
        proof {
            assert(field.subrange(0, i + 1).drop_last() =~= field.subrange(0, i as int));
            lemma_hex_value_bound(field.subrange(0, i + 1));
            lemma_pow16_grows(i as nat + 1, 4);
        }
        value = value * 16 + unhex(b) as u16;
        i = i + 1;
    }
    proof {
        assert(field.subrange(0, len as int) =~= field);
        assert(all_hex(field));
    }
    Some(value)
}

proof fn lemma_pow16_values()
    ensures
        pow16(1) == 16,
        pow16(2) == 256,
        pow16(4) == 65536,
{
    assert(pow16(0) == 1);
    assert(pow16(1) == 16);
    assert(pow16(2) == 256);
    assert(pow16(3) == 4096);
    assert(pow16(4) == 65536);
}

proof fn lemma_pow16_grows(a: nat, b: nat)
    requires
        a <= b,
    ensures
        pow16(a) <= pow16(b),
    decreases b,
{
    if a < b {
        lemma_pow16_grows(a, (b - 1) as nat);
    }
}

/// The address in a device's directory name under `/sys/bus/pci/devices/`:
/// four, two, two and one hexadecimal digits, separated by `:`, `:` and `.`;
/// `None` where the name does not start so.
pub open spec fn spec_sysfs_address(s: Seq<u8>) -> Option<PciAddress> {
    if s.len() >= 12 && hex_at(s, 0, 4) && s[4] == 58 && hex_at(s, 5, 2) && s[7] == 58 && hex_at(s, 8, 2)
        && s[10] == 46 && hex_at(s, 11, 1) {
        Some(
            PciAddress {
                domain: hex_value_at(s, 0, 4) as u16,
                bus: hex_value_at(s, 5, 2) as u8,
                device: hex_value_at(s, 8, 2) as u8,
                function: hex_value_at(s, 11, 1) as u8,
            },
        )
    } else {
        None
    }
}

pub fn parse_sysfs_address(name: &[u8]) -> (r: Option<PciAddress>)
    ensures
        r == spec_sysfs_address(name@),
{
    if name.len() < 12 || name[4] != 58 || name[7] != 58 || name[10] != 46 {
        return None;
    }
    let domain = hex_field(name, 0, 4);
    let bus = hex_field(name, 5, 2);
    let device = hex_field(name, 8, 2);
    let function = hex_field(name, 11, 1);
    match (domain, bus, device, function) {
        (Some(domain), Some(bus), Some(device), Some(function)) => {
            proof {
                lemma_pow16_values();
            }
            Some(PciAddress { domain, bus: bus as u8, device: device as u8, function: function as u8 })
        },
        _ => None,
    }
}

/// The device and function in a file name under `/proc/bus/pci/<bus>/`: two and
/// one hexadecimal digits separated by `.`; `None` where the name does not
/// start so.
pub open spec fn spec_procfs_address(s: Seq<u8>) -> Option<(u8, u8)> {
    if s.len() >= 4 && hex_at(s, 0, 2) && s[2] == 46 && hex_at(s, 3, 1) {
        Some((hex_value_at(s, 0, 2) as u8, hex_value_at(s, 3, 1) as u8))
    } else {
        None
    }
}

pub fn parse_procfs_address(name: &[u8]) -> (r: Option<(u8, u8)>)
    ensures
        r == spec_procfs_address(name@),
{
    if name.len() < 4 || name[2] != 46 {
        return None;
    }
    match (hex_field(name, 0, 2), hex_field(name, 3, 1)) {
        (Some(device), Some(function)) => {
            proof {
                lemma_pow16_values();
            }
            Some((device as u8, function as u8))
        },
        _ => None,
    }
}

/// The part of `long` between its first `[` and its first `]`, where both are
/// there in that order; `long` itself otherwise.
pub open spec fn pretty_name(long: Seq<u8>) -> Seq<u8> {
    match (first_index_of(long, 91), first_index_of(long, 93)) {
        (Some(a), Some(b)) => if a < b {
            long.subrange(a as int + 1, b as int)
        } else {
            long
        },
        _ => long,
    }
}

fn pretty_name_exec(long: &[u8]) -> (r: &[u8])
    ensures
        r@ == pretty_name(long@),
{
    match (find_byte(long, 91), find_byte(long, 93)) {
        (Some(a), Some(b)) => if a < b {
            vstd::slice::slice_subrange(long, a + 1, b)
        } else {
            long
        },
        _ => long,
    }
}

/// The name of the first subsystem whose name holds a `[`, from index `i` on.
pub open spec fn bracketed_subsystem(subsystems: Seq<Subsystem>, i: nat) -> Option<Seq<u8>>
    decreases subsystems.len() - i,
{
    if i >= subsystems.len() {
        None
    } else if first_index_of(encode_utf8(subsystems[i as int].name@), 91) is Some {
        Some(encode_utf8(subsystems[i as int].name@))
    } else {
        bracketed_subsystem(subsystems, i + 1)
    }
}

/// The vendor's short form: its first word where that starts with a capital
/// letter, else the whole name trimmed; then what comes before a `/`.
pub open spec fn short_vendor(vendor: Seq<u8>) -> Seq<u8> {
    let v = match first_index_of(vendor, 32) {
        Some(e) => if e > 0 && 65 <= vendor[0] <= 90 {
            vendor.subrange(0, e as int)
        } else {
            trim(vendor)
        },
        None => trim(vendor),
    };
    match first_index_of(v, 47) {
        Some(e) => v.subrange(0, e as int),
        None => v,
    }
}

/// The device's short name, and the suffix that replaces a laptop or integrated
/// marker.
pub open spec fn short_name(name: Seq<u8>) -> (Seq<u8>, Seq<u8>) {
    let (n, suffix) = match find_from(name, " Laptop GPU".spec_bytes(), 0) {
        Some(e) => (name.subrange(0, e as int), "(Laptop)".spec_bytes()),
        None => match find_from(name, " Integrated".spec_bytes(), 0) {
            Some(e) => (name.subrange(0, e as int), " iGPU".spec_bytes()),
            None => (name, Seq::empty()),
        },
    };
    let p = "Sapphire Pulse".spec_bytes();
    let n = if n.len() >= p.len() && n.subrange(0, p.len() as int) == p {
        n.subrange(p.len() as int, n.len() as int)
    } else {
        n
    };
    (trim(n), suffix)
}

/// A short label of a PCI device: vendor, space, name, marker.
pub open spec fn spec_pretty(dev: NamedPciDevice) -> Seq<u8> {
    let name = match bracketed_subsystem(dev.subsystems@, 0) {
        Some(n) => n,
        None => encode_utf8(dev.name@),
    };
    let name = if dev.is_gpu { pretty_name(name) } else { name };
    let (name, suffix) = short_name(name);
    short_vendor(pretty_name(encode_utf8(dev.vendor@))) + seq![32u8] + name + suffix
}

/// A PCI device shown briefly.
pub struct PrettyDevice<'dev>(pub &'dev NamedPciDevice);

impl<'dev> PrettyDevice<'dev> {
    /// The short label, as UTF-8 bytes.
    pub fn label(&self) -> (r: Vec<u8>)
        ensures
            r@ == spec_pretty(*self.0),
    {
        let dev = self.0;
        let name = chosen_name(dev);
        let name = if dev.is_gpu { pretty_name_exec(name) } else { name };
        let (name, suffix): (&[u8], &[u8]) = match find_bytes(name, " Laptop GPU".as_bytes()) {
            Some(e) => (vstd::slice::slice_subrange(name, 0, e), "(Laptop)".as_bytes()),
            None => match find_bytes(name, " Integrated".as_bytes()) {
                Some(e) => (vstd::slice::slice_subrange(name, 0, e), " iGPU".as_bytes()),
                None => (name, "".as_bytes()),
            },
        };
        let prefix = "Sapphire Pulse".as_bytes();
        let name = if name.len() >= prefix.len() && starts_with(name, prefix) {
            vstd::slice::slice_subrange(name, prefix.len(), name.len())
        } else {
            name
        };
        let name = trim_ascii(name);
        let vendor = pretty_name_exec(dev.vendor.as_str().as_bytes());
        let vendor = match find_byte(vendor, 32) {
            Some(e) => if e > 0 && 65 <= vendor[0] && vendor[0] <= 90 {
                vstd::slice::slice_subrange(vendor, 0, e)
            } else {
                trim_ascii(vendor)
            },
            None => trim_ascii(vendor),
        };
        let vendor = match find_byte(vendor, 47) {
            Some(e) => vstd::slice::slice_subrange(vendor, 0, e),
            None => vendor,
        };
        let mut out: Vec<u8> = vstd::slice::slice_to_vec(vendor);
        out.push(32);
        let mut tail = vstd::slice::slice_to_vec(name);
        out.append(&mut tail);
        let mut tail = vstd::slice::slice_to_vec(suffix);
        out.append(&mut tail);
        proof {
            vstd::string::is_ascii_spec_bytes("");
            reveal_strlit("");
        }
        out
    }
}

/// The name of the first subsystem whose name holds a `[`, else the device's.
fn chosen_name(dev: &NamedPciDevice) -> (r: &[u8])
    ensures
        r@ == match bracketed_subsystem(dev.subsystems@, 0) {
            Some(n) => n,
            None => encode_utf8(dev.name@),
        },
{
    let mut i: usize = 0;
    while i < dev.subsystems.len()
        invariant
            i <= dev.subsystems@.len(),
            bracketed_subsystem(dev.subsystems@, 0) == bracketed_subsystem(dev.subsystems@, i as nat),
        decreases dev.subsystems@.len() - i,
    {
        let sub_name = dev.subsystems[i].name.as_str().as_bytes();
        if find_byte(sub_name, 91).is_some() {
            return sub_name;
        }
        i = i + 1;
    }
    dev.name.as_str().as_bytes()
}

/// Whether `data` starts with `prefix`.
fn starts_with(data: &[u8], prefix: &[u8]) -> (r: bool)
    requires
        prefix@.len() <= data@.len(),
    ensures
        r == (data@.subrange(0, prefix@.len() as int) == prefix@),
{
    let mut i: usize = 0;
    while i < prefix.len()
        invariant
            prefix@.len() <= data@.len(),
            i <= prefix@.len(),
            forall|k: int| 0 <= k < i ==> data@[k] == prefix@[k],
        decreases prefix@.len() - i,
    {
        if data[i] != prefix[i] {
            proof {
                assert(data@.subrange(0, prefix@.len() as int)[i as int] != prefix@[i as int]);
            }
            return false;
        }
        i = i + 1;
    }
    proof {
        assert(data@.subrange(0, prefix@.len() as int) =~= prefix@);
    }
    true
}

} // verus!
