use benchmarks::cpu::{CoreUsageSample, CpuUsageDiff, CpuUsageSample};
use benchmarks::hex::{hex_to_u16, hex_to_u16_ioerr, unhex};
use benchmarks::meminfo::{parse_first_number, split_colon_line, trim_ascii, MemInfo};
use benchmarks::numbers::{parse_decimal, take_number};
use benchmarks::pci::{
    parse_procfs_address, parse_sysfs_address, NamedPciDevice, PCIData, PciAddress, PciBackendError,
    PrettyDevice, ProcBusProvider, Subsystem, SysBusProvider,
};
use benchmarks::swap::{parse_from_bytes, parse_i32_from_bytes, Swap};
use benchmarks::system::{is_known_posix_shell, version_in_line, Disk, HostData, Shell};

#[test]
fn hex_digits() {
    assert_eq!(unhex(b'0'), 0);
    assert_eq!(unhex(b'9'), 9);
    assert_eq!(unhex(b'a'), 10);
    assert_eq!(unhex(b'F'), 15);
    assert_eq!(unhex(b'g'), 0);
    assert_eq!(hex_to_u16(b"10de"), Some(0x10de));
    assert_eq!(hex_to_u16(b"ABCD"), Some(0xabcd));
    assert_eq!(hex_to_u16(b"12x4"), None);
    assert_eq!(hex_to_u16_ioerr(b"ffff").unwrap(), 0xffff);
    let err = hex_to_u16_ioerr(b"zzzz").unwrap_err();
    assert_eq!(err.kind(), std::io::ErrorKind::InvalidData);
}

#[test]
fn decimal_numbers() {
    assert_eq!(parse_decimal(b"0", 10), Some(0));
    assert_eq!(parse_decimal(b"1234", u64::MAX), Some(1234));
    assert_eq!(parse_decimal(b"65536", 65535), None);
    assert_eq!(parse_decimal(b"", 10), None);
    assert_eq!(parse_decimal(b"18446744073709551615", u64::MAX), Some(u64::MAX));
    assert_eq!(parse_decimal(b"18446744073709551616", u64::MAX), None);
    assert_eq!(take_number(b"  42 rest", 100), Ok(Some((42, &b" rest"[..]))));
    assert_eq!(take_number(b"  x", 100), Ok(None));
    assert_eq!(take_number(b" 101", 100), Err(()));
}

#[test]
fn first_number_of_a_value() {
    let (n, rest) = parse_first_number(b"16318520 kB").unwrap();
    assert_eq!(n, 16318520);
    assert_eq!(rest, b" kB");
    assert!(parse_first_number(b"kB").is_err());
    assert!(parse_first_number(b"99999999999999999999").is_err());
}

#[test]
fn processor_statistics_lines() {
    let line = b"cpu  10 20 30 40 50 60 70 80 0 0";
    let s = CoreUsageSample::parse_line(line).unwrap().unwrap();
    assert_eq!(s.core, None);
    assert_eq!((s.user, s.nice, s.system, s.idle), (10, 20, 30, 40));
    assert_eq!((s.iowait, s.irq, s.softirq, s.steal), (50, 60, 70, 80));
    assert_eq!(s.get_total_jiffies(), 360);
    assert_eq!(s.get_idle_jiffies(), 90);

    let s = CoreUsageSample::parse_line(b"cpu3 1 2 3 4 5 6 7 8").unwrap().unwrap();
    assert_eq!(s.core, Some(3));
    assert!(CoreUsageSample::parse_line(b"intr 1 2 3").unwrap().is_none());
    assert!(CoreUsageSample::parse_line(b"cpu 1 2 3").is_err());
    assert!(CoreUsageSample::parse_line(b"cpu70000 1 2 3 4 5 6 7 8").is_err());
}

fn global(user: u64, idle: u64) -> CoreUsageSample {
    CoreUsageSample { user, nice: 0, system: 0, idle, iowait: 0, irq: 0, softirq: 0, steal: 0, core: None }
}

#[test]
fn usage_between_two_samples() {
    let mut core0 = global(5, 5);
    core0.core = Some(0);
    let last = CpuUsageSample { sampled_at_ns: 1_000, cores: vec![core0, global(100, 50)] };
    let current = CpuUsageSample { sampled_at_ns: 3_000, cores: vec![global(160, 70)] };
    assert_eq!(current.diff_with_last(&last), Some(CpuUsageDiff { total: 80, idle: 20, over_ns: 2_000 }));
    assert_eq!(last.diff_with_last(&current), None);
    let same_time = CpuUsageSample { sampled_at_ns: 1_000, cores: vec![global(160, 70)] };
    assert_eq!(same_time.diff_with_last(&last), None);
    let no_global = CpuUsageSample { sampled_at_ns: 5_000, cores: vec![core0] };
    assert_eq!(no_global.diff_with_last(&last), None);
}

#[test]
fn memory_statistics() {
    let mut info = MemInfo::new();
    for line in [
        &b"MemTotal:       16000 kB"[..],
        b"MemFree:         4000 kB",
        b"MemAvailable:    9000 kB",
        b"Buffers:          500 kB",
        b"Cached:          3000 kB",
        b"Shmem:            200 kB",
        b"SReclaimable:     300 kB",
        b"HugePages_Total:    0",
    ] {
        let (name, value) = split_colon_line(line).unwrap();
        info.apply_field(name, value).unwrap();
    }
    info.finish();
    assert_eq!(info.total, 16000 * 1024);
    assert_eq!(info.available, 9000 * 1024);
    assert_eq!(info.used, 7000 * 1024);
    assert_eq!(info.shmem, 200 * 1024);

    let mut info = MemInfo::new();
    info.apply_field(b"MemTotal", b"1000 kB").unwrap();
    info.apply_field(b"MemFree", b"100 kB").unwrap();
    info.apply_field(b"Cached", b"200 kB").unwrap();
    info.apply_field(b"Shmem", b"50 kB").unwrap();
    info.finish();
    assert_eq!(info.available, 250 * 1024);
    assert_eq!(info.used, 750 * 1024);
    assert!(info.apply_field(b"MemTotal", b"lots").is_err());
    assert!(info.apply_field(b"Other", b"lots").is_ok());
}

#[test]
fn colon_lines_and_trimming() {
    assert_eq!(split_colon_line(b" model name\t: Some CPU @ 3GHz "), Some((&b"model name"[..], &b"Some CPU @ 3GHz"[..])));
    assert_eq!(split_colon_line(b"no colon"), None);
    assert_eq!(trim_ascii(b" \t x y \n"), b"x y");
    assert_eq!(trim_ascii(b"   "), b"");
}

#[test]
fn swap_table_lines() {
    let s = Swap::from_line(b"/dev/nvme0n1p3  partition\t8388604\t1024\t-2").unwrap();
    assert_eq!(s.name, b"/dev/nvme0n1p3".to_vec());
    assert_eq!(s.size, 8388604 * 1024);
    assert_eq!(s.used, 1024 * 1024);
    assert_eq!(s.priority, -2);
    let s = Swap::from_line(b"/swapfile file 100 500 +5").unwrap();
    assert_eq!(s.used, 100 * 1024);
    assert_eq!(s.priority, 5);
    assert!(Swap::from_line(b"/swapfile file 100 500").is_err());
    assert!(Swap::from_line(b"/swapfile file 1x0 500 1").is_err());
    assert_eq!(parse_from_bytes(b"+12"), Ok(12));
    assert!(parse_from_bytes(b"-12").is_err());
    assert_eq!(parse_i32_from_bytes(b"-2147483648"), Some(i32::MIN));
    assert_eq!(parse_i32_from_bytes(b"2147483648"), None);
}

fn device(name: &str, is_gpu: bool) -> NamedPciDevice {
    NamedPciDevice {
        vid: 1,
        did: 2,
        name: name.to_string(),
        vendor: "V".to_string(),
        subsystems: Vec::new(),
        is_gpu,
    }
}

#[test]
fn pci_gpus_and_config_space() {
    let data = PCIData { all_devices_named: vec![device("a", false), device("b", true), device("c", true)] };
    let names: Vec<&str> = data.gpus().iter().map(|d| d.name.as_str()).collect();
    assert_eq!(names, vec!["b", "c"]);

    assert_eq!(ProcBusProvider::from_devfile(vec![0; 15]).unwrap_err(), PciBackendError::InvalidDevice);
    let mut config = vec![0u8; 64];
    config[0] = 0xde;
    config[1] = 0x10;
    config[2] = 0x84;
    config[3] = 0x25;
    config[8] = 0xa1;
    config[10] = 0x00;
    config[11] = 0x03;
    config[47] = 0x43;
    config[48] = 0x10;
    config[49] = 0x01;
    config[50] = 0x02;
    let p = ProcBusProvider::from_devfile(config.clone()).unwrap();
    assert_eq!(p.get_vendor(), 0x10de);
    assert_eq!(p.get_device(), 0x2584);
    assert_eq!(p.get_revision(), 0xa1);
    assert_eq!(p.get_class(), vec![0x03, 0x00]);
    assert_eq!(p.get_header_type(), 0);
    assert_eq!(p.get_susbystem_vid(), Ok(0x1043));
    assert_eq!(p.get_susbystem_did(), Ok(0x0201));
    config[14] = 2;
    let p = ProcBusProvider::from_devfile(config.clone()).unwrap();
    assert_eq!(p.get_susbystem_vid(), Err(PciBackendError::InvalidDevice));
    config[14] = 1;
    let p = ProcBusProvider::from_devfile(config).unwrap();
    assert_eq!(p.get_susbystem_did(), Err(PciBackendError::NotAvailable));
}

#[test]
fn sysfs_paths_and_ids() {
    let path = SysBusProvider.path_for_device(0, 0x2b, 0, 1);
    assert_eq!(path, b"/sys/bus/pci/devices/0000:2b:00.1".to_vec());
    let path = SysBusProvider.path_for_device(0xabcd, 1, 0x1f, 0x1e);
    assert_eq!(path, b"/sys/bus/pci/devices/abcd:01:1f.1e".to_vec());
    assert_eq!(SysBusProvider::parse_id(b"0x10de\n"), Ok(0x10de));
    assert_eq!(SysBusProvider::parse_id(b"0x10"), Err(PciBackendError::InvalidDevice));
}

#[test]
fn shells_and_versions() {
    let shell = Shell { path: b"/usr/bin/bash".to_vec(), version: Some("5.2.15".to_string()) };
    assert_eq!(shell.name(), b"bash");
    assert_eq!(shell.version(), Some("5.2.15"));
    let shell = Shell { path: b"/bin/zsh/".to_vec(), version: None };
    assert_eq!(shell.name(), b"zsh");
    assert_eq!(shell.version(), None);
    let shell = Shell { path: b"/".to_vec(), version: None };
    assert_eq!(shell.name(), b"UNKNOWN");
    assert!(is_known_posix_shell(b"fish"));
    assert!(is_known_posix_shell(b"sh"));
    assert!(!is_known_posix_shell(b"nu"));
    assert_eq!(
        version_in_line(b"GNU bash, version 5.2.15(1)-release (x86_64-pc-linux-gnu)"),
        Some(Some(&b"5.2.15"[..]))
    );
    assert_eq!(version_in_line(b"fish, version 3.6.0"), Some(Some(&b"3.6.0"[..])));
    assert_eq!(version_in_line(b"no mention here"), None);
    assert_eq!(version_in_line(b"version unknown"), Some(None));
}

#[test]
fn kernel_versions_and_disk_sizes() {
    assert_eq!(HostData::kernel_version(b"6.1.0-13-amd64"), b"6.1.0");
    assert_eq!(HostData::kernel_version(b"6.8.9"), b"6.8.9");
    assert_eq!(Disk::size_in_bytes(1000, None), 512_000);
    assert_eq!(Disk::size_in_bytes(1000, Some(4096)), 4_096_000);
    assert_eq!(Disk::size_in_bytes(u64::MAX, Some(2)), u64::MAX);
}

#[test]
fn pci_addresses() {
    assert_eq!(
        parse_sysfs_address(b"0000:2b:00.1"),
        Some(PciAddress { domain: 0, bus: 0x2b, device: 0, function: 1 })
    );
    assert_eq!(
        parse_sysfs_address(b"ABcd:ff:1F.7/extra"),
        Some(PciAddress { domain: 0xabcd, bus: 0xff, device: 0x1f, function: 7 })
    );
    assert_eq!(parse_sysfs_address(b"0000:2b:00"), None);
    assert_eq!(parse_sysfs_address(b"0000-2b:00.1"), None);
    assert_eq!(parse_sysfs_address(b"00g0:2b:00.1"), None);
    assert_eq!(parse_procfs_address(b"1f.3"), Some((0x1f, 3)));
    assert_eq!(parse_procfs_address(b"1f:3"), None);
    assert_eq!(parse_procfs_address(b"1f."), None);
}

fn pci(vendor: &str, name: &str, subsystems: Vec<&str>, is_gpu: bool) -> NamedPciDevice {
    NamedPciDevice {
        vid: 0,
        did: 0,
        name: name.to_string(),
        vendor: vendor.to_string(),
        subsystems: subsystems
            .into_iter()
            .map(|n| Subsystem { vid: 0, did: 0, name: n.to_string() })
            .collect(),
        is_gpu,
    }
}

#[test]
fn short_device_labels() {
    let label = |d: &NamedPciDevice| String::from_utf8(PrettyDevice(d).label()).unwrap();
    let d = pci("NVIDIA Corporation", "AD102 [GeForce RTX 4090]", vec![], true);
    assert_eq!(label(&d), "NVIDIA GeForce RTX 4090");
    let d = pci(
        "Advanced Micro Devices, Inc. [AMD/ATI]",
        "Navi 31 [Radeon RX 7900 XT/7900 XTX/7900M]",
        vec!["Device 1234", "Navi 31 [Sapphire Pulse RX 7900 XT]"],
        true,
    );
    assert_eq!(label(&d), "AMD RX 7900 XT");
    let d = pci("NVIDIA Corporation", "AD107M [GeForce RTX 4060 Laptop GPU]", vec![], true);
    assert_eq!(label(&d), "NVIDIA GeForce RTX 4060(Laptop)");
    let d = pci("intel corporation", " Intel Integrated Graphics ", vec![], false);
    assert_eq!(label(&d), "intel corporation Intel iGPU");
    let d = pci("Realtek ", "RTL8125 2.5GbE Controller", vec![], false);
    assert_eq!(label(&d), "Realtek RTL8125 2.5GbE Controller");
}
