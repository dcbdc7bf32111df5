use benchmarks::cpu::{group_cores, parse_max_freq, Core, CPUFeatures};
use benchmarks::usbdb::{query_usb_devices, UsbIdsQuery};

fn logical(processor: u16, core_id: u16, physical_id: u16, name: &str) -> Core {
    let mut c = Core::new();
    c.apply_field(b"processor", processor.to_string().as_bytes());
    c.apply_field(b"core id", core_id.to_string().as_bytes());
    c.apply_field(b"physical id", physical_id.to_string().as_bytes());
    c.apply_field(b"model name", name.as_bytes());
    c
}

#[test]
fn processor_listing_fields() {
    let mut c = Core::new();
    c.apply_field(b"processor", b"7");
    c.apply_field(b"core id", b"3");
    c.apply_field(b"physical id", b"1");
    c.apply_field(b"model name", "Ryzen \u{2122} 9".as_bytes());
    c.apply_field(b"flags", b"fpu sse sse2 avx avx2 bmi2");
    c.apply_field(b"cpu MHz", b"3400.000");
    assert_eq!((c.processor, c.core_id, c.physical_id), (7, 3, 1));
    assert_eq!(c.name, "Ryzen \u{2122} 9");
    assert_eq!(c.features, CPUFeatures { sse: true, avx2: true, avx512: false });
    c.apply_field(b"core id", b"many");
    c.apply_field(b"model name", &[0xff, 0xfe]);
    assert_eq!(c.core_id, 3);
    assert_eq!(c.name, "Ryzen \u{2122} 9");
    c.apply_field(b"flags", b"sse avx512f");
    assert!(c.features.avx512 && !c.features.avx2);
}

#[test]
fn logical_processors_group_by_package() {
    let cores = vec![
        logical(0, 0, 0, "A"),
        logical(1, 1, 0, "A"),
        logical(2, 0, 0, "A"),
        logical(3, 0, 1, "B"),
        logical(4, 1, 1, "B"),
    ];
    let freqs = vec![Some(3000), Some(5000), None, Some(2000), None];
    let cpus = group_cores(&cores, &freqs);
    assert_eq!(cpus.len(), 2);
    assert_eq!(cpus[0].name, "A");
    assert_eq!(cpus[0].cores, 2);
    assert_eq!(cpus[0].threads, 3);
    assert_eq!(cpus[0].max_freq_khz, 4000);
    assert_eq!(cpus[1].name, "B");
    assert_eq!(cpus[1].cores, 2);
    assert_eq!(cpus[1].threads, 2);
    assert_eq!(cpus[1].max_freq_khz, 2000);

    let none = group_cores(&Vec::new(), &Vec::new());
    assert_eq!(none.len(), 1);
    assert_eq!(none[0].threads, 0);
    assert_eq!(none[0].name, "");

    let unknown = group_cores(&vec![logical(0, 0, 0, "C")], &vec![None]);
    assert_eq!(unknown[0].max_freq_khz, 0);
}

#[test]
fn maximum_frequency_files() {
    assert_eq!(parse_max_freq(b"4672000\n"), Some(4672000));
    assert_eq!(parse_max_freq(b"  12 "), Some(12));
    assert_eq!(parse_max_freq(b"12 kHz"), None);
    assert_eq!(parse_max_freq(b"4294967296"), None);
    assert_eq!(parse_max_freq(b""), None);
}

fn db() -> Vec<Vec<u8>> {
    [
        "# usb.ids",
        "",
        "046d  Logitech, Inc.",
        "\tc077  M105 Optical Mouse",
        "\tc31c  Keyboard K120 # comment",
        "\t\tffff  an interface line",
        "1d6b  Linux Foundation",
        "\t0002  2.0 root hub",
        "\t0003  3.0 root hub",
        "8087  Intel Corp.",
        "\t0024  Integrated Rate Matching Hub",
    ]
    .iter()
    .map(|l| l.as_bytes().to_vec())
    .collect()
}

#[test]
fn usb_devices_are_named_from_the_database() {
    let found = query_usb_devices(vec![(0x1d6b, 0x0003), (0x046d, 0xc31c)], &db()).unwrap();
    assert_eq!(found.len(), 2);
    assert_eq!((found[0].vid, found[0].did), (0x046d, 0xc31c));
    assert_eq!(found[0].name, "Keyboard K120");
    assert_eq!(found[0].vendor, "Logitech, Inc.");
    assert_eq!((found[1].vid, found[1].did), (0x1d6b, 0x0003));
    assert_eq!(found[1].name, "3.0 root hub");
    assert_eq!(found[1].vendor, "Linux Foundation");

    let none = query_usb_devices(vec![(0x1234, 0x0001)], &db()).unwrap();
    assert!(none.is_empty());
}

#[test]
fn usb_lookup_stops_once_everything_is_found() {
    let mut query = UsbIdsQuery::new(vec![(0x046d, 0xc077)]);
    let lines = db();
    assert!(query.feed_line(&lines[2]).unwrap());
    assert!(query.feed_line(&lines[3]).unwrap());
    assert!(!query.feed_line(&lines[4]).unwrap());
    assert_eq!(query.into_found().len(), 1);
}

#[test]
fn usb_names_must_be_utf8() {
    let lines = vec![b"046d  \xff\xfe".to_vec()];
    let err = query_usb_devices(vec![(0x046d, 1)], &lines).unwrap_err();
    assert_eq!(err.kind(), std::io::ErrorKind::InvalidData);
}
