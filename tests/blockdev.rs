use bootc::blockdev::{
    direct_io_setting, parse_size_mib, CloseAction, Device, LoopbackDevice, Partition,
    PartitionError, PartitionTable, PartitionType, SizeError,
};

#[test]
fn test_parse_size_mib() {
    let ident_cases = [0, 10, 9, 1024].into_iter().map(|k| (k.to_string(), k));
    let cases = [
        ("0M", 0),
        ("10M", 10),
        ("10MiB", 10),
        ("1G", 1024),
        ("9G", 9216),
        ("11T", 11 * 1024 * 1024),
    ]
    .into_iter()
    .map(|(k, v)| (k.to_string(), v));
    for (s, v) in ident_cases.chain(cases) {
        assert_eq!(parse_size_mib(&s).unwrap(), v as u64, "Parsing {s}");
    }
}

#[test]
fn size_with_unknown_suffix_is_refused() {
    assert_eq!(parse_size_mib("10X"), Err(SizeError::InvalidNumber));
    assert_eq!(parse_size_mib(""), Err(SizeError::InvalidNumber));
    assert_eq!(parse_size_mib("M"), Err(SizeError::InvalidNumber));
}

#[test]
fn size_with_text_after_suffix_is_refused() {
    assert_eq!(parse_size_mib("10M5"), Err(SizeError::TrailingText));
    assert_eq!(parse_size_mib("1GiBx"), Err(SizeError::TrailingText));
}

#[test]
fn size_edges() {
    assert_eq!(parse_size_mib("0"), Ok(0));
    assert_eq!(parse_size_mib("2TiB"), Ok(2 * 1024 * 1024));
    assert_eq!(parse_size_mib("+3G"), Ok(3072));
    assert_eq!(
        parse_size_mib("18446744073709551615"),
        Ok(u64::MAX)
    );
    assert_eq!(
        parse_size_mib("18446744073709551616"),
        Err(SizeError::InvalidNumber)
    );
    assert_eq!(
        parse_size_mib("18446744073709551615G"),
        Err(SizeError::Overflow)
    );
}

#[test]
fn size_decimal_round_trip() {
    for n in [0u64, 1, 42, 1024, 9216, u64::MAX] {
        assert_eq!(parse_size_mib(&n.to_string()), Ok(n));
    }
}

fn device(name: &str, path: Option<&str>, children: Option<Vec<Device>>) -> Device {
    Device {
        name: name.to_string(),
        serial: None,
        model: None,
        partlabel: None,
        parttype: None,
        partuuid: None,
        children,
        size: 0,
        maj_min: None,
        start: None,
        label: None,
        fstype: None,
        path: path.map(|p| p.to_string()),
    }
}

#[test]
fn device_path_defaults_to_dev() {
    assert_eq!(device("sda", None, None).path(), "/dev/sda");
    assert_eq!(device("sda", Some("/dev/disk/x"), None).path(), "/dev/disk/x");
}

#[test]
fn device_children() {
    assert!(!device("sda", None, None).has_children());
    assert!(!device("sda", None, Some(vec![])).has_children());
    assert!(device("sda", None, Some(vec![device("sda1", None, None)])).has_children());
}

fn partition(node: &str, start: u64) -> Partition {
    Partition {
        node: node.to_string(),
        start,
        size: 1,
        parttype: "0FC63DAF-8483-4772-8E79-3D69D8477DE4".to_string(),
        uuid: None,
        name: None,
    }
}

#[test]
fn partition_table_lookups() {
    let t = PartitionTable {
        label: PartitionType::Gpt,
        id: "A67AA901-2C72-4818-B098-7F1CAC127279".to_string(),
        device: "/dev/loop0".to_string(),
        partitions: vec![partition("/dev/loop0p1", 2048), partition("/dev/loop0p2", 4096)],
    };
    assert_eq!(t.path(), "/dev/loop0");
    assert_eq!(t.find("/dev/loop0p2").unwrap().start, 4096);
    assert!(t.find("/dev/loop0p3").is_none());
    assert_eq!(t.find_partno(1).unwrap().start, 2048);
    assert_eq!(t.find_partno(2).unwrap().path(), "/dev/loop0p2");
    assert_eq!(
        t.find_partno(3).unwrap_err(),
        PartitionError::MissingPartition(3)
    );
}

#[test]
fn loopback_close_detaches_once() {
    let mut dev = LoopbackDevice::new("/dev/loop3".to_string(), Some(4242));
    assert_eq!(dev.path(), "/dev/loop3");
    assert_eq!(
        dev.close(),
        Some(CloseAction { detach: "/dev/loop3".to_string(), kill_helper: Some(4242) })
    );
    assert_eq!(dev.close(), None);
    let mut no_helper = LoopbackDevice::new("/dev/loop4".to_string(), None);
    assert_eq!(
        no_helper.close(),
        Some(CloseAction { detach: "/dev/loop4".to_string(), kill_helper: None })
    );
}

#[test]
fn direct_io_from_environment() {
    assert_eq!(direct_io_setting(Some("on")), "on");
    assert_eq!(direct_io_setting(Some("yes")), "off");
    assert_eq!(direct_io_setting(None), "off");
}

#[test]
fn esp_is_found_by_type() {
    let mut esp = partition("/dev/vda2", 4096);
    esp.parttype = "C12A7328-F81F-11D2-BA4B-00A0C93EC93B".to_string();
    esp.uuid = Some("1234".to_string());
    let t = PartitionTable {
        label: PartitionType::Gpt,
        id: "x".to_string(),
        device: "/dev/vda".to_string(),
        partitions: vec![partition("/dev/vda1", 2048), esp],
    };
    let p = t.esp_partition().unwrap();
    assert_eq!(p.node, "/dev/vda2");
    assert_eq!(p.uuid.as_deref(), Some("1234"));
    let none = PartitionTable {
        label: PartitionType::Dos,
        id: "y".to_string(),
        device: "/dev/vdb".to_string(),
        partitions: vec![partition("/dev/vdb1", 2048)],
    };
    assert!(none.esp_partition().is_none());
}
