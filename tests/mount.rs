use bootc::mount::{MountSpec, MountSpecError};

#[test]
fn test_mountspec() {
    let mut ms = MountSpec::new("/dev/vda4", "/boot");
    assert_eq!(ms.to_fstab(), "/dev/vda4 /boot auto defaults 0 0");
    ms.push_option("ro");
    assert_eq!(ms.to_fstab(), "/dev/vda4 /boot auto ro 0 0");
    ms.push_option("relatime");
    assert_eq!(ms.to_fstab(), "/dev/vda4 /boot auto ro,relatime 0 0");
}

#[test]
fn mountspec_from_str() {
    let m = MountSpec::from_str("  UUID=abc  /boot\text4 ro ").unwrap();
    assert_eq!(m.source, "UUID=abc");
    assert_eq!(m.target, "/boot");
    assert_eq!(m.fstype, "ext4");
    assert_eq!(m.options.as_deref(), Some("ro"));
    assert_eq!(m.get_source_uuid().as_deref(), Some("abc"));

    let m = MountSpec::from_str("/dev/sda1 /boot").unwrap();
    assert_eq!(m.fstype, "auto");
    assert_eq!(m.options, None);
    assert_eq!(m.get_source_uuid(), None);

    let m = MountSpec::from_str("   ").unwrap();
    assert_eq!(m.source, "");
    assert_eq!(m.fstype, "auto");

    assert_eq!(
        MountSpec::from_str("/dev/sda1").unwrap_err(),
        MountSpecError::MissingTarget
    );
}

#[test]
fn mountspec_uuid_source() {
    let m = MountSpec::new_uuid_src("1234", "/boot");
    assert_eq!(m.source, "UUID=1234");
    assert_eq!(m.get_source_uuid().as_deref(), Some("1234"));
    let m = MountSpec::new("uuid=99", "/");
    assert_eq!(m.get_source_uuid().as_deref(), Some("99"));
    let m = MountSpec::new("LABEL=boot", "/");
    assert_eq!(m.get_source_uuid(), None);
}
