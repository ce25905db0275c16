use bootc::cmdline::Cmdline;
use bootc::deploy::install_cmdline;
use bootc::rootfs::{
    backing_step, find_mount_option, root_mount_by_uuid, find_root_args_to_inherit, install_kargs, require_empty_rootdir, BackingError,
    BackingStep, RootArgsError, RootDirError, RootMountInfo,
};

fn names(v: &[&str]) -> Vec<String> {
    v.iter().map(|s| s.to_string()).collect()
}

#[test]
fn empty_root_accepted() {
    assert_eq!(require_empty_rootdir(&names(&[]), &names(&[])), Ok(()));
    assert_eq!(require_empty_rootdir(&names(&["lost+found", "boot"]), &names(&[])), Ok(()));
    assert_eq!(require_empty_rootdir(&names(&["boot"]), &names(&["efi"])), Ok(()));
    assert_eq!(require_empty_rootdir(&names(&["boot"]), &names(&["lost+found", "efi"])), Ok(()));
}

#[test]
fn non_empty_root_refused() {
    assert_eq!(
        require_empty_rootdir(&names(&["lost+found", "etc", "boot"]), &names(&[])),
        Err(RootDirError::NonEmptyRoot("etc".to_string()))
    );
    assert_eq!(
        require_empty_rootdir(&names(&["boot", "usr"]), &names(&["vmlinuz"])),
        Err(RootDirError::NonEmptyBoot("vmlinuz".to_string()))
    );
    assert_eq!(
        require_empty_rootdir(&names(&["boot"]), &names(&["efi", "grub2"])),
        Err(RootDirError::NonEmptyBoot("grub2".to_string()))
    );
}

#[test]
fn root_args_from_cmdline() {
    let c = Cmdline::from(
        b"root=UUID=abc rootflags=subvol=root rd.luks.uuid=x quiet rd.break".as_slice(),
    );
    let info = find_root_args_to_inherit(&c, Some("zzz")).unwrap();
    assert_eq!(info.mount_spec, "UUID=abc");
    assert_eq!(
        info.kargs,
        vec!["rootflags=subvol=root", "rd.luks.uuid=x", "rd.break"]
    );
}

#[test]
fn root_args_from_uuid() {
    let c = Cmdline::from(b"quiet".as_slice());
    let info = find_root_args_to_inherit(&c, Some("1234")).unwrap();
    assert_eq!(info.mount_spec, "UUID=1234");
    assert!(info.kargs.is_empty());
    assert_eq!(
        find_root_args_to_inherit(&c, None),
        Err(RootArgsError::NoUuid)
    );
    let mut bad = b"root=".to_vec();
    bad.push(0xff);
    assert_eq!(
        find_root_args_to_inherit(&Cmdline::from(&bad), Some("1")),
        Err(RootArgsError::InvalidRoot)
    );
}

#[test]
fn install_kargs_with_boot_mount() {
    let root = RootMountInfo { mount_spec: "UUID=abcd".to_string(), kargs: vec!["rd.break".to_string()] };
    let (boot, kargs) = install_kargs(&root, None, Some("b00t"));
    let boot = boot.unwrap();
    assert_eq!(boot.source, "UUID=b00t");
    assert_eq!(boot.target, "/boot");
    assert_eq!(boot.options.as_deref(), Some("ro"));
    assert_eq!(kargs, vec!["root=UUID=abcd", "rd.break", "rw", "boot=UUID=b00t"]);
    let opts = install_cmdline(&kargs, "ID", false);
    assert_eq!(opts, "root=UUID=abcd rd.break rw boot=UUID=b00t composefs=ID");
}

#[test]
fn install_kargs_edge_cases() {
    let root = RootMountInfo { mount_spec: "".to_string(), kargs: vec![] };
    let (boot, kargs) = install_kargs(&root, Some(""), Some("x"));
    assert!(boot.is_none());
    assert_eq!(kargs, vec!["rw"]);
    let root = RootMountInfo { mount_spec: "/dev/vda3".to_string(), kargs: vec![] };
    let (boot, kargs) = install_kargs(&root, Some("/dev/vda2"), None);
    assert_eq!(boot.unwrap().source, "/dev/vda2");
    assert_eq!(kargs, vec!["root=/dev/vda3", "rw", "boot=/dev/vda2"]);
}

#[test]
fn backing_device_steps() {
    assert_eq!(backing_step(vec![]), Ok(BackingStep::Done));
    assert_eq!(
        backing_step(vec!["/dev/vda".to_string()]),
        Ok(BackingStep::Parent("/dev/vda".to_string()))
    );
    assert_eq!(
        backing_step(vec!["/dev/a".to_string(), "/dev/b".to_string()]),
        Err(BackingError::MultipleParents("/dev/a".to_string(), "/dev/b".to_string()))
    );
}

#[test]
fn btrfs_subvolume_root_flags() {
    let info = root_mount_by_uuid("abcd", "btrfs", "rw,relatime,subvol=/root,compress=zstd");
    assert_eq!(info.mount_spec, "UUID=abcd");
    assert_eq!(info.kargs, vec!["rootflags=subvol=/root"]);
    let info = root_mount_by_uuid("abcd", "ext4", "rw,subvol=/root");
    assert!(info.kargs.is_empty());
    let info = root_mount_by_uuid("abcd", "btrfs", "rw,relatime");
    assert!(info.kargs.is_empty());
    assert_eq!(find_mount_option("subvol=a,subvol=b", "subvol").as_deref(), Some("a"));
    assert_eq!(find_mount_option("subvolid=5", "subvol"), None);
    assert_eq!(find_mount_option("", "subvol"), None);
}

#[test]
fn kargs_merged_in_order() {
    let v = |x: &[&str]| x.iter().map(|s| s.to_string()).collect::<Vec<_>>();
    let r = bootc::rootfs::merge_kargs(&v(&["root=UUID=a", "rw"]), &v(&["console=ttyS0"]), &v(&["quiet"]), &v(&["x=1"]));
    assert_eq!(r, vec!["root=UUID=a", "rw", "console=ttyS0", "quiet", "x=1"]);
}
