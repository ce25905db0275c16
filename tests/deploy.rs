use bootc::bls::parse_bls_config;
use bootc::deploy::{
    bls_entries_dir, demote_booted_entry, user_cfg_name, user_cfg_upgrade, bls_entry_for_deployment, check_uki_cmdline, composefs_karg, efi_uuid_cfg, entry_file_name,
    find_vmlinuz_initrd_duplicates, insecure_mismatch, install_cmdline, upgrade_cmdline,
    user_cfg, BootType, BootTypeError, InsecureMismatch, UkiCmdlineError,
};

const ID: &str = "7e11ac46e3e022053e7226a20104ac656bf72d1a84e3a398b7cce70e9df188b6";

#[test]
fn composefs_karg_marks_insecure() {
    assert_eq!(composefs_karg("abc", false), "composefs=abc");
    assert_eq!(composefs_karg("abc", true), "composefs=?abc");
}

#[test]
fn install_cmdline_appends_composefs() {
    let kargs = vec!["root=UUID=1234".to_string(), "rw".to_string()];
    assert_eq!(
        install_cmdline(&kargs, "abc", false),
        "root=UUID=1234 rw composefs=abc"
    );
    assert_eq!(install_cmdline(&vec![], "abc", true), " composefs=?abc");
    assert_eq!(
        upgrade_cmdline("abc"),
        "root=UUID=6523f8ae-3eb1-4e2a-a05a-18b695ae656f rw composefs=abc"
    );
}

#[test]
fn duplicate_kernel_is_shared() {
    let origins = vec![
        ("aaa".to_string(), None),
        ("bbb".to_string(), Some("d1".to_string())),
        ("ccc".to_string(), Some("d2".to_string())),
        ("ddd".to_string(), Some("d2".to_string())),
    ];
    assert_eq!(find_vmlinuz_initrd_duplicates(&origins, "d2"), Some("ccc".to_string()));
    assert_eq!(find_vmlinuz_initrd_duplicates(&origins, "d3"), None);

    let (e, shared) = bls_entry_for_deployment(ID, "rw".to_string(), &origins, "d1");
    assert_eq!(shared.as_deref(), Some("bbb"));
    assert_eq!(e.linux, "/boot/bbb/vmlinuz");
    assert_eq!(e.initrd, vec!["/boot/bbb/initrd"]);

    let (e, shared) = bls_entry_for_deployment(ID, "rw".to_string(), &origins, "zz");
    assert_eq!(shared, None);
    assert_eq!(e.linux, format!("/boot/{ID}/vmlinuz"));
    assert_eq!(e.initrd, vec![format!("/boot/{ID}/initrd")]);
    assert_eq!(e.title.as_deref(), Some(ID));
    assert_eq!(e.sort_key.as_deref(), Some("1"));
    assert_eq!(entry_file_name("1"), "bootc-composefs-1.conf");
}

#[test]
fn install_entry_options_hold_root_and_composefs() {
    let kargs = vec!["root=UUID=abcd-ef".to_string(), "rw".to_string()];
    let opts = install_cmdline(&kargs, ID, false);
    let (mut e, _) = bls_entry_for_deployment(ID, opts, &vec![], "digest");
    e.version = "1".to_string();
    let text = e.to_string();
    let back = parse_bls_config(&text).unwrap();
    let options = back.options.unwrap();
    assert!(options.contains("root=UUID=abcd-ef"));
    assert!(options.split(' ').any(|o| o == "rw"));
    assert!(options.contains(&format!("composefs={ID}")));
}

#[test]
fn uki_cmdline_must_name_the_deployment() {
    assert_eq!(check_uki_cmdline(&format!("quiet composefs={ID} rw"), ID), Ok(false));
    assert_eq!(check_uki_cmdline(&format!("composefs=?{ID}"), ID), Ok(true));
    assert_eq!(
        check_uki_cmdline("quiet rw", ID),
        Err(UkiCmdlineError::MissingComposefs)
    );
    assert_eq!(
        check_uki_cmdline("composefs=?other", ID),
        Err(UkiCmdlineError::WrongDeployment("other".to_string()))
    );
}

#[test]
fn insecure_mismatch_is_reported() {
    assert_eq!(
        insecure_mismatch(Some(true), false),
        Some(InsecureMismatch::OptionWithoutCmdline)
    );
    assert_eq!(
        insecure_mismatch(Some(false), true),
        Some(InsecureMismatch::CmdlineWithoutOption)
    );
    assert_eq!(insecure_mismatch(Some(true), true), None);
    assert_eq!(insecure_mismatch(None, true), None);
}

#[test]
fn grub_user_cfg() {
    assert_eq!(efi_uuid_cfg(" 1234-ABCD\n"), "set EFI_PART_UUID=\"1234-ABCD\"");
    let cfg = user_cfg("Fedora", "abc");
    assert!(cfg.starts_with("\nif [ -f ${config_directory}/efiuuid.cfg ]; then\n"));
    assert!(cfg.ends_with("menuentry \"Fedora: (abc)\" {\ninsmod fat\ninsmod chain\nsearch --no-floppy --set=root --fs-uuid \"${EFI_PART_UUID}\"\nchainloader /EFI/Linux/abc.efi\n}\n"));
}

#[test]
fn boot_type_names() {
    assert_eq!(BootType::try_from("bls"), Ok(BootType::Bls));
    assert_eq!(BootType::try_from("uki"), Ok(BootType::Uki));
    assert_eq!(
        BootType::try_from("grub"),
        Err(BootTypeError::Unrecognized("grub".to_string()))
    );
    assert_eq!(BootType::Uki.to_string(), "uki");
}

#[test]
fn upgrade_paths_and_demotion() {
    assert_eq!(bls_entries_dir(false), "loader/entries");
    assert_eq!(bls_entries_dir(true), "loader/entries.staged");
    assert_eq!(user_cfg_name(false), "user.cfg");
    assert_eq!(user_cfg_name(true), "user.cfg.staged");
    let mut booted = parse_bls_config("version 1\nlinux /a\nsort-key 1\n").unwrap();
    demote_booted_entry(&mut booted);
    assert_eq!(booted.sort_key.as_deref(), Some("0"));
    assert_eq!(booted.linux, "/a");
    let cfg = user_cfg_upgrade("L", "new", "menuentry \"old\" {\n}\n");
    assert!(cfg.ends_with("chainloader /EFI/Linux/new.efi\n}\nmenuentry \"old\" {\n}\n"));
}
