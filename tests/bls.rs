use bootc::bls::{parse_bls_config, BlsError};

#[test]
fn test_parse_valid_bls_config() {
    let input = r#"
            title Fedora 42.20250623.3.1 (CoreOS)
            version 2
            linux /boot/7e11ac46e3e022053e7226a20104ac656bf72d1a84e3a398b7cce70e9df188b6/vmlinuz-5.14.10
            initrd /boot/7e11ac46e3e022053e7226a20104ac656bf72d1a84e3a398b7cce70e9df188b6/initramfs-5.14.10.img
            options root=UUID=abc123 rw composefs=7e11ac46e3e022053e7226a20104ac656bf72d1a84e3a398b7cce70e9df188b6
            custom1 value1
            custom2 value2
        "#;

    let config = parse_bls_config(input).unwrap();

    assert_eq!(
        config.title,
        Some("Fedora 42.20250623.3.1 (CoreOS)".to_string())
    );
    assert_eq!(config.version, "2");
    assert_eq!(config.linux, "/boot/7e11ac46e3e022053e7226a20104ac656bf72d1a84e3a398b7cce70e9df188b6/vmlinuz-5.14.10");
    assert_eq!(config.initrd, vec!["/boot/7e11ac46e3e022053e7226a20104ac656bf72d1a84e3a398b7cce70e9df188b6/initramfs-5.14.10.img"]);
    assert_eq!(config.options, Some("root=UUID=abc123 rw composefs=7e11ac46e3e022053e7226a20104ac656bf72d1a84e3a398b7cce70e9df188b6".to_string()));
    assert_eq!(config.extra_value("custom1"), Some(&"value1".to_string()));
    assert_eq!(config.extra_value("custom2"), Some(&"value2".to_string()));
}

#[test]
fn test_parse_multiple_initrd() {
    let input = r#"
            title Fedora 42.20250623.3.1 (CoreOS)
            version 2
            linux /boot/vmlinuz
            initrd /boot/initramfs-1.img
            initrd /boot/initramfs-2.img
            options root=UUID=abc123 rw
        "#;

    let config = parse_bls_config(input).unwrap();

    assert_eq!(
        config.initrd,
        vec!["/boot/initramfs-1.img", "/boot/initramfs-2.img"]
    );
}

#[test]
fn test_parse_missing_version() {
    let input = r#"
            title Fedora
            linux /vmlinuz
            initrd /initramfs.img
            options root=UUID=xyz ro quiet
        "#;

    let parsed = parse_bls_config(input);
    assert!(parsed.is_err());
}

#[test]
fn test_parse_missing_linux() {
    let input = r#"
            title Fedora
            version 1
            initrd /initramfs.img
            options root=UUID=xyz ro quiet
        "#;

    let parsed = parse_bls_config(input);
    assert!(parsed.is_err());
}

#[test]
fn test_display_output() {
    let input = r#"
            title Test OS
            version 10
            linux /boot/vmlinuz
            initrd /boot/initrd.img
            initrd /boot/initrd-extra.img
            options root=UUID=abc composefs=some-uuid
            foo bar
        "#;

    let config = parse_bls_config(input).unwrap();
    let output = config.to_string();
    let mut output_lines = output.lines();

    assert_eq!(output_lines.next().unwrap(), "title Test OS");
    assert_eq!(output_lines.next().unwrap(), "version 10");
    assert_eq!(output_lines.next().unwrap(), "linux /boot/vmlinuz");
    assert_eq!(output_lines.next().unwrap(), "initrd /boot/initrd.img");
    assert_eq!(
        output_lines.next().unwrap(),
        "initrd /boot/initrd-extra.img"
    );
    assert_eq!(
        output_lines.next().unwrap(),
        "options root=UUID=abc composefs=some-uuid"
    );
    assert_eq!(output_lines.next().unwrap(), "foo bar");
}

fn parse(s: &str) -> bootc::bls::BLSConfig {
    parse_bls_config(s).unwrap()
}

#[test]
fn test_ordering_by_version() {
    let config1 = parse(
        r#"
            title Entry 1
            version 3
            linux /vmlinuz-3
            initrd /initrd-3
            options opt1
        "#,
    );
    let config2 = parse(
        r#"
            title Entry 2
            version 5
            linux /vmlinuz-5
            initrd /initrd-5
            options opt2
        "#,
    );
    assert!(config1 > config2);
}

#[test]
fn test_ordering_by_sort_key() {
    let config1 = parse(
        r#"
            title Entry 1
            version 3
            sort-key a
            linux /vmlinuz-3
            initrd /initrd-3
            options opt1
        "#,
    );
    let config2 = parse(
        r#"
            title Entry 2
            version 5
            sort-key b
            linux /vmlinuz-5
            initrd /initrd-5
            options opt2
        "#,
    );
    assert!(config1 < config2);
}

#[test]
fn test_ordering_by_sort_key_and_version() {
    let config1 = parse(
        r#"
            title Entry 1
            version 3
            sort-key a
            linux /vmlinuz-3
            initrd /initrd-3
            options opt1
        "#,
    );
    let config2 = parse(
        r#"
            title Entry 2
            version 5
            sort-key a
            linux /vmlinuz-5
            initrd /initrd-5
            options opt2
        "#,
    );
    assert!(config1 > config2);
}

#[test]
fn test_ordering_by_machine_id() {
    let config1 = parse(
        r#"
            title Entry 1
            version 3
            machine-id a
            linux /vmlinuz-3
            initrd /initrd-3
            options opt1
        "#,
    );
    let config2 = parse(
        r#"
            title Entry 2
            version 5
            machine-id b
            linux /vmlinuz-5
            initrd /initrd-5
            options opt2
        "#,
    );
    assert!(config1 < config2);
}

#[test]
fn test_ordering_by_machine_id_and_version() {
    let config1 = parse(
        r#"
            title Entry 1
            version 3
            machine-id a
            linux /vmlinuz-3
            initrd /initrd-3
            options opt1
        "#,
    );
    let config2 = parse(
        r#"
            title Entry 2
            version 5
            machine-id a
            linux /vmlinuz-5
            initrd /initrd-5
            options opt2
        "#,
    );
    assert!(config1 > config2);
}

#[test]
fn test_ordering_by_nontrivial_version() {
    let config_final = parse(
        r#"
            title Entry 1
            version 1.0
            linux /vmlinuz-1
            initrd /initrd-1
        "#,
    );
    let config_rc1 = parse(
        r#"
            title Entry 2
            version 1.0~rc1
            linux /vmlinuz-2
            initrd /initrd-2
        "#,
    );
    assert!(config_final < config_rc1);
}

#[test]
fn bls_errors_name_the_missing_key() {
    assert_eq!(
        parse_bls_config("version 1\n").unwrap_err(),
        BlsError::MissingLinux
    );
    assert_eq!(
        parse_bls_config("linux /vmlinuz\n").unwrap_err(),
        BlsError::MissingVersion
    );
    assert_eq!(
        parse_bls_config("title x\n").unwrap_err().to_string(),
        "Missing 'linux' value"
    );
}

#[test]
fn bls_comments_blank_lines_and_last_wins() {
    let c = parse("# linux /nope\n\nversion 1\nlinux /a\nlinux /b\r\nnospace\nx 1\nx 2\n");
    assert_eq!(c.linux, "/b");
    assert_eq!(c.version, "1");
    assert_eq!(c.title, None);
    assert_eq!(c.extra_value("x"), Some(&"2".to_string()));
    assert_eq!(c.extra_value("nospace"), None);
    assert_eq!(c.extra.len(), 1);
}

#[test]
fn bls_value_is_trimmed() {
    let c = parse("version    7  \nlinux /k\nlinux\t/k x\n");
    assert_eq!(c.version, "7");
    assert_eq!(c.linux, "/k");
    assert_eq!(c.extra_value("linux\t/k"), Some(&"x".to_string()));
    assert_eq!(parse_bls_config("version 7\nlinux\t/k\n").unwrap_err(), BlsError::MissingLinux);
}

#[test]
fn bls_round_trip() {
    let text = "title Fedora 42 (CoreOS)\nversion 2\nlinux /boot/a/vmlinuz-5.14.10\ninitrd /boot/a/initramfs-5.14.10.img\noptions root=UUID=abc rw composefs=a\ncustom1 v1\n";
    let c = parse(text);
    assert_eq!(c.to_string(), text);
    let again = parse(&c.to_string());
    assert!(again == c);
}

#[test]
fn bls_equal_order_when_keys_and_versions_tie() {
    let a = parse("version 2\nlinux /a\n");
    let b = parse("version 2\nlinux /b\n");
    assert_eq!(a.cmp(&b), std::cmp::Ordering::Equal);
    assert!(a != b);
}

#[test]
fn missing_sort_key_orders_first() {
    let a = parse("version 1\nlinux /a\nsort-key a\n");
    let b = parse("version 2\nlinux /b\n");
    let c = parse("version 3\nlinux /c\nsort-key b\n");
    assert!(b < a);
    assert!(a < c);
    assert!(b < c);
    let mut v = vec![c, a, b];
    v.sort_by(|x, y| x.cmp(y));
    assert_eq!(v[0].linux, "/b");
    assert_eq!(v[1].linux, "/a");
    assert_eq!(v[2].linux, "/c");
}
