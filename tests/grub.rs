use bootc::grub::{parse_grub_menuentry_file, GrubError, MenuEntry, MenuentryBody};

fn strings(v: &[&str]) -> Vec<String> {
    v.iter().map(|s| s.to_string()).collect()
}

fn pairs(v: &[(&str, &str)]) -> Vec<(String, String)> {
    v.iter().map(|(k, v)| (k.to_string(), v.to_string())).collect()
}

#[test]
fn test_menuconfig_parser() {
    let menuentry = r#"
            if [ -f ${config_directory}/efiuuid.cfg ]; then
                    source ${config_directory}/efiuuid.cfg
            fi

            # Skip this comment

            menuentry "Fedora 42: (Verity-42)" {
                insmod fat
                insmod chain
                # This should also be skipped
                search --no-floppy --set=root --fs-uuid "${EFI_PART_UUID}"
                chainloader /EFI/Linux/7e11ac46e3e022053e7226a20104ac656bf72d1a84e3a398b7cce70e9df188b6.efi
            }

            menuentry "Fedora 43: (Verity-43)" {
                insmod fat
                insmod chain
                search --no-floppy --set=root --fs-uuid "${EFI_PART_UUID}"
                chainloader /EFI/Linux/uki.efi
                extra_field1 this is extra
                extra_field2 this is also extra
            }
        "#;

    let result = parse_grub_menuentry_file(menuentry).expect("Expected parsed entries");

    let expected = vec![
        MenuEntry {
            title: "Fedora 42: (Verity-42)".into(),
            body: MenuentryBody {
                insmod: strings(&["fat", "chain"]),
                search: "--no-floppy --set=root --fs-uuid \"${EFI_PART_UUID}\"".into(),
                chainloader: "/EFI/Linux/7e11ac46e3e022053e7226a20104ac656bf72d1a84e3a398b7cce70e9df188b6.efi".into(),
                version: 0,
                extra: vec![],
            },
        },
        MenuEntry {
            title: "Fedora 43: (Verity-43)".into(),
            body: MenuentryBody {
                insmod: strings(&["fat", "chain"]),
                search: "--no-floppy --set=root --fs-uuid \"${EFI_PART_UUID}\"".into(),
                chainloader: "/EFI/Linux/uki.efi".into(),
                version: 0,
                extra: pairs(&[
                    ("extra_field1", "this is extra"),
                    ("extra_field2", "this is also extra"),
                ]),
            },
        },
    ];

    println!("{}", expected[0].to_string());

    assert_eq!(result, expected);
}

#[test]
fn test_escaped_quotes_in_title() {
    let menuentry = r#"
            menuentry "Title with \"escaped quotes\" inside" {
                insmod fat
                chainloader /EFI/Linux/test.efi
            }
        "#;

    let result = parse_grub_menuentry_file(menuentry).expect("Expected parsed entries");

    assert_eq!(result.len(), 1);
    assert_eq!(result[0].title, "Title with \\\"escaped quotes\\\" inside");
    assert_eq!(result[0].body.chainloader, "/EFI/Linux/test.efi");
}

#[test]
fn test_multiple_escaped_quotes() {
    let menuentry = r#"
            menuentry "Test \"first\" and \"second\" quotes" {
                insmod fat
                chainloader /EFI/Linux/test.efi
            }
        "#;

    let result = parse_grub_menuentry_file(menuentry).expect("Expected parsed entries");

    assert_eq!(result.len(), 1);
    assert_eq!(
        result[0].title,
        "Test \\\"first\\\" and \\\"second\\\" quotes"
    );
}

#[test]
fn test_escaped_backslash_in_title() {
    let menuentry = r#"
            menuentry "Path with \\ backslash" {
                insmod fat
                chainloader /EFI/Linux/test.efi
            }
        "#;

    let result = parse_grub_menuentry_file(menuentry).expect("Expected parsed entries");

    assert_eq!(result.len(), 1);
    assert_eq!(result[0].title, "Path with \\\\ backslash");
}

#[test]
fn test_minimal_menuentry() {
    let menuentry = r#"
            menuentry "Minimal Entry" {
                # Just a comment
            }
        "#;

    let result = parse_grub_menuentry_file(menuentry).expect("Expected parsed entries");

    assert_eq!(result.len(), 1);
    assert_eq!(result[0].title, "Minimal Entry");
    assert_eq!(result[0].body.insmod.len(), 0);
    assert_eq!(result[0].body.chainloader, "");
    assert_eq!(result[0].body.search, "");
    assert_eq!(result[0].body.extra.len(), 0);
}

#[test]
fn test_menuentry_with_only_insmod() {
    let menuentry = r#"
            menuentry "Insmod Only" {
                insmod fat
                insmod chain
                insmod ext2
            }
        "#;

    let result = parse_grub_menuentry_file(menuentry).expect("Expected parsed entries");

    assert_eq!(result.len(), 1);
    assert_eq!(result[0].body.insmod, vec!["fat", "chain", "ext2"]);
    assert_eq!(result[0].body.chainloader, "");
    assert_eq!(result[0].body.search, "");
}

#[test]
fn test_menuentry_with_set_commands_ignored() {
    let menuentry = r#"
            menuentry "With Set Commands" {
                set timeout=5
                set root=(hd0,1)
                insmod fat
                chainloader /EFI/Linux/test.efi
            }
        "#;

    let result = parse_grub_menuentry_file(menuentry).expect("Expected parsed entries");

    assert_eq!(result.len(), 1);
    assert_eq!(result[0].body.insmod, vec!["fat"]);
    assert_eq!(result[0].body.chainloader, "/EFI/Linux/test.efi");
    assert!(!result[0].body.extra.iter().any(|(k, _)| k == "set"));
}

#[test]
fn test_nested_braces_in_body() {
    let menuentry = r#"
            menuentry "Nested Braces" {
                if [ -f ${config_directory}/test.cfg ]; then
                    source ${config_directory}/test.cfg
                fi
                insmod fat
                chainloader /EFI/Linux/test.efi
            }
        "#;

    let result = parse_grub_menuentry_file(menuentry).expect("Expected parsed entries");

    assert_eq!(result.len(), 1);
    assert_eq!(result[0].title, "Nested Braces");
    assert_eq!(result[0].body.insmod, vec!["fat"]);
    assert_eq!(result[0].body.chainloader, "/EFI/Linux/test.efi");
    assert!(result[0].body.extra.iter().any(|(k, _)| k == "if"));
}

#[test]
fn test_empty_file() {
    let result = parse_grub_menuentry_file("").expect("Should handle empty file");
    assert_eq!(result.len(), 0);
}

#[test]
fn test_file_with_no_menuentries() {
    let content = r#"
            # Just comments and other stuff
            set timeout=10
            if [ -f /boot/grub/custom.cfg ]; then
                source /boot/grub/custom.cfg
            fi
        "#;

    let result =
        parse_grub_menuentry_file(content).expect("Should handle file with no menuentries");
    assert_eq!(result.len(), 0);
}

#[test]
fn test_malformed_menuentry_missing_quote() {
    let menuentry = r#"
            menuentry "Missing closing quote {
                insmod fat
            }
        "#;

    let result = parse_grub_menuentry_file(menuentry);
    assert!(result.is_err(), "Should fail on malformed menuentry");
}

#[test]
fn test_malformed_menuentry_missing_brace() {
    let menuentry = r#"
            menuentry "Missing Brace" {
                insmod fat
                chainloader /EFI/Linux/test.efi
            // Missing closing brace
        "#;

    let result = parse_grub_menuentry_file(menuentry);
    assert!(result.is_err(), "Should fail on unbalanced braces");
}

#[test]
fn test_multiple_menuentries_with_content_between() {
    let content = r#"
            # Some initial config
            set timeout=10
            
            menuentry "First Entry" {
                insmod fat
                chainloader /EFI/Linux/first.efi
            }
            
            # Some comments between entries
            set default=0
            
            menuentry "Second Entry" {
                insmod ext2
                search --set=root --fs-uuid "some-uuid"
                chainloader /EFI/Linux/second.efi
            }
            
            # Trailing content
        "#;

    let result = parse_grub_menuentry_file(content)
        .expect("Should parse multiple entries with content between");

    assert_eq!(result.len(), 2);
    assert_eq!(result[0].title, "First Entry");
    assert_eq!(result[0].body.chainloader, "/EFI/Linux/first.efi");
    assert_eq!(result[1].title, "Second Entry");
    assert_eq!(result[1].body.chainloader, "/EFI/Linux/second.efi");
}

#[test]
fn empty_title_is_refused() {
    let r = parse_grub_menuentry_file("menuentry \"\" {\n}\n");
    assert_eq!(r, Err(GrubError::EmptyTitle));
}

#[test]
fn missing_space_after_keyword_is_malformed() {
    let r = parse_grub_menuentry_file("menuentry\"x\" {\n}\n");
    assert_eq!(r, Err(GrubError::Malformed));
}

#[test]
fn uki_entry_renders_and_reads_back() {
    let e = MenuEntry::new("Fedora 42", "abc123");
    assert_eq!(e.title, "Fedora 42: (abc123)");
    assert_eq!(e.body.chainloader, "/EFI/Linux/abc123.efi");
    let text = e.to_string();
    assert_eq!(
        text,
        "menuentry \"Fedora 42: (abc123)\" {\ninsmod fat\ninsmod chain\nsearch --no-floppy --set=root --fs-uuid \"${EFI_PART_UUID}\"\nchainloader /EFI/Linux/abc123.efi\n}\n"
    );
    let back = parse_grub_menuentry_file(&text).unwrap();
    assert_eq!(back, vec![e]);
}

#[test]
fn escaped_brace_in_body_does_not_close() {
    let r = parse_grub_menuentry_file("menuentry \"t\" {\necho \\}\ninsmod fat\n}\n").unwrap();
    assert_eq!(r[0].body.insmod, vec!["fat"]);
    assert_eq!(r[0].body.extra, pairs(&[("echo", "\\}")]));
}
