use bootc::deploy::BootType;
use bootc::image::ImageReference;
use bootc::origin::origin_file;

fn imgref() -> ImageReference {
    ImageReference {
        image: "quay.io/example/os:latest".to_string(),
        transport: "registry:".to_string(),
        signature: None,
    }
}

#[test]
fn origin_file_text() {
    let digest = "a".repeat(64);
    let text = origin_file(&imgref(), BootType::Bls, Some(&digest));
    assert_eq!(
        text,
        format!(
            "[origin]\ncontainer = ostree-unverified-image:registry:quay.io/example/os:latest\n\n[boot]\nboot_type = bls\ndigest = {digest}\n"
        )
    );
}

#[test]
fn origin_file_parses_back() {
    let digest = "0123456789abcdef".repeat(4);
    let text = origin_file(&imgref(), BootType::Bls, Some(&digest));
    let ini = tini::Ini::from_string(&text).unwrap();
    assert_eq!(ini.get::<String>("boot", "boot_type").as_deref(), Some("bls"));
    assert_eq!(ini.get::<String>("boot", "digest"), Some(digest));
    assert_eq!(
        ini.get::<String>("origin", "container").as_deref(),
        Some("ostree-unverified-image:registry:quay.io/example/os:latest")
    );

    let text = origin_file(&imgref(), BootType::Uki, None);
    let ini = tini::Ini::from_string(&text).unwrap();
    assert_eq!(ini.get::<String>("boot", "boot_type").as_deref(), Some("uki"));
    assert_eq!(ini.get::<String>("boot", "digest"), None);
}
