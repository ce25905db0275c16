use bootc::image::{ImageRefError, ImageReference, ImageSignature};

#[test]
fn test_image_reference_canonicalize() {
    let sample_digest = "sha256:5db6d8b5f34d3cbdaa1e82ed0152a5ac980076d19317d4269db149cbde057bb2";

    let test_cases = [
        (
            format!("quay.io/example/someimage:latest@{}", sample_digest),
            format!("quay.io/example/someimage@{}", sample_digest),
            "registry",
        ),
        (
            format!("quay.io/example/someimage@{}", sample_digest),
            format!("quay.io/example/someimage@{}", sample_digest),
            "registry",
        ),
        (
            "quay.io/example/someimage:latest".to_string(),
            "quay.io/example/someimage:latest".to_string(),
            "registry",
        ),
        (
            "quay.io/example/someimage".to_string(),
            "quay.io/example/someimage".to_string(),
            "registry",
        ),
        (
            "localhost/someimage:latest".to_string(),
            "localhost/someimage:latest".to_string(),
            "registry",
        ),
        (
            format!("localhost/someimage:latest@{sample_digest}"),
            format!("localhost/someimage@{sample_digest}"),
            "registry",
        ),
        (
            format!("quay.io/example/someimage:latest@{}", sample_digest),
            format!("quay.io/example/someimage:latest@{}", sample_digest),
            "containers-storage",
        ),
        (
            format!("/path/to/dir:latest"),
            format!("/path/to/dir:latest"),
            "oci",
        ),
        (
            "/tmp/repo".to_string(),
            "/tmp/repo".to_string(),
            "oci-archive",
        ),
        (
            "/tmp/image-dir".to_string(),
            "/tmp/image-dir".to_string(),
            "dir",
        ),
    ];

    for (initial, expected, transport) in test_cases {
        let imgref = ImageReference {
            image: initial.to_string(),
            transport: transport.to_string(),
            signature: None,
        };

        let canonicalized = imgref.canonicalize();
        if let Err(e) = canonicalized {
            panic!("Failed to canonicalize {initial} with transport {transport}: {e:?}");
        }
        let canonicalized = canonicalized.unwrap();
        assert_eq!(
            canonicalized.image, expected,
            "Mismatch for transport {transport}"
        );
        assert_eq!(canonicalized.transport, transport);
        assert_eq!(canonicalized.signature, None);
    }
}

#[test]
fn test_unimplemented_oci_tagged_digested() {
    let imgref = ImageReference {
        image: "path/to/image:sometag@sha256:5db6d8b5f34d3cbdaa1e82ed0152a5ac980076d19317d4269db149cbde057bb2".to_string(),
        transport: "oci".to_string(),
        signature: None
    };
    let canonicalized = imgref.clone().canonicalize().unwrap();
    assert_eq!(imgref, canonicalized);
}

#[test]
fn canonicalize_is_idempotent_on_examples() {
    let digest = "sha256:5db6d8b5f34d3cbdaa1e82ed0152a5ac980076d19317d4269db149cbde057bb2";
    for image in [
        format!("quay.io/example/someimage:latest@{digest}"),
        "quay.io/example/someimage:latest".to_string(),
    ] {
        let r = ImageReference {
            image,
            transport: "registry".to_string(),
            signature: Some(ImageSignature::Insecure),
        };
        let once = r.canonicalize().unwrap();
        let twice = once.clone().canonicalize().unwrap();
        assert_eq!(once, twice);
        assert_eq!(twice.signature, Some(ImageSignature::Insecure));
    }
}

#[test]
fn canonicalize_errors() {
    let r = ImageReference {
        image: "x".to_string(),
        transport: "ftp".to_string(),
        signature: None,
    };
    assert_eq!(
        r.canonicalize(),
        Err(ImageRefError::UnknownTransport("ftp".to_string()))
    );
    let r = ImageReference {
        image: "".to_string(),
        transport: "registry".to_string(),
        signature: None,
    };
    assert_eq!(r.canonicalize(), Err(ImageRefError::InvalidReference));
}

#[test]
fn test_display_imgref() {
    let src = "ostree-unverified-registry:quay.io/example/foo:sometag";
    let s = ImageReference::from_ostree_str(src).unwrap();
    let displayed = s.to_string();
    assert_eq!(displayed.as_str(), src);
    assert_eq!(s.to_string_alternate(), "quay.io/example/foo:sometag");

    let src = "ostree-remote-image:fedora:docker://quay.io/example/foo:sometag";
    let s = ImageReference::from_ostree_str(src).unwrap();
    let displayed = s.to_string();
    assert_eq!(displayed.as_str(), src);
    assert_eq!(s.to_string_alternate(), src);
}

#[test]
fn test_convert_signatures() {
    let ir = ImageReference::from_ostree_str(
        "ostree-unverified-registry:quay.io/someexample/foo:latest",
    )
    .unwrap();
    assert_eq!(ir.image, "quay.io/someexample/foo:latest");
    assert_eq!(ir.signature, None);

    let ir = ImageReference::from_ostree_str(
        "ostree-remote-registry:fedora:quay.io/fedora/fedora-coreos:stable",
    )
    .unwrap();
    assert_eq!(ir.image, "quay.io/fedora/fedora-coreos:stable");
    assert_eq!(
        ir.signature,
        Some(ImageSignature::OstreeRemote("fedora".into()))
    );
}

#[test]
fn ostree_reference_forms() {
    let ir = ImageReference::from_ostree_str("ostree-image-signed:oci:/srv/img").unwrap();
    assert_eq!(ir.transport, "oci");
    assert_eq!(ir.image, "/srv/img");
    assert_eq!(ir.signature, Some(ImageSignature::ContainerPolicy));
    assert_eq!(ir.to_string(), "ostree-image-signed:oci:/srv/img");
    let ir = ImageReference::from_ostree_str("ostree-unverified-image:docker://quay.io/x").unwrap();
    assert_eq!(ir.transport, "registry");
    assert_eq!(ir.to_string(), "ostree-unverified-registry:quay.io/x");
    assert_eq!(
        ImageReference::from_ostree_str("ostree-unverified-image:docker:quay.io/x"),
        Err(ImageRefError::InvalidReference)
    );
    assert_eq!(
        ImageReference::from_ostree_str("something:else"),
        Err(ImageRefError::InvalidReference)
    );
}
