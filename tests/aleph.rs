use bootc::aleph::{InstallAleph, SELinuxFinalState};

#[test]
fn aleph_records_image_and_state() {
    let a = InstallAleph::new(
        "quay.io/example/os:latest",
        Some("42.1".to_string()),
        None,
        "6.0.0",
        SELinuxFinalState::HostDisabled,
    );
    assert_eq!(a.image, "quay.io/example/os:latest");
    assert_eq!(a.version.as_deref(), Some("42.1"));
    assert_eq!(a.kernel, "6.0.0");
    assert_eq!(a.selinux, "host-disabled");
}

#[test]
fn selinux_forced_off_adds_karg() {
    assert_eq!(SELinuxFinalState::ForceTargetDisabled.kargs(), vec!["selinux=0"]);
    assert!(SELinuxFinalState::Enabled.kargs().is_empty());
    assert!(SELinuxFinalState::Enabled.enabled());
    assert!(!SELinuxFinalState::Disabled.enabled());
    assert_eq!(SELinuxFinalState::ForceTargetDisabled.to_aleph(), "force-target-disabled");
}
