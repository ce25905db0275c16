use bootc::cmdline::Cmdline;
use bootc::deploy::BootType;
use bootc::host::{
    split_deployments, DeploymentInfo, StatusSplit, classify_deployments, composefs_booted, BootOrder, DeploymentSlots, HostSpec, Slot,
    StatusError, TransitionError,
};
use bootc::image::ImageReference;
use bootc::verity::{plan_ensure_verity, RepoVerityState, Tristate, VerityPlan};

fn img(name: &str) -> Option<ImageReference> {
    Some(ImageReference {
        image: name.to_string(),
        transport: "registry".to_string(),
        signature: None,
    })
}

#[test]
fn transition_rules() {
    let a = HostSpec { image: img("a"), boot_order: BootOrder::Default };
    let b = HostSpec { image: img("b"), boot_order: BootOrder::Rollback };
    let c = HostSpec { image: img("a"), boot_order: BootOrder::Rollback };
    let d = HostSpec { image: img("b"), boot_order: BootOrder::Default };
    assert_eq!(a.verify_transition(&b), Err(TransitionError::RollbackAndImageChange));
    assert_eq!(a.verify_transition(&c), Ok(()));
    assert_eq!(a.verify_transition(&d), Ok(()));
    assert_eq!(BootOrder::Default.swap(), BootOrder::Rollback);
    assert_eq!(BootOrder::Rollback.swap(), BootOrder::Default);
    assert_eq!(Slot::Rollback.to_string(), "rollback");
}

#[test]
fn booted_deployment_from_cmdline() {
    let c = Cmdline::from(b"root=UUID=x rw composefs=?abc12".as_slice());
    assert_eq!(composefs_booted(&c).as_deref(), Some("?abc12"));
    let c = Cmdline::from(b"root=UUID=x rw".as_slice());
    assert_eq!(composefs_booted(&c), None);
}

#[test]
fn verity_plan_enables_missing_objects() {
    let objs = vec![(true, false), (false, false), (true, true), (true, false)];
    let st = RepoVerityState { desired: Tristate::Maybe, enabled: false };
    let plan = plan_ensure_verity(&st, &objs);
    assert_eq!(
        plan,
        VerityPlan { enable_objects: vec![0, 3], set_config_flag: true, enable_config: true }
    );
    // once done, the flag is set and nothing is left
    let done = RepoVerityState { desired: Tristate::Enabled, enabled: true };
    let again = plan_ensure_verity(&done, &objs);
    assert!(again.enable_objects.is_empty() && !again.enable_config && !again.set_config_flag);
    // a second walk over the updated objects finds nothing either
    let after = vec![(true, true), (false, false), (true, true), (true, true)];
    let st2 = RepoVerityState { desired: Tristate::Enabled, enabled: false };
    let p2 = plan_ensure_verity(&st2, &after);
    assert!(p2.enable_objects.is_empty());
    assert!(!p2.set_config_flag);
}

#[test]
fn deployments_sorted_into_slots() {
    let d = vec![
        ("aaa".to_string(), BootType::Bls),
        ("bbb".to_string(), BootType::Bls),
        ("ccc".to_string(), BootType::Bls),
    ];
    assert_eq!(
        classify_deployments(&d, "bbb", Some("ccc\n")),
        Ok(DeploymentSlots {
            booted: Some(1),
            staged: Some(2),
            rollback: Some(0),
            other: vec![],
            boot_type: BootType::Bls
        })
    );
    assert_eq!(
        classify_deployments(&d, "aaa", None),
        Ok(DeploymentSlots {
            booted: Some(0),
            staged: None,
            rollback: Some(1),
            other: vec![2],
            boot_type: BootType::Bls
        })
    );
    let mixed = vec![("aaa".to_string(), BootType::Bls), ("bbb".to_string(), BootType::Uki)];
    assert_eq!(classify_deployments(&mixed, "aaa", None), Err(StatusError::ConflictingBootTypes));
    assert_eq!(classify_deployments(&vec![], "aaa", None), Err(StatusError::NoDeployments));
}

fn dep(root: &str, staged: bool, index: u32) -> DeploymentInfo {
    DeploymentInfo { stateroot: root.to_string(), staged, index }
}

#[test]
fn status_split_by_stateroot() {
    let ds = vec![
        dep("fedora", true, 0),
        dep("fedora", false, 1),
        dep("centos", false, 2),
        dep("fedora", false, 3),
        dep("fedora", false, 4),
    ];
    assert_eq!(
        split_deployments(&ds, Some(1)),
        StatusSplit {
            staged: Some(0),
            rollback: Some(3),
            other: vec![4, 2],
            rollback_queued: false,
            boot_order: BootOrder::Default,
        }
    );
    let ds = vec![dep("a", false, 0), dep("a", false, 1)];
    assert_eq!(
        split_deployments(&ds, Some(1)),
        StatusSplit {
            staged: None,
            rollback: Some(0),
            other: vec![],
            rollback_queued: true,
            boot_order: BootOrder::Rollback,
        }
    );
    assert_eq!(
        split_deployments(&ds, None),
        StatusSplit {
            staged: None,
            rollback: None,
            other: vec![0, 1],
            rollback_queued: false,
            boot_order: BootOrder::Default,
        }
    );
}

#[test]
fn size_with_units_round_trip() {
    for n in [0u64, 1, 7, 4096] {
        for (unit, f) in [("M", 1u64), ("MiB", 1), ("G", 1024), ("GiB", 1024), ("T", 1 << 20), ("TiB", 1 << 20)] {
            assert_eq!(bootc::blockdev::parse_size_mib(&format!("{n}{unit}")), Ok(n * f));
        }
    }
}
