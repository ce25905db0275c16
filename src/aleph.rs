//! The provenance record of an install, and the SELinux state it records.
use vstd::prelude::*;
use vstd::string::*;

verus! {

/// How SELinux ends up on the installed system.
#[derive(Debug, Clone, Copy, PartialEq, Eq)]
pub enum SELinuxFinalState {
    /// Host and target both have SELinux, but it was forced off for the target.
    ForceTargetDisabled,
    /// Host and target both have SELinux.
    Enabled,
    /// The host has SELinux disabled, the target has it.
    HostDisabled,
    /// Neither host nor target has SELinux.
    Disabled,
}

pub open spec fn selinux_name(s: SELinuxFinalState) -> Seq<char> {
    match s {
        SELinuxFinalState::ForceTargetDisabled => "force-target-disabled"@,
        SELinuxFinalState::Enabled => "enabled"@,
        SELinuxFinalState::HostDisabled => "host-disabled"@,
        SELinuxFinalState::Disabled => "disabled"@,
    }
}

impl SELinuxFinalState {
    /// Whether the installed system runs with SELinux.
    pub fn enabled(&self) -> (r: bool)
        ensures
            r == (*self == SELinuxFinalState::Enabled || *self == SELinuxFinalState::HostDisabled),
    {
        match self {
            SELinuxFinalState::ForceTargetDisabled | SELinuxFinalState::Disabled => false,
            SELinuxFinalState::Enabled | SELinuxFinalState::HostDisabled => true,
        }
    }

    /// The name recorded in the provenance record.
    pub fn to_aleph(&self) -> (r: String)
        ensures
            r@ == selinux_name(*self),
    {
        match self {
            SELinuxFinalState::ForceTargetDisabled => String::from_str("force-target-disabled"),
            SELinuxFinalState::Enabled => String::from_str("enabled"),
            SELinuxFinalState::HostDisabled => String::from_str("host-disabled"),
            SELinuxFinalState::Disabled => String::from_str("disabled"),
        }
    }

    /// The kernel arguments the state adds: `selinux=0` when it was forced off.
    pub fn kargs(&self) -> (r: Vec<String>)
        ensures
            *self == SELinuxFinalState::ForceTargetDisabled ==> r@.len() == 1 && r@[0]@ == "selinux=0"@,
            *self != SELinuxFinalState::ForceTargetDisabled ==> r@.len() == 0,
    {
        match self {
            SELinuxFinalState::ForceTargetDisabled => vec![String::from_str("selinux=0")],
            _ => Vec::new(),
        }
    }
}

/// What was installed, from where, and how: written once to
/// `/.bootc-aleph.json` in the target root.
#[derive(Debug, PartialEq, Eq)]
pub struct InstallAleph {
    /// The image reference the install came from.
    pub image: String,
    /// The image's version label.
    pub version: Option<String>,
    /// The image's creation timestamp, as its annotation gives it.
    pub timestamp: Option<String>,
    /// The release of the kernel doing the install.
    pub kernel: String,
    /// The SELinux state at install time.
    pub selinux: String,
}

impl InstallAleph {
    /// The record of an install of `image`.
    pub fn new(
        image: &str,
        version: Option<String>,
        timestamp: Option<String>,
        kernel: &str,
        selinux: SELinuxFinalState,
    ) -> (r: InstallAleph)
        ensures
            r.image@ == image@,
            r.version == version,
            r.timestamp == timestamp,
            r.kernel@ == kernel@,
            r.selinux@ == selinux_name(selinux),
    {
        InstallAleph {
            image: image.to_owned(),
            version,
            timestamp,
            kernel: kernel.to_owned(),
            selinux: selinux.to_aleph(),
        }
    }
}

} // verus!
