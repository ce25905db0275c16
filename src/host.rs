//! The host specification and the deployment slots a status reports.
use crate::cmdline::{str_key_is, str_value, tokens, Cmdline};
use crate::image::{ImageReference, ImageSignature};
use crate::deploy::BootType;
use crate::text::{chars_equal, chars_of, first_where};
use vstd::prelude::*;
use vstd::string::*;
use vstd::utf8::decode_utf8;

verus! {

/// Which deployment boots next.
#[derive(Debug, Clone, Copy, PartialEq, Eq, Structural)]
pub enum BootOrder {
    /// The staged or booted deployment.
    Default,
    /// The rollback deployment.
    Rollback,
}

impl BootOrder {
    /// The other order.
    pub fn swap(&self) -> (r: BootOrder)
        ensures
            r != *self,
    {
        match self {
            BootOrder::Default => BootOrder::Rollback,
            BootOrder::Rollback => BootOrder::Default,
        }
    }
}

/// The container storage backend.
#[derive(Debug, Clone, Copy, PartialEq, Eq)]
pub enum Store {
    OstreeContainer,
}

/// The kind of running system.
#[derive(Debug, Clone, Copy, PartialEq, Eq)]
pub enum HostType {
    /// Deployed in a bootc compatible way.
    BootcHost,
}

/// What the host should run.
#[derive(Debug, Clone, PartialEq, Eq)]
pub struct HostSpec {
    /// The host image.
    pub image: Option<ImageReference>,
    /// Which deployment boots next.
    pub boot_order: BootOrder,
}

/// The ostree side of a boot entry.
#[derive(Debug, Clone, PartialEq, Eq)]
pub struct BootEntryOstree {
    /// Where `/etc` and `/var` live.
    pub stateroot: String,
    /// The commit.
    pub checksum: String,
    /// The deployment serial.
    pub deploy_serial: u32,
}

/// A deployment slot.
#[derive(Debug, Clone, Copy, PartialEq, Eq)]
pub enum Slot {
    Staged,
    Booted,
    Rollback,
}

impl Slot {
    /// `staged`, `booted` or `rollback`.
    pub fn to_string(&self) -> (r: String)
        ensures
            r@ == match *self {
                Slot::Staged => "staged"@,
                Slot::Booted => "booted"@,
                Slot::Rollback => "rollback"@,
            },
    {
        match self {
            Slot::Staged => String::from_str("staged"),
            Slot::Booted => String::from_str("booted"),
            Slot::Rollback => String::from_str("rollback"),
        }
    }
}

/// Why a change of the host specification is refused.
#[derive(Debug, PartialEq, Eq)]
pub enum TransitionError {
    /// A rollback and a new image at once.
    RollbackAndImageChange,
}

pub open spec fn same_image(a: Option<ImageReference>, b: Option<ImageReference>) -> bool {
    match (a, b) {
        (None, None) => true,
        (Some(x), Some(y)) => x.image@ == y.image@ && x.transport@ == y.transport@ && same_sig(
            x.signature,
            y.signature,
        ),
        _ => false,
    }
}

pub open spec fn same_sig(a: Option<ImageSignature>, b: Option<ImageSignature>) -> bool {
    match (a, b) {
        (None, None) => true,
        (Some(ImageSignature::ContainerPolicy), Some(ImageSignature::ContainerPolicy)) => true,
        (Some(ImageSignature::Insecure), Some(ImageSignature::Insecure)) => true,
        (Some(ImageSignature::OstreeRemote(x)), Some(ImageSignature::OstreeRemote(y))) => x@ == y@,
        _ => false,
    }
}

fn same_text(a: &String, b: &String) -> (r: bool)
    ensures
        r == (a@ == b@),
{
    *a == *b
}

fn same_signature(a: &Option<crate::image::ImageSignature>, b: &Option<crate::image::ImageSignature>) -> (r: bool)
    ensures
        r == same_sig(*a, *b),
{
    match (a, b) {
        (None, None) => true,
        (Some(ImageSignature::ContainerPolicy), Some(ImageSignature::ContainerPolicy)) => true,
        (Some(ImageSignature::Insecure), Some(ImageSignature::Insecure)) => true,
        (Some(ImageSignature::OstreeRemote(x)), Some(ImageSignature::OstreeRemote(y))) => same_text(x, y),
        _ => false,
    }
}

impl HostSpec {
    /// Refuses a change that both rolls back and changes the image.
    pub fn verify_transition(&self, new: &HostSpec) -> (r: Result<(), TransitionError>)
        ensures
            r is Err <==> (self.boot_order != new.boot_order && !same_image(self.image, new.image)),
    {
        let rollback = !matches!((self.boot_order, new.boot_order), (BootOrder::Default, BootOrder::Default) | (BootOrder::Rollback, BootOrder::Rollback));
        let same = match (&self.image, &new.image) {
            (None, None) => true,
            (Some(x), Some(y)) => same_text(&x.image, &y.image) && same_text(&x.transport, &y.transport)
                && same_signature(&x.signature, &y.signature),
            _ => false,
        };
        if rollback && !same {
            Err(TransitionError::RollbackAndImageChange)
        } else {
            Ok(())
        }
    }
}

/// The deployment a running system booted: the value of its `composefs=`
/// argument, if it has one that is UTF-8 and has a value.
pub fn composefs_booted(cmdline: &Cmdline) -> (r: Option<String>)
    ensures
        first_where(tokens(cmdline@), str_key_is("composefs"@), 0) < 0 ==> r is None,
        first_where(tokens(cmdline@), str_key_is("composefs"@), 0) >= 0 ==> (match r {
            Some(v) => str_value(decode_utf8(tokens(cmdline@)[first_where(tokens(cmdline@), str_key_is("composefs"@), 0)])) == Some(v@),
            None => str_value(decode_utf8(tokens(cmdline@)[first_where(tokens(cmdline@), str_key_is("composefs"@), 0)])) is None,
        }),
{
    match cmdline.find_str("composefs") {
        Some(p) => p.value,
        None => None,
    }
}


/// Index of the last element of `s` that satisfies `p`, or -1.
pub open spec fn last_where<A>(s: Seq<A>, p: spec_fn(A) -> bool) -> int
    decreases s.len(),
{
    if s.len() == 0 {
        -1
    } else if p(s.last()) {
        s.len() - 1
    } else {
        last_where(s.drop_last(), p)
    }
}

/// Which slot a deployment named `n` takes: 0 booted, 1 staged, 2 rollback.
pub open spec fn slot_of(n: Seq<char>, booted: Seq<char>, staged: Option<Seq<char>>) -> int {
    if n == booted {
        0
    } else if staged == Some(n) {
        1
    } else {
        2
    }
}

pub open spec fn in_slot(booted: Seq<char>, staged: Option<Seq<char>>, slot: int) -> spec_fn((String, BootType)) -> bool {
    |d: (String, BootType)| slot_of(d.0@, booted, staged) == slot
}

pub open spec fn index_opt(i: int) -> Option<usize> {
    if i < 0 {
        None
    } else {
        Some(i as usize)
    }
}

/// The indices of the deployments in slot `slot`, in order.
pub open spec fn slot_indices(ds: Seq<(String, BootType)>, booted: Seq<char>, staged: Option<Seq<char>>, slot: int) -> Seq<usize>
    decreases ds.len(),
{
    if ds.len() == 0 {
        seq![]
    } else if slot_of(ds.last().0@, booted, staged) == slot {
        slot_indices(ds.drop_last(), booted, staged, slot).push((ds.len() - 1) as usize)
    } else {
        slot_indices(ds.drop_last(), booted, staged, slot)
    }
}

/// The deployments found on disk, by slot (indices into the list), and how
/// they boot.
#[derive(Debug, PartialEq, Eq)]
pub struct DeploymentSlots {
    pub booted: Option<usize>,
    pub staged: Option<usize>,
    /// The first deployment that is neither booted nor staged.
    pub rollback: Option<usize>,
    /// The deployments after the rollback that are neither booted nor staged.
    pub other: Vec<usize>,
    pub boot_type: BootType,
}

/// Why the deployments on disk do not make a status.
#[derive(Debug, PartialEq, Eq)]
pub enum StatusError {
    /// Deployments that boot in different ways.
    ConflictingBootTypes,
    /// No deployment at all.
    NoDeployments,
}

/// Sorts the deployments `(name, boot type)` into slots: the one named by the
/// booted `composefs=` value is booted, the one named in the staged marker
/// (white space around it ignored) is staged; of the rest the first is the
/// rollback and the others are listed as other deployments. All must boot the
/// same way.
pub fn classify_deployments(depls: &Vec<(String, BootType)>, booted: &str, staged_marker: Option<&str>) -> (r: Result<DeploymentSlots, StatusError>)
    ensures
        depls@.len() == 0 ==> r == Err::<DeploymentSlots, StatusError>(StatusError::NoDeployments),
        depls@.len() > 0 && (exists|j: int| 0 <= j < depls@.len() && (#[trigger] depls@[j]).1 != depls@[0].1) ==> r
            == Err::<DeploymentSlots, StatusError>(StatusError::ConflictingBootTypes),
        depls@.len() > 0 && (forall|j: int| 0 <= j < depls@.len() ==> (#[trigger] depls@[j]).1 == depls@[0].1) ==> ({
            let st = match staged_marker {
                Some(m) => Some(crate::bls::trim(m@)),
                None => None,
            };
            let rest = slot_indices(depls@, booted@, st, 2);
            r matches Ok(d) && d.booted == index_opt(last_where(depls@, in_slot(booted@, st, 0)))
                && d.staged == index_opt(last_where(depls@, in_slot(booted@, st, 1))) && d.rollback == (if rest.len() > 0 {
                Some(rest[0])
            } else {
                None::<usize>
            }) && d.other@ == (if rest.len() > 0 {
                rest.skip(1)
            } else {
                rest
            }) && d.boot_type == depls@[0].1
        }),
{
    if depls.len() == 0 {
        return Err(StatusError::NoDeployments);
    }
    let want_booted = chars_of(booted);
    let staged: Option<Vec<char>> = match staged_marker {
        Some(m) => {
            let cs = chars_of(m);
            let (a, b) = crate::bls::trim_range(&cs, 0, cs.len());
            assert(cs@.subrange(0, cs@.len() as int) =~= m@);
            let t = crate::text::copy_chars(m, a, b);
            Some(chars_of(t.as_str()))
        },
        None => None,
    };
    let ghost st = match staged_marker {
        Some(m) => Some(crate::bls::trim(m@)),
        None => None::<Seq<char>>,
    };
    let boot_type = depls[0].1;
    let mut b_slot: Option<usize> = None;
    let mut s_slot: Option<usize> = None;
    let mut rest: Vec<usize> = Vec::new();
    let mut i: usize = 0;
    while i < depls.len()
        invariant
            i <= depls@.len(),
            depls@.len() > 0,
            boot_type == depls@[0].1,
            want_booted@ == booted@,
            match staged {
                Some(v) => st == Some(v@),
                None => st is None,
            },
            forall|j: int| 0 <= j < i ==> (#[trigger] depls@[j]).1 == boot_type,
            b_slot == index_opt(last_where(depls@.take(i as int), in_slot(booted@, st, 0))),
            s_slot == index_opt(last_where(depls@.take(i as int), in_slot(booted@, st, 1))),
            rest@ == slot_indices(depls@.take(i as int), booted@, st, 2),
        decreases depls@.len() - i,
    {
        let ghost prev = depls@.take(i as int);
        let ghost now = depls@.take(i + 1);
        assert(now.drop_last() =~= prev);
        assert(now.last() == depls@[i as int]);
        let t = depls[i].1;
        let same = match (t, boot_type) {
            (BootType::Bls, BootType::Bls) => true,
            (BootType::Uki, BootType::Uki) => true,
            _ => false,
        };
        if !same {
            return Err(StatusError::ConflictingBootTypes);
        }
        let name = chars_of(depls[i].0.as_str());
        let is_booted = chars_equal(&name, &want_booted);
        let is_staged = match &staged {
            Some(v) => chars_equal(&name, v),
            None => false,
        };
        if is_booted {
            b_slot = Some(i);
        } else if is_staged {
            s_slot = Some(i);
        } else {
            rest.push(i);
        }
        i = i + 1;
    }
    assert(depls@.take(i as int) =~= depls@);
    let (rollback, other) = if rest.len() > 0 {
        let first = rest.remove(0);
        (Some(first), rest)
    } else {
        (None, rest)
    };
    Ok(DeploymentSlots { booted: b_slot, staged: s_slot, rollback, other, boot_type })
}


/// What the status needs of an ostree deployment.
#[derive(Debug, Clone)]
pub struct DeploymentInfo {
    /// Its stateroot (ostree's `osname`).
    pub stateroot: String,
    /// Whether it is staged.
    pub staged: bool,
    /// Its position in the boot order.
    pub index: u32,
}

/// The indices below `n` that satisfy `p`, in order.
pub open spec fn indices_where(n: int, p: spec_fn(int) -> bool) -> Seq<usize>
    decreases n,
{
    if n <= 0 {
        seq![]
    } else if p(n - 1) {
        indices_where(n - 1, p).push((n - 1) as usize)
    } else {
        indices_where(n - 1, p)
    }
}

/// The stateroot of the booted deployment, if any.
pub open spec fn booted_root(ds: Seq<DeploymentInfo>, booted: Option<usize>) -> Option<Seq<char>> {
    match booted {
        Some(b) => Some(ds[b as int].stateroot@),
        None => None,
    }
}

/// Deployment `j` shares the booted deployment's stateroot.
pub open spec fn related(ds: Seq<DeploymentInfo>, booted: Option<usize>) -> spec_fn(int) -> bool {
    |j: int| booted_root(ds, booted) == Some(ds[j].stateroot@)
}

/// The staged deployment: the first related one that is staged.
pub open spec fn staged_index(ds: Seq<DeploymentInfo>, booted: Option<usize>) -> Option<usize> {
    let s = indices_where(ds.len() as int, |j: int| related(ds, booted)(j) && ds[j].staged);
    if s.len() > 0 {
        Some(s[0])
    } else {
        None
    }
}

/// The related deployments that are neither staged nor booted, in order.
pub open spec fn remaining(ds: Seq<DeploymentInfo>, booted: Option<usize>) -> Seq<usize> {
    indices_where(
        ds.len() as int,
        |j: int| related(ds, booted)(j) && Some(j as usize) != staged_index(ds, booted) && Some(j as usize) != booted,
    )
}

/// The deployments of other stateroots, in order.
pub open spec fn unrelated(ds: Seq<DeploymentInfo>, booted: Option<usize>) -> Seq<usize> {
    indices_where(ds.len() as int, |j: int| !related(ds, booted)(j))
}

/// The deployments of a host, by slot (indices into the list).
#[derive(Debug, PartialEq, Eq)]
pub struct StatusSplit {
    pub staged: Option<usize>,
    pub rollback: Option<usize>,
    /// The rest: related deployments after the rollback, then those of other stateroots.
    pub other: Vec<usize>,
    /// Whether the rollback boots next (it comes before the booted one).
    pub rollback_queued: bool,
    pub boot_order: BootOrder,
}

fn push_if(out: &mut Vec<usize>, j: usize, keep: bool)
    ensures
        final(out)@ == if keep {
            old(out)@.push(j)
        } else {
            old(out)@
        },
{
    if keep {
        out.push(j);
    }
}

/// Sorts the deployments of a host into staged, rollback and other, relative
/// to the booted one: only deployments of the booted stateroot can be staged
/// or the rollback; the rollback is queued when it comes first in the boot
/// order, and the boot order says so.
pub fn split_deployments(ds: &Vec<DeploymentInfo>, booted: Option<usize>) -> (r: StatusSplit)
    requires
        booted matches Some(b) ==> b < ds@.len(),
    ensures
        r.staged == staged_index(ds@, booted),
        r.rollback == (if remaining(ds@, booted).len() > 0 {
            Some(remaining(ds@, booted)[0])
        } else {
            None::<usize>
        }),
        r.other@ == (if remaining(ds@, booted).len() > 0 {
            remaining(ds@, booted).skip(1)
        } else {
            remaining(ds@, booted)
        }) + unrelated(ds@, booted),
        r.rollback_queued == (match (booted, r.rollback) {
            (Some(b), Some(k)) => ds@[k as int].index < ds@[b as int].index,
            _ => false,
        }),
        r.boot_order == (if r.rollback_queued {
            BootOrder::Rollback
        } else {
            BootOrder::Default
        }),
{
    let n = ds.len();
    let root: Option<Vec<char>> = match booted {
        Some(b) => Some(chars_of(ds[b].stateroot.as_str())),
        None => None,
    };
    let ghost rel = related(ds@, booted);
    // which deployments share the booted stateroot
    let mut is_rel: Vec<bool> = Vec::new();
    let mut i: usize = 0;
    while i < n
        invariant
            n == ds@.len(),
            i <= n,
            rel == related(ds@, booted),
            booted matches Some(b) ==> b < ds@.len(),
            match root {
                Some(v) => booted_root(ds@, booted) == Some(v@),
                None => booted_root(ds@, booted) is None,
            },
            is_rel@.len() == i,
            forall|j: int| 0 <= j < i ==> is_rel@[j] == rel(j),
        decreases n - i,
    {
        let r = match &root {
            Some(v) => {
                let c = chars_of(ds[i].stateroot.as_str());
                chars_equal(&c, v)
            },
            None => false,
        };
        is_rel.push(r);
        i = i + 1;
    }
    // the staged one
    let ghost sp = |j: int| related(ds@, booted)(j) && ds@[j].staged;
    let mut staged: Option<usize> = None;
    let mut k: usize = 0;
    while k < n
        invariant
            n == ds@.len(),
            k <= n,
            is_rel@.len() == n,
            forall|j: int| 0 <= j < n ==> is_rel@[j] == related(ds@, booted)(j),
            sp == (|j: int| related(ds@, booted)(j) && ds@[j].staged),
            staged is None ==> indices_where(k as int, sp).len() == 0,
            staged matches Some(x) ==> indices_where(k as int, sp).len() > 0 && indices_where(k as int, sp)[0] == x,
        decreases n - k,
    {
        proof {
            lemma_indices_prefix(k as int + 1, sp);
        }
        if staged.is_none() && is_rel[k] && ds[k].staged {
            staged = Some(k);
        }
        k = k + 1;
    }
    assert(staged == staged_index(ds@, booted));
    // the remaining related ones, and the others
    let ghost rp = |j: int| related(ds@, booted)(j) && Some(j as usize) != staged_index(ds@, booted) && Some(j as usize) != booted;
    let ghost up = |j: int| !related(ds@, booted)(j);
    let mut rem: Vec<usize> = Vec::new();
    let mut unrel: Vec<usize> = Vec::new();
    let mut m: usize = 0;
    while m < n
        invariant
            n == ds@.len(),
            m <= n,
            is_rel@.len() == n,
            forall|j: int| 0 <= j < n ==> is_rel@[j] == related(ds@, booted)(j),
            staged == staged_index(ds@, booted),
            rp == (|j: int| related(ds@, booted)(j) && Some(j as usize) != staged_index(ds@, booted) && Some(j as usize) != booted),
            up == (|j: int| !related(ds@, booted)(j)),
            rem@ == indices_where(m as int, rp),
            unrel@ == indices_where(m as int, up),
        decreases n - m,
    {
        let not_staged = match staged {
            Some(x) => x != m,
            None => true,
        };
        let not_booted = match booted {
            Some(b) => b != m,
            None => true,
        };
        push_if(&mut rem, m, is_rel[m] && not_staged && not_booted);
        push_if(&mut unrel, m, !is_rel[m]);
        m = m + 1;
    }
    proof {
        lemma_indices_bound(n as int, rp);
    }
    let (rollback, mut other) = if rem.len() > 0 {
        let first = rem.remove(0);
        (Some(first), rem)
    } else {
        (None, rem)
    };
    let ghost before = other@;
    other.append(&mut unrel);
    let queued = match (booted, rollback) {
        (Some(b), Some(k)) => ds[k].index < ds[b].index,
        _ => false,
    };
    let order = if queued {
        BootOrder::Rollback
    } else {
        BootOrder::Default
    };
    StatusSplit { staged, rollback, other, rollback_queued: queued, boot_order: order }
}

proof fn lemma_indices_prefix(n: int, p: spec_fn(int) -> bool)
    requires
        1 <= n <= usize::MAX + 1,
    ensures
        indices_where(n - 1, p).len() > 0 ==> indices_where(n, p)[0] == indices_where(n - 1, p)[0]
            && indices_where(n, p).len() > 0,
        indices_where(n - 1, p).len() == 0 ==> (indices_where(n, p).len() > 0 <==> p(n - 1)) && (p(n - 1)
            ==> indices_where(n, p)[0] == n - 1),
{
    if p(n - 1) {
        assert(indices_where(n, p) == indices_where(n - 1, p).push((n - 1) as usize));
    }
}

proof fn lemma_indices_bound(n: int, p: spec_fn(int) -> bool)
    requires
        0 <= n <= usize::MAX + 1,
    ensures
        forall|i: int| 0 <= i < indices_where(n, p).len() ==> (#[trigger] indices_where(n, p)[i]) < n,
    decreases n,
{
    if n > 0 {
        lemma_indices_bound(n - 1, p);
        if p(n - 1) {
            assert(indices_where(n, p) == indices_where(n - 1, p).push((n - 1) as usize));
        }
    }
}
} // verus!
