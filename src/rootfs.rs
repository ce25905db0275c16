//! Checks and settings for the target root file system.
use crate::bls::{opt_view, strings_view};
use crate::mount::MountSpec;
use crate::cmdline::{lookup, prefixed, str_key_is, tokens, Cmdline};
use crate::text::{chars_equal, chars_of, copy_chars, first_where};
use vstd::prelude::*;
use vstd::string::*;
use vstd::utf8::{decode_utf8, valid_utf8};

verus! {

/// Why a target root is not empty enough to install to.
#[derive(Debug, PartialEq, Eq)]
pub enum RootDirError {
    /// An entry other than `lost+found` and `boot` at the top.
    NonEmptyRoot(String),
    /// `boot` holds something other than `lost+found` or `efi`.
    NonEmptyBoot(String),
}

/// `lost+found`, which any root may hold.
pub open spec fn is_lost_found(n: Seq<char>) -> bool {
    n == "lost+found"@
}

/// An entry that has no place at the top of an empty root.
pub open spec fn foreign_entry(n: Seq<char>) -> bool {
    !is_lost_found(n) && n != "boot"@
}

/// Holds of the `boot` entries that an empty root may not have: all but
/// `lost+found` and `efi`.
pub open spec fn boot_entry_refused() -> spec_fn(Seq<char>) -> bool {
    |n: Seq<char>| !is_lost_found(n) && n != "efi"@
}

/// Index of the first refused entry of `boot`, or -1.
pub open spec fn boot_bad(boot_entries: Seq<Seq<char>>) -> int {
    first_where(boot_entries, boot_entry_refused(), 0)
}

/// Holds of the root entries that make the root not empty.
pub open spec fn root_entry_refused(boot_entries: Seq<Seq<char>>) -> spec_fn(Seq<char>) -> bool {
    |n: Seq<char>| foreign_entry(n) || (n == "boot"@ && boot_bad(boot_entries) >= 0)
}

fn text_is(a: &str, b: &str) -> (r: bool)
    ensures
        r == (a@ == b@),
{
    let x = chars_of(a);
    let y = chars_of(b);
    chars_equal(&x, &y)
}

/// Checks that a target root holds nothing but `lost+found` and a `boot`
/// directory that holds nothing but `lost+found` and `efi`. Entries are
/// examined in the order given; the first refused one is reported.
pub fn require_empty_rootdir(entries: &Vec<String>, boot_entries: &Vec<String>) -> (r: Result<(), RootDirError>)
    ensures
        ({
            let be = strings_view(boot_entries@);
            let k = first_where(strings_view(entries@), root_entry_refused(be), 0);
            &&& k < 0 ==> r is Ok
            &&& k >= 0 && foreign_entry(entries@[k]@) ==> (r matches Err(RootDirError::NonEmptyRoot(n))
                && n@ == entries@[k]@)
            &&& k >= 0 && !foreign_entry(entries@[k]@) ==> (r matches Err(RootDirError::NonEmptyBoot(n))
                && n@ == be[boot_bad(be)])
        }),
{
    proof {
        reveal_strlit("lost+found");
        reveal_strlit("boot");
        reveal_strlit("efi");
    }
    let ghost be = strings_view(boot_entries@);
    // the first entry of `boot` that has no place there
    let mut bad: Option<usize> = None;
    let mut j: usize = 0;
    while j < boot_entries.len()
        invariant
            j <= boot_entries@.len(),
            be == strings_view(boot_entries@),
            bad is None ==> first_where(be, boot_entry_refused(), 0) == first_where(be, boot_entry_refused(), j as int),
            bad matches Some(x) ==> x < boot_entries@.len() && first_where(be, boot_entry_refused(), 0) == x,
        decreases boot_entries@.len() - j,
    {
        proof {
            reveal_strlit("lost+found");
            reveal_strlit("efi");
        }
        if bad.is_none() {
            let name = boot_entries[j].as_str();
            assert(be[j as int] == name@);
            if !text_is(name, "lost+found") && !text_is(name, "efi") {
                assert(boot_entry_refused()(be[j as int]));
                bad = Some(j);
            }
        }
        j = j + 1;
    }
    proof {
        if bad is None {
            assert(first_where(be, boot_entry_refused(), j as int) == -1);
        }
    }
    let ghost names = strings_view(entries@);
    let mut i: usize = 0;
    while i < entries.len()
        invariant
            i <= entries@.len(),
            names == strings_view(entries@),
            be == strings_view(boot_entries@),
            bad is None ==> boot_bad(be) == -1,
            bad matches Some(x) ==> x < boot_entries@.len() && boot_bad(be) == x,
            first_where(names, root_entry_refused(be), 0) == first_where(names, root_entry_refused(be), i as int),
        decreases entries@.len() - i,
    {
        proof {
            reveal_strlit("lost+found");
            reveal_strlit("boot");
        }
        let name = entries[i].as_str();
        assert(names[i as int] == name@);
        assert("lost+found"@.len() == 10 && "boot"@.len() == 4);
        if text_is(name, "lost+found") {
            assert(names[i as int] != "boot"@);
        } else if text_is(name, "boot") {
            match bad {
                Some(x) => {
                    assert(root_entry_refused(be)(names[i as int]));
                    assert(be[x as int] == boot_entries@[x as int]@);
                    return Err(RootDirError::NonEmptyBoot(boot_entries[x].clone()));
                },
                None => {},
            }
        } else {
            assert(root_entry_refused(be)(names[i as int]));
            return Err(RootDirError::NonEmptyRoot(entries[i].clone()));
        }
        assert(!root_entry_refused(be)(names[i as int]));
        i = i + 1;
    }
    Ok(())
}

/// How to mount the root and which arguments to carry over.
#[derive(Debug, PartialEq, Eq)]
pub struct RootMountInfo {
    pub mount_spec: String,
    pub kargs: Vec<String>,
}

/// Why the root arguments could not be worked out.
#[derive(Debug, PartialEq, Eq)]
pub enum RootArgsError {
    /// The `root=` argument is not UTF-8.
    InvalidRoot,
    /// No `root=` argument and no file system UUID.
    NoUuid,
}

/// The `rootflags` parameter of a command line, as a one-element list, if
/// there is one that is UTF-8.
pub open spec fn rootflags_param(s: Seq<u8>) -> Seq<Seq<char>> {
    let k = first_where(tokens(s), str_key_is("rootflags"@), 0);
    if k < 0 {
        seq![]
    } else {
        seq![decode_utf8(tokens(s)[k])]
    }
}

/// Works out how to mount the root file system: from the `root=` argument
/// when there is one, carrying over `rootflags` and the `rd.` arguments;
/// else by the file system's UUID.
pub fn find_root_args_to_inherit(cmdline: &Cmdline, fs_uuid: Option<&str>) -> (r: Result<RootMountInfo, RootArgsError>)
    ensures
        lookup(cmdline@, "root".spec_bytes()) is Some && !valid_utf8(lookup(cmdline@, "root".spec_bytes())->Some_0)
            ==> r == Err::<RootMountInfo, RootArgsError>(RootArgsError::InvalidRoot),
        lookup(cmdline@, "root".spec_bytes()) is Some && valid_utf8(lookup(cmdline@, "root".spec_bytes())->Some_0)
            ==> (r matches Ok(m) && m.mount_spec@ == decode_utf8(lookup(cmdline@, "root".spec_bytes())->Some_0)
            && strings_view(m.kargs@) == rootflags_param(cmdline@) + prefixed(tokens(cmdline@), "rd."@)),
        lookup(cmdline@, "root".spec_bytes()) is None && fs_uuid is None ==> r == Err::<
            RootMountInfo,
            RootArgsError,
        >(RootArgsError::NoUuid),
        lookup(cmdline@, "root".spec_bytes()) is None && fs_uuid is Some ==> (r matches Ok(m) && m.mount_spec@
            == "UUID="@ + fs_uuid->Some_0@ && m.kargs@.len() == 0),
{
    match cmdline.value_of_utf8("root") {
        Err(_) => Err(RootArgsError::InvalidRoot),
        Ok(Some(root)) => {
            let mut kargs: Vec<String> = Vec::new();
            match cmdline.find_str("rootflags") {
                Some(p) => kargs.push(p.parameter),
                None => {},
            }
            let ghost head = strings_view(kargs@);
            assert(head =~= rootflags_param(cmdline@));
            let rd = cmdline.find_all_starting_with_str("rd.");
            let ghost want = prefixed(tokens(cmdline@), "rd."@);
            let mut i: usize = 0;
            while i < rd.len()
                invariant
                    i <= rd@.len(),
                    rd@.len() == want.len(),
                    forall|j: int| 0 <= j < rd@.len() ==> (#[trigger] rd@[j]).models(want[j]),
                    strings_view(kargs@) == head + want.take(i as int),
                decreases rd@.len() - i,
            {
                let ghost before = kargs@;
                let x = rd[i].parameter.clone();
                assert(rd@[i as int].models(want[i as int]));
                assert(x@ == want[i as int]);
                kargs.push(x);
                assert(kargs@ =~= before.push(x));
                assert(strings_view(kargs@) =~= strings_view(before).push(x@));
                assert(want.take(i + 1) =~= want.take(i as int).push(want[i as int]));
                assert(strings_view(kargs@) =~= head + want.take(i + 1));
                i = i + 1;
            }
            assert(want.take(i as int) =~= want);
            Ok(RootMountInfo { mount_spec: root, kargs })
        },
        Ok(None) => match fs_uuid {
            Some(u) => {
                let spec = String::from_str("UUID=").concat(u);
                Ok(RootMountInfo { mount_spec: spec, kargs: Vec::new() })
            },
            None => Err(RootArgsError::NoUuid),
        },
    }
}


/// The `/boot` mount of an install: the given mount specification (none if it
/// is empty), else the file system with `boot_uuid`; mounted read-only.
pub open spec fn boot_source(boot_mount_spec: Option<Seq<char>>, boot_uuid: Option<Seq<char>>) -> Option<Seq<char>> {
    match boot_mount_spec {
        Some(spec) => if spec.len() == 0 {
            None
        } else {
            Some(spec)
        },
        None => match boot_uuid {
            Some(u) => Some("UUID="@ + u),
            None => None,
        },
    }
}

/// The kernel arguments of an install to a file system: `root=<spec>` and the
/// inherited arguments (none when the root spec is empty), `rw`, then
/// `boot=<source>` when `/boot` is a mount of its own.
pub open spec fn install_kargs_spec(root: Seq<char>, inherited: Seq<Seq<char>>, boot: Option<Seq<char>>) -> Seq<Seq<char>> {
    let head = if root.len() == 0 {
        seq![]
    } else {
        seq!["root="@ + root] + inherited
    };
    let with_rw = head.push("rw"@);
    match boot {
        Some(b) => with_rw.push("boot="@ + b),
        None => with_rw,
    }
}

/// Works out the `/boot` mount and the kernel arguments of an install to a
/// file system.
pub fn install_kargs(root: &RootMountInfo, boot_mount_spec: Option<&str>, boot_uuid: Option<&str>) -> (r: (
    Option<MountSpec>,
    Vec<String>,
))
    ensures
        ({
            let src = boot_source(
                match boot_mount_spec {
                    Some(s) => Some(s@),
                    None => None,
                },
                match boot_uuid {
                    Some(u) => Some(u@),
                    None => None,
                },
            );
            &&& src is None ==> r.0 is None
            &&& src matches Some(b) ==> (r.0 matches Some(m) && m.source@ == b && m.target@ == "/boot"@
                && opt_view(m.options) == Some("ro"@))
            &&& strings_view(r.1@) == install_kargs_spec(root.mount_spec@, strings_view(root.kargs@), src)
        }),
{
    proof {
        reveal_strlit("");
    }
    let mut boot = match boot_mount_spec {
        Some(spec) => {
            if spec.is_empty() {
                None
            } else {
                Some(MountSpec::new(spec, "/boot"))
            }
        },
        None => match boot_uuid {
            Some(u) => Some(MountSpec::new_uuid_src(u, "/boot")),
            None => None,
        },
    };
    match &mut boot {
        Some(b) => {
            b.push_option("ro");
        },
        None => {},
    }
    let bootarg = match &boot {
        Some(b) => Some(String::from_str("boot=").concat(b.source.as_str())),
        None => None,
    };
    let mut kargs: Vec<String> = Vec::new();
    if !root.mount_spec.as_str().is_empty() {
        kargs.push(String::from_str("root=").concat(root.mount_spec.as_str()));
        let mut i: usize = 0;
        while i < root.kargs.len()
            invariant
                i <= root.kargs@.len(),
                root.mount_spec@.len() > 0,
                strings_view(kargs@) == seq!["root="@ + root.mount_spec@] + strings_view(root.kargs@).take(i as int),
            decreases root.kargs@.len() - i,
        {
            let ghost before = kargs@;
            let x = root.kargs[i].clone();
            kargs.push(x);
            assert(strings_view(kargs@) =~= strings_view(before).push(x@));
            assert(strings_view(root.kargs@).take(i + 1) =~= strings_view(root.kargs@).take(i as int).push(x@));
            assert(strings_view(kargs@) =~= seq!["root="@ + root.mount_spec@] + strings_view(root.kargs@).take(i + 1));
            i = i + 1;
        }
        assert(strings_view(root.kargs@).take(i as int) =~= strings_view(root.kargs@));
    } else {
        assert(strings_view(kargs@) =~= Seq::<Seq<char>>::empty());
    }
    let ghost head = strings_view(kargs@);
    let rw = String::from_str("rw");
    kargs.push(rw);
    assert(strings_view(kargs@) =~= head.push("rw"@));
    match bootarg {
        Some(a) => {
            let ghost before = strings_view(kargs@);
            kargs.push(a);
            assert(strings_view(kargs@) =~= before.push(a@));
        },
        None => {},
    }
    (boot, kargs)
}

/// The next device down towards the one that backs the root: none when the
/// device has no parent, an error when it has several.
#[derive(Debug, PartialEq, Eq)]
pub enum BackingStep {
    /// The device is the backing device.
    Done,
    /// Go on with this parent.
    Parent(String),
}

/// Why the backing device of the root could not be found.
#[derive(Debug, PartialEq, Eq)]
pub enum BackingError {
    MultipleParents(String, String),
}

/// Given the parents of the current device, decides how to go on.
pub fn backing_step(parents: Vec<String>) -> (r: Result<BackingStep, BackingError>)
    ensures
        parents@.len() == 0 ==> r == Ok::<BackingStep, BackingError>(BackingStep::Done),
        parents@.len() == 1 ==> (r matches Ok(BackingStep::Parent(p)) && p@ == parents@[0]@),
        parents@.len() > 1 ==> (r matches Err(BackingError::MultipleParents(a, b)) && a@ == parents@[0]@ && b@
            == parents@[1]@),
{
    let n = parents.len();
    if n == 0 {
        return Ok(BackingStep::Done);
    }
    if n == 1 {
        return Ok(BackingStep::Parent(parents[0].clone()));
    }
    Err(BackingError::MultipleParents(parents[0].clone(), parents[1].clone()))
}

/// On an install to a file system found by its UUID, the kernel arguments
/// start with `root=UUID=<uuid>` and hold `rw`; the options of the BLS entry
/// are these arguments followed by `composefs=<id>`.
pub proof fn lemma_install_kargs_root_rw(uuid: Seq<char>, boot: Option<Seq<char>>)
    ensures
        install_kargs_spec("UUID="@ + uuid, seq![], boot)[0] == "root="@ + ("UUID="@ + uuid),
        install_kargs_spec("UUID="@ + uuid, seq![], boot).contains("rw"@),
{
    reveal_strlit("UUID=");
    let ks = install_kargs_spec("UUID="@ + uuid, seq![], boot);
    assert(("UUID="@ + uuid).len() > 0);
    assert(ks[1] == "rw"@);
}

/// The comma-separated pieces of `s`, the current one begun at `start`.
pub open spec fn comma_pieces(s: Seq<char>, start: int, i: int) -> Seq<Seq<char>>
    decreases s.len() - i,
{
    if i >= s.len() {
        seq![s.subrange(start, s.len() as int)]
    } else if s[i] == ',' {
        seq![s.subrange(start, i)] + comma_pieces(s, i + 1, i + 1)
    } else {
        comma_pieces(s, start, i + 1)
    }
}

/// Holds of the mount options `name=<value>`.
pub open spec fn option_named(name: Seq<char>) -> spec_fn(Seq<char>) -> bool {
    |o: Seq<char>| (name + seq!['=']).is_prefix_of(o)
}

/// The value of the first mount option `name=<value>` in `options`.
pub open spec fn mount_option(options: Seq<char>, name: Seq<char>) -> Option<Seq<char>> {
    let ps = comma_pieces(options, 0, 0);
    let k = first_where(ps, option_named(name), 0);
    if k < 0 {
        None
    } else {
        Some(ps[k].skip(name.len() as int + 1))
    }
}

/// The value of the first mount option `name=<value>` in `options`.
pub fn find_mount_option(options: &str, name: &str) -> (r: Option<String>)
    ensures
        match r {
            Some(v) => mount_option(options@, name@) == Some(v@),
            None => mount_option(options@, name@) is None,
        },
{
    let cs = chars_of(options);
    let n = cs.len();
    let mut want = chars_of(name);
    want.push('=');
    let ghost ps = comma_pieces(cs@, 0, 0);
    let ghost pred = option_named(name@);
    let mut start: usize = 0;
    let mut i: usize = 0;
    let ghost mut done: Seq<Seq<char>> = seq![];
    while i <= n
        invariant
            n == cs@.len(),
            cs@ == options@,
            want@ == name@ + seq!['='],
            start <= n,
            start <= i <= n,
            ps == comma_pieces(cs@, 0, 0),
            pred == option_named(name@),
            done + comma_pieces(cs@, start as int, i as int) == ps,
            forall|m: int| 0 <= m < done.len() ==> !pred(#[trigger] done[m]),
            first_where(ps, pred, 0) == first_where(ps, pred, done.len() as int),
        decreases n - i,
    {
        if i == n || cs[i] == ',' {
            let ghost piece = cs@.subrange(start as int, i as int);
            proof {
                if i < n {
                    assert(done + comma_pieces(cs@, start as int, i as int) =~= done.push(piece)
                        + comma_pieces(cs@, i + 1, i + 1));
                } else {
                    assert(done + comma_pieces(cs@, start as int, i as int) =~= done.push(piece));
                }
                assert(ps[done.len() as int] == piece);
            }
            // does the piece start with `name=`?
            let mut ok = i - start >= want.len();
            let mut k: usize = 0;
            while ok && k < want.len()
                invariant
                    ok ==> i - start >= want@.len(),
                    start <= i <= n,
                    n == cs@.len(),
                    k <= want@.len(),
                    ok ==> forall|m: int| 0 <= m < k ==> cs@[start + m] == want@[m],
                    !ok ==> !want@.is_prefix_of(cs@.subrange(start as int, i as int)),
                decreases want@.len() - k,
            {
                if cs[start + k] != want[k] {
                    assert(cs@.subrange(start as int, i as int)[k as int] != want@[k as int]);
                    ok = false;
                }
                k = k + 1;
            }
            if ok {
                assert(cs@.subrange(start as int, i as int).take(want@.len() as int) =~= want@);
                assert(pred(piece));
                let v = copy_chars(options, start + want.len(), i);
                assert(v@ =~= piece.skip(name@.len() as int + 1));
                return Some(v);
            }
            assert(!pred(piece));
            proof {
                done = done.push(piece);
            }
            if i == n {
                assert(done == ps);
                assert(first_where(ps, pred, ps.len() as int) == -1);
                return None;
            } else {
                start = i + 1;
                i = i + 1;
            }
        } else {
            i = i + 1;
        }
    }
    None
}

/// How to mount a root found by its file system UUID: by `UUID=`, with
/// `rootflags=subvol=<vol>` for a btrfs mounted from a subvolume.
pub fn root_mount_by_uuid(uuid: &str, fstype: &str, options: &str) -> (r: RootMountInfo)
    ensures
        r.mount_spec@ == "UUID="@ + uuid@,
        fstype@ == "btrfs"@ && mount_option(options@, "subvol"@) is Some ==> strings_view(r.kargs@) == seq![
            "rootflags=subvol="@ + mount_option(options@, "subvol"@)->Some_0,
        ],
        !(fstype@ == "btrfs"@ && mount_option(options@, "subvol"@) is Some) ==> r.kargs@.len() == 0,
{
    let mut kargs: Vec<String> = Vec::new();
    if text_is(fstype, "btrfs") {
        match find_mount_option(options, "subvol") {
            Some(v) => {
                let k = String::from_str("rootflags=subvol=").concat(v.as_str());
                kargs.push(k);
                assert(strings_view(kargs@) =~= seq![k@]);
            },
            None => {},
        }
    }
    RootMountInfo { mount_spec: String::from_str("UUID=").concat(uuid), kargs }
}

fn append_all(out: &mut Vec<String>, more: &Vec<String>)
    ensures
        strings_view(final(out)@) == strings_view(old(out)@) + strings_view(more@),
{
    let ghost start = strings_view(out@);
    let mut i: usize = 0;
    while i < more.len()
        invariant
            i <= more@.len(),
            strings_view(out@) == start + strings_view(more@).take(i as int),
        decreases more@.len() - i,
    {
        let ghost before = out@;
        let x = more[i].clone();
        out.push(x);
        assert(strings_view(out@) =~= strings_view(before).push(x@));
        assert(strings_view(more@).take(i + 1) =~= strings_view(more@).take(i as int).push(x@));
        assert(strings_view(out@) =~= start + strings_view(more@).take(i + 1));
        i = i + 1;
    }
    assert(strings_view(more@).take(i as int) =~= strings_view(more@));
}

/// The kernel arguments a deployment is installed with, in this order: those
/// of the root setup, those of the install configuration, those of the image's
/// `kargs.d`, then those given on the command line.
pub fn merge_kargs(root: &Vec<String>, config: &Vec<String>, kargsd: &Vec<String>, cli: &Vec<String>) -> (r: Vec<String>)
    ensures
        strings_view(r@) == strings_view(root@) + strings_view(config@) + strings_view(kargsd@) + strings_view(cli@),
{
    let mut out: Vec<String> = Vec::new();
    assert(strings_view(out@) =~= Seq::<Seq<char>>::empty());
    append_all(&mut out, root);
    append_all(&mut out, config);
    append_all(&mut out, kargsd);
    append_all(&mut out, cli);
    assert(Seq::<Seq<char>>::empty() + strings_view(root@) =~= strings_view(root@));
    out
}
} // verus!
