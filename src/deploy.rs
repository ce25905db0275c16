//! What a deployment writes for the boot loader, computed from plain values:
//! the kernel command line, the BLS entry, the GRUB user configuration, the
//! origin file, and the checks on a unified kernel image's command line.
use crate::bls::{opt_view, strings_view, BLSConfig};
use crate::cmdline::{lookup, Cmdline};
use crate::text::{chars_of, copy_chars, first_where};
use vstd::prelude::*;
use vstd::string::*;

verus! {

/// How a deployment boots.
#[derive(Debug, Clone, Copy, PartialEq, Eq)]
pub enum BootType {
    /// A kernel and initrd under `/boot/<id>/`, with a BLS entry.
    Bls,
    /// A unified kernel image on the EFI system partition.
    Uki,
}

/// Whether the system is cleaned up on the next boot.
pub enum Cleanup {
    Skip,
    TriggerOnNextBoot,
}

/// Why a text did not name a boot type.
#[derive(Debug, PartialEq, Eq)]
pub enum BootTypeError {
    Unrecognized(String),
}

pub open spec fn boot_type_name(t: BootType) -> Seq<char> {
    match t {
        BootType::Bls => seq!['b', 'l', 's'],
        BootType::Uki => seq!['u', 'k', 'i'],
    }
}

impl BootType {
    /// `bls` or `uki`.
    pub fn to_string(&self) -> (r: String)
        ensures
            r@ == boot_type_name(*self),
    {
        proof {
            reveal_strlit("bls");
            reveal_strlit("uki");
        }
        match self {
            BootType::Bls => String::from_str("bls"),
            BootType::Uki => String::from_str("uki"),
        }
    }

    /// Reads `bls` or `uki`.
    pub fn try_from(value: &str) -> (r: Result<BootType, BootTypeError>)
        ensures
            value@ == boot_type_name(BootType::Bls) ==> r == Ok::<BootType, BootTypeError>(BootType::Bls),
            value@ == boot_type_name(BootType::Uki) ==> r == Ok::<BootType, BootTypeError>(BootType::Uki),
            value@ != boot_type_name(BootType::Bls) && value@ != boot_type_name(BootType::Uki) ==> (r matches Err(
                BootTypeError::Unrecognized(s),
            ) && s@ == value@),
    {
        let cs = chars_of(value);
        let b = vec!['b', 'l', 's'];
        let u = vec!['u', 'k', 'i'];
        assert(b@ =~= boot_type_name(BootType::Bls));
        assert(u@ =~= boot_type_name(BootType::Uki));
        if crate::text::chars_equal(&cs, &b) {
            Ok(BootType::Bls)
        } else if crate::text::chars_equal(&cs, &u) {
            Ok(BootType::Uki)
        } else {
            Err(BootTypeError::Unrecognized(value.to_owned()))
        }
    }
}

pub open spec fn composefs_word() -> Seq<char> {
    seq!['c', 'o', 'm', 'p', 'o', 's', 'e', 'f', 's']
}

/// `composefs=<id>`, or `composefs=?<id>` when fs-verity is not enforced.
pub open spec fn composefs_karg_text(id: Seq<char>, insecure: bool) -> Seq<char> {
    composefs_word() + seq!['='] + (if insecure {
        seq!['?']
    } else {
        seq![]
    }) + id
}

/// The kernel argument that selects the deployment `id`.
pub fn composefs_karg(id: &str, insecure: bool) -> (r: String)
    ensures
        r@ == composefs_karg_text(id@, insecure),
{
    proof {
        reveal_strlit("composefs=");
        reveal_strlit("composefs=?");
    }
    assert("composefs="@ =~= composefs_word() + seq!['=']);
    assert("composefs=?"@ =~= composefs_word() + seq!['='] + seq!['?']);
    let r = if insecure {
        String::from_str("composefs=?").concat(id)
    } else {
        String::from_str("composefs=").concat(id)
    };
    assert(r@ =~= composefs_karg_text(id@, insecure));
    r
}

/// `parts` joined with single spaces.
pub open spec fn joined(parts: Seq<Seq<char>>) -> Seq<char>
    decreases parts.len(),
{
    if parts.len() == 0 {
        seq![]
    } else if parts.len() == 1 {
        parts[0]
    } else {
        joined(parts.drop_last()) + seq![' '] + parts.last()
    }
}

/// The kernel command line of a new install: the root arguments, then the
/// deployment's `composefs=` argument.
pub fn install_cmdline(kargs: &Vec<String>, id: &str, insecure: bool) -> (r: String)
    ensures
        r@ == joined(strings_view(kargs@)) + seq![' '] + composefs_karg_text(id@, insecure),
{
    let ghost kv = strings_view(kargs@);
    let mut out = String::new();
    let mut i: usize = 0;
    proof {
        reveal_strlit(" ");
    }
    while i < kargs.len()
        invariant
            i <= kargs@.len(),
            kv == strings_view(kargs@),
            out@ == joined(kv.take(i as int)),
            " "@ == seq![' '],
        decreases kargs@.len() - i,
    {
        assert(kv.take(i + 1).drop_last() =~= kv.take(i as int));
        if i > 0 {
            out.append(" ");
        }
        out.append(kargs[i].as_str());
        proof {
            if i == 0 {
                assert(out@ =~= joined(kv.take(1)));
            } else {
                assert(out@ =~= joined(kv.take(i + 1)));
            }
        }
        i = i + 1;
    }
    assert(kv.take(i as int) =~= kv);
    out.append(" ");
    let k = composefs_karg(id, insecure);
    out.append(k.as_str());
    out
}

/// The partition type UUID of a root partition as the Discoverable
/// Partitions Specification assigns it.
pub open spec fn dps_root() -> Seq<char> {
    "6523f8ae-3eb1-4e2a-a05a-18b695ae656f"@
}

/// The kernel command line of an upgraded deployment.
pub fn upgrade_cmdline(id: &str) -> (r: String)
    ensures
        r@ == "root=UUID="@ + dps_root() + " rw "@ + composefs_karg_text(id@, false),
{
    let k = composefs_karg(id, false);
    String::from_str("root=UUID=").concat("6523f8ae-3eb1-4e2a-a05a-18b695ae656f").concat(" rw ").concat(
        k.as_str(),
    )
}

/// `/boot/<dir>/<file>`.
pub open spec fn boot_path(dir: Seq<char>, file: Seq<char>) -> Seq<char> {
    "/boot/"@ + dir + seq!['/'] + file
}

/// The deployments whose recorded boot digest is `digest`.
pub open spec fn digest_is(digest: Seq<char>) -> spec_fn((String, Option<String>)) -> bool {
    |o: (String, Option<String>)| opt_view(o.1) == Some(digest)
}

/// The first deployment, among `(name, boot digest)` records, whose kernel and
/// initrd have the digest `digest`: its files can be shared.
pub fn find_vmlinuz_initrd_duplicates(origins: &Vec<(String, Option<String>)>, digest: &str) -> (r: Option<String>)
    ensures
        first_where(origins@, digest_is(digest@), 0) < 0 ==> r is None,
        first_where(origins@, digest_is(digest@), 0) >= 0 ==> (r matches Some(n) && n@ == origins@[first_where(
            origins@,
            digest_is(digest@),
            0,
        )].0@),
{
    let mut i: usize = 0;
    while i < origins.len()
        invariant
            i <= origins@.len(),
            first_where(origins@, digest_is(digest@), 0) == first_where(origins@, digest_is(digest@), i as int),
        decreases origins@.len() - i,
    {
        match &origins[i].1 {
            Some(h) => {
                let hc = chars_of(h.as_str());
                let dc = chars_of(digest);
                if crate::text::chars_equal(&hc, &dc) {
                    assert(digest_is(digest@)(origins@[i as int]));
                    return Some(origins[i].0.clone());
                }
            },
            None => {},
        }
        i = i + 1;
    }
    None
}

/// The BLS entry of deployment `id`: titled by the id, sort key `1`, the
/// given options, and the kernel and initrd of `files_of` (the deployment
/// itself, or one that has the same kernel and initrd).
pub fn deployment_bls_entry(id: &str, options: String, files_of: &str) -> (r: BLSConfig)
    ensures
        opt_view(r.title) == Some(id@),
        opt_view(r.sort_key) == Some(seq!['1']),
        opt_view(r.options) == Some(options@),
        r.machine_id is None,
        r.linux@ == boot_path(files_of@, "vmlinuz"@),
        strings_view(r.initrd@) == seq![boot_path(files_of@, "initrd"@)],
        r.version@.len() == 0,
        r.extra@.len() == 0,
{
    proof {
        reveal_strlit("1");
        reveal_strlit("/");
    }
    let linux = String::from_str("/boot/").concat(files_of).concat("/").concat("vmlinuz");
    let initrd = String::from_str("/boot/").concat(files_of).concat("/").concat("initrd");
    assert(linux@ =~= boot_path(files_of@, "vmlinuz"@));
    assert(initrd@ =~= boot_path(files_of@, "initrd"@));
    let initrds = vec![initrd];
    assert(strings_view(initrds@) =~= seq![boot_path(files_of@, "initrd"@)]);
    let sk = String::from_str("1");
    assert(sk@ =~= seq!['1']);
    BLSConfig {
        title: Some(id.to_owned()),
        version: String::new(),
        linux,
        initrd: initrds,
        options: Some(options),
        machine_id: None,
        sort_key: Some(sk),
        extra: Vec::new(),
    }
}

/// The file name of a BLS entry with the given sort key.
pub fn entry_file_name(sort_key: &str) -> (r: String)
    ensures
        r@ == "bootc-composefs-"@ + sort_key@ + ".conf"@,
{
    String::from_str("bootc-composefs-").concat(sort_key).concat(".conf")
}

/// The start of `grub2/user.cfg`: it sources the file that holds the EFI
/// partition's UUID, if that exists.
pub fn efi_uuid_source() -> (r: String)
    ensures
        r@ == "\nif [ -f ${config_directory}/efiuuid.cfg ]; then\n        source ${config_directory}/efiuuid.cfg\nfi\n"@,
{
    String::from_str(
        "\nif [ -f ${config_directory}/efiuuid.cfg ]; then\n        source ${config_directory}/efiuuid.cfg\nfi\n",
    )
}

/// The content of `grub2/efiuuid.cfg`.
pub fn efi_uuid_cfg(uuid: &str) -> (r: String)
    ensures
        r@ == "set EFI_PART_UUID=\""@ + crate::bls::trim(uuid@) + "\""@,
{
    let cs = chars_of(uuid);
    let (a, b) = crate::bls::trim_range(&cs, 0, cs.len());
    assert(cs@.subrange(0, cs@.len() as int) =~= uuid@);
    let t = copy_chars(uuid, a, b);
    String::from_str("set EFI_PART_UUID=\"").concat(t.as_str()).concat("\"")
}

/// The content of `grub2/user.cfg` for a new install: the UUID source, then
/// one entry for the deployment's image.
pub fn user_cfg(boot_label: &str, id: &str) -> (r: String)
    ensures
        r@ == "\nif [ -f ${config_directory}/efiuuid.cfg ]; then\n        source ${config_directory}/efiuuid.cfg\nfi\n"@
            + crate::grub::uki_entry_text(boot_label@, id@),
{
    let src = efi_uuid_source();
    let t = crate::grub::uki_entry_string(boot_label, id);
    src.concat(t.as_str())
}

/// What a unified kernel image's command line says of the deployment.
#[derive(Debug, PartialEq, Eq)]
pub enum UkiCmdlineError {
    /// No `composefs=` argument, or one that is not UTF-8.
    MissingComposefs,
    /// A `composefs=` argument for another deployment.
    WrongDeployment(String),
}

/// The deployment that a `composefs=` value names, with whether it is marked
/// insecure by a leading `?`.
pub open spec fn composefs_target(v: Seq<char>) -> (Seq<char>, bool) {
    if v.len() > 0 && v[0] == '?' {
        (v.skip(1), true)
    } else {
        (v, false)
    }
}

/// The deployment that the `composefs=` argument of a command line names, if
/// it has one that is UTF-8.
pub open spec fn uki_target(cmdline: Seq<u8>) -> Option<(Seq<char>, bool)> {
    match lookup(cmdline, "composefs".spec_bytes()) {
        Some(v) => if vstd::utf8::valid_utf8(v) {
            Some(composefs_target(vstd::utf8::decode_utf8(v)))
        } else {
            None
        },
        None => None,
    }
}

/// Checks that the command line of a unified kernel image boots deployment
/// `id`; returns whether it does so in insecure mode.
pub fn check_uki_cmdline(cmdline: &str, id: &str) -> (r: Result<bool, UkiCmdlineError>)
    ensures
        uki_target(cmdline.spec_bytes()) is None ==> r == Err::<bool, UkiCmdlineError>(
            UkiCmdlineError::MissingComposefs,
        ),
        forall|ins: bool| uki_target(cmdline.spec_bytes()) == Some((id@, ins)) ==> r == Ok::<bool, UkiCmdlineError>(ins),
        forall|t: Seq<char>, ins: bool|
            uki_target(cmdline.spec_bytes()) == Some((t, ins)) && t != id@ ==> (r matches Err(
                UkiCmdlineError::WrongDeployment(s),
            ) && s@ == t),
{
    let line = Cmdline::from(cmdline.as_bytes());
    proof {
        reveal_strlit("composefs");
    }
    match line.value_of_utf8("composefs") {
        Ok(Some(v)) => {
            let cs = chars_of(v.as_str());
            let (start, insecure) = if cs.len() > 0 && cs[0] == '?' {
                (1usize, true)
            } else {
                (0usize, false)
            };
            let target = copy_chars(v.as_str(), start, cs.len());
            let want = chars_of(id);
            let got = chars_of(target.as_str());
            proof {
                if start == 1 {
                    assert(target@ =~= v@.skip(1));
                } else {
                    assert(target@ =~= v@);
                }
            }
            if crate::text::chars_equal(&got, &want) {
                Ok(insecure)
            } else {
                Err(UkiCmdlineError::WrongDeployment(target))
            }
        },
        _ => Err(UkiCmdlineError::MissingComposefs),
    }
}

/// A mismatch between the insecure option of the install and the image's
/// command line; reported, never fatal.
#[derive(Debug, PartialEq, Eq)]
pub enum InsecureMismatch {
    /// `--insecure` was given but the image's command line requires fs-verity.
    OptionWithoutCmdline,
    /// The image's command line is insecure but `--insecure` was not given.
    CmdlineWithoutOption,
}

/// Compares the install's insecure option, if one was given, with the image's.
pub fn insecure_mismatch(from_opts: Option<bool>, from_cmdline: bool) -> (r: Option<InsecureMismatch>)
    ensures
        r == (match from_opts {
            Some(true) if !from_cmdline => Some(InsecureMismatch::OptionWithoutCmdline),
            Some(false) if from_cmdline => Some(InsecureMismatch::CmdlineWithoutOption),
            _ => None::<InsecureMismatch>,
        }),
{
    match from_opts {
        Some(true) => if !from_cmdline {
            Some(InsecureMismatch::OptionWithoutCmdline)
        } else {
            None
        },
        Some(false) => if from_cmdline {
            Some(InsecureMismatch::CmdlineWithoutOption)
        } else {
            None
        },
        None => None,
    }
}


/// The BLS entry of deployment `id` whose kernel and initrd have the digest
/// `digest`, given the `(name, boot digest)` records of the deployments on
/// disk. When one of them has the same digest its files are shared: the entry
/// points at them and the name is returned, so nothing is written under
/// `/boot/<id>/`. Otherwise the entry points at `/boot/<id>/`.
pub fn bls_entry_for_deployment(
    id: &str,
    options: String,
    origins: &Vec<(String, Option<String>)>,
    digest: &str,
) -> (r: (BLSConfig, Option<String>))
    ensures
        opt_view(r.0.title) == Some(id@),
        opt_view(r.0.sort_key) == Some(seq!['1']),
        opt_view(r.0.options) == Some(options@),
        r.1 is None ==> r.0.linux@ == boot_path(id@, "vmlinuz"@) && strings_view(r.0.initrd@) == seq![
            boot_path(id@, "initrd"@),
        ],
        r.1 matches Some(other) ==> exists|k: int|
            0 <= k < origins@.len() && #[trigger] origins@[k].0@ == other@ && opt_view(origins@[k].1) == Some(
                digest@,
            ) && r.0.linux@ == boot_path(other@, "vmlinuz"@) && strings_view(r.0.initrd@) == seq![
                boot_path(other@, "initrd"@),
            ],
        first_where(origins@, digest_is(digest@), 0) < 0 <==> r.1 is None,
{
    match find_vmlinuz_initrd_duplicates(origins, digest) {
        Some(other) => {
            proof {
                crate::text::lemma_first_where_bounds(origins@, digest_is(digest@), 0);
            }
            let e = deployment_bls_entry(id, options, other.as_str());
            (e, Some(other))
        },
        None => (deployment_bls_entry(id, options, id), None),
    }
}

/// Whether `cfg` is the entry booted with the kernel argument `param`
/// (`composefs=<id>`): its options hold that text.
pub fn is_booted_entry(cfg: &BLSConfig, param: &str) -> (r: bool)
    ensures
        r == (cfg.options matches Some(o) && crate::blockdev::occurs_in(o@, param@)),
{
    match &cfg.options {
        Some(o) => {
            let oc = chars_of(o.as_str());
            let pc = chars_of(param);
            let r = crate::blockdev::occurs_in_prefix(&oc, oc.len(), &pc);
            assert(oc@.take(oc@.len() as int) =~= oc@);
            r
        },
        None => false,
    }
}

/// Where BLS entries go: `loader/entries`, or `loader/entries.staged` for an
/// upgrade (renamed into place at shutdown).
pub fn bls_entries_dir(is_upgrade: bool) -> (r: String)
    ensures
        is_upgrade ==> r@ == "loader/entries.staged"@,
        !is_upgrade ==> r@ == "loader/entries"@,
{
    if is_upgrade {
        String::from_str("loader/entries.staged")
    } else {
        String::from_str("loader/entries")
    }
}

/// The GRUB user configuration file: `user.cfg`, or `user.cfg.staged` for an
/// upgrade.
pub fn user_cfg_name(is_upgrade: bool) -> (r: String)
    ensures
        is_upgrade ==> r@ == "user.cfg.staged"@,
        !is_upgrade ==> r@ == "user.cfg"@,
{
    if is_upgrade {
        String::from_str("user.cfg.staged")
    } else {
        String::from_str("user.cfg")
    }
}

/// On upgrade the booted entry is rewritten with sort key `0`, so that the
/// new entry (sort key `1`) is listed first.
pub fn demote_booted_entry(cfg: &mut BLSConfig)
    ensures
        opt_view(final(cfg).sort_key) == Some(seq!['0']),
        final(cfg).title == old(cfg).title,
        final(cfg).version == old(cfg).version,
        final(cfg).linux == old(cfg).linux,
        final(cfg).initrd == old(cfg).initrd,
        final(cfg).options == old(cfg).options,
        final(cfg).machine_id == old(cfg).machine_id,
        final(cfg).extra == old(cfg).extra,
{
    proof {
        reveal_strlit("0");
    }
    let z = String::from_str("0");
    assert(z@ =~= seq!['0']);
    cfg.sort_key = Some(z);
}

/// The GRUB user configuration of an upgrade: the UUID source, the new
/// deployment's entry, then the entry booted now.
pub fn user_cfg_upgrade(boot_label: &str, id: &str, booted_entry_text: &str) -> (r: String)
    ensures
        r@ == "\nif [ -f ${config_directory}/efiuuid.cfg ]; then\n        source ${config_directory}/efiuuid.cfg\nfi\n"@
            + crate::grub::uki_entry_text(boot_label@, id@) + booted_entry_text@,
{
    user_cfg(boot_label, id).concat(booted_entry_text)
}
} // verus!
