//! The origin file of a deployment: an INI document that records where the
//! image came from and how the deployment boots.
use crate::deploy::{boot_type_name, BootType};
use crate::image::ImageReference;
use vstd::prelude::*;
use vstd::string::*;

verus! {

#[verifier::external_type_specification]
#[verifier::external_body]
pub struct ExIni(tini::Ini);

/// A document: its sections in order, each with its items in order.
pub type IniSections = Seq<(Seq<char>, Seq<(Seq<char>, Seq<char>)>)>;

/// The sections that a `tini::Ini` holds.
pub uninterp spec fn ini_sections(i: tini::Ini) -> IniSections;

/// The section that the next item of a `tini::Ini` goes to.
pub uninterp spec fn ini_current(i: tini::Ini) -> Seq<char>;

/// `items` with `k` set to `v`: replaced in place, or appended.
pub open spec fn set_item(items: Seq<(Seq<char>, Seq<char>)>, k: Seq<char>, v: Seq<char>) -> Seq<(Seq<char>, Seq<char>)> {
    if exists|j: int| 0 <= j < items.len() && #[trigger] items[j].0 == k {
        items.update(choose|j: int| 0 <= j < items.len() && #[trigger] items[j].0 == k, (k, v))
    } else {
        items.push((k, v))
    }
}

/// `doc` with item `k = v` in section `s`, the section appended if new.
pub open spec fn insert_item(doc: IniSections, s: Seq<char>, k: Seq<char>, v: Seq<char>) -> IniSections {
    if exists|j: int| 0 <= j < doc.len() && #[trigger] doc[j].0 == s {
        let j = choose|j: int| 0 <= j < doc.len() && #[trigger] doc[j].0 == s;
        doc.update(j, (s, set_item(doc[j].1, k, v)))
    } else {
        doc.push((s, seq![(k, v)]))
    }
}

/// The lines `k = v` of a section.
pub open spec fn render_items(items: Seq<(Seq<char>, Seq<char>)>) -> Seq<char>
    decreases items.len(),
{
    if items.len() == 0 {
        seq![]
    } else {
        render_items(items.drop_last()) + items.last().0 + seq![' ', '=', ' '] + items.last().1 + seq!['\n']
    }
}

/// The text of a document: each section as `[name]` and its items, sections
/// separated by a blank line.
pub open spec fn render_ini(doc: IniSections) -> Seq<char>
    decreases doc.len(),
{
    if doc.len() == 0 {
        seq![]
    } else {
        let block = seq!['['] + doc.last().0 + seq![']', '\n'] + render_items(doc.last().1);
        if doc.len() == 1 {
            block
        } else {
            render_ini(doc.drop_last()) + seq!['\n'] + block
        }
    }
}

/// Relies on `tini::Ini::new`: no sections, current section unnamed.
#[verifier::external_body]
fn ini_new() -> (r: tini::Ini)
    ensures
        ini_sections(r) == Seq::<(Seq<char>, Seq<(Seq<char>, Seq<char>)>)>::empty(),
        ini_current(r).len() == 0,
{
    tini::Ini::new()
}

/// Relies on `tini::Ini::section`: it only names the current section.
#[verifier::external_body]
fn ini_section(i: tini::Ini, name: &str) -> (r: tini::Ini)
    ensures
        ini_sections(r) == ini_sections(i),
        ini_current(r) == name@,
{
    i.section(name)
}

/// Relies on `tini::Ini::item`: the item goes to the end of the current
/// section (created at the end if missing), or replaces the value of the same
/// key there.
#[verifier::external_body]
fn ini_item(i: tini::Ini, key: &str, value: &str) -> (r: tini::Ini)
    ensures
        ini_sections(r) == insert_item(ini_sections(i), ini_current(i), key@, value@),
        ini_current(r) == ini_current(i),
{
    i.item(key, value)
}

/// Relies on `tini::Ini`'s `Display`: `[name]` lines, `key = value` lines,
/// and a blank line between sections.
#[verifier::external_body]
fn ini_text(i: &tini::Ini) -> (r: String)
    ensures
        r@ == render_ini(ini_sections(*i)),
{
    i.to_string()
}

/// The `container` value of an origin: the image, fetched without signature
/// checks through its transport.
pub open spec fn origin_container(transport: Seq<char>, image: Seq<char>) -> Seq<char> {
    "ostree-unverified-image:"@ + transport + image
}

/// The sections of an origin file.
pub open spec fn origin_sections(container: Seq<char>, boot_type: BootType, digest: Option<Seq<char>>) -> IniSections {
    let boot = seq![("boot_type"@, boot_type_name(boot_type))];
    seq![
        ("origin"@, seq![("container"@, container)]),
        (
            "boot"@,
            match digest {
                Some(d) => boot.push(("digest"@, d)),
                None => boot,
            },
        ),
    ]
}

/// The origin file of a deployment of `imgref`, booted as `boot_type`, with
/// the digest of its kernel and initrd for BLS deployments.
pub fn origin_file(imgref: &ImageReference, boot_type: BootType, boot_digest: Option<&str>) -> (r: String)
    ensures
        r@ == render_ini(
            origin_sections(
                origin_container(imgref.transport@, imgref.image@),
                boot_type,
                match boot_digest {
                    Some(d) => Some(d@),
                    None => None,
                },
            ),
        ),
{
    proof {
        reveal_strlit("origin");
        reveal_strlit("boot");
        reveal_strlit("container");
        reveal_strlit("boot_type");
        reveal_strlit("digest");
    }
    let container = String::from_str("ostree-unverified-image:").concat(imgref.transport.as_str()).concat(
        imgref.image.as_str(),
    );
    let bt = boot_type.to_string();
    let ini = ini_new();
    let ini = ini_section(ini, "origin");
    let ini = ini_item(ini, "container", container.as_str());
    let ghost d1 = ini_sections(ini);
    assert(!(exists|j: int| 0 <= j < 0 && #[trigger] Seq::<(Seq<char>, Seq<(Seq<char>, Seq<char>)>)>::empty()[j].0 == "origin"@));
    assert(d1 =~= seq![("origin"@, seq![("container"@, container@)])]);
    let ini = ini_section(ini, "boot");
    let ini = ini_item(ini, "boot_type", bt.as_str());
    let ghost d2 = ini_sections(ini);
    assert("origin"@ != "boot"@) by {
        assert("origin"@[0] != "boot"@[0]);
    }
    assert(!(exists|j: int| 0 <= j < d1.len() && #[trigger] d1[j].0 == "boot"@));
    assert(d2 =~= d1.push(("boot"@, seq![("boot_type"@, bt@)])));
    let ini = match boot_digest {
        Some(d) => {
            let ini = ini_item(ini, "digest", d);
            proof {
                let items = seq![("boot_type"@, bt@)];
                assert("boot_type"@ != "digest"@) by {
                    assert("boot_type"@[0] != "digest"@[0]);
                }
                assert(!(exists|j: int| 0 <= j < items.len() && #[trigger] items[j].0 == "digest"@));
                assert(d2[1].0 == "boot"@);
                assert(d2[0].0 != "boot"@);
                assert(forall|j: int| 0 <= j < d2.len() && #[trigger] d2[j].0 == "boot"@ ==> j == 1);
                assert(ini_sections(ini) =~= d1.push(("boot"@, items.push(("digest"@, d@)))));
            }
            ini
        },
        None => ini,
    };
    let r = ini_text(&ini);
    proof {
        let expected = origin_sections(
            origin_container(imgref.transport@, imgref.image@),
            boot_type,
            match boot_digest {
                Some(d) => Some(d@),
                None => None,
            },
        );
        assert(container@ =~= origin_container(imgref.transport@, imgref.image@));
        assert(ini_sections(ini) =~= expected);
    }
    r
}

} // verus!
