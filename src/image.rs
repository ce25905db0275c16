//! Container image references and their canonical form.
use crate::text::{chars_equal, chars_of, copy_chars, find_char, index_from, lemma_index_from_bounds};
use vstd::prelude::*;
use vstd::string::*;

verus! {

#[verifier::external_type_specification]
#[verifier::external_body]
pub struct ExParseError(oci_spec::distribution::ParseError);

/// The parts of an image reference: registry, repository, tag, digest.
pub struct ReferenceParts {
    pub registry: String,
    pub repository: String,
    pub tag: Option<String>,
    pub digest: Option<String>,
}

pub open spec fn opt_chars(o: Option<String>) -> Option<Seq<char>> {
    match o {
        Some(s) => Some(s@),
        None => None,
    }
}

impl ReferenceParts {
    pub open spec fn view(&self) -> (Seq<char>, Seq<char>, Option<Seq<char>>, Option<Seq<char>>) {
        (self.registry@, self.repository@, opt_chars(self.tag), opt_chars(self.digest))
    }
}

/// What `oci_spec::distribution::Reference` reads from `s`: registry,
/// repository, tag and digest.
pub uninterp spec fn parsed_reference(s: Seq<char>) -> Option<(Seq<char>, Seq<char>, Option<Seq<char>>, Option<Seq<char>>)>;

/// Relies on `oci_spec::distribution::Reference::try_from`: an empty text is
/// refused, and a reference read without tag or digest gets the tag `latest`,
/// so one of the two is always present.
#[verifier::external_body]
fn parse_reference(s: &str) -> (r: Result<ReferenceParts, oci_spec::distribution::ParseError>)
    ensures
        r matches Ok(p) ==> parsed_reference(s@) == Some(p@),
        r is Err ==> parsed_reference(s@) is None,
        s@.len() == 0 ==> r is Err,
        r matches Ok(p) ==> (p.tag is Some || p.digest is Some),
{
    let r = oci_spec::distribution::Reference::try_from(s)?;
    Ok(ReferenceParts {
        registry: r.registry().to_string(),
        repository: r.repository().to_string(),
        tag: r.tag().map(|t| t.to_string()),
        digest: r.digest().map(|d| d.to_string()),
    })
}

/// The text of a reference by digest, as `oci_spec`'s `Display` writes it:
/// the non-empty parts among registry and repository joined by `/`, then `@`
/// and the digest (no `@` when both are empty).
pub open spec fn digest_reference_text(registry: Seq<char>, repository: Seq<char>, digest: Seq<char>) -> Seq<char> {
    let head = if registry.len() > 0 && repository.len() > 0 {
        registry + seq!['/'] + repository
    } else {
        registry + repository
    };
    if head.len() > 0 {
        head + seq!['@'] + digest
    } else {
        digest
    }
}

/// Relies on `oci_spec::distribution::Reference::with_digest` and its
/// `Display`, whose output the source shows field by field.
#[verifier::external_body]
fn digest_reference(registry: &str, repository: &str, digest: &str) -> (r: String)
    ensures
        r@ == digest_reference_text(registry@, repository@, digest@),
{
    oci_spec::distribution::Reference::with_digest(
        registry.to_string(),
        repository.to_string(),
        digest.to_string(),
    ).to_string()
}

/// How the signature of an image is checked.
#[derive(Debug, Clone, PartialEq, Eq)]
pub enum ImageSignature {
    /// By the named ostree remote.
    OstreeRemote(String),
    /// By the containers policy.
    ContainerPolicy,
    /// Not at all.
    Insecure,
}

/// A container image, how to fetch it, and how to check it.
#[derive(Debug, Clone, PartialEq, Eq)]
pub struct ImageReference {
    pub image: String,
    pub transport: String,
    pub signature: Option<ImageSignature>,
}

/// Why an image reference has no canonical form.
#[derive(Debug, PartialEq, Eq)]
pub enum ImageRefError {
    /// The transport is none of those known.
    UnknownTransport(String),
    /// A registry image that is not a valid reference.
    InvalidReference,
}

/// The transports that images are fetched through.
pub open spec fn known_transport(t: Seq<char>) -> bool {
    t == "registry"@ || t == "containers-storage"@ || t == "oci"@ || t == "oci-archive"@ || t == "dir"@
        || t == "docker-archive"@ || t == "docker-daemon"@
}

/// The canonical image text: for the registry transport, a reference with
/// both a tag and a digest loses its tag; everything else stays.
pub open spec fn canonical_image(transport: Seq<char>, image: Seq<char>) -> Result<Seq<char>, ImageRefError> {
    if !known_transport(transport) {
        Err(ImageRefError::UnknownTransport(arbitrary()))
    } else if transport != "registry"@ {
        Ok(image)
    } else {
        match parsed_reference(image) {
            None => Err(ImageRefError::InvalidReference),
            Some((reg, repo, tag, digest)) => if tag is Some && digest is Some {
                Ok(digest_reference_text(reg, repo, digest->Some_0))
            } else {
                Ok(image)
            },
        }
    }
}

fn same_text(a: &str, b: &str) -> (r: bool)
    ensures
        r == (a@ == b@),
{
    let x = chars_of(a);
    let y = chars_of(b);
    chars_equal(&x, &y)
}

impl ImageReference {
    /// The same reference in canonical form, preferring the digest over the
    /// tag when a registry reference has both.
    pub fn canonicalize(self) -> (r: Result<ImageReference, ImageRefError>)
        ensures
            !known_transport(self.transport@) ==> (r matches Err(ImageRefError::UnknownTransport(t))
                && t@ == self.transport@),
            known_transport(self.transport@) ==> (match (r, canonical_image(self.transport@, self.image@)) {
                (Ok(c), Ok(img)) => c.image@ == img && c.transport@ == self.transport@ && c.signature
                    == self.signature,
                (Err(e), Err(f)) => e == f,
                _ => false,
            }),
    {
        proof {
            reveal_strlit("registry");
            reveal_strlit("containers-storage");
            reveal_strlit("oci");
            reveal_strlit("oci-archive");
            reveal_strlit("dir");
            reveal_strlit("docker-archive");
            reveal_strlit("docker-daemon");
        }
        let t = self.transport.as_str();
        let registry = same_text(t, "registry");
        let known = registry || same_text(t, "containers-storage") || same_text(t, "oci") || same_text(
            t,
            "oci-archive",
        ) || same_text(t, "dir") || same_text(t, "docker-archive") || same_text(t, "docker-daemon");
        if !known {
            return Err(ImageRefError::UnknownTransport(self.transport.clone()));
        }
        if !registry {
            return Ok(self);
        }
        let parts = match parse_reference(self.image.as_str()) {
            Ok(p) => p,
            Err(_) => {
                return Err(ImageRefError::InvalidReference);
            },
        };
        match (&parts.tag, &parts.digest) {
            (Some(_), Some(d)) => {
                let image = digest_reference(parts.registry.as_str(), parts.repository.as_str(), d.as_str());
                Ok(ImageReference { image, transport: self.transport, signature: self.signature })
            },
            _ => Ok(self),
        }
    }
}


/// `s` split at its first `:`.
pub open spec fn split_colon(s: Seq<char>) -> Option<(Seq<char>, Seq<char>)> {
    let k = index_from(s, ':', 0);
    if k < 0 {
        None
    } else {
        Some((s.take(k), s.skip(k + 1)))
    }
}

/// The transport names an ostree image reference may use.
pub open spec fn ostree_transport(t: Seq<char>) -> bool {
    t == "registry"@ || t == "docker"@ || t == "oci"@ || t == "oci-archive"@ || t == "docker-archive"@
        || t == "containers-storage"@ || t == "dir"@ || t == "docker-daemon"@
}

/// `<transport>:<name>` read as a transport (`docker://` and `registry:` both
/// being the registry) and a name.
pub open spec fn parse_transport_ref(v: Seq<char>) -> Option<(Seq<char>, Seq<char>)> {
    match split_colon(v) {
        None => None,
        Some((t, n)) => if !ostree_transport(t) || n.len() == 0 {
            None
        } else if t == "docker"@ {
            if "//"@.is_prefix_of(n) {
                Some(("registry"@, n.skip(2)))
            } else {
                None
            }
        } else {
            Some((t, n))
        },
    }
}

/// How a signature reads in an ostree image reference: 0 none, 1 the
/// containers policy, 2 an ostree remote (named).
pub open spec fn sig_model(s: Option<ImageSignature>) -> (int, Seq<char>) {
    match s {
        None => (0, seq![]),
        Some(ImageSignature::Insecure) => (0, seq![]),
        Some(ImageSignature::ContainerPolicy) => (1, seq![]),
        Some(ImageSignature::OstreeRemote(r)) => (2, r@),
    }
}

/// An ostree image reference, read as transport, image and signature.
pub open spec fn parse_ostree_ref(v: Seq<char>) -> Option<(Seq<char>, Seq<char>, (int, Seq<char>))> {
    match split_colon(v) {
        None => None,
        Some((head, rest)) => if head == "ostree-unverified-registry"@ {
            Some(("registry"@, rest, (0, seq![])))
        } else if head == "ostree-remote-registry"@ {
            match split_colon(rest) {
                None => None,
                Some((remote, name)) => Some(("registry"@, name, (2, remote))),
            }
        } else if head == "ostree-image-signed"@ {
            match parse_transport_ref(rest) {
                None => None,
                Some((t, n)) => Some((t, n, (1, seq![]))),
            }
        } else if head == "ostree-unverified-image"@ {
            match parse_transport_ref(rest) {
                None => None,
                Some((t, n)) => Some((t, n, (0, seq![]))),
            }
        } else if head == "ostree-remote-image"@ {
            match split_colon(rest) {
                None => None,
                Some((remote, r2)) => match parse_transport_ref(r2) {
                    None => None,
                    Some((t, n)) => Some((t, n, (2, remote))),
                },
            }
        } else {
            None
        },
    }
}

/// `transport:name` as an ostree image reference writes it.
pub open spec fn transport_ref_text(transport: Seq<char>, name: Seq<char>) -> Seq<char> {
    if transport == "registry"@ {
        "docker://"@ + name
    } else {
        transport + ":"@ + name
    }
}

/// The text of a reference in the ostree form.
pub open spec fn ostree_ref_text(r: ImageReference) -> Seq<char> {
    let (kind, remote) = sig_model(r.signature);
    if kind == 0 && r.transport@ == "registry"@ {
        "ostree-unverified-registry:"@ + r.image@
    } else if kind == 0 {
        "ostree-unverified-image:"@ + transport_ref_text(r.transport@, r.image@)
    } else if kind == 1 {
        "ostree-image-signed:"@ + transport_ref_text(r.transport@, r.image@)
    } else {
        "ostree-remote-image:"@ + remote + ":"@ + transport_ref_text(r.transport@, r.image@)
    }
}

/// `s` split at its first `:`.
fn split_at_colon(s: &str) -> (r: Option<(String, String)>)
    ensures
        match r {
            Some(p) => split_colon(s@) == Some((p.0@, p.1@)),
            None => split_colon(s@) is None,
        },
{
    let cs = chars_of(s);
    match find_char(&cs, ':') {
        None => None,
        Some(k) => {
            proof {
                lemma_index_from_bounds(cs@, ':', 0);
            }
            let a = copy_chars(s, 0, k);
            let b = copy_chars(s, k + 1, cs.len());
            assert(a@ =~= s@.take(k as int));
            assert(b@ =~= s@.skip(k + 1));
            Some((a, b))
        },
    }
}

/// Reads `<transport>:<name>`.
fn read_transport_ref(v: &str) -> (r: Option<(String, String)>)
    ensures
        match r {
            Some(p) => parse_transport_ref(v@) == Some((p.0@, p.1@)),
            None => parse_transport_ref(v@) is None,
        },
{
    proof {
        reveal_strlit("registry");
        reveal_strlit("docker");
        reveal_strlit("//");
    }
    let (t, n) = match split_at_colon(v) {
        None => {
            return None;
        },
        Some(p) => p,
    };
    let ts = t.as_str();
    let known = same_text(ts, "registry") || same_text(ts, "docker") || same_text(ts, "oci") || same_text(
        ts,
        "oci-archive",
    ) || same_text(ts, "docker-archive") || same_text(ts, "containers-storage") || same_text(ts, "dir")
        || same_text(ts, "docker-daemon");
    let nc = chars_of(n.as_str());
    if !known || nc.len() == 0 {
        return None;
    }
    if same_text(ts, "docker") {
        if nc.len() >= 2 && nc[0] == '/' && nc[1] == '/' {
            let rest = copy_chars(n.as_str(), 2, nc.len());
            assert("//"@.is_prefix_of(n@)) by {
                assert(n@.take(2) =~= "//"@);
            }
            assert(rest@ =~= n@.skip(2));
            Some((String::from_str("registry"), rest))
        } else {
            assert(!"//"@.is_prefix_of(n@)) by {
                if "//"@.is_prefix_of(n@) {
                    assert(n@.take(2)[0] == '/' && n@.take(2)[1] == '/');
                }
            }
            None
        }
    } else {
        Some((t, n))
    }
}

impl ImageReference {
    /// Reads an ostree image reference: `ostree-unverified-registry:<image>`,
    /// `ostree-remote-registry:<remote>:<image>`, or one of
    /// `ostree-unverified-image:`, `ostree-image-signed:`,
    /// `ostree-remote-image:<remote>:` followed by `<transport>:<name>`.
    pub fn from_ostree_str(v: &str) -> (r: Result<ImageReference, ImageRefError>)
        ensures
            parse_ostree_ref(v@) is None ==> r == Err::<ImageReference, ImageRefError>(ImageRefError::InvalidReference),
            parse_ostree_ref(v@) matches Some(p) ==> (r matches Ok(i) && i.transport@ == p.0 && i.image@ == p.1
                && sig_model(i.signature) == p.2 && i.signature != Some(ImageSignature::Insecure)),
    {
        proof {
            reveal_strlit("ostree-unverified-registry");
            reveal_strlit("ostree-remote-registry");
            reveal_strlit("ostree-image-signed");
            reveal_strlit("ostree-unverified-image");
            reveal_strlit("ostree-remote-image");
            reveal_strlit("registry");
        }
        let (head, rest) = match split_at_colon(v) {
            None => {
                return Err(ImageRefError::InvalidReference);
            },
            Some(p) => p,
        };
        let h = head.as_str();
        if same_text(h, "ostree-unverified-registry") {
            return Ok(ImageReference { image: rest, transport: String::from_str("registry"), signature: None });
        }
        if same_text(h, "ostree-remote-registry") {
            return match split_at_colon(rest.as_str()) {
                None => Err(ImageRefError::InvalidReference),
                Some((remote, name)) => Ok(
                    ImageReference {
                        image: name,
                        transport: String::from_str("registry"),
                        signature: Some(ImageSignature::OstreeRemote(remote)),
                    },
                ),
            };
        }
        if same_text(h, "ostree-image-signed") || same_text(h, "ostree-unverified-image") {
            let policy = same_text(h, "ostree-image-signed");
            return match read_transport_ref(rest.as_str()) {
                None => Err(ImageRefError::InvalidReference),
                Some((t, n)) => Ok(
                    ImageReference {
                        image: n,
                        transport: t,
                        signature: if policy {
                            Some(ImageSignature::ContainerPolicy)
                        } else {
                            None
                        },
                    },
                ),
            };
        }
        if same_text(h, "ostree-remote-image") {
            return match split_at_colon(rest.as_str()) {
                None => Err(ImageRefError::InvalidReference),
                Some((remote, r2)) => match read_transport_ref(r2.as_str()) {
                    None => Err(ImageRefError::InvalidReference),
                    Some((t, n)) => Ok(
                        ImageReference { image: n, transport: t, signature: Some(ImageSignature::OstreeRemote(remote)) },
                    ),
                },
            };
        }
        Err(ImageRefError::InvalidReference)
    }

    /// The reference in the ostree form.
    pub fn to_string(&self) -> (r: String)
        ensures
            r@ == ostree_ref_text(*self),
    {
        let insecure = match &self.signature {
            None => true,
            Some(ImageSignature::Insecure) => true,
            _ => false,
        };
        let t = self.transport.as_str();
        let reg = same_text(t, "registry");
        let tr = if reg {
            String::from_str("docker://").concat(self.image.as_str())
        } else {
            String::from_str(t).concat(":").concat(self.image.as_str())
        };
        match &self.signature {
            Some(ImageSignature::ContainerPolicy) => String::from_str("ostree-image-signed:").concat(tr.as_str()),
            Some(ImageSignature::OstreeRemote(remote)) => String::from_str("ostree-remote-image:").concat(
                remote.as_str(),
            ).concat(":").concat(tr.as_str()),
            _ => if reg {
                String::from_str("ostree-unverified-registry:").concat(self.image.as_str())
            } else {
                String::from_str("ostree-unverified-image:").concat(tr.as_str())
            },
        }
    }

    /// The short form: a registry image without signature checks is shown by
    /// its name alone; anything else as [`Self::to_string`] shows it.
    pub fn to_string_alternate(&self) -> (r: String)
        ensures
            self.signature is None && self.transport@ == "registry"@ ==> r@ == self.image@,
            !(self.signature is None && self.transport@ == "registry"@) ==> r@ == ostree_ref_text(*self),
    {
        let reg = same_text(self.transport.as_str(), "registry");
        match (&self.signature, reg) {
            (None, true) => self.image.clone(),
            _ => self.to_string(),
        }
    }
}
} // verus!
