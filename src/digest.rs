//! The digest that identifies a deployment's kernel and initrd.
use vstd::prelude::*;

verus! {

#[verifier::external_type_specification]
#[verifier::external_body]
pub struct ExErrorStack(openssl::error::ErrorStack);

/// The SHA-256 digest of `data`, as OpenSSL computes it.
pub uninterp spec fn sha256_of(data: Seq<u8>) -> Seq<u8>;

/// Relies on `openssl::hash::hash` with `MessageDigest::sha256()`: the 32
/// bytes of the SHA-256 digest of `data`.
#[verifier::external_body]
fn sha256(data: &[u8]) -> (r: Result<Vec<u8>, openssl::error::ErrorStack>)
    ensures
        r matches Ok(d) ==> d@ == sha256_of(data@) && d@.len() == 32,
{
    Ok(openssl::hash::hash(openssl::hash::MessageDigest::sha256(), data)?.to_vec())
}

/// The lowercase hexadecimal digits.
pub open spec fn hex_chars() -> Seq<char> {
    seq!['0', '1', '2', '3', '4', '5', '6', '7', '8', '9', 'a', 'b', 'c', 'd', 'e', 'f']
}

/// Two lowercase hexadecimal digits for each byte.
pub open spec fn hex_text(b: Seq<u8>) -> Seq<char>
    decreases b.len(),
{
    if b.len() == 0 {
        seq![]
    } else {
        hex_text(b.drop_last()) + seq![hex_chars()[(b.last() / 16) as int], hex_chars()[(b.last() % 16) as int]]
    }
}

/// Relies on `hex::encode`: two lowercase hexadecimal digits for each byte.
#[verifier::external_body]
fn hex_encode(b: &[u8]) -> (r: String)
    ensures
        r@ == hex_text(b@),
{
    hex::encode(b)
}

/// Why the boot digest could not be computed.
#[derive(Debug, PartialEq, Eq)]
pub enum DigestError {
    /// The boot entry has no initramfs.
    MissingInitramfs,
    /// OpenSSL failed to hash.
    Hashing,
}

/// The boot digest of a kernel and its initramfs: the SHA-256 of the two
/// concatenated, in lowercase hexadecimal.
pub fn compute_boot_digest(vmlinuz: &[u8], initramfs: Option<&[u8]>) -> (r: Result<String, DigestError>)
    ensures
        initramfs is None ==> r == Err::<String, DigestError>(DigestError::MissingInitramfs),
        initramfs matches Some(i) ==> match r {
            Ok(s) => s@ == hex_text(sha256_of(vmlinuz@ + i@)) && s@.len() == 64,
            Err(e) => e == DigestError::Hashing,
        },
{
    let initramfs = match initramfs {
        None => {
            return Err(DigestError::MissingInitramfs);
        },
        Some(i) => i,
    };
    let mut data = vstd::slice::slice_to_vec(vmlinuz);
    let mut tail = vstd::slice::slice_to_vec(initramfs);
    data.append(&mut tail);
    match sha256(data.as_slice()) {
        Ok(d) => {
            let s = hex_encode(d.as_slice());
            proof {
                lemma_hex_len(d@);
            }
            Ok(s)
        },
        Err(_) => Err(DigestError::Hashing),
    }
}

proof fn lemma_hex_len(b: Seq<u8>)
    ensures
        hex_text(b).len() == 2 * b.len(),
    decreases b.len(),
{
    if b.len() > 0 {
        lemma_hex_len(b.drop_last());
    }
}

} // verus!
