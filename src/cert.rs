//! The thumbprint of a certificate and its Basic Constraints extension.

use vstd::prelude::*;
use crate::error::DecodeError;
use crate::text::{hex_bytes, hex_upper};

verus! {

/// The SHA-1 digest of a byte sequence.
pub uninterp spec fn sha1_of(b: Seq<u8>) -> Seq<u8>;

/// For a DER certificate that parses, one item per extension in stored order:
/// the path-length constraint of a Basic Constraints extension, `None` for
/// any other extension; `None` as a whole when the certificate does not parse.
pub uninterp spec fn extensions_of(der: Seq<u8>) -> Option<Seq<Option<Option<u32>>>>;

/// Relies on sha1::Sha1 through `Digest::digest`: the SHA-1 digest, twenty bytes.
#[verifier::external_body]
fn sha1_digest(b: &[u8]) -> (r: Vec<u8>)
    ensures
        r@ == sha1_of(b@),
        r@.len() == 20,
{
    <sha1::Sha1 as sha1::Digest>::digest(b).to_vec()
}

/// Relies on x509_parser::parse_x509_certificate and `X509Certificate::extensions`:
/// each extension's parsed form, reduced to the path-length constraint of a
/// Basic Constraints extension.
#[verifier::external_body]
fn certificate_extensions(der: &[u8]) -> (r: Option<Vec<Option<Option<u32>>>>)
    ensures
        match r {
            Some(v) => extensions_of(der@) == Some(v@),
            None => extensions_of(der@) is None,
        },
{
    match x509_parser::parse_x509_certificate(der) {
        Ok((_, cert)) => Some(cert.extensions().iter().map(|ext| match ext.parsed_extension() {
            x509_parser::extensions::ParsedExtension::BasicConstraints(bc) => Some(bc.path_len_constraint),
            _ => None,
        }).collect()),
        Err(_) => None,
    }
}

/// The thumbprint of a certificate: the upper-case hexadecimal text of its SHA-1 digest.
pub fn thumbprint(der: &[u8]) -> (r: String)
    ensures
        r@ == hex_bytes(sha1_of(der@), true),
        r@.len() == 40,
{
    let d = sha1_digest(der);
    let r = hex_upper(d.as_slice());
    proof { lemma_hex_len(d@, true); }
    r
}

proof fn lemma_hex_len(b: Seq<u8>, upper: bool)
    ensures
        hex_bytes(b, upper).len() == 2 * b.len(),
    decreases b.len(),
{
    if b.len() > 0 {
        lemma_hex_len(b.drop_last(), upper);
    }
}

/// What one extension does to the (has constraint, path length) pair: a Basic
/// Constraints extension with a path length above zero sets it, any other
/// Basic Constraints extension clears it, and other extensions leave it.
pub open spec fn constraint_step(state: (bool, u32), ext: Option<Option<u32>>) -> (bool, u32) {
    match ext {
        Some(Some(n)) => if n > 0 { (true, n) } else { (false, 0u32) },
        Some(None) => (false, 0u32),
        None => state,
    }
}

/// The pair after all extensions, in order, from (false, 0).
pub open spec fn constraints_of(exts: Seq<Option<Option<u32>>>) -> (bool, u32)
    decreases exts.len(),
{
    if exts.len() == 0 {
        (false, 0u32)
    } else {
        constraint_step(constraints_of(exts.drop_last()), exts.last())
    }
}

/// The (has Basic Constraints, path length) pair that a certificate's
/// extensions give.
pub fn basic_constraints_from(exts: &Vec<Option<Option<u32>>>) -> (r: (bool, u32))
    ensures
        r == constraints_of(exts@),
{
    let mut state: (bool, u32) = (false, 0);
    let mut i: usize = 0;
    while i < exts.len()
        invariant
            i <= exts@.len(),
            state == constraints_of(exts@.subrange(0, i as int)),
        decreases exts@.len() - i,
    {
        proof {
            let p = exts@.subrange(0, i as int + 1);
            assert(p.drop_last() =~= exts@.subrange(0, i as int));
        }
        match exts[i] {
            Some(Some(n)) => {
                state = if n > 0 { (true, n) } else { (false, 0) };
            },
            Some(None) => {
                state = (false, 0);
            },
            None => {},
        }
        i = i + 1;
    }
    assert(exts@.subrange(0, i as int) =~= exts@);
    state
}

/// The (has Basic Constraints, path length) pair of a DER certificate; an
/// error when the certificate does not parse.
pub fn read_basic_constraints(der: &[u8]) -> (r: Result<(bool, u32), DecodeError>)
    ensures
        match extensions_of(der@) {
            Some(exts) => r == Ok::<(bool, u32), DecodeError>(constraints_of(exts)),
            None => r == Err::<(bool, u32), DecodeError>(DecodeError::CertificateDecodeError),
        },
{
    match certificate_extensions(der) {
        Some(exts) => Ok(basic_constraints_from(&exts)),
        None => Err(DecodeError::CertificateDecodeError),
    }
}

} // verus!
