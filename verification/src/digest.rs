//! Change detection: a configuration digest over the canonical
//! dependency set, compared against the marker persisted in the overlay.

use crate::config::lemma_config_canonical;
use crate::config::DtMgrConfig;
use crate::error::DtMgrError;
use sha3::Digest;
use vstd::prelude::*;

verus! {

/// The lowercase hex digit for a value below 16.
pub open spec fn hex_digit(n: u8) -> char
    recommends
        n < 16,
{
    if n == 0 {
        '0'
    } else if n == 1 {
        '1'
    } else if n == 2 {
        '2'
    } else if n == 3 {
        '3'
    } else if n == 4 {
        '4'
    } else if n == 5 {
        '5'
    } else if n == 6 {
        '6'
    } else if n == 7 {
        '7'
    } else if n == 8 {
        '8'
    } else if n == 9 {
        '9'
    } else if n == 10 {
        'a'
    } else if n == 11 {
        'b'
    } else if n == 12 {
        'c'
    } else if n == 13 {
        'd'
    } else if n == 14 {
        'e'
    } else {
        'f'
    }
}

/// The lowercase hex encoding: two digits for each byte, in order.
pub open spec fn hex_of(bytes: Seq<u8>) -> Seq<char>
    decreases bytes.len(),
{
    if bytes.len() == 0 {
        Seq::empty()
    } else {
        seq![hex_digit(bytes[0] / 16), hex_digit(bytes[0] % 16)] + hex_of(bytes.skip(1))
    }
}

/// The compact encoding of a list of names: a length-prefixed sequence of
/// length-prefixed strings, as `postcard` lays it out.
pub uninterp spec fn postcard_names_encoding(names: Seq<Seq<char>>) -> Seq<u8>;

/// The 256-bit SHA-3 digest of a byte sequence.
pub uninterp spec fn sha3_256_of(bytes: Seq<u8>) -> Seq<u8>;

#[verifier::external_type_specification]
#[verifier::external_body]
pub struct ExPostcardError(postcard::Error);

/// Relies on `postcard::to_stdvec`: serializes a `Vec<String>` into its
/// compact byte encoding, a function of the names alone.  With the
/// allocating flavor every write succeeds, so the call cannot fail.
#[verifier::external_body]
fn encode_names(names: &Vec<String>) -> (r: Result<Vec<u8>, postcard::Error>)
    ensures
        r is Ok,
        r matches Ok(bytes) ==> bytes@ == postcard_names_encoding(names.deep_view()),
{
    postcard::to_stdvec(names)
}

/// Relies on `sha3::Sha3_256`: a 32-byte digest determined by the input
/// bytes alone.
#[verifier::external_body]
fn sha3_256(bytes: &Vec<u8>) -> (r: Vec<u8>)
    ensures
        r@ == sha3_256_of(bytes@),
        r@.len() == 32,
{
    sha3::Sha3_256::digest(bytes.as_slice()).to_vec()
}

/// Relies on `hex::encode`: two lowercase hex digits for each byte.
#[verifier::external_body]
fn hex_encode(bytes: &Vec<u8>) -> (r: String)
    ensures
        r@ == hex_of(bytes@),
{
    hex::encode(bytes)
}

/// The digest persisted as the overlay marker: the hex form of the SHA-3
/// digest of the canonically encoded dependency list.
pub open spec fn spec_config_digest(deps: Seq<Seq<char>>) -> Seq<char> {
    hex_of(sha3_256_of(postcard_names_encoding(deps)))
}

pub proof fn lemma_hex_of_len(bytes: Seq<u8>)
    ensures
        hex_of(bytes).len() == 2 * bytes.len(),
    decreases bytes.len(),
{
    if bytes.len() > 0 {
        lemma_hex_of_len(bytes.skip(1));
    }
}

/// Hex-encodes the SHA-3 digest of the given canonical encoding.
pub fn digest_of_encoding(encoded: &Vec<u8>) -> (r: String)
    ensures
        r@ == hex_of(sha3_256_of(encoded@)),
        r@.len() == 64,
{
    let digest = sha3_256(encoded);
    proof {
        lemma_hex_of_len(digest@);
    }
    hex_encode(&digest)
}

/// Computes the configuration digest: sixty-four lowercase hex digits,
/// owed for every configuration.
pub fn hash_config(config: &DtMgrConfig) -> (r: Result<String, DtMgrError>)
    ensures
        r matches Ok(h) && h@ == spec_config_digest(config.deps()) && h@.len() == 64,
{
    let encoded = match encode_names(config.dependencies()) {
        Ok(bytes) => bytes,
        Err(_) => {
            return Err(DtMgrError::HashConfig);
        },
    };
    Ok(digest_of_encoding(&encoded))
}

/// True when the overlay must be rebuilt: no readable marker, or a marker
/// that differs from the configuration's digest.
pub open spec fn spec_should_rebuild(marker: Option<Seq<char>>, deps: Seq<Seq<char>>) -> bool {
    !(marker matches Some(m) && m == spec_config_digest(deps))
}

/// Decides whether the overlay is stale, for every input.  `marker` is
/// the persisted overlay marker, when the overlay directory and the
/// marker file exist and could be read.
pub fn should_rebuild(marker: &Option<String>, config: &DtMgrConfig) -> (r: Result<
    bool,
    DtMgrError,
>)
    ensures
        r matches Ok(b) && b == spec_should_rebuild(
            match *marker {
                Some(ref m) => Some(m@),
                None => None,
            },
            config.deps(),
        ),
{
    let digest = match hash_config(config) {
        Ok(h) => h,
        Err(e) => {
            return Err(e);
        },
    };
    match marker {
        Some(m) => Ok(!m.eq(&digest)),
        None => Ok(true),
    }
}

/// Law: a marker equal to the configuration's digest means the overlay
/// is current, and no work is owed.
pub proof fn lemma_marker_up_to_date(deps: Seq<Seq<char>>)
    ensures
        !spec_should_rebuild(Some(spec_config_digest(deps)), deps),
{
}

/// Law: the digest depends on the declared dependency set alone, never on
/// the order the names were declared in.
pub proof fn lemma_digest_order_insensitive(c1: DtMgrConfig, c2: DtMgrConfig)
    requires
        c1.wf(),
        c2.wf(),
        c1.dep_set() == c2.dep_set(),
    ensures
        spec_config_digest(c1.deps()) == spec_config_digest(c2.deps()),
{
    lemma_config_canonical(c1, c2);
}

} // verus!
