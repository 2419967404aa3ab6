//! Content digests: `<algorithm>:<hex>`, and the check of bytes against one.
//!
//! The hashes are computed by the `sha2` crate. What it returns is named, and
//! the contracts here speak of those names.

use vstd::prelude::*;
use vstd::string::StringExecFns;
use crate::bytes::{bytes_eq, copy_range};
use crate::text::{is_hex,
    all_hex, ascii, ascii_bytes, find, hex_of, is_all_hex, join, lemma_find_unique, lowered,
    position, to_hex, to_lower,
};

verus! {

/// The byte `:`.
pub const COLON: u8 = 58;

/// A hash function that digests are made with.
#[derive(Debug, Clone, Copy, PartialEq, Eq, Structural)]
pub enum DigestAlgorithm {
    Sha256,
    Sha512,
}

/// Why a text is no digest.
#[derive(Debug, Clone, Copy, PartialEq, Eq, Structural)]
pub enum DigestError {
    /// No `:` parts algorithm from hex.
    MissingSeparator,
    /// The algorithm is neither `sha256` nor `sha512`.
    UnknownAlgorithm,
    /// Nothing follows the `:`.
    EmptyHex,
    /// What follows the `:` is not made of hexadecimal digits alone.
    NotHex,
}

/// A digest: an algorithm and the hash it gave, in lower-case hexadecimal
/// digits.
#[derive(Debug, Clone)]
pub struct ContentDigest {
    algorithm: DigestAlgorithm,
    hex: Vec<u8>,
}

/// Bytes that did not hash to the digest they were fetched under.
#[derive(Debug, Clone)]
pub struct ContentDigestError {
    /// The hexadecimal digits that were expected.
    pub expected: Vec<u8>,
    /// The hexadecimal digits of the hash of the bytes.
    pub got: Vec<u8>,
}

impl ContentDigestError {
    /// The text of the error.
    pub fn message(&self) -> (text: String)
        ensures
            text@ == "content digest error"@,
    {
        String::from_str("content digest error")
    }
}

/// What `sha2` computes as the SHA-256 hash of `data`.
pub uninterp spec fn sha256(data: Seq<u8>) -> Seq<u8>;

/// What `sha2` computes as the SHA-512 hash of `data`.
pub uninterp spec fn sha512(data: Seq<u8>) -> Seq<u8>;

/// Calls `sha2::Sha256::digest` on `data`. Claimed: the bytes it returns
/// depend on `data` alone; they are what `sha256` names.
#[verifier::external_body]
pub(crate) fn sha256_of(data: &Vec<u8>) -> (r: Vec<u8>)
    ensures
        r@ == sha256(data@),
{
    <sha2::Sha256 as sha2::Digest>::digest(data.as_slice()).to_vec()
}

/// Calls `sha2::Sha512::digest` on `data`. Claimed: the bytes it returns
/// depend on `data` alone; they are what `sha512` names.
#[verifier::external_body]
pub(crate) fn sha512_of(data: &Vec<u8>) -> (r: Vec<u8>)
    ensures
        r@ == sha512(data@),
{
    <sha2::Sha512 as sha2::Digest>::digest(data.as_slice()).to_vec()
}

/// The name of an algorithm, as digests write it.
pub open spec fn algorithm_name(a: DigestAlgorithm) -> Seq<u8> {
    match a {
        DigestAlgorithm::Sha256 => ascii("sha256"@),
        DigestAlgorithm::Sha512 => ascii("sha512"@),
    }
}

/// The algorithm of a given name.
pub open spec fn algorithm_named(name: Seq<u8>) -> Option<DigestAlgorithm> {
    if name == ascii("sha256"@) {
        Some(DigestAlgorithm::Sha256)
    } else if name == ascii("sha512"@) {
        Some(DigestAlgorithm::Sha512)
    } else {
        None
    }
}

/// The hash of `data` under an algorithm.
pub open spec fn hashed(a: DigestAlgorithm, data: Seq<u8>) -> Seq<u8> {
    match a {
        DigestAlgorithm::Sha256 => sha256(data),
        DigestAlgorithm::Sha512 => sha512(data),
    }
}

/// Whether the text is made of lower-case hexadecimal digits alone.
pub open spec fn lower_hex(s: Seq<u8>) -> bool {
    forall|i: int| 0 <= i < s.len() ==> (48 <= #[trigger] s[i] <= 57) || (97 <= s[i] <= 102)
}

/// What a text says as a digest: what stands before its first `:` names the
/// algorithm, and what follows is the hash, which is kept in lower case.
pub open spec fn parsed(text: Seq<u8>) -> Result<(DigestAlgorithm, Seq<u8>), DigestError> {
    let k = find(text, COLON, 0);
    if k >= text.len() {
        Err(DigestError::MissingSeparator)
    } else {
        match algorithm_named(text.subrange(0, k)) {
            None => Err(DigestError::UnknownAlgorithm),
            Some(a) => {
                let hex = text.subrange(k + 1, text.len() as int);
                if hex.len() == 0 {
                    Err(DigestError::EmptyHex)
                } else if !all_hex(hex) {
                    Err(DigestError::NotHex)
                } else {
                    Ok((a, lowered(hex)))
                }
            },
        }
    }
}

/// A digest written out: the name of the algorithm, `:`, and the hash.
pub open spec fn rendered(d: (DigestAlgorithm, Seq<u8>)) -> Seq<u8> {
    algorithm_name(d.0) + seq![COLON] + d.1
}

impl DigestAlgorithm {
    /// The name of the algorithm.
    pub fn name(&self) -> (r: Vec<u8>)
        ensures
            r@ == algorithm_name(*self),
    {
        proof {
            reveal_strlit("sha256");
            reveal_strlit("sha512");
        }
        match self {
            DigestAlgorithm::Sha256 => ascii_bytes("sha256"),
            DigestAlgorithm::Sha512 => ascii_bytes("sha512"),
        }
    }

    /// The algorithm of the given name.
    pub fn named(name: &Vec<u8>) -> (r: Option<DigestAlgorithm>)
        ensures
            r == algorithm_named(name@),
    {
        if bytes_eq(name, &DigestAlgorithm::Sha256.name()) {
            Some(DigestAlgorithm::Sha256)
        } else if bytes_eq(name, &DigestAlgorithm::Sha512.name()) {
            Some(DigestAlgorithm::Sha512)
        } else {
            None
        }
    }

    /// The hash of `data`, in lower-case hexadecimal digits.
    pub fn hash(&self, data: &Vec<u8>) -> (r: Vec<u8>)
        ensures
            r@ == hex_of(hashed(*self, data@)),
    {
        match self {
            DigestAlgorithm::Sha256 => to_hex(&sha256_of(data)),
            DigestAlgorithm::Sha512 => to_hex(&sha512_of(data)),
        }
    }
}

impl View for ContentDigest {
    type V = (DigestAlgorithm, Seq<u8>);

    closed spec fn view(&self) -> (DigestAlgorithm, Seq<u8>) {
        (self.algorithm, self.hex@)
    }
}

impl ContentDigest {
    /// Reads a digest from its text.
    pub fn try_new(text: &Vec<u8>) -> (r: Result<ContentDigest, DigestError>)
        ensures
            match r {
                Ok(d) => parsed(text@) == Ok::<_, DigestError>(d@),
                Err(e) => parsed(text@) == Err::<(DigestAlgorithm, Seq<u8>), _>(e),
            },
    {
        let k = position(text, COLON, 0);
        if k >= text.len() {
            return Err(DigestError::MissingSeparator);
        }
        let name = copy_range(text, 0, k);
        let algorithm = match DigestAlgorithm::named(&name) {
            Some(a) => a,
            None => {
                return Err(DigestError::UnknownAlgorithm);
            },
        };
        let hex = copy_range(text, k + 1, text.len());
        if hex.len() == 0 {
            return Err(DigestError::EmptyHex);
        }
        if !is_all_hex(&hex) {
            return Err(DigestError::NotHex);
        }
        Ok(ContentDigest { algorithm, hex: to_lower(&hex) })
    }

    /// The SHA-256 digest of `body`: the identity under which a body that was
    /// received is known, whatever digest was stated for it.
    pub fn of(body: &Vec<u8>) -> (d: ContentDigest)
        ensures
            d@ == (DigestAlgorithm::Sha256, hex_of(sha256(body@))),
    {
        ContentDigest {
            algorithm: DigestAlgorithm::Sha256,
            hex: DigestAlgorithm::Sha256.hash(body),
        }
    }

    /// The algorithm of the digest.
    pub fn algorithm(&self) -> (a: DigestAlgorithm)
        ensures
            a == self@.0,
    {
        self.algorithm
    }

    /// The hash, in lower-case hexadecimal digits.
    pub fn hex(&self) -> (h: &Vec<u8>)
        ensures
            h@ == self@.1,
    {
        &self.hex
    }

    /// The digest written out.
    pub fn render(&self) -> (r: Vec<u8>)
        ensures
            r@ == rendered(self@),
    {
        let mut r = self.algorithm.name();
        r.push(COLON);
        let r = join(&r, &self.hex);
        assert(r@ =~= rendered(self@));
        r
    }

    /// Checks bytes against the digest: they pass if and only if their hash
    /// under its algorithm, in lower-case hexadecimal digits, is its hash.
    pub fn try_verify(&self, input: &Vec<u8>) -> (r: Result<(), ContentDigestError>)
        ensures
            r is Ok <==> hex_of(hashed(self@.0, input@)) == self@.1,
            r matches Err(e) ==> e.expected@ == self@.1 && e.got@ == hex_of(
                hashed(self@.0, input@),
            ),
    {
        let got = self.algorithm.hash(input);
        if bytes_eq(&got, &self.hex) {
            Ok(())
        } else {
            Err(ContentDigestError { expected: self.hex.clone(), got })
        }
    }
}

/// Hands a fetched blob on if and only if it hashes to the digest it was
/// fetched under.
pub fn check_blob(body: Vec<u8>, digest: &ContentDigest) -> (r: Result<
    Vec<u8>,
    ContentDigestError,
>)
    ensures
        r is Ok <==> hex_of(hashed(digest@.0, body@)) == digest@.1,
        r matches Ok(b) ==> b@ == body@,
        r matches Err(e) ==> e.expected@ == digest@.1 && e.got@ == hex_of(
            hashed(digest@.0, body@),
        ),
{
    match digest.try_verify(&body) {
        Ok(()) => Ok(body),
        Err(e) => Err(e),
    }
}

/// What was read as a digest is in lower case: the hash of every digest that
/// `parsed` gives is made of lower-case hexadecimal digits, and is not empty.
pub proof fn law_parsed_is_lower_hex(text: Seq<u8>)
    ensures
        parsed(text) matches Ok(d) ==> d.1.len() > 0 && lower_hex(d.1),
{
    if let Ok(d) = parsed(text) {
        let k = find(text, COLON, 0);
        let hex = text.subrange(k + 1, text.len() as int);
        assert forall|i: int| 0 <= i < d.1.len() implies (48 <= #[trigger] d.1[i] <= 57) || (97
            <= d.1[i] <= 102) by {
            assert(is_hex(hex[i]));
        }
    }
}

/// A digest written out reads back as itself.
pub proof fn law_digest_round_trip(d: (DigestAlgorithm, Seq<u8>))
    requires
        d.1.len() > 0,
        lower_hex(d.1),
    ensures
        parsed(rendered(d)) == Ok::<_, DigestError>(d),
{
    reveal_strlit("sha256");
    reveal_strlit("sha512");
    let name = algorithm_name(d.0);
    let text = rendered(d);
    assert(name.len() == 6);
    assert forall|i: int| 0 <= i < 6 implies text[i] != COLON by {
        assert(text[i] == name[i]);
    }
    assert(text[6] == COLON);
    lemma_find_unique(text, COLON, 0, 6);
    assert(text.subrange(0, 6) =~= name);
    assert(ascii("sha256"@)[5] != ascii("sha512"@)[5]);
    let hex = text.subrange(7, text.len() as int);
    assert(hex =~= d.1);
    assert forall|i: int| 0 <= i < hex.len() implies is_hex(#[trigger] hex[i]) by {
        assert((48 <= d.1[i] <= 57) || (97 <= d.1[i] <= 102));
    }
    assert(lowered(hex) =~= d.1) by {
        assert forall|i: int| 0 <= i < hex.len() implies crate::text::lower(hex[i]) == d.1[i] by {
            assert((48 <= d.1[i] <= 57) || (97 <= d.1[i] <= 102));
        }
    }
}

} // verus!
