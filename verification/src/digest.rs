//! The two-stage digest with which a login answers the router's challenge.

use crate::text::{hex_lower, hex_pair};
use vstd::prelude::*;
use vstd::string::StringExecFns;
use vstd::utf8::encode_utf8;

verus! {

/// The MD5 digest of `data`.
pub uninterp spec fn md5_of(data: Seq<u8>) -> Seq<u8>;

/// The SHA-256 digest of `data`.
pub uninterp spec fn sha256_of(data: Seq<u8>) -> Seq<u8>;

/// The MD5 digest of `data`: sixteen bytes.
///
/// Trusted: wraps `md5::compute`, whose result holds a `[u8; 16]`. The
/// algorithm is not modelled; the result is only given the name `md5_of`.
#[verifier::external_body]
fn md5_compute(data: &[u8]) -> (out: [u8; 16])
    ensures
        out@ == md5_of(data@),
{
    md5::compute(data).0
}

/// The lower-case hexadecimal text of an MD5 digest.
///
/// Trusted: formats an `md5::Digest` with its `LowerHex` impl, which writes
/// each of the sixteen bytes as `{:02x}`.
#[verifier::external_body]
fn md5_lower_hex(digest: [u8; 16]) -> (out: String)
    ensures
        out@ == hex_lower(digest@),
{
    format!("{:x}", md5::Digest(digest))
}

/// The SHA-256 digest of `data`: thirty-two bytes.
///
/// Trusted: wraps `Digest::digest` of `sha2::Sha256`, whose output size is
/// thirty-two bytes. The algorithm is not modelled; the result is only
/// given the name `sha256_of`.
#[verifier::external_body]
fn sha256_digest(data: &[u8]) -> (out: Vec<u8>)
    ensures
        out@ == sha256_of(data@),
        out@.len() == 32,
{
    <sha2::Sha256 as sha2::Digest>::digest(data).to_vec()
}

/// The lower-case hexadecimal text of `bytes`.
///
/// Trusted: wraps `hex::encode`, which writes two digits for each byte,
/// the high one first, from the table `0123456789abcdef`.
#[verifier::external_body]
fn hex_encode(bytes: &[u8]) -> (out: String)
    ensures
        out@ == hex_lower(bytes@),
{
    hex::encode(bytes)
}

/// What the first stage hashes: user name, realm and password with a colon
/// between them.
pub open spec fn credentials_text(username: Seq<char>, realm: Seq<char>, password: Seq<char>)
    -> Seq<char> {
    username + seq![':'] + realm + seq![':'] + password
}

/// The first stage: the hexadecimal MD5 digest of the credentials.
pub open spec fn first_stage(username: Seq<char>, realm: Seq<char>, password: Seq<char>) -> Seq<
    char,
> {
    hex_lower(md5_of(encode_utf8(credentials_text(username, realm, password))))
}

/// What the second stage hashes: the challenge, then the first stage's
/// text, with nothing between them.
pub open spec fn challenge_text(challenge: Seq<char>, first: Seq<char>) -> Seq<char> {
    challenge + first
}

/// The answer to a challenge: the hexadecimal SHA-256 digest of the
/// challenge followed by the first stage.
pub open spec fn digest_response(
    username: Seq<char>,
    realm: Seq<char>,
    password: Seq<char>,
    challenge: Seq<char>,
) -> Seq<char> {
    hex_lower(
        sha256_of(encode_utf8(challenge_text(challenge, first_stage(username, realm, password)))),
    )
}

/// What the first stage hashes.
pub fn join_credentials(username: &str, realm: &str, password: &str) -> (out: String)
    ensures
        out@ == credentials_text(username@, realm@, password@),
{
    proof {
        reveal_strlit(":");
    }
    let mut out = String::from_str(username);
    out.append(":");
    out.append(realm);
    out.append(":");
    out.append(password);
    assert(out@ =~= credentials_text(username@, realm@, password@));
    out
}

/// What the second stage hashes, from the challenge and the text of the
/// first stage.
pub fn join_challenge(challenge: &str, first: &str) -> (out: String)
    ensures
        out@ == challenge_text(challenge@, first@),
{
    let mut out = String::from_str(challenge);
    out.append(first);
    out
}

/// The hexadecimal MD5 digest of a text.
pub fn md5_hex(text: &str) -> (out: String)
    ensures
        out@ == hex_lower(md5_of(encode_utf8(text@))),
{
    let digest = md5_compute(text.as_bytes());
    md5_lower_hex(digest)
}

/// The hexadecimal SHA-256 digest of a text.
pub fn sha256_hex(text: &str) -> (out: String)
    ensures
        out@ == hex_lower(sha256_of(encode_utf8(text@))),
        out@.len() == 64,
{
    let digest = sha256_digest(text.as_bytes());
    proof {
        lemma_hex_lower_len(digest@);
    }
    hex_encode(digest.as_slice())
}

/// The answer that a login sends for `challenge`.
pub fn auth_response(username: &str, realm: &str, password: &str, challenge: &str) -> (out: String)
    ensures
        out@ == digest_response(username@, realm@, password@, challenge@),
        out@.len() == 64,
{
    let credentials = join_credentials(username, realm, password);
    let first = md5_hex(credentials.as_str());
    let salted = join_challenge(challenge, first.as_str());
    sha256_hex(salted.as_str())
}

/// Hexadecimal text is twice as long as the bytes it stands for.
pub proof fn lemma_hex_lower_len(bytes: Seq<u8>)
    ensures
        hex_lower(bytes).len() == 2 * bytes.len(),
    decreases bytes.len(),
{
    if bytes.len() > 0 {
        lemma_hex_lower_len(bytes.drop_last());
        assert(hex_pair(bytes.last()).len() == 2);
    }
}

} // verus!
