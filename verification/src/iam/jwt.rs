//! The signing of tokens, which is left to the `jsonwebtoken` crate.

use vstd::prelude::*;

verus! {

/// The token that `jsonwebtoken::encode` makes of a set of claims with the
/// HS512 algorithm and a secret: the claims with a text, the claims with a
/// time, each as name and value, and the secret. There is none where
/// `encode` fails.
pub uninterp spec fn hs512(
    texts: Seq<(Seq<char>, Seq<char>)>,
    times: Seq<(Seq<char>, i64)>,
    secret: Seq<char>,
) -> Option<Seq<char>>;

/// `jsonwebtoken::encode`, with a header for HS512 and the secret as the
/// key. The claims are handed over as one JSON object that holds each
/// name with its value; a name that comes twice holds its last value.
/// Where `encode` fails there is no token; what it failed with is dropped.
/// The contract gives the result a name and claims nothing else of it: the
/// token is a function of the claims and the secret alone.
#[verifier::external_body]
pub(crate) fn sign(texts: &Vec<(String, String)>, times: &Vec<(String, i64)>, secret: &str) -> (r:
    Option<String>)
    ensures
        match r {
            Some(t) => hs512(texts.deep_view(), times.deep_view(), secret@) == Some(t@),
            None => hs512(texts.deep_view(), times.deep_view(), secret@) is None,
        },
{
    let claims: serde_json::Map<String, serde_json::Value> = texts.iter().map(
        |p| (p.0.clone(), serde_json::Value::from(p.1.clone())),
    ).chain(times.iter().map(|p| (p.0.clone(), serde_json::Value::from(p.1)))).collect();
    jsonwebtoken::encode(
        &jsonwebtoken::Header::new(jsonwebtoken::Algorithm::HS512),
        &claims,
        &jsonwebtoken::EncodingKey::from_secret(secret.as_bytes()),
    ).ok()
}

} // verus!
