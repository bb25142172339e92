//! The options for reaching a node and signing for an account, and the key
//! pair that signs.

use vstd::prelude::*;
use crate::error::SignerError;
use crate::submission::Notification;

verus! {

/// The sr25519 key pair of `sp_core`. Nothing inside it is visible here;
/// the library hands it on to whoever signs.
#[verifier::external_type_specification]
#[verifier::external_body]
pub struct ExPair(sp_core::sr25519::Pair);

/// The error of `sp_core` for a secret that cannot be interpreted.
#[verifier::external_type_specification]
#[verifier::external_body]
pub struct ExSecretStringError(sp_core::crypto::SecretStringError);

/// Whether `sp_core` derives an sr25519 key pair from the secret URI `suri`
/// with the password `password` in place of any that the URI itself holds.
pub uninterp spec fn secret_uri_accepted(suri: Seq<char>, password: Option<Seq<char>>) -> bool;

/// The characters of an optional string.
pub open spec fn optional_chars(s: Option<String>) -> Option<Seq<char>> {
    match s {
        Some(p) => Some(p@),
        None => None,
    }
}

/// Calls `sp_core::crypto::Pair::from_string` for `sp_core::sr25519::Pair`.
///
/// The function parses the URI into a phrase or a hex seed, a derivation
/// path and a password, and derives the pair from them; it uses nothing but
/// its two arguments. All that is claimed of it is that whether it succeeds
/// is the same for the same arguments.
#[verifier::external_body]
fn pair_from_string(suri: &str, password: Option<&str>) -> (r: Result<
    sp_core::sr25519::Pair,
    sp_core::crypto::SecretStringError,
>)
    ensures
        r.is_ok() == secret_uri_accepted(
            suri@,
            match password {
                Some(p) => Some(p@),
                None => None,
            },
        ),
{
    <sp_core::sr25519::Pair as sp_core::crypto::Pair>::from_string(suri, password)
}

/// What the library makes of the answer to a request for a key pair: the
/// pair as it is, or the one error that stands for every way in which the
/// secret can be wrong.
pub fn classify_key(
    found: Result<sp_core::sr25519::Pair, sp_core::crypto::SecretStringError>,
) -> (r: Result<sp_core::sr25519::Pair, SignerError>)
    ensures
        match found {
            Ok(pair) => r == Ok::<sp_core::sr25519::Pair, SignerError>(pair),
            Err(_) => r == Err::<sp_core::sr25519::Pair, SignerError>(SignerError::SecretString),
        },
{
    match found {
        Ok(pair) => Ok(pair),
        Err(_) => Err(SignerError::SecretString),
    }
}

/// What to tell the submission driver once the key pair was asked for: that
/// signing can go on, or that it failed and why.
pub fn signing_notification(found: &Result<sp_core::sr25519::Pair, SignerError>) -> (n:
    Notification)
    ensures
        match *found {
            Ok(_) => n == Notification::SigningSucceeded,
            Err(e) => n matches Notification::SigningFailed(reason) && reason@
                == e.spec_message()@,
        },
{
    match found {
        Ok(_) => Notification::SigningSucceeded,
        Err(e) => Notification::SigningFailed(e.message().to_owned()),
    }
}

/// What is needed to send a signed call to a node.
#[derive(Clone, Debug)]
pub struct ExtrinsicOpts {
    /// The websocket address of the node.
    pub url: String,
    /// The secret URI of the account that signs.
    pub suri: String,
    /// The password of the secret, if it has one.
    pub password: Option<String>,
}

impl ExtrinsicOpts {
    /// The key pair of the account that signs, derived from the secret URI
    /// and the password.
    ///
    /// Whatever is wrong with the secret, the error is the same.
    pub fn signer(&self) -> (r: Result<sp_core::sr25519::Pair, SignerError>)
        ensures
            r.is_ok() == secret_uri_accepted(self.suri@, optional_chars(self.password)),
            r is Err ==> r == Err::<sp_core::sr25519::Pair, SignerError>(
                SignerError::SecretString,
            ),
    {
        let password: Option<&str> = match &self.password {
            Some(p) => Some(p.as_str()),
            None => None,
        };
        classify_key(pair_from_string(self.suri.as_str(), password))
    }
}

} // verus!
