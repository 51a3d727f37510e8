//! The validity window of signed URLs.

use crate::error::LoadError;
use aws_sdk_s3::presigning::{PresigningConfig, PresigningConfigError};
use std::time::Duration;
use vstd::prelude::*;

verus! {

/// How long a signed URL stays valid, in seconds: ten minutes.
pub const SIGNED_URL_EXPIRY_SECS: u64 = 600;

/// The longest validity the signing service accepts, in seconds: one week.
pub const MAX_EXPIRY_SECS: u64 = 604_800;

#[verifier::external_type_specification]
#[verifier::external_body]
pub struct ExPresigningConfig(PresigningConfig);

#[verifier::external_type_specification]
#[verifier::external_body]
pub struct ExPresigningConfigError(PresigningConfigError);

/// Calls `PresigningConfig::expires_in` of `aws_sdk_s3` with a duration of
/// `secs` whole seconds. Trusted: the call succeeds exactly when the duration
/// is at most one week. The configuration starts its window at the moment of
/// the call, so nothing is said of the value itself.
#[verifier::external_body]
fn presigning_config_expires_in(secs: u64) -> (r: Result<PresigningConfig, PresigningConfigError>)
    ensures
        r is Ok <==> secs <= 604_800,
{
    PresigningConfig::expires_in(Duration::from_secs(secs))
}

/// The signing configuration for a URL that is to stay valid for
/// `expires_in_secs` seconds from now. A validity of more than a week is
/// refused as a signing error.
pub fn signing_config(expires_in_secs: u64) -> (r: Result<PresigningConfig, LoadError>)
    ensures
        r is Ok <==> expires_in_secs <= MAX_EXPIRY_SECS,
        r is Err ==> r == Err::<PresigningConfig, LoadError>(LoadError::Signing),
{
    match presigning_config_expires_in(expires_in_secs) {
        Ok(config) => Ok(config),
        Err(_) => Err(LoadError::Signing),
    }
}

} // verus!
