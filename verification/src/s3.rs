//! The configuration of the S3 client.

use vstd::prelude::*;

use aws_config::BehaviorVersion;
use aws_credential_types::Credentials;
use aws_sdk_s3::config::{Builder, Region};

verus! {

/// The configuration that an S3 client is made from.
#[verifier::external_type_specification]
#[verifier::external_body]
pub struct ExConfig(aws_sdk_s3::Config);

/// What a client configuration says.
pub struct ConfigView {
    /// The access key ID.
    pub key_id: Seq<char>,
    /// The secret access key.
    pub secret: Seq<char>,
    /// The token of a temporary session, where the keys belong to one.
    pub session_token: Option<Seq<char>>,
    /// The keys are good until some time only.
    pub expires: bool,
    /// The name of whoever provided the keys.
    pub provider: Seq<char>,
    /// The region.
    pub region: Seq<char>,
    /// The URL of the service.
    pub endpoint: Seq<char>,
    /// The client behaves as the latest version of the SDK prescribes.
    pub latest_behavior: bool,
}

/// What a client configuration was made with.
pub uninterp spec fn config_contents(config: aws_sdk_s3::Config) -> ConfigView;

/// Calls `aws_credential_types::Credentials::new` and the methods of
/// `aws_sdk_s3::config::Builder`, from `new` to `build`. The configuration holds
/// the access key, the name of its provider, the region and the endpoint that
/// were passed, unchanged. The key has no session token and no expiry time, and
/// the behavior version is `BehaviorVersion::latest`.
#[verifier::external_body]
pub(crate) fn client_config(
    key_id: &str,
    secret: &str,
    provider: &'static str,
    region: &'static str,
    endpoint: &str,
) -> (config: aws_sdk_s3::Config)
    ensures
        config_contents(config) == (ConfigView {
            key_id: key_id@,
            secret: secret@,
            session_token: None,
            expires: false,
            provider: provider@,
            region: region@,
            endpoint: endpoint@,
            latest_behavior: true,
        }),
{
    Builder::new()
        .behavior_version(BehaviorVersion::latest())
        .credentials_provider(Credentials::new(key_id, secret, None, None, provider))
        .region(Region::new(region))
        .endpoint_url(endpoint)
        .build()
}

} // verus!
