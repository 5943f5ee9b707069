//! The transport: what it needs to reach the object store, and what it asks of it.

use vstd::prelude::*;

use crate::config::{
    ConfigError, Settings, SettingsView, config_items, config_items_spec, last_value, settings_spec,
};
use crate::fields::Fields;
use crate::s3::{ConfigView, client_config, config_contents};
use crate::text::{split_once, split_once_spec, strip_prefixes, trim_start_matches};

verus! {

/// Why the transport cannot ask for an object.
#[derive(Debug, Clone, Copy, PartialEq, Eq, Structural)]
pub enum AcquireError {
    ClientNotInitialized,
    BucketNotConfigured,
}

impl AcquireError {
    /// What a user is told of the error.
    pub open spec fn message_spec(self) -> Seq<char> {
        match self {
            AcquireError::ClientNotInitialized =>
                "S3 client not initialized — missing 601 Configuration?"@,
            AcquireError::BucketNotConfigured => "Bucket not configured"@,
        }
    }

    /// What a user is told of the error.
    pub fn message(&self) -> (text: &'static str)
        ensures
            text@ == self.message_spec(),
    {
        match self {
            AcquireError::ClientNotInitialized =>
                "S3 client not initialized — missing 601 Configuration?",
            AcquireError::BucketNotConfigured => "Bucket not configured",
        }
    }
}

/// What a download asks for.
pub struct FetchView {
    pub bucket: Seq<char>,
    pub key: Seq<char>,
    pub uri: Seq<char>,
    pub filename: Seq<char>,
}

/// A download: the object `key` of `bucket`, which APT knows as `uri`, goes into
/// the file `filename`.
#[derive(Debug)]
pub struct Fetch {
    pub bucket: String,
    pub key: String,
    pub uri: String,
    pub filename: String,
}

impl View for Fetch {
    type V = FetchView;

    open spec fn view(&self) -> FetchView {
        FetchView {
            bucket: self.bucket@,
            key: self.key@,
            uri: self.uri@,
            filename: self.filename@,
        }
    }
}

/// The state of the transport.
pub struct TransportView {
    pub s3: Option<ConfigView>,
    pub bucket: Option<Seq<char>>,
}

/// The transport. Until it is configured it has neither a client configuration
/// nor a bucket.
pub struct Transport {
    s3: Option<aws_sdk_s3::Config>,
    bucket: Option<String>,
}

impl View for Transport {
    type V = TransportView;

    closed spec fn view(&self) -> TransportView {
        TransportView {
            s3: match self.s3 {
                Some(config) => Some(config_contents(config)),
                None => None,
            },
            bucket: match self.bucket {
                Some(bucket) => Some(bucket@),
                None => None,
            },
        }
    }
}

/// The transport that settings make.
pub open spec fn configured(settings: SettingsView) -> TransportView {
    TransportView {
        s3: Some(
            ConfigView {
                key_id: settings.key_id,
                secret: settings.secret,
                session_token: None,
                expires: false,
                provider: "apt-conf"@,
                region: "auto"@,
                endpoint: settings.endpoint,
                latest_behavior: true,
            },
        ),
        bucket: Some(settings.bucket),
    }
}

/// What becomes of a transport that is configured from fields. Where a setting is
/// missing, it stays as it was.
pub open spec fn configure_spec(
    transport: TransportView,
    fields: Seq<(Seq<char>, Seq<char>)>,
) -> (TransportView, Result<(), ConfigError>) {
    match settings_spec(config_items_spec(fields)) {
        Ok(settings) => (configured(settings), Ok(())),
        Err(e) => (transport, Err(e)),
    }
}

/// The key of the object that a URI names: what stands behind the scheme and the
/// first slash after it. What stands between the two, a bucket by convention, is
/// left out. A URI without such a slash names the empty key.
pub open spec fn object_key_spec(uri: Seq<char>) -> Seq<char> {
    match split_once_spec(strip_prefixes(uri, "r2://"@), seq!['/']) {
        Some((_, path)) => path,
        None => seq![],
    }
}

/// The download that a URI and a file name ask for.
pub open spec fn acquire_spec(
    transport: TransportView,
    uri: Seq<char>,
    filename: Seq<char>,
) -> Result<FetchView, AcquireError> {
    match (transport.s3, transport.bucket) {
        (None, _) => Err(AcquireError::ClientNotInitialized),
        (Some(_), None) => Err(AcquireError::BucketNotConfigured),
        (Some(_), Some(bucket)) => Ok(
            FetchView { bucket, key: object_key_spec(uri), uri, filename },
        ),
    }
}

/// The key of the object that a URI names.
pub fn object_key(uri: &str) -> (key: String)
    ensures
        key@ == object_key_spec(uri@),
{
    proof {
        reveal_strlit("/");
        assert("/"@ =~= seq!['/']);
    }
    let rest = trim_start_matches(uri, "r2://");
    match split_once(rest.as_str(), "/") {
        Some((_, path)) => path,
        None => String::new(),
    }
}

impl Transport {
    /// A transport that is not configured.
    pub fn new() -> (transport: Self)
        ensures
            transport@ == (TransportView { s3: None, bucket: None }),
    {
        Transport { s3: None, bucket: None }
    }

    /// The configuration that the S3 client is to be made from.
    pub fn s3(&self) -> (config: Option<&aws_sdk_s3::Config>)
        ensures
            match config {
                Some(c) => self@.s3 == Some(config_contents(*c)),
                None => self@.s3 is None,
            },
    {
        self.s3.as_ref()
    }

    /// Takes the settings from the configuration items among `fields`. Where one is
    /// missing, the transport stays as it was.
    pub fn configure(&mut self, fields: &Fields) -> (result: Result<(), ConfigError>)
        ensures
            (final(self)@, result) == configure_spec(old(self)@, fields@),
            result is Err ==> *final(self) == *old(self),
            result is Ok ==> {
                let items = config_items_spec(fields@);
                &&& final(self)@.s3 matches Some(client)
                &&& last_value(items, "acquire::r2::accesskeyid"@) == Some(client.key_id)
                &&& last_value(items, "acquire::r2::secretaccesskey"@) == Some(client.secret)
                &&& last_value(items, "acquire::r2::endpointurl"@) == Some(client.endpoint)
                &&& client.region == "auto"@
                &&& client.session_token is None
                &&& !client.expires
                &&& client.latest_behavior
                &&& final(self)@.bucket is Some
                &&& last_value(items, "acquire::r2::bucket"@) == final(self)@.bucket
            },
    {
        let items = config_items(fields);
        let settings = match Settings::from_items(&items) {
            Ok(settings) => settings,
            Err(e) => return Err(e),
        };
        self.s3 = Some(
            client_config(
                settings.key_id.as_str(),
                settings.secret.as_str(),
                "apt-conf",
                "auto",
                settings.endpoint.as_str(),
            ),
        );
        self.bucket = Some(settings.bucket);
        Ok(())
    }

    /// The download that a URI and a file name ask for.
    pub fn acquire(&self, uri: &str, filename: &str) -> (fetch: Result<Fetch, AcquireError>)
        ensures
            match fetch {
                Ok(f) => acquire_spec(self@, uri@, filename@) == Ok::<_, AcquireError>(f@),
                Err(e) => acquire_spec(self@, uri@, filename@) == Err::<FetchView, _>(e),
            },
    {
        if self.s3.is_none() {
            return Err(AcquireError::ClientNotInitialized);
        }
        match &self.bucket {
            Some(bucket) => Ok(
                Fetch {
                    bucket: bucket.clone(),
                    key: object_key(uri),
                    uri: uri.to_owned(),
                    filename: filename.to_owned(),
                },
            ),
            None => Err(AcquireError::BucketNotConfigured),
        }
    }
}

} // verus!
