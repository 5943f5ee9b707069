use std::time::{Duration, SystemTime};

use apt_transport_r2::config::{config_items, ConfigError, Settings};
use apt_transport_r2::fields::Fields;
use apt_transport_r2::transport::{object_key, AcquireError, Transport};
use aws_config::BehaviorVersion;
use aws_credential_types::Credentials;
use aws_sdk_s3::config::{Builder, Region};
use aws_sdk_s3::presigning::PresigningConfig;
use aws_sdk_s3::Client;

const ENDPOINT: &str = "https://account.example.com";

fn items(lines: &[&str]) -> Fields {
    let mut fields = Fields::new();
    for line in lines {
        fields.add("Config-Item", line);
    }
    fields
}

fn complete() -> Fields {
    items(&[
        "Acquire::r2::AccessKeyId=mykey",
        "Acquire::r2::SecretAccessKey=mysecret",
        "Acquire::r2::EndpointUrl=https://account.example.com",
        "Acquire::r2::Bucket=apt-private",
    ])
}

fn settings(fields: &Fields) -> Result<Settings, ConfigError> {
    Settings::from_items(&config_items(fields))
}

/// The URL, with its signature, that a client of this configuration fetches.
fn signed_url(config: &aws_sdk_s3::Config, key: &str) -> String {
    let client = Client::from_conf(config.clone());
    let when = PresigningConfig::builder()
        .start_time(SystemTime::UNIX_EPOCH + Duration::from_secs(1_700_000_000))
        .expires_in(Duration::from_secs(60))
        .build()
        .unwrap();
    let request = client.get_object().bucket("apt-private").key(key).presigned(when);
    let runtime = tokio::runtime::Builder::new_current_thread()
        .enable_all()
        .build()
        .unwrap();
    runtime.block_on(request).unwrap().uri().to_string()
}

fn config_by_hand(key_id: &str, secret: &str, endpoint: &str) -> aws_sdk_s3::Config {
    Builder::new()
        .behavior_version(BehaviorVersion::latest())
        .credentials_provider(Credentials::new(key_id, secret, None, None, "test"))
        .region(Region::new("auto"))
        .endpoint_url(endpoint)
        .build()
}

// --- Settings ---

#[test]
fn settings_are_taken_from_items() {
    let found = settings(&complete()).unwrap();
    assert_eq!(found.key_id, "mykey");
    assert_eq!(found.secret, "mysecret");
    assert_eq!(found.endpoint, "https://account.example.com");
    assert_eq!(found.bucket, "apt-private");
}

#[test]
fn the_first_missing_setting_is_named() {
    let lines = [
        "Acquire::r2::AccessKeyId=mykey",
        "Acquire::r2::SecretAccessKey=mysecret",
        "Acquire::r2::EndpointUrl=https://account.example.com",
        "Acquire::r2::Bucket=apt-private",
    ];
    let errors = [
        ConfigError::AccessKeyId,
        ConfigError::SecretAccessKey,
        ConfigError::EndpointUrl,
        ConfigError::Bucket,
    ];
    for n in 0..4 {
        assert_eq!(settings(&items(&lines[..n])).unwrap_err(), errors[n]);
        let mut others = lines.to_vec();
        others.remove(n);
        assert_eq!(settings(&items(&others)).unwrap_err(), errors[n]);
    }
    assert_eq!(settings(&Fields::new()).unwrap_err(), ConfigError::AccessKeyId);
}

#[test]
fn errors_say_which_setting_is_missing() {
    assert_eq!(
        ConfigError::AccessKeyId.message(),
        "Acquire::r2::AccessKeyId not set in apt.conf"
    );
    assert_eq!(
        ConfigError::SecretAccessKey.message(),
        "Acquire::r2::SecretAccessKey not set in apt.conf"
    );
    assert_eq!(
        ConfigError::EndpointUrl.message(),
        "Acquire::r2::EndpointUrl not set in apt.conf"
    );
    assert_eq!(ConfigError::Bucket.message(), "Acquire::r2::Bucket not set in apt.conf");
}

#[test]
fn items_are_split_at_the_first_equals_sign_and_keep_their_order() {
    let fields = items(&["B=1=2", "no item", "a=", " C =  x", "=y"]);
    let expected: Vec<(String, String)> = [("b", "1=2"), ("a", ""), (" c ", "  x"), ("", "y")]
        .iter()
        .map(|(key, value)| (key.to_string(), value.to_string()))
        .collect();
    assert_eq!(config_items(&fields), expected);
}

#[test]
fn the_last_item_of_a_key_counts() {
    let mut fields = complete();
    fields.add("Config-Item", "ACQUIRE::R2::BUCKET=other");
    assert_eq!(settings(&fields).unwrap().bucket, "other");
}

#[test]
fn an_empty_setting_is_set() {
    let mut fields = complete();
    fields.add("Config-Item", "Acquire::r2::Bucket=");
    assert_eq!(settings(&fields).unwrap().bucket, "");
}

#[test]
fn letter_case_does_not_matter_in_field_names_and_keys() {
    let mut fields = Fields::new();
    fields.add("Other", "Acquire::r2::Bucket=wrong");
    fields.add("cONFIG-iTEM", "acquire::R2::accessKEYid=Key");
    fields.add("cONFIG-iTEM", "ACQUIRE::R2::SECRETACCESSKEY=Secret");
    fields.add("cONFIG-iTEM", "acquire::r2::endpointurl=Url");
    fields.add("cONFIG-iTEM", "Acquire::r2::Bucket=Bucket");
    let found = settings(&fields).unwrap();
    assert_eq!(found.key_id, "Key");
    assert_eq!(found.secret, "Secret");
    assert_eq!(found.endpoint, "Url");
    assert_eq!(found.bucket, "Bucket");
}

#[test]
fn keys_are_lowered_by_unicode_rules() {
    // U+212A, the Kelvin sign, is `k` in lower case.
    let fields = items(&["Acquire::r2::AccessKeyId=a", "Acquire::r2::Access\u{212a}eyId=b", "ÄΣ=c"]);
    let found = config_items(&fields);
    assert_eq!(found[1].0, "acquire::r2::accesskeyid");
    assert_eq!(found[2].0, "äς");
}

#[test]
fn the_case_of_ascii_letters_does_not_matter_beside_other_letters() {
    let fields = items(&["AΣ=1", "aΣ=2", "ΣA=3", "Σa=4", "Access\u{212a}EY=5", "aCCESS\u{212a}ey=6"]);
    let keys: Vec<String> = config_items(&fields).into_iter().map(|item| item.0).collect();
    assert_eq!(keys, ["aς", "aς", "σa", "σa", "accesskey", "accesskey"]);
    for c in '\0'..=char::MAX {
        let texts = [format!("{c}"), format!("A{c}Σ"), format!("{c}ZΣ.K{c}")];
        for text in texts {
            assert_eq!(text.to_lowercase(), text.to_ascii_lowercase().to_lowercase());
        }
    }
}

#[test]
fn other_fields_hold_no_items() {
    let mut fields = Fields::new();
    fields.add("Config-Items", "Acquire::r2::Bucket=apt-private");
    fields.add("URI", "r2://b/k=v");
    assert!(config_items(&fields).is_empty());
}

// --- Object keys ---

#[test]
fn the_key_is_what_follows_the_bucket() {
    assert_eq!(
        object_key("r2://apt-private/pool/main/test_1.0_arm64.deb"),
        "pool/main/test_1.0_arm64.deb"
    );
    assert_eq!(object_key("r2://apt-private/dists/private/InRelease"), "dists/private/InRelease");
    assert_eq!(object_key("r2://apt-private//a//b"), "/a//b");
    assert_eq!(object_key("apt-private/a"), "a");
    assert_eq!(object_key("apt-private/pool/main/a.deb"), "pool/main/a.deb");
    assert_eq!(object_key("r2:/a"), "a");
}

#[test]
fn a_uri_without_a_path_has_an_empty_key() {
    assert_eq!(object_key(""), "");
    assert_eq!(object_key("r2://"), "");
    assert_eq!(object_key("r2://apt-private"), "");
    assert_eq!(object_key("r2://apt-private/"), "");
}

#[test]
fn a_repeated_scheme_is_taken_off() {
    assert_eq!(object_key("r2://r2://apt-private/a"), "a");
    assert_eq!(object_key("s3://apt-private/a"), "/apt-private/a");
}

// --- The transport ---

#[test]
fn a_new_transport_cannot_acquire() {
    let transport = Transport::new();
    assert!(transport.s3().is_none());
    let error = transport.acquire("r2://apt-private/a", "/tmp/a").unwrap_err();
    assert_eq!(error, AcquireError::ClientNotInitialized);
    assert_eq!(error.message(), "S3 client not initialized — missing 601 Configuration?");
    assert_eq!(AcquireError::BucketNotConfigured.message(), "Bucket not configured");
}

#[test]
fn a_configured_transport_asks_for_the_object_in_its_bucket() {
    let mut transport = Transport::new();
    transport.configure(&complete()).unwrap();
    let fetch = transport.acquire("r2://whatever/pool/main/pkg.deb", "/tmp/pkg.deb").unwrap();
    assert_eq!(fetch.bucket, "apt-private");
    assert_eq!(fetch.key, "pool/main/pkg.deb");
    assert_eq!(fetch.uri, "r2://whatever/pool/main/pkg.deb");
    assert_eq!(fetch.filename, "/tmp/pkg.deb");
}

#[test]
fn an_incomplete_configuration_changes_nothing() {
    let mut transport = Transport::new();
    let partial = items(&["Acquire::r2::AccessKeyId=mykey"]);
    assert_eq!(transport.configure(&partial), Err(ConfigError::SecretAccessKey));
    assert!(transport.s3().is_none());
    transport.configure(&complete()).unwrap();
    assert_eq!(transport.configure(&partial), Err(ConfigError::SecretAccessKey));
    assert_eq!(transport.acquire("r2://b/k", "f").unwrap().bucket, "apt-private");
    assert!(transport.s3().is_some());
}

#[test]
fn a_later_configuration_replaces_an_earlier_one() {
    let mut transport = Transport::new();
    transport.configure(&complete()).unwrap();
    let mut fields = complete();
    fields.add("Config-Item", "Acquire::r2::Bucket=second");
    fields.add("Config-Item", "Acquire::r2::AccessKeyId=newkey");
    transport.configure(&fields).unwrap();
    assert_eq!(transport.acquire("r2://b/k", "f").unwrap().bucket, "second");
    assert_eq!(
        signed_url(transport.s3().unwrap(), "k"),
        signed_url(&config_by_hand("newkey", "mysecret", ENDPOINT), "k")
    );
}

// --- The client configuration ---

#[test]
fn the_client_is_configured_for_the_region_auto() {
    let mut transport = Transport::new();
    transport.configure(&complete()).unwrap();
    let region = transport.s3().unwrap().region().unwrap();
    assert_eq!(region.as_ref(), "auto");
}

#[test]
fn the_client_signs_requests_to_the_endpoint_with_the_keys() {
    let mut transport = Transport::new();
    transport.configure(&complete()).unwrap();
    let url = signed_url(transport.s3().unwrap(), "pool/main/pkg.deb");
    assert!(url.starts_with("https://apt-private.account.example.com/pool/main/pkg.deb?"), "{url}");
    assert!(url.contains("X-Amz-Credential=mykey%2F20231114%2Fauto%2Fs3%2Faws4_request"), "{url}");
    assert!(!url.contains("X-Amz-Security-Token"), "{url}");
    let by_hand = config_by_hand("mykey", "mysecret", ENDPOINT);
    assert_eq!(url, signed_url(&by_hand, "pool/main/pkg.deb"));
    let other_secret = config_by_hand("mykey", "mysecret2", ENDPOINT);
    assert_ne!(url, signed_url(&other_secret, "pool/main/pkg.deb"));
}

// --- What does not matter to the configuration ---

/// What a configuration makes of a new transport: the bucket and a signed URL.
fn outcome(fields: &Fields) -> Result<(String, String), ConfigError> {
    let mut transport = Transport::new();
    transport.configure(fields)?;
    let bucket = transport.acquire("r2://b/k", "f").unwrap().bucket;
    Ok((bucket, signed_url(transport.s3().unwrap(), "k")))
}

#[test]
fn letter_case_does_not_change_a_configuration() {
    let mut fields = Fields::new();
    fields.add("CONFIG-item", "ACQUIRE::R2::ACCESSKEYID=mykey");
    fields.add("CONFIG-item", "acquire::r2::secretaccesskey=mysecret");
    fields.add("CONFIG-item", "aCQUIRE::R2::eNDPOINTuRL=https://account.example.com");
    assert_eq!(outcome(&fields), Err(ConfigError::Bucket));
    fields.add("CONFIG-item", "Acquire::R2::bucket=apt-private");
    assert_eq!(outcome(&fields), outcome(&complete()));
    let mut kelvin = complete();
    kelvin.add("Config-Item", "Acquire::r2::Access\u{212a}eyId=other");
    let mut lowered = complete();
    lowered.add("Config-Item", "aCQUIRE::R2::aCCESS\u{212a}EYiD=other");
    assert_eq!(outcome(&kelvin), outcome(&lowered));
    assert_ne!(outcome(&kelvin), outcome(&complete()));
    fields.add("CONFIG-item", "Acquire::R2::bucket=APT-PRIVATE");
    assert_ne!(outcome(&fields), outcome(&complete()));
}

#[test]
fn other_fields_lines_and_options_do_not_change_a_configuration() {
    let mut fields = Fields::new();
    fields.add("URI", "Acquire::r2::Bucket=wrong");
    fields.add("Config-Item", "Acquire::r2::Region=eu");
    fields.add("Config-Item", "Acquire::r2::AccessKeyId=mykey");
    fields.add("Config-Item", "Acquire::r2::Bucket");
    fields.add("Config-Item", "Acquire::r2::SecretAccessKey=mysecret");
    assert_eq!(outcome(&fields), Err(ConfigError::EndpointUrl));
    fields.add("Config-Item", "Acquire::r2::EndpointUrl=https://account.example.com");
    fields.add("Config-Item", "");
    fields.add("Config-Item", "Acquire::r2::Bucket=apt-private");
    fields.add("Config-Item", "Acquire::r2::Bucket::Extra=wrong");
    fields.add("Filename", "x");
    assert_eq!(outcome(&fields), outcome(&complete()));
}
