//! The settings of the transport, read from the `Config-Item` fields that APT
//! sends.

use vstd::prelude::*;

use crate::fields::{Fields, pairs};
use crate::text::{
    eq_ignore_ascii_case, lines, lines_spec, lowercase, lowercase_spec, same_ignoring_ascii_case,
    split_once, split_once_spec, texts,
};

verus! {

/// A setting that APT's configuration lacks.
#[derive(Debug, Clone, Copy, PartialEq, Eq, Structural)]
pub enum ConfigError {
    AccessKeyId,
    SecretAccessKey,
    EndpointUrl,
    Bucket,
}

impl ConfigError {
    /// What a user is told of the error.
    pub open spec fn message_spec(self) -> Seq<char> {
        match self {
            ConfigError::AccessKeyId => "Acquire::r2::AccessKeyId not set in apt.conf"@,
            ConfigError::SecretAccessKey => "Acquire::r2::SecretAccessKey not set in apt.conf"@,
            ConfigError::EndpointUrl => "Acquire::r2::EndpointUrl not set in apt.conf"@,
            ConfigError::Bucket => "Acquire::r2::Bucket not set in apt.conf"@,
        }
    }

    /// What a user is told of the error.
    pub fn message(&self) -> (text: &'static str)
        ensures
            text@ == self.message_spec(),
    {
        match self {
            ConfigError::AccessKeyId => "Acquire::r2::AccessKeyId not set in apt.conf",
            ConfigError::SecretAccessKey => "Acquire::r2::SecretAccessKey not set in apt.conf",
            ConfigError::EndpointUrl => "Acquire::r2::EndpointUrl not set in apt.conf",
            ConfigError::Bucket => "Acquire::r2::Bucket not set in apt.conf",
        }
    }
}

/// What the settings say.
pub struct SettingsView {
    pub key_id: Seq<char>,
    pub secret: Seq<char>,
    pub endpoint: Seq<char>,
    pub bucket: Seq<char>,
}

/// The settings of the transport.
#[derive(Debug)]
pub struct Settings {
    pub key_id: String,
    pub secret: String,
    pub endpoint: String,
    pub bucket: String,
}

impl View for Settings {
    type V = SettingsView;

    open spec fn view(&self) -> SettingsView {
        SettingsView {
            key_id: self.key_id@,
            secret: self.secret@,
            endpoint: self.endpoint@,
            bucket: self.bucket@,
        }
    }
}

/// The items that lines hold: a line is a key in any letter case, an equals sign
/// and a value. A line without an equals sign holds none.
pub open spec fn line_items(body: Seq<Seq<char>>) -> Seq<(Seq<char>, Seq<char>)>
    decreases body.len(),
{
    if body.len() == 0 {
        seq![]
    } else {
        match split_once_spec(body.last(), seq!['=']) {
            Some((key, value)) => line_items(body.drop_last()).push((lowercase_spec(key), value)),
            None => line_items(body.drop_last()),
        }
    }
}

/// The field holds configuration items.
pub open spec fn is_config_field(name: Seq<char>) -> bool {
    same_ignoring_ascii_case(name, "Config-Item"@)
}

/// The items that fields hold, one configuration field after the other.
pub open spec fn config_items_spec(fields: Seq<(Seq<char>, Seq<char>)>) -> Seq<
    (Seq<char>, Seq<char>),
>
    decreases fields.len(),
{
    if fields.len() == 0 {
        seq![]
    } else {
        let before = config_items_spec(fields.drop_last());
        if is_config_field(fields.last().0) {
            before + line_items(lines_spec(fields.last().1))
        } else {
            before
        }
    }
}

/// The value of a key: that of the last item with this key.
pub open spec fn last_value(items: Seq<(Seq<char>, Seq<char>)>, key: Seq<char>) -> Option<
    Seq<char>,
>
    decreases items.len(),
{
    if items.len() == 0 {
        None
    } else if items.last().0 == key {
        Some(items.last().1)
    } else {
        last_value(items.drop_last(), key)
    }
}

/// The settings that items hold, or the first one that they lack.
pub open spec fn settings_spec(items: Seq<(Seq<char>, Seq<char>)>) -> Result<
    SettingsView,
    ConfigError,
> {
    match (
        last_value(items, "acquire::r2::accesskeyid"@),
        last_value(items, "acquire::r2::secretaccesskey"@),
        last_value(items, "acquire::r2::endpointurl"@),
        last_value(items, "acquire::r2::bucket"@),
    ) {
        (None, _, _, _) => Err(ConfigError::AccessKeyId),
        (Some(_), None, _, _) => Err(ConfigError::SecretAccessKey),
        (Some(_), Some(_), None, _) => Err(ConfigError::EndpointUrl),
        (Some(_), Some(_), Some(_), None) => Err(ConfigError::Bucket),
        (Some(key_id), Some(secret), Some(endpoint), Some(bucket)) => Ok(
            SettingsView { key_id, secret, endpoint, bucket },
        ),
    }
}

/// Takes in the items of the lines of one configuration field.
fn add_items(items: &mut Vec<(String, String)>, value: &str)
    ensures
        pairs(final(items)@) == pairs(old(items)@) + line_items(lines_spec(value@)),
{
    proof {
        reveal_strlit("=");
        assert("="@ =~= seq!['=']);
    }
    let body = lines(value);
    let ghost before = pairs(items@);
    let ghost all = lines_spec(value@);
    let mut i: usize = 0;
    assert(all.take(0) =~= Seq::<Seq<char>>::empty());
    assert(before + Seq::<(Seq<char>, Seq<char>)>::empty() =~= before);
    while i < body.len()
        invariant
            texts(body@) == all,
            i <= body@.len(),
            "="@ == seq!['='],
            pairs(items@) == before + line_items(all.take(i as int)),
        decreases body@.len() - i,
    {
        proof {
            assert(all.take(i + 1).drop_last() =~= all.take(i as int));
            assert(all.take(i + 1).last() == body@[i as int]@);
        }
        let ghost known = pairs(items@);
        match split_once(body[i].as_str(), "=") {
            Some((key, value)) => {
                items.push((lowercase(key.as_str()), value));
                proof {
                    assert(pairs(items@) =~= known.push((lowercase_spec(key@), value@)));
                    assert(pairs(items@) =~= before + line_items(all.take(i as int)).push(
                        (lowercase_spec(key@), value@),
                    ));
                }
            },
            None => {},
        }
        i += 1;
    }
    assert(all.take(i as int) =~= all);
}

/// The items that fields hold, with their keys in lower case.
pub fn config_items(fields: &Fields) -> (items: Vec<(String, String)>)
    ensures
        pairs(items@) == config_items_spec(fields@),
{
    let mut items: Vec<(String, String)> = Vec::new();
    let mut i: usize = 0;
    let n: usize = fields.len();
    assert(fields@.take(0) =~= Seq::<(Seq<char>, Seq<char>)>::empty());
    assert(pairs(items@) =~= Seq::<(Seq<char>, Seq<char>)>::empty());
    while i < n
        invariant
            n == fields@.len(),
            i <= n,
            pairs(items@) == config_items_spec(fields@.take(i as int)),
        decreases n - i,
    {
        proof {
            assert(fields@.take(i + 1).drop_last() =~= fields@.take(i as int));
        }
        if eq_ignore_ascii_case(fields.name(i), "Config-Item") {
            add_items(&mut items, fields.value(i));
        }
        i += 1;
    }
    assert(fields@.take(i as int) =~= fields@);
    items
}

/// The value of a key: that of the last item with this key.
fn value_of(items: &Vec<(String, String)>, key: &str) -> (value: Option<String>)
    ensures
        match value {
            Some(v) => last_value(pairs(items@), key@) == Some(v@),
            None => last_value(pairs(items@), key@) is None,
        },
{
    let wanted = key.to_owned();
    let ghost all = pairs(items@);
    let mut n: usize = items.len();
    assert(all.take(n as int) =~= all);
    while n > 0
        invariant
            wanted@ == key@,
            all == pairs(items@),
            n <= items@.len(),
            last_value(all, key@) == last_value(all.take(n as int), key@),
        decreases n,
    {
        if items[n - 1].0 == wanted {
            return Some(items[n - 1].1.clone());
        }
        assert(all.take(n as int).drop_last() =~= all.take(n - 1));
        n -= 1;
    }
    None
}

impl Settings {
    /// The settings that items with keys in lower case hold. The error names the
    /// first setting that they lack.
    pub fn from_items(items: &Vec<(String, String)>) -> (settings: Result<Self, ConfigError>)
        ensures
            match settings {
                Ok(s) => settings_spec(pairs(items@)) == Ok::<_, ConfigError>(s@),
                Err(e) => settings_spec(pairs(items@)) == Err::<SettingsView, _>(e),
            },
    {
        let key_id = match value_of(items, "acquire::r2::accesskeyid") {
            Some(value) => value,
            None => return Err(ConfigError::AccessKeyId),
        };
        let secret = match value_of(items, "acquire::r2::secretaccesskey") {
            Some(value) => value,
            None => return Err(ConfigError::SecretAccessKey),
        };
        let endpoint = match value_of(items, "acquire::r2::endpointurl") {
            Some(value) => value,
            None => return Err(ConfigError::EndpointUrl),
        };
        let bucket = match value_of(items, "acquire::r2::bucket") {
            Some(value) => value,
            None => return Err(ConfigError::Bucket),
        };
        Ok(Settings { key_id, secret, endpoint, bucket })
    }
}

} // verus!
