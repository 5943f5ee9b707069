//! Where each setting of a transport comes from.

use vstd::prelude::*;

use crate::config::{
    ConfigError, Settings, config_items_spec, is_config_field, last_value, line_items,
    settings_spec,
};
use crate::config_laws::{
    are_items, are_settings, is_item_key, is_item_value, item_fields, item_text, law_configuration,
};
use crate::laws::{after, initial, law_configuration_comes_in, line_events, message_lines};
use crate::message::{MessageView, field_text, status_text};
use crate::roundtrip::collected;
use crate::session::{EventView, NextView, act_spec, step_spec};
use crate::text::{
    ascii_lowercase, decimal_spec, find_from, is_whitespace, lemma_find_from, lemma_find_is_first,
    lines_spec, lowercase_spec, occurs, split_once_spec,
};
use crate::transport::{TransportView, configure_spec};

verus! {

// ---------------------------------------------------------------------------
// Items

/// A line with a key, an equals sign and a value is one more item, with the key in
/// lower case and the value as it is. A line without an equals sign is none.
pub proof fn law_one_more_item(
    lines: Seq<Seq<char>>,
    key: Seq<char>,
    value: Seq<char>,
    other: Seq<char>,
)
    requires
        forall|i: int| 0 <= i < key.len() ==> key[i] != '=',
        forall|i: int| 0 <= i < other.len() ==> other[i] != '=',
    ensures
        line_items(seq![]).len() == 0,
        line_items(lines.push(key + seq!['='] + value)) == line_items(lines).push(
            (lowercase_spec(key), value),
        ),
        line_items(lines.push(other)) == line_items(lines),
{
    let mark = seq!['='];
    let line = key + mark + value;
    let n = key.len() as int;
    assert(line.subrange(n, n + 1) =~= mark);
    assert forall|j: int| 0 <= j < n implies !occurs(line, mark, j) by {
        assert(line.subrange(j, j + 1)[0] == key[j]);
    }
    lemma_find_is_first(line, mark, 0, n);
    assert(line.take(n) =~= key);
    assert(line.skip(n + 1) =~= value);
    assert(split_once_spec(line, mark) == Some((key, value)));
    lemma_find_from(other, mark, 0);
    if let Some(i) = find_from(other, mark, 0) {
        assert(other.subrange(i, i + 1)[0] == '=');
    }
    assert(lines.push(line).drop_last() =~= lines);
    assert(lines.push(other).drop_last() =~= lines);
}

/// The items of one more field follow those of the fields before it, if its name is
/// `Config-Item` in any letter case; any other field adds none.
pub proof fn law_items_of_one_more_field(
    fields: Seq<(Seq<char>, Seq<char>)>,
    name: Seq<char>,
    value: Seq<char>,
)
    ensures
        config_items_spec(seq![]).len() == 0,
        ascii_lowercase(name) == "config-item"@ ==> config_items_spec(fields.push((name, value)))
            == config_items_spec(fields) + line_items(lines_spec(value)),
        ascii_lowercase(name) != "config-item"@ ==> config_items_spec(fields.push((name, value)))
            == config_items_spec(fields),
{
    reveal_strlit("config-item");
    reveal_strlit("Config-Item");
    assert(ascii_lowercase("Config-Item"@) =~= "config-item"@);
    assert(is_config_field(name) <==> ascii_lowercase(name) == "config-item"@);
    assert(fields.push((name, value)).drop_last() =~= fields);
}

/// The value of a key is that of the last item with this key; a key has none exactly
/// when no item has it.
pub proof fn law_last_value(items: Seq<(Seq<char>, Seq<char>)>, key: Seq<char>)
    ensures
        match last_value(items, key) {
            Some(value) => exists|i: int|
                {
                    &&& 0 <= i < items.len()
                    &&& #[trigger] items[i] == (key, value)
                    &&& forall|j: int| i < j < items.len() ==> (#[trigger] items[j]).0 != key
                },
            None => forall|j: int| 0 <= j < items.len() ==> (#[trigger] items[j]).0 != key,
        },
    decreases items.len(),
{
    if items.len() > 0 {
        let end = items.len() - 1;
        let init = items.drop_last();
        if items[end].0 == key {
            assert(items[end] == (key, items[end].1));
        } else {
            law_last_value(init, key);
            match last_value(init, key) {
                Some(value) => {
                    let i = choose|i: int|
                        {
                            &&& 0 <= i < init.len()
                            &&& #[trigger] init[i] == (key, value)
                            &&& forall|j: int| i < j < init.len() ==> (#[trigger] init[j]).0 != key
                        };
                    assert(items[i] == (key, value));
                    assert forall|j: int| i < j < items.len() implies (#[trigger] items[j]).0
                        != key by {
                        if j < end {
                            assert(init[j].0 != key);
                        }
                    }
                },
                None => {
                    assert forall|j: int| 0 <= j < items.len() implies (#[trigger] items[j]).0
                        != key by {
                        if j < end {
                            assert(init[j].0 != key);
                        }
                    }
                },
            }
        }
    }
}

/// Each setting is the value of the key with its name, and the settings are complete
/// exactly when each of the four keys has a value. Otherwise the first key without one,
/// in the order access key, secret, endpoint and bucket, is what is missing.
pub proof fn law_settings(items: Seq<(Seq<char>, Seq<char>)>)
    ensures
        match settings_spec(items) {
            Ok(settings) => {
                &&& last_value(items, "acquire::r2::accesskeyid"@) == Some(settings.key_id)
                &&& last_value(items, "acquire::r2::secretaccesskey"@) == Some(settings.secret)
                &&& last_value(items, "acquire::r2::endpointurl"@) == Some(settings.endpoint)
                &&& last_value(items, "acquire::r2::bucket"@) == Some(settings.bucket)
            },
            Err(ConfigError::AccessKeyId) => last_value(
                items,
                "acquire::r2::accesskeyid"@,
            ) is None,
            Err(ConfigError::SecretAccessKey) => {
                &&& last_value(items, "acquire::r2::accesskeyid"@) is Some
                &&& last_value(items, "acquire::r2::secretaccesskey"@) is None
            },
            Err(ConfigError::EndpointUrl) => {
                &&& last_value(items, "acquire::r2::accesskeyid"@) is Some
                &&& last_value(items, "acquire::r2::secretaccesskey"@) is Some
                &&& last_value(items, "acquire::r2::endpointurl"@) is None
            },
            Err(ConfigError::Bucket) => {
                &&& last_value(items, "acquire::r2::accesskeyid"@) is Some
                &&& last_value(items, "acquire::r2::secretaccesskey"@) is Some
                &&& last_value(items, "acquire::r2::endpointurl"@) is Some
                &&& last_value(items, "acquire::r2::bucket"@) is None
            },
        },
{
}

/// The view of settings holds each of them.
pub proof fn law_settings_view(settings: Settings)
    ensures
        settings@.key_id == settings.key_id@,
        settings@.secret == settings.secret@,
        settings@.endpoint == settings.endpoint@,
        settings@.bucket == settings.bucket@,
{
}

/// What a user is told of a missing setting names it as it is written in `apt.conf`.
pub proof fn law_missing_setting_message(missing: ConfigError)
    ensures
        missing.message_spec() == "Acquire::r2::"@ + (match missing {
            ConfigError::AccessKeyId => "AccessKeyId"@,
            ConfigError::SecretAccessKey => "SecretAccessKey"@,
            ConfigError::EndpointUrl => "EndpointUrl"@,
            ConfigError::Bucket => "Bucket"@,
        }) + " not set in apt.conf"@,
{
    reveal_strlit("Acquire::r2::");
    reveal_strlit(" not set in apt.conf");
    reveal_strlit("AccessKeyId");
    reveal_strlit("SecretAccessKey");
    reveal_strlit("EndpointUrl");
    reveal_strlit("Bucket");
    reveal_strlit("Acquire::r2::AccessKeyId not set in apt.conf");
    reveal_strlit("Acquire::r2::SecretAccessKey not set in apt.conf");
    reveal_strlit("Acquire::r2::EndpointUrl not set in apt.conf");
    reveal_strlit("Acquire::r2::Bucket not set in apt.conf");
    let told = "Acquire::r2::"@ + (match missing {
        ConfigError::AccessKeyId => "AccessKeyId"@,
        ConfigError::SecretAccessKey => "SecretAccessKey"@,
        ConfigError::EndpointUrl => "EndpointUrl"@,
        ConfigError::Bucket => "Bucket"@,
    }) + " not set in apt.conf"@;
    assert(missing.message_spec() =~= told);
}

// ---------------------------------------------------------------------------
// The client

/// A transport that is configured has a client whose access key ID, secret access key
/// and endpoint are the values of the items with these names, for the region `auto`,
/// with keys that belong to no session and do not expire. Its bucket is the value of the
/// item with that name. One that is not configured stays as it was.
pub proof fn law_client_has_the_values_of_the_items(
    transport: TransportView,
    fields: Seq<(Seq<char>, Seq<char>)>,
)
    ensures
        ({
            let items = config_items_spec(fields);
            let (changed, result) = configure_spec(transport, fields);
            let complete = {
                &&& last_value(items, "acquire::r2::accesskeyid"@) is Some
                &&& last_value(items, "acquire::r2::secretaccesskey"@) is Some
                &&& last_value(items, "acquire::r2::endpointurl"@) is Some
                &&& last_value(items, "acquire::r2::bucket"@) is Some
            };
            &&& result is Ok <==> complete
            &&& result is Err ==> changed == transport
            &&& result is Ok ==> {
                &&& changed.s3 matches Some(client)
                &&& last_value(items, "acquire::r2::accesskeyid"@) == Some(client.key_id)
                &&& last_value(items, "acquire::r2::secretaccesskey"@) == Some(client.secret)
                &&& last_value(items, "acquire::r2::endpointurl"@) == Some(client.endpoint)
                &&& client.region == "auto"@
                &&& client.provider == "apt-conf"@
                &&& client.session_token is None
                &&& !client.expires
                &&& client.latest_behavior
                &&& last_value(items, "acquire::r2::bucket"@) == changed.bucket
            }
        }),
{
}

/// After a configuration message whose items hold the four settings, in any order and
/// among any others, the client has as access key ID, secret access key and endpoint the
/// values of the last items with these keys, and the transport has the bucket of the
/// last item with that key.
pub proof fn law_client_after_a_configuration(
    transport: TransportView,
    description: Seq<char>,
    items: Seq<(Seq<char>, Seq<char>)>,
    at: (int, int, int, int),
)
    requires
        are_items(items),
        are_settings(items, at),
    ensures
        ({
            let (changed, step) = act_spec(
                transport,
                MessageView { code: 601, description, fields: collected(item_fields(items)) },
            );
            &&& step.next is Connect
            &&& step.output.len() == 0
            &&& changed.s3 matches Some(client)
            &&& client.key_id == items[at.0].1
            &&& client.secret == items[at.1].1
            &&& client.endpoint == items[at.2].1
            &&& client.region == "auto"@
            &&& client.session_token is None
            &&& !client.expires
            &&& changed.bucket == Some(items[at.3].1)
        }),
{
    law_configuration(transport, description, items, at);
}

/// The lines in which a configuration comes in, to the character.
pub open spec fn configuration_lines(items: Seq<(Seq<char>, Seq<char>)>) -> Seq<EventView> {
    seq![EventView::Line("601 Configuration\n"@)] + Seq::new(
        items.len(),
        |i: int|
            EventView::Line(
                "Config-Item: "@ + items[i].0 + seq!['='] + items[i].1 + seq!['\n'],
            ),
    )
}

/// A session that is sent a configuration as lines of text and then a blank line has a
/// client with the access key ID, the secret access key and the endpoint that these
/// lines hold, and their bucket.
pub proof fn law_client_after_configuration_lines(
    transport: TransportView,
    items: Seq<(Seq<char>, Seq<char>)>,
    at: (int, int, int, int),
    end: Seq<char>,
)
    requires
        forall|k: int, i: int|
            0 <= k < items.len() && 0 <= i < items[k].0.len() ==> {
                &&& #[trigger] items[k].0[i] != '\n'
                &&& items[k].0[i] != '='
            },
        forall|k: int, i: int|
            0 <= k < items.len() && 0 <= i < items[k].1.len() ==> #[trigger] items[k].1[i] != '\n',
        forall|k: int|
            0 <= k < items.len() && (#[trigger] items[k]).0.len() > 0 ==> !is_whitespace(
                items[k].0[0],
            ),
        forall|k: int|
            0 <= k < items.len() && (#[trigger] items[k]).1.len() > 0 ==> !is_whitespace(
                items[k].1[items[k].1.len() - 1],
            ),
        are_settings(items, at),
        forall|i: int| 0 <= i < end.len() ==> is_whitespace(end[i]),
    ensures
        ({
            let read = after(initial(transport), configuration_lines(items));
            let (state, step) = step_spec(read, EventView::Line(end));
            &&& step.next == NextView::Connect
            &&& step.output.len() == 0
            &&& state.block.len() == 0
            &&& state.transport.s3 matches Some(client)
            &&& client.key_id == items[at.0].1
            &&& client.secret == items[at.1].1
            &&& client.endpoint == items[at.2].1
            &&& client.region == "auto"@
            &&& client.session_token is None
            &&& !client.expires
            &&& state.transport.bucket == Some(items[at.3].1)
        }),
{
    reveal_strlit("601 Configuration\n");
    reveal_strlit("Configuration");
    reveal_strlit("Config-Item: ");
    reveal_strlit("Config-Item");
    assert forall|k: int| 0 <= k < items.len() implies is_item_key(#[trigger] items[k].0)
        && is_item_value(items[k].1) by {
        let item = items[k];
        assert forall|i: int| 0 <= i < item.0.len() implies item.0[i] != '\n' && item.0[i]
            != '=' by {
            assert(items[k].0[i] != '\n');
        }
        assert forall|i: int| 0 <= i < item.1.len() implies item.1[i] != '\n' by {
            assert(items[k].1[i] != '\n');
        }
        assert(item.0.len() > 0 ==> !is_whitespace(item.0[0]));
        assert(item.1.len() > 0 ==> !is_whitespace(item.1[item.1.len() - 1]));
    }
    law_configuration_comes_in(transport, "Configuration"@, items, at, end);
    let fields = item_fields(items);
    let lines = message_lines(601, "Configuration"@, fields);
    let written = line_events(lines);
    let expected = configuration_lines(items);
    assert(status_text(601, "Configuration"@) =~= "601 Configuration\n"@) by {
        reveal_with_fuel(decimal_spec, 3);
    }
    assert forall|i: int| 0 <= i < expected.len() implies written[i] == expected[i] by {
        if i > 0 {
            let item = items[i - 1];
            let line = "Config-Item: "@ + item.0 + seq!['='] + item.1 + seq!['\n'];
            assert(lines[i] == field_text(fields[i - 1]));
            assert(fields[i - 1] == ("Config-Item"@, item_text(item)));
            assert(field_text(fields[i - 1]) =~= line);
            assert(expected[i] == EventView::Line(line));
        }
    }
    assert(written =~= expected);
}

} // verus!
