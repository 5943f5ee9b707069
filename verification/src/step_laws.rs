//! What each step of a session does, in terms of what came in.

use vstd::prelude::*;

use crate::config::{config_items_spec, last_value, settings_spec};
use crate::fields::lookup;
use crate::message::{Message, MessageView, parse_spec};
use crate::reply_laws::{
    law_capabilities_text, law_general_failure_text, law_uri_done_text, law_uri_failure_text,
    law_uri_start_text,
};
use crate::session::{
    Event, EventView, Next, NextView, SessionView, Step, first_step, step_spec,
};
use crate::text::{decimal_spec, is_blank, is_whitespace, split_once_spec, strip_prefixes};
use crate::text_laws::{law_split_once, law_strip_prefixes};
use crate::transport::{AcquireError, Fetch, TransportView, acquire_spec, object_key_spec};

verus! {

// ---------------------------------------------------------------------------
// Requests of the object store

/// The scheme in front of a URI does not change the object that it names.
pub proof fn law_key_does_not_depend_on_the_scheme(uri: Seq<char>)
    ensures
        object_key_spec("r2://"@ + uri) == object_key_spec(uri),
{
    reveal_strlit("r2://");
    law_strip_prefixes(uri, "r2://"@);
}

/// The key is what stands behind the first slash of a URI that does not begin with the
/// scheme. Without a slash there is no key.
pub proof fn law_key_follows_the_first_slash(uri: Seq<char>)
    requires
        !(uri.len() >= 5 && uri[0] == 'r' && uri[1] == '2' && uri[2] == ':' && uri[3] == '/'
            && uri[4] == '/'),
    ensures
        (forall|i: int| 0 <= i < uri.len() ==> uri[i] != '/') ==> object_key_spec(uri).len() == 0,
        forall|k: int|
            0 <= k < uri.len() && #[trigger] uri[k] == '/' && (forall|i: int|
                0 <= i < k ==> #[trigger] uri[i] != '/') ==> object_key_spec(uri) == uri.skip(
                k + 1,
            ),
{
    reveal_strlit("r2://");
    let scheme = "r2://"@;
    let slash = seq!['/'];
    law_strip_prefixes(uri, scheme);
    if uri.len() >= 5 && uri.take(5) == scheme {
        assert(uri.take(5)[0] == 'r' && uri.take(5)[1] == '2' && uri.take(5)[2] == ':' && uri.take(
            5,
        )[3] == '/' && uri.take(5)[4] == '/');
    }
    assert(strip_prefixes(uri, scheme) == uri);
    law_split_once(uri, slash);
    if let Some((before, path)) = split_once_spec(uri, slash) {
        let n = before.len() as int;
        assert(uri[n] == '/');
        assert forall|k: int|
            0 <= k < uri.len() && #[trigger] uri[k] == '/' && (forall|i: int|
                0 <= i < k ==> #[trigger] uri[i] != '/') implies path == uri.skip(k + 1) by {
            if k < n {
                assert(uri.subrange(k, k + 1) =~= slash);
            }
            assert(k == n);
            assert(uri.skip(n + 1) =~= path);
        }
    } else {
        assert forall|k: int| 0 <= k < uri.len() implies #[trigger] uri[k] != '/' by {
            if uri[k] == '/' {
                assert(uri.subrange(k, k + 1) =~= slash);
            }
        }
    }
}

/// A download is for the bucket of the transport and for the key, the URI and the file
/// of the request. A transport without a client, or without a bucket, asks for none.
pub proof fn law_download(transport: TransportView, uri: Seq<char>, filename: Seq<char>)
    ensures
        match acquire_spec(transport, uri, filename) {
            Ok(fetch) => {
                &&& transport.s3 is Some
                &&& transport.bucket == Some(fetch.bucket)
                &&& fetch.key == object_key_spec(uri)
                &&& fetch.uri == uri
                &&& fetch.filename == filename
            },
            Err(AcquireError::ClientNotInitialized) => transport.s3 is None,
            Err(AcquireError::BucketNotConfigured) => transport.s3 is Some
                && transport.bucket is None,
        },
{
}

// ---------------------------------------------------------------------------
// Steps

/// A session begins with the capabilities. It connects where its transport is
/// configured, and reads a line where it is not.
pub proof fn law_first_step(transport: TransportView)
    ensures
        first_step(transport).output
            == "100 Capabilities\nVersion: 1.0\nSingle-Instance: true\nSend-Config: true\n\n"@,
        transport.s3 is Some ==> first_step(transport).next == NextView::Connect,
        transport.s3 is None ==> first_step(transport).next == NextView::ReadLine,
{
    law_capabilities_text();
}

/// A line with a character that is not white space is put behind the lines before it.
/// Nothing is sent, and the next line is read.
pub proof fn law_step_on_text(state: SessionView, line: Seq<char>, i: int)
    requires
        0 <= i < line.len(),
        !is_whitespace(line[i]),
    ensures
        ({
            let (changed, step) = step_spec(state, EventView::Line(line));
            &&& changed.block == state.block + line
            &&& changed.transport == state.transport
            &&& step.output.len() == 0
            &&& step.next == NextView::ReadLine
        }),
{
    assert(!is_blank(line));
}

/// A blank line ends the block. Where that is no message, or one of another code than
/// those of a request and of a configuration, nothing else happens.
pub proof fn law_step_on_other_block(state: SessionView, end: Seq<char>)
    requires
        forall|i: int| 0 <= i < end.len() ==> is_whitespace(end[i]),
        parse_spec(state.block) matches Some(message) ==> message.code != 600 && message.code
            != 601,
    ensures
        ({
            let (changed, step) = step_spec(state, EventView::Line(end));
            &&& changed.block.len() == 0
            &&& changed.transport == state.transport
            &&& step.output.len() == 0
            &&& step.next == NextView::ReadLine
        }),
{
}

/// A request for the URI and the file in its fields, each empty where it has no such
/// field, is announced under that URI and fetched: the object of that URI, from the
/// bucket of the transport, into that file. Without a client, or without a bucket, the
/// session ends with an error and nothing is sent.
pub proof fn law_step_on_request(state: SessionView, end: Seq<char>, message: MessageView)
    requires
        forall|i: int| 0 <= i < end.len() ==> is_whitespace(end[i]),
        parse_spec(state.block) == Some(message),
        message.code == 600,
    ensures
        ({
            let (changed, step) = step_spec(state, EventView::Line(end));
            &&& changed.block.len() == 0
            &&& changed.transport == state.transport
            &&& state.transport.s3 is None ==> step.output.len() == 0 && step.next
                == NextView::Abort(AcquireError::ClientNotInitialized)
            &&& state.transport.s3 is Some && state.transport.bucket is None
                ==> step.output.len() == 0 && step.next == NextView::Abort(
                AcquireError::BucketNotConfigured,
            )
            &&& state.transport.s3 is Some && state.transport.bucket is Some ==> {
                &&& step.next matches NextView::Fetch(fetch)
                &&& step.output == "200 URI Start\nURI: "@ + fetch.uri + "\n\n"@
                &&& state.transport.bucket == Some(fetch.bucket)
                &&& fetch.key == object_key_spec(fetch.uri)
                &&& match lookup(message.fields, "URI"@) {
                    Some(uri) => fetch.uri == uri,
                    None => fetch.uri.len() == 0,
                }
                &&& match lookup(message.fields, "Filename"@) {
                    Some(filename) => fetch.filename == filename,
                    None => fetch.filename.len() == 0,
                }
            }
        }),
{
    let (_, step) = step_spec(state, EventView::Line(end));
    if let NextView::Fetch(fetch) = step.next {
        law_uri_start_text(fetch.uri);
    }
}

/// A configuration gives the client the values of its items: access key ID, secret
/// access key and endpoint, each from the item of that name, for the region `auto`, and
/// gives the transport the bucket of the item of that name. Where one of the four is
/// missing, the first that is missing is named in a general failure, the session ends,
/// and the transport stays as it was.
pub proof fn law_step_on_configuration(
    state: SessionView,
    end: Seq<char>,
    message: MessageView,
)
    requires
        forall|i: int| 0 <= i < end.len() ==> is_whitespace(end[i]),
        parse_spec(state.block) == Some(message),
        message.code == 601,
    ensures
        ({
            let items = config_items_spec(message.fields);
            let key_id = last_value(items, "acquire::r2::accesskeyid"@);
            let secret = last_value(items, "acquire::r2::secretaccesskey"@);
            let endpoint = last_value(items, "acquire::r2::endpointurl"@);
            let bucket = last_value(items, "acquire::r2::bucket"@);
            let (changed, step) = step_spec(state, EventView::Line(end));
            &&& changed.block.len() == 0
            &&& if key_id is Some && secret is Some && endpoint is Some && bucket is Some {
                &&& step.output.len() == 0
                &&& step.next == NextView::Connect
                &&& changed.transport.s3 matches Some(client)
                &&& Some(client.key_id) == key_id
                &&& Some(client.secret) == secret
                &&& Some(client.endpoint) == endpoint
                &&& client.region == "auto"@
                &&& client.session_token is None
                &&& !client.expires
                &&& changed.transport.bucket == bucket
            } else {
                let missing = if key_id is None {
                    "Acquire::r2::AccessKeyId not set in apt.conf"@
                } else if secret is None {
                    "Acquire::r2::SecretAccessKey not set in apt.conf"@
                } else if endpoint is None {
                    "Acquire::r2::EndpointUrl not set in apt.conf"@
                } else {
                    "Acquire::r2::Bucket not set in apt.conf"@
                };
                &&& changed.transport == state.transport
                &&& step.output == "401 General Failure\nMessage: "@ + missing + "\n\n"@
                &&& step.next == NextView::Stop
            }
        }),
{
    let items = config_items_spec(message.fields);
    if let Err(missing) = settings_spec(items) {
        law_general_failure_text(missing.message_spec());
    }
}

/// A stored object is reported under its URI, with its file and its size in digits. A
/// failed download is reported under its URI, with the failure. The session goes on as
/// it was. The end of the input ends it, and nothing is sent.
pub proof fn law_step_on_outcome(
    state: SessionView,
    uri: Seq<char>,
    filename: Seq<char>,
    size: nat,
    message: Seq<char>,
)
    ensures
        ({
            let (stored, done) = step_spec(state, EventView::Stored { uri, filename, size });
            let (failed, failure) = step_spec(state, EventView::Failed { uri, message });
            let (ended, stop) = step_spec(state, EventView::EndOfInput);
            &&& stored == state && failed == state && ended == state
            &&& done.output == "201 URI Done\nURI: "@ + uri + "\nFilename: "@ + filename
                + "\nSize: "@ + decimal_spec(size) + "\n\n"@
            &&& failure.output == "400 URI Failure\nURI: "@ + uri + "\nMessage: "@ + message
                + "\n\n"@
            &&& stop.output.len() == 0
            &&& done.next == NextView::ReadLine
            &&& failure.next == NextView::ReadLine
            &&& stop.next == NextView::Stop
        }),
{
    law_uri_done_text(uri, filename, size);
    law_uri_failure_text(uri, message);
}

// ---------------------------------------------------------------------------
// Views

/// The view of a message holds its code, its description and its fields.
pub proof fn law_message_view(message: Message)
    ensures
        message@.code == message.code,
        message@.description == message.description@,
        message@.fields == message.fields@,
{
}

/// The view of a download holds its bucket, its key, its URI and its file name.
pub proof fn law_fetch_view(fetch: Fetch)
    ensures
        fetch@.bucket == fetch.bucket@,
        fetch@.key == fetch.key@,
        fetch@.uri == fetch.uri@,
        fetch@.filename == fetch.filename@,
{
}

/// The view of an event is of its kind and holds what it holds.
pub proof fn law_event_view(event: Event)
    ensures
        match event {
            Event::Line(line) => event@ == EventView::Line(line@),
            Event::EndOfInput => event@ == EventView::EndOfInput,
            Event::Stored { uri, filename, size } => event@ == (EventView::Stored {
                uri: uri@,
                filename: filename@,
                size: size as nat,
            }),
            Event::Failed { uri, message } => event@ == (EventView::Failed {
                uri: uri@,
                message: message@,
            }),
        },
{
}

/// The view of a step holds what is sent and what comes next, which is of its kind and
/// holds what it holds.
pub proof fn law_step_view(step: Step)
    ensures
        step@.output == step.output@,
        match step.next {
            Next::ReadLine => step@.next == NextView::ReadLine,
            Next::Connect => step@.next == NextView::Connect,
            Next::Fetch(fetch) => step@.next == NextView::Fetch(fetch@),
            Next::Stop => step@.next == NextView::Stop,
            Next::Abort(error) => step@.next == NextView::Abort(error),
        },
{
}

} // verus!
