//! What holds of the transport as a whole.

use vstd::prelude::*;

use crate::config::{ConfigError, SettingsView, config_items_spec, settings_spec};
use crate::config_laws::{
    are_items, are_settings, item_fields, law_configuration, lemma_item_fields_are_lines,
    settings_at,
};
use crate::fields::{law_add_field, lookup};
use crate::message::{MessageView, field_text, fields_text, parse_spec, status_text};
use crate::reply::{general_failure_spec, uri_done_spec, uri_failure_spec, uri_start_spec};
use crate::roundtrip::{are_field_lines, collected, is_description, lemma_parse_format};
use crate::session::{
    EventView, NextView, SessionView, StepView, act_spec, line_spec, silent, step_spec,
};
use crate::text::{
    decimal_spec, is_blank, is_whitespace, lemma_decimal_value, lemma_find_is_first, occurs,
    strip_prefixes, trim_spec,
};
use crate::transport::{
    AcquireError, FetchView, TransportView, configure_spec, configured, object_key_spec,
};

verus! {

// ---------------------------------------------------------------------------
// Object keys

/// The key of an object is what its URI says after the bucket, whatever that
/// bucket is called, with the scheme in front or without it. The exception is a bucket called `r2:` with a key that
/// begins with a slash: that would be read as the scheme.
pub proof fn law_object_key(bucket: Seq<char>, key: Seq<char>)
    requires
        forall|i: int| 0 <= i < bucket.len() ==> bucket[i] != '/',
        !(bucket == seq!['r', '2', ':'] && key.len() > 0 && key[0] == '/'),
    ensures
        object_key_spec("r2://"@ + bucket + seq!['/'] + key) == key,
        object_key_spec(bucket + seq!['/'] + key) == key,
{
    reveal_strlit("r2://");
    let scheme = "r2://"@;
    let rest = bucket + seq!['/'] + key;
    let uri = scheme + bucket + seq!['/'] + key;
    let n = bucket.len() as int;
    assert(uri.subrange(0, 5) =~= scheme);
    assert(uri.skip(5) =~= rest);
    if occurs(rest, scheme, 0) {
        let head = rest.subrange(0, 5);
        assert(head[0] == 'r' && head[1] == '2' && head[2] == ':' && head[3] == '/' && head[4]
            == '/');
        assert(rest[0] == 'r' && rest[1] == '2' && rest[2] == ':' && rest[3] == '/' && rest[4]
            == '/');
        assert(rest[n] == '/');
        if n < 3 {
            assert(rest[n] == head[n]);
        } else if n > 3 {
            assert(rest[3] == bucket[3]);
        }
        assert(bucket =~= seq!['r', '2', ':']);
        assert(rest[4] == key[0]);
    }
    assert(scheme.len() == 5);
    assert(strip_prefixes(rest, scheme) == rest);
    assert(strip_prefixes(uri, scheme) == rest);
    assert(rest.subrange(n, n + 1) =~= seq!['/']);
    assert forall|j: int| 0 <= j < n implies !occurs(rest, seq!['/'], j) by {
        assert(rest.subrange(j, j + 1)[0] == bucket[j]);
    }
    lemma_find_is_first(rest, seq!['/'], 0, n);
    assert(rest.skip(n + 1) =~= key);
}

// ---------------------------------------------------------------------------
// Courses of events

/// The state after events.
pub open spec fn after(state: SessionView, events: Seq<EventView>) -> SessionView
    decreases events.len(),
{
    if events.len() == 0 {
        state
    } else {
        step_spec(after(state, events.drop_last()), events.last()).0
    }
}

/// The state that a session with this transport starts in.
pub open spec fn initial(transport: TransportView) -> SessionView {
    SessionView { transport, block: seq![] }
}

/// A transport has a client configuration exactly when it has a bucket.
pub open spec fn is_consistent(transport: TransportView) -> bool {
    transport.s3 is Some <==> transport.bucket is Some
}

/// A new transport has neither a client configuration nor a bucket, and configuring
/// it gives it both or neither.
pub proof fn law_configure_is_consistent(
    transport: TransportView,
    fields: Seq<(Seq<char>, Seq<char>)>,
)
    requires
        is_consistent(transport),
    ensures
        is_consistent(TransportView { s3: None, bucket: None }),
        is_consistent(configure_spec(transport, fields).0),
{
}

/// In whatever course a session takes, the transport has a client configuration
/// exactly when it has a bucket.
pub proof fn law_consistent(transport: TransportView, events: Seq<EventView>)
    requires
        is_consistent(transport),
    ensures
        is_consistent(after(initial(transport), events).transport),
    decreases events.len(),
{
    if events.len() > 0 {
        law_consistent(transport, events.drop_last());
    }
}

/// In whatever course a session takes, its next step never fails for want of a
/// bucket alone. It asks for a client or for an object only with a client
/// configuration at hand.
pub proof fn law_next_is_possible(
    transport: TransportView,
    events: Seq<EventView>,
    event: EventView,
)
    requires
        is_consistent(transport),
    ensures
        ({
            let (state, step) = step_spec(after(initial(transport), events), event);
            &&& step.next != NextView::Abort(AcquireError::BucketNotConfigured)
            &&& step.next is Connect || step.next is Fetch ==> state.transport.s3 is Some
        }),
{
    law_consistent(transport, events);
}

/// A transport that has been configured stays configured in whatever happens
/// later.
pub proof fn law_stays_configured(state: SessionView, events: Seq<EventView>)
    requires
        state.transport.s3 is Some,
    ensures
        after(state, events).transport.s3 is Some,
    decreases events.len(),
{
    if events.len() > 0 {
        law_stays_configured(state, events.drop_last());
    }
}

/// A transport changes only by a message of code 601 that holds all settings.
pub proof fn law_only_configuration_changes(state: SessionView, event: EventView)
    ensures
        ({
            let changed = step_spec(state, event).0.transport;
            ||| changed == state.transport
            ||| {
                &&& event is Line && is_blank(event->Line_0)
                &&& parse_spec(state.block) matches Some(message)
                &&& message.code == 601
                &&& settings_spec(config_items_spec(message.fields)) matches Ok(settings)
                &&& changed == configured(settings)
            }
        }),
{
}

/// A request that comes before a complete configuration ends the session with an
/// error, and nothing is sent.
pub proof fn law_request_before_configuration(transport: TransportView, message: MessageView)
    requires
        transport.s3 is None,
        message.code == 600,
    ensures
        act_spec(transport, message) == (
            transport,
            silent(NextView::Abort(AcquireError::ClientNotInitialized)),
        ),
{
}

/// A configuration that lacks a setting is answered with a general failure that
/// names it; the session ends, and the transport stays as it was.
pub proof fn law_incomplete_configuration(
    transport: TransportView,
    message: MessageView,
    missing: ConfigError,
)
    requires
        message.code == 601,
        settings_spec(config_items_spec(message.fields)) == Err::<SettingsView, _>(missing),
    ensures
        act_spec(transport, message) == (
            transport,
            StepView {
                output: general_failure_spec(missing.message_spec()),
                next: NextView::Stop,
            },
        ),
{
}

/// A download is announced to APT before it begins, under the URI that APT asked
/// for. It is for the object that this URI names in the bucket of the
/// configuration.
pub proof fn law_download_is_announced(state: SessionView, event: EventView)
    ensures
        step_spec(state, event).1.next matches NextView::Fetch(fetch) ==> {
            &&& step_spec(state, event).1.output == uri_start_spec(fetch.uri)
            &&& fetch.key == object_key_spec(fetch.uri)
            &&& state.transport.bucket == Some(fetch.bucket)
        },
{
}

/// The outcome of a download is answered once, under its URI, and the session goes
/// on as it was.
pub proof fn law_download_is_answered(
    state: SessionView,
    uri: Seq<char>,
    filename: Seq<char>,
    size: nat,
    message: Seq<char>,
)
    ensures
        step_spec(state, EventView::Stored { uri, filename, size }) == (
            state,
            StepView { output: uri_done_spec(uri, filename, size), next: NextView::ReadLine },
        ),
        step_spec(state, EventView::Failed { uri, message }) == (
            state,
            StepView { output: uri_failure_spec(uri, message), next: NextView::ReadLine },
        ),
{
}

/// Messages of other codes, and blocks that hold no message, change nothing and
/// are not answered.
pub proof fn law_others_are_ignored(state: SessionView, line: Seq<char>)
    requires
        is_blank(line),
        match parse_spec(state.block) {
            Some(message) => message.code != 600 && message.code != 601,
            None => true,
        },
    ensures
        line_spec(state, line) == (
            SessionView { transport: state.transport, block: seq![] },
            silent(NextView::ReadLine),
        ),
{
}

/// The end of input ends the session, and a message that no blank line has ended
/// is not acted on.
pub proof fn law_end_of_input(state: SessionView)
    ensures
        step_spec(state, EventView::EndOfInput) == (state, silent(NextView::Stop)),
{
}

// ---------------------------------------------------------------------------
// Messages that come in line by line

/// The events of lines that are read one after the other.
pub open spec fn line_events(lines: Seq<Seq<char>>) -> Seq<EventView> {
    Seq::new(lines.len(), |i: int| EventView::Line(lines[i]))
}

/// The last line comes last in the text that lines make up.
proof fn lemma_flatten_last(lines: Seq<Seq<char>>)
    requires
        lines.len() > 0,
    ensures
        lines.flatten() == lines.drop_last().flatten() + lines.last(),
{
    lines.lemma_flatten_and_flatten_alt_are_equivalent();
    lines.drop_last().lemma_flatten_and_flatten_alt_are_equivalent();
}

/// A line that is not blank is not answered.
pub proof fn law_lines_are_not_answered(state: SessionView, line: Seq<char>)
    requires
        !is_blank(line),
    ensures
        step_spec(state, EventView::Line(line)).1 == silent(NextView::ReadLine),
{
}

/// No line is blank.
pub open spec fn are_text_lines(lines: Seq<Seq<char>>) -> bool {
    forall|i: int| 0 <= i < lines.len() ==> !is_blank(#[trigger] lines[i])
}

/// Lines that are not blank are kept, one after the other, and change nothing
/// else.
pub proof fn law_lines_are_kept(state: SessionView, lines: Seq<Seq<char>>)
    requires
        are_text_lines(lines),
    ensures
        after(state, line_events(lines)) == (SessionView {
            transport: state.transport,
            block: state.block + lines.flatten(),
        }),
    decreases lines.len(),
{
    if lines.len() == 0 {
        assert(state.block + lines.flatten() =~= state.block);
    } else {
        let init = lines.drop_last();
        let last = lines[lines.len() - 1];
        assert forall|i: int| 0 <= i < init.len() implies !is_blank(#[trigger] init[i]) by {
            assert(init[i] == lines[i]);
        }
        law_lines_are_kept(state, init);
        assert(line_events(lines).drop_last() =~= line_events(init));
        assert(!is_blank(last));
        lemma_flatten_last(lines);
        assert(state.block + init.flatten() + last =~= state.block + lines.flatten());
    }
}

/// The lines of a written message, as they are read: each with its line ending.
pub open spec fn message_lines(
    code: u32,
    description: Seq<char>,
    fields: Seq<(Seq<char>, Seq<char>)>,
) -> Seq<Seq<char>> {
    seq![status_text(code, description)] + Seq::new(fields.len(), |i: int| field_text(fields[i]))
}

/// The lines of fields make up their text.
proof fn lemma_fields_flatten(fields: Seq<(Seq<char>, Seq<char>)>)
    ensures
        Seq::new(fields.len(), |i: int| field_text(fields[i])).flatten() == fields_text(fields),
    decreases fields.len(),
{
    let written = Seq::new(fields.len(), |i: int| field_text(fields[i]));
    if fields.len() == 0 {
        assert(written.flatten() =~= fields_text(fields));
    } else {
        let init = fields.drop_last();
        lemma_fields_flatten(init);
        assert(written.drop_last() =~= Seq::new(init.len(), |i: int| field_text(init[i])));
        lemma_flatten_last(written);
    }
}

/// The lines of a written message are not blank.
pub proof fn lemma_message_lines_are_text(
    code: u32,
    description: Seq<char>,
    fields: Seq<(Seq<char>, Seq<char>)>,
)
    ensures
        are_text_lines(message_lines(code, description, fields)),
{
    let lines = message_lines(code, description, fields);
    lemma_decimal_value(code as nat);
    assert forall|i: int| 0 <= i < lines.len() implies !is_blank(#[trigger] lines[i]) by {
        if i == 0 {
            assert(lines[0][0] == decimal_spec(code as nat)[0]);
            assert(!is_whitespace(lines[0][0]));
        } else {
            let field = fields[i - 1];
            assert(lines[i] == field_text(field));
            assert(field_text(field)[field.0.len() as int] == ':');
            assert(!is_whitespace(lines[i][field.0.len() as int]));
        }
    }
}

/// A message that comes in line by line and is ended by a blank line is acted on
/// as it was written, with its fields as reading collects them.
pub proof fn law_message_is_acted_on(
    transport: TransportView,
    code: u32,
    description: Seq<char>,
    fields: Seq<(Seq<char>, Seq<char>)>,
    end: Seq<char>,
)
    requires
        is_description(description),
        are_field_lines(fields),
        is_blank(end),
    ensures
        ({
            let state = after(
                initial(transport),
                line_events(message_lines(code, description, fields)),
            );
            let (changed, step) = act_spec(
                transport,
                MessageView { code, description, fields: collected(fields) },
            );
            step_spec(state, EventView::Line(end)) == (
                SessionView { transport: changed, block: seq![] },
                step,
            )
        }),
{
    let lines = message_lines(code, description, fields);
    let start = initial(transport);
    let written = Seq::new(fields.len(), |i: int| field_text(fields[i]));
    lemma_message_lines_are_text(code, description, fields);
    law_lines_are_kept(start, lines);
    lemma_fields_flatten(fields);
    assert(lines.drop_first() =~= written);
    assert(lines.flatten() =~= status_text(code, description) + fields_text(fields));
    assert(start.block + lines.flatten() =~= lines.flatten());
    lemma_parse_format(code, description, fields);
}

/// A configuration that comes in line by line, with the four settings among its
/// items, sets the transport up.
pub proof fn law_configuration_comes_in(
    transport: TransportView,
    description: Seq<char>,
    items: Seq<(Seq<char>, Seq<char>)>,
    at: (int, int, int, int),
    end: Seq<char>,
)
    requires
        is_description(description),
        are_items(items),
        are_settings(items, at),
        is_blank(end),
    ensures
        ({
            let state = after(
                initial(transport),
                line_events(message_lines(601, description, item_fields(items))),
            );
            step_spec(state, EventView::Line(end)) == (
                SessionView { transport: configured(settings_at(items, at)), block: seq![] },
                silent(NextView::Connect),
            )
        }),
{
    law_configuration(transport, description, items, at);
    lemma_item_fields_are_lines(items);
    law_message_is_acted_on(transport, 601, description, item_fields(items), end);
}

/// Position `i` alone holds a field with this name.
pub open spec fn is_only_field(
    fields: Seq<(Seq<char>, Seq<char>)>,
    i: int,
    name: Seq<char>,
) -> bool {
    &&& 0 <= i < fields.len()
    &&& forall|j: int|
        0 <= j < fields.len() ==> (trim_spec(#[trigger] fields[j].0) == name <==> j == i)
}

/// Reading collects nothing for a name that no field has.
proof fn lemma_collected_none(fields: Seq<(Seq<char>, Seq<char>)>, name: Seq<char>)
    requires
        forall|j: int| 0 <= j < fields.len() ==> trim_spec(#[trigger] fields[j].0) != name,
    ensures
        lookup(collected(fields), name) is None,
    decreases fields.len(),
{
    if fields.len() > 0 {
        let init = fields.drop_last();
        let last = fields[fields.len() - 1];
        assert forall|j: int| 0 <= j < init.len() implies trim_spec(#[trigger] init[j].0)
            != name by {
            assert(init[j].0 == fields[j].0);
        }
        lemma_collected_none(init, name);
        assert(trim_spec(last.0) != name);
        law_add_field(collected(init), trim_spec(last.0), trim_spec(last.1), name);
    }
}

/// Reading collects for a name the value of the only field that has it.
proof fn lemma_collected_only(fields: Seq<(Seq<char>, Seq<char>)>, i: int, name: Seq<char>)
    requires
        is_only_field(fields, i, name),
    ensures
        lookup(collected(fields), name) == Some(trim_spec(fields[i].1)),
    decreases fields.len(),
{
    let init = fields.drop_last();
    let end = fields.len() - 1;
    let last = fields[end];
    assert forall|j: int| 0 <= j < init.len() implies (trim_spec(#[trigger] init[j].0) == name
        <==> j == i) by {
        assert(init[j].0 == fields[j].0);
    }
    assert(trim_spec(fields[end].0) == name <==> end == i);
    if i == end {
        lemma_collected_none(init, name);
    } else {
        lemma_collected_only(init, i, name);
    }
    law_add_field(collected(init), trim_spec(last.0), trim_spec(last.1), name);
}

/// A request that comes in line by line, to a transport that is set up, begins the
/// download of the URI that it names into the file that it names. Its two fields
/// may stand in any order and among any others.
pub proof fn law_request_comes_in(
    settings: SettingsView,
    description: Seq<char>,
    fields: Seq<(Seq<char>, Seq<char>)>,
    at: (int, int),
    end: Seq<char>,
)
    requires
        is_description(description),
        are_field_lines(fields),
        is_only_field(fields, at.0, "URI"@),
        is_only_field(fields, at.1, "Filename"@),
        is_blank(end),
    ensures
        ({
            let uri = trim_spec(fields[at.0].1);
            let filename = trim_spec(fields[at.1].1);
            let start = initial(configured(settings));
            let state = after(start, line_events(message_lines(600, description, fields)));
            step_spec(state, EventView::Line(end)) == (
                start,
                StepView {
                    output: uri_start_spec(uri),
                    next: NextView::Fetch(
                        FetchView {
                            bucket: settings.bucket,
                            key: object_key_spec(uri),
                            uri,
                            filename,
                        },
                    ),
                },
            )
        }),
{
    lemma_collected_only(fields, at.0, "URI"@);
    lemma_collected_only(fields, at.1, "Filename"@);
    law_message_is_acted_on(configured(settings), 600, description, fields, end);
}

/// What became of the download of a request that came in line by line is answered
/// under the URI and, where the object was stored, the file name that the fields
/// of the request hold. The session is then as it was before the request.
pub proof fn law_request_is_answered(
    settings: SettingsView,
    description: Seq<char>,
    fields: Seq<(Seq<char>, Seq<char>)>,
    at: (int, int),
    end: Seq<char>,
    size: nat,
    message: Seq<char>,
)
    requires
        is_description(description),
        are_field_lines(fields),
        is_only_field(fields, at.0, "URI"@),
        is_only_field(fields, at.1, "Filename"@),
        is_blank(end),
    ensures
        ({
            let uri = trim_spec(fields[at.0].1);
            let filename = trim_spec(fields[at.1].1);
            let start = initial(configured(settings));
            let read = after(start, line_events(message_lines(600, description, fields)));
            let (state, step) = step_spec(read, EventView::Line(end));
            &&& step.next matches NextView::Fetch(fetch)
            &&& step_spec(
                state,
                EventView::Stored { uri: fetch.uri, filename: fetch.filename, size },
            ) == (
                start,
                StepView {
                    output: uri_done_spec(uri, filename, size),
                    next: NextView::ReadLine,
                },
            )
            &&& step_spec(state, EventView::Failed { uri: fetch.uri, message }) == (
                start,
                StepView { output: uri_failure_spec(uri, message), next: NextView::ReadLine },
            )
        }),
{
    law_request_comes_in(settings, description, fields, at, end);
}

} // verus!
