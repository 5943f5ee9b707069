//! What is sent to APT in the course of a session.

use vstd::prelude::*;

use crate::config::SettingsView;
use crate::laws::{
    after, are_text_lines, initial, is_only_field, law_lines_are_kept, law_request_comes_in,
    law_request_is_answered, lemma_message_lines_are_text, line_events, message_lines,
};
use crate::message::parse_spec;
use crate::reply::{uri_done_spec, uri_failure_spec, uri_start_spec};
use crate::roundtrip::{are_field_lines, is_description};
use crate::session::{EventView, SessionView, step_spec};
use crate::text::{is_blank, trim_spec};
use crate::transport::configured;

verus! {

/// What is sent on events, one after the other.
pub open spec fn sent(state: SessionView, events: Seq<EventView>) -> Seq<char>
    decreases events.len(),
{
    if events.len() == 0 {
        seq![]
    } else {
        let before = events.drop_last();
        sent(state, before) + step_spec(after(state, before), events.last()).1.output
    }
}

/// A course of events can be cut in two: the second part goes on where the first
/// one ended.
pub proof fn law_course_goes_on(state: SessionView, a: Seq<EventView>, b: Seq<EventView>)
    ensures
        after(state, a + b) == after(after(state, a), b),
        sent(state, a + b) == sent(state, a) + sent(after(state, a), b),
    decreases b.len(),
{
    if b.len() == 0 {
        assert(a + b =~= a);
        assert(sent(state, a) + sent(after(state, a), b) =~= sent(state, a));
    } else {
        let init = b.drop_last();
        law_course_goes_on(state, a, init);
        assert((a + b).drop_last() =~= a + init);
        assert(sent(state, a + b) =~= sent(state, a) + sent(after(state, a), b));
    }
}

/// What one event brings about, as a course of events.
proof fn lemma_one_event(state: SessionView, event: EventView)
    ensures
        after(state, seq![event]) == step_spec(state, event).0,
        sent(state, seq![event]) == step_spec(state, event).1.output,
{
    let none = Seq::<EventView>::empty();
    assert(seq![event].drop_last() =~= none);
    assert(after(state, none) == state);
    assert(sent(state, none) =~= seq![]);
    assert(sent(state, seq![event]) =~= step_spec(state, event).1.output);
}

/// Nothing is sent on lines that are not blank.
proof fn lemma_lines_send_nothing(state: SessionView, lines: Seq<Seq<char>>)
    requires
        are_text_lines(lines),
    ensures
        sent(state, line_events(lines)) == Seq::<char>::empty(),
    decreases lines.len(),
{
    if lines.len() > 0 {
        let init = lines.drop_last();
        let last = lines[lines.len() - 1];
        assert forall|i: int| 0 <= i < init.len() implies !is_blank(#[trigger] init[i]) by {
            assert(init[i] == lines[i]);
        }
        lemma_lines_send_nothing(state, init);
        assert(line_events(lines).drop_last() =~= line_events(init));
        assert(!is_blank(last));
        assert(line_events(lines).last() == EventView::Line(last));
        assert(sent(state, line_events(lines)) =~= seq![]);
    }
}

/// The events of a block: its lines, and the blank line that closes it.
pub open spec fn block_events(lines: Seq<Seq<char>>, end: Seq<char>) -> Seq<EventView> {
    line_events(lines).push(EventView::Line(end))
}

/// A block that holds no message, or one of another code than a request or a
/// configuration, leaves what is sent in a course of events unchanged, and the
/// state that the course leads to. The block comes where no other one is open.
pub proof fn law_other_blocks_send_nothing(
    state: SessionView,
    before: Seq<EventView>,
    lines: Seq<Seq<char>>,
    end: Seq<char>,
    later: Seq<EventView>,
)
    requires
        after(state, before).block == Seq::<char>::empty(),
        are_text_lines(lines),
        is_blank(end),
        match parse_spec(lines.flatten()) {
            Some(message) => message.code != 600 && message.code != 601,
            None => true,
        },
    ensures
        sent(state, before + block_events(lines, end) + later) == sent(state, before + later),
        after(state, before + block_events(lines, end) + later) == after(state, before + later),
{
    let here = after(state, before);
    let block = block_events(lines, end);
    let kept = after(here, line_events(lines));
    law_lines_are_kept(here, lines);
    assert(here.block + lines.flatten() =~= lines.flatten());
    lemma_lines_send_nothing(here, lines);
    lemma_one_event(kept, EventView::Line(end));
    assert(block =~= line_events(lines) + seq![EventView::Line(end)]);
    law_course_goes_on(here, line_events(lines), seq![EventView::Line(end)]);
    assert(sent(here, block) =~= seq![]);
    assert(after(here, block) == here);
    law_course_goes_on(state, before, block);
    law_course_goes_on(state, before + block, later);
    law_course_goes_on(state, before, later);
    assert(sent(state, before) + sent(here, block) =~= sent(state, before));
}

/// A block that is not closed before the input ends adds nothing to what is sent.
pub proof fn law_open_block_sends_nothing(
    state: SessionView,
    before: Seq<EventView>,
    lines: Seq<Seq<char>>,
)
    requires
        are_text_lines(lines),
    ensures
        sent(state, before + line_events(lines).push(EventView::EndOfInput)) == sent(
            state,
            before,
        ),
{
    let here = after(state, before);
    let events = line_events(lines).push(EventView::EndOfInput);
    lemma_lines_send_nothing(here, lines);
    assert(events =~= line_events(lines) + seq![EventView::EndOfInput]);
    lemma_one_event(after(here, line_events(lines)), EventView::EndOfInput);
    law_course_goes_on(here, line_events(lines), seq![EventView::EndOfInput]);
    law_course_goes_on(state, before, events);
    assert(sent(here, events) =~= seq![]);
    assert(sent(state, before) + sent(here, events) =~= sent(state, before));
}

// ---------------------------------------------------------------------------
// Requests

/// What becomes of a download.
pub enum OutcomeView {
    /// So many bytes were stored.
    Stored(nat),
    /// The download failed, for a reason.
    Failed(Seq<char>),
}

/// A request as it is written, and what becomes of its download.
pub struct RequestView {
    pub description: Seq<char>,
    pub fields: Seq<(Seq<char>, Seq<char>)>,
    /// The positions of the fields with the URI and the file name.
    pub at: (int, int),
    /// The blank line that closes the request.
    pub end: Seq<char>,
    pub outcome: OutcomeView,
}

impl RequestView {
    /// The request can be written in lines, and names one URI and one file.
    pub open spec fn is_request(self) -> bool {
        &&& is_description(self.description)
        &&& are_field_lines(self.fields)
        &&& is_only_field(self.fields, self.at.0, "URI"@)
        &&& is_only_field(self.fields, self.at.1, "Filename"@)
        &&& is_blank(self.end)
    }

    /// The URI that the request names.
    pub open spec fn uri(self) -> Seq<char> {
        trim_spec(self.fields[self.at.0].1)
    }

    /// The file that the request names.
    pub open spec fn filename(self) -> Seq<char> {
        trim_spec(self.fields[self.at.1].1)
    }

    /// The event that tells what became of the download.
    pub open spec fn outcome_event(self) -> EventView {
        match self.outcome {
            OutcomeView::Stored(size) => EventView::Stored {
                uri: self.uri(),
                filename: self.filename(),
                size,
            },
            OutcomeView::Failed(message) => EventView::Failed { uri: self.uri(), message },
        }
    }

    /// The request comes in line by line, and its download ends.
    pub open spec fn events(self) -> Seq<EventView> {
        block_events(message_lines(600, self.description, self.fields), self.end).push(
            self.outcome_event(),
        )
    }

    /// The download is announced, and its outcome reported.
    pub open spec fn answer(self) -> Seq<char> {
        uri_start_spec(self.uri()) + match self.outcome {
            OutcomeView::Stored(size) => uri_done_spec(self.uri(), self.filename(), size),
            OutcomeView::Failed(message) => uri_failure_spec(self.uri(), message),
        }
    }
}

/// The events of requests, one after the other.
pub open spec fn request_events(requests: Seq<RequestView>) -> Seq<EventView>
    decreases requests.len(),
{
    if requests.len() == 0 {
        seq![]
    } else {
        request_events(requests.drop_last()) + requests.last().events()
    }
}

/// The answers to requests, in their order.
pub open spec fn answers(requests: Seq<RequestView>) -> Seq<char>
    decreases requests.len(),
{
    if requests.len() == 0 {
        seq![]
    } else {
        answers(requests.drop_last()) + requests.last().answer()
    }
}

/// A request to a transport that is set up is announced and its outcome reported,
/// and the session is then as it was.
pub proof fn law_request_is_announced_and_reported(
    settings: SettingsView,
    request: RequestView,
)
    requires
        request.is_request(),
    ensures
        after(initial(configured(settings)), request.events()) == initial(configured(settings)),
        sent(initial(configured(settings)), request.events()) == request.answer(),
{
    let start = initial(configured(settings));
    let lines = message_lines(600, request.description, request.fields);
    let end = EventView::Line(request.end);
    let read = after(start, line_events(lines));
    let block = block_events(lines, request.end);
    let (size, message) = match request.outcome {
        OutcomeView::Stored(size) => (size, seq![]),
        OutcomeView::Failed(message) => (0nat, message),
    };
    law_request_comes_in(settings, request.description, request.fields, request.at, request.end);
    law_request_is_answered(
        settings,
        request.description,
        request.fields,
        request.at,
        request.end,
        size,
        message,
    );
    lemma_message_lines_are_text(600, request.description, request.fields);
    lemma_lines_send_nothing(start, lines);
    lemma_one_event(read, end);
    assert(block =~= line_events(lines) + seq![end]);
    law_course_goes_on(start, line_events(lines), seq![end]);
    assert(sent(start, block) =~= uri_start_spec(request.uri()));
    assert(after(start, block) == start);
    lemma_one_event(start, request.outcome_event());
    assert(request.events() =~= block + seq![request.outcome_event()]);
    law_course_goes_on(start, block, seq![request.outcome_event()]);
}

/// Any number of requests to a transport that is set up are answered one after the
/// other, in the order in which they came in, and the session is then as it was.
pub proof fn law_requests_are_answered_in_order(
    settings: SettingsView,
    requests: Seq<RequestView>,
)
    requires
        forall|i: int| 0 <= i < requests.len() ==> (#[trigger] requests[i]).is_request(),
    ensures
        after(initial(configured(settings)), request_events(requests)) == initial(
            configured(settings),
        ),
        sent(initial(configured(settings)), request_events(requests)) == answers(requests),
    decreases requests.len(),
{
    let start = initial(configured(settings));
    if requests.len() > 0 {
        let init = requests.drop_last();
        let last = requests[requests.len() - 1];
        assert forall|i: int| 0 <= i < init.len() implies (#[trigger] init[i]).is_request() by {
            assert(init[i] == requests[i]);
        }
        law_requests_are_answered_in_order(settings, init);
        assert(last.is_request());
        law_request_is_announced_and_reported(settings, last);
        law_course_goes_on(start, request_events(init), last.events());
    }
}

} // verus!
