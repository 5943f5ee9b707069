//! The course of a session with APT, as a machine that takes events in and says
//! what to do next.

use vstd::prelude::*;

use crate::fields::lookup;
use crate::message::{Message, MessageView, parse_spec};
use crate::reply::{
    capabilities, capabilities_spec, general_failure, general_failure_spec, uri_done,
    uri_done_spec, uri_failure, uri_failure_spec, uri_start, uri_start_spec,
};
use crate::text::{blank, is_blank};
use crate::transport::{
    AcquireError, Fetch, FetchView, Transport, TransportView, acquire_spec, configure_spec,
};

verus! {

/// What happened.
pub enum EventView {
    Line(Seq<char>),
    EndOfInput,
    Stored { uri: Seq<char>, filename: Seq<char>, size: nat },
    Failed { uri: Seq<char>, message: Seq<char> },
}

/// What happened.
#[derive(Debug)]
pub enum Event {
    /// A line was read. It holds its line ending, if it has one.
    Line(String),
    /// There are no more lines.
    EndOfInput,
    /// The object was fetched, and its `size` bytes are in the file.
    Stored { uri: String, filename: String, size: usize },
    /// The object store did not hand the object out.
    Failed { uri: String, message: String },
}

impl View for Event {
    type V = EventView;

    open spec fn view(&self) -> EventView {
        match self {
            Event::Line(line) => EventView::Line(line@),
            Event::EndOfInput => EventView::EndOfInput,
            Event::Stored { uri, filename, size } => EventView::Stored {
                uri: uri@,
                filename: filename@,
                size: *size as nat,
            },
            Event::Failed { uri, message } => EventView::Failed { uri: uri@, message: message@ },
        }
    }
}

/// What to do next.
pub enum NextView {
    ReadLine,
    Connect,
    Fetch(FetchView),
    Stop,
    Abort(AcquireError),
}

/// What to do next.
#[derive(Debug)]
pub enum Next {
    /// Read a line.
    ReadLine,
    /// Make a client from the transport's configuration, then read a line. A new
    /// client loads the root certificates of the machine.
    Connect,
    /// Fetch an object with the client that was made last.
    Fetch(Fetch),
    /// End the session.
    Stop,
    /// End the session with an error.
    Abort(AcquireError),
}

impl View for Next {
    type V = NextView;

    open spec fn view(&self) -> NextView {
        match self {
            Next::ReadLine => NextView::ReadLine,
            Next::Connect => NextView::Connect,
            Next::Fetch(fetch) => NextView::Fetch(fetch@),
            Next::Stop => NextView::Stop,
            Next::Abort(e) => NextView::Abort(*e),
        }
    }
}

/// What to send to APT, and what to do after that.
pub struct StepView {
    pub output: Seq<char>,
    pub next: NextView,
}

/// What to send to APT, and what to do after that.
#[derive(Debug)]
pub struct Step {
    pub output: String,
    pub next: Next,
}

impl View for Step {
    type V = StepView;

    open spec fn view(&self) -> StepView {
        StepView { output: self.output@, next: self.next@ }
    }
}

/// The state of a session.
pub struct SessionView {
    pub transport: TransportView,
    /// The lines of the message that is being read.
    pub block: Seq<char>,
}

/// A session.
pub struct Session {
    transport: Transport,
    block: String,
}

impl View for Session {
    type V = SessionView;

    closed spec fn view(&self) -> SessionView {
        SessionView { transport: self.transport@, block: self.block@ }
    }
}

/// The step that a session with this transport begins with: the transport
/// introduces itself. Where it is configured already, it then connects.
pub open spec fn first_step(transport: TransportView) -> StepView {
    StepView {
        output: capabilities_spec(),
        next: if transport.s3 is Some {
            NextView::Connect
        } else {
            NextView::ReadLine
        },
    }
}

/// Nothing to send.
pub open spec fn silent(next: NextView) -> StepView {
    StepView { output: seq![], next }
}

/// The value of a field, empty where there is none.
pub open spec fn value_or_empty(
    fields: Seq<(Seq<char>, Seq<char>)>,
    name: Seq<char>,
) -> Seq<char> {
    match lookup(fields, name) {
        Some(value) => value,
        None => seq![],
    }
}

/// What a message brings about. A configuration sets the transport up, or ends the
/// session with a failure where it is incomplete. A request starts a download, or
/// ends the session with an error where the transport is not set up. Any other
/// message brings about nothing.
pub open spec fn act_spec(transport: TransportView, message: MessageView) -> (
    TransportView,
    StepView,
) {
    if message.code == 601 {
        match configure_spec(transport, message.fields) {
            (changed, Ok(())) => (changed, silent(NextView::Connect)),
            (unchanged, Err(e)) => (
                unchanged,
                StepView {
                    output: general_failure_spec(e.message_spec()),
                    next: NextView::Stop,
                },
            ),
        }
    } else if message.code == 600 {
        let uri = value_or_empty(message.fields, "URI"@);
        let filename = value_or_empty(message.fields, "Filename"@);
        match acquire_spec(transport, uri, filename) {
            Ok(fetch) => (
                transport,
                StepView { output: uri_start_spec(uri), next: NextView::Fetch(fetch) },
            ),
            Err(e) => (transport, silent(NextView::Abort(e))),
        }
    } else {
        (transport, silent(NextView::ReadLine))
    }
}

/// What a line brings about. A line that is not blank is kept. A blank one ends the
/// message that the kept lines hold; where they hold none, nothing happens.
pub open spec fn line_spec(state: SessionView, line: Seq<char>) -> (SessionView, StepView) {
    if !is_blank(line) {
        (
            SessionView { transport: state.transport, block: state.block + line },
            silent(NextView::ReadLine),
        )
    } else {
        match parse_spec(state.block) {
            Some(message) => {
                let (transport, step) = act_spec(state.transport, message);
                (SessionView { transport, block: seq![] }, step)
            },
            None => (
                SessionView { transport: state.transport, block: seq![] },
                silent(NextView::ReadLine),
            ),
        }
    }
}

/// What an event brings about.
pub open spec fn step_spec(state: SessionView, event: EventView) -> (SessionView, StepView) {
    match event {
        EventView::Line(line) => line_spec(state, line),
        EventView::EndOfInput => (state, silent(NextView::Stop)),
        EventView::Stored { uri, filename, size } => (
            state,
            StepView { output: uri_done_spec(uri, filename, size), next: NextView::ReadLine },
        ),
        EventView::Failed { uri, message } => (
            state,
            StepView { output: uri_failure_spec(uri, message), next: NextView::ReadLine },
        ),
    }
}

impl Session {
    /// A session with a transport that is not configured, and its first step.
    pub fn start() -> (started: (Self, Step))
        ensures
            started.0@ == (SessionView {
                transport: TransportView { s3: None, bucket: None },
                block: seq![],
            }),
            started.1@ == (StepView { output: capabilities_spec(), next: NextView::ReadLine }),
    {
        Session::with_transport(Transport::new())
    }

    /// A session with this transport, and its first step.
    pub fn with_transport(transport: Transport) -> (started: (Self, Step))
        ensures
            started.0@ == (SessionView { transport: transport@, block: seq![] }),
            started.1@ == first_step(transport@),
    {
        let next = match transport.s3() {
            Some(_) => Next::Connect,
            None => Next::ReadLine,
        };
        let session = Session { transport, block: String::new() };
        (session, Step { output: capabilities(), next })
    }

    /// The transport of the session.
    pub fn transport(&self) -> (transport: &Transport)
        ensures
            transport@ == self@.transport,
    {
        &self.transport
    }

    /// Acts on a message.
    fn act(&mut self, message: &Message) -> (step: Step)
        ensures
            ({
                let (transport, brought) = act_spec(old(self)@.transport, message@);
                &&& final(self)@ == (SessionView { transport, block: old(self)@.block })
                &&& step@ == brought
            }),
    {
        if message.code == 601 {
            match self.transport.configure(&message.fields) {
                Ok(()) => Step { output: String::new(), next: Next::Connect },
                Err(e) => Step { output: general_failure(e.message()), next: Next::Stop },
            }
        } else if message.code == 600 {
            let uri = match message.fields.get("URI") {
                Some(value) => value.clone(),
                None => String::new(),
            };
            let filename = match message.fields.get("Filename") {
                Some(value) => value.clone(),
                None => String::new(),
            };
            match self.transport.acquire(uri.as_str(), filename.as_str()) {
                Ok(fetch) => Step { output: uri_start(uri.as_str()), next: Next::Fetch(fetch) },
                Err(e) => Step { output: String::new(), next: Next::Abort(e) },
            }
        } else {
            Step { output: String::new(), next: Next::ReadLine }
        }
    }

    /// Takes in a line.
    fn line(&mut self, line: &str) -> (step: Step)
        ensures
            (final(self)@, step@) == line_spec(old(self)@, line@),
    {
        if !blank(line) {
            self.block.append(line);
            return Step { output: String::new(), next: Next::ReadLine };
        }
        let message = Message::parse(self.block.as_str());
        self.block = String::new();
        match message {
            Some(message) => self.act(&message),
            None => Step { output: String::new(), next: Next::ReadLine },
        }
    }

    /// Takes in an event, and says what to do next.
    pub fn step(&mut self, event: Event) -> (step: Step)
        ensures
            (final(self)@, step@) == step_spec(old(self)@, event@),
    {
        match event {
            Event::Line(line) => self.line(line.as_str()),
            Event::EndOfInput => Step { output: String::new(), next: Next::Stop },
            Event::Stored { uri, filename, size } => Step {
                output: uri_done(uri.as_str(), filename.as_str(), size),
                next: Next::ReadLine,
            },
            Event::Failed { uri, message } => Step {
                output: uri_failure(uri.as_str(), message.as_str()),
                next: Next::ReadLine,
            },
        }
    }
}

} // verus!
