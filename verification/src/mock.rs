use vstd::prelude::*;
use vstd::utf8::{decode_utf8, valid_utf8};
use crate::decode::copy_range;
use crate::encode::{all_conform, encode_rows};
use crate::error::DecodeError;
use crate::http::{failure_reason, is_success, phrase_or_unknown, reason_phrase};
use crate::materialize::{collect, BUFFER_SIZE};
use crate::query::Response;
use crate::request::{planned_body, Request};
use crate::roundtrip::lemma_decode_encoded;
use crate::rowbinary::{
    decoded_rows, encoded_rows, rows_view, Column, Value, ValueView,
};
use crate::text::text_of;

verus! {

/// How the double answers one request.
#[derive(Debug, Clone, PartialEq, Eq)]
pub enum Handler {
    /// Keeps the text of a statement and answers with success.
    RecordDdl,
    /// Answers with these bytes as the body: the rows of a result.
    Provide(Vec<u8>),
    /// Answers with this status and its reason, and no body.
    Failure(u16),
    /// Keeps the rows that the body of an insert holds, read by this layout.
    Record(Vec<Column>),
}

/// A handler, as contracts speak of it.
pub enum HandlerView {
    RecordDdl,
    Provide(Seq<u8>),
    Failure(u16),
    Record(Seq<Column>),
}

impl View for Handler {
    type V = HandlerView;

    open spec fn view(&self) -> HandlerView {
        match *self {
            Handler::RecordDdl => HandlerView::RecordDdl,
            Handler::Provide(body) => HandlerView::Provide(body@),
            Handler::Failure(status) => HandlerView::Failure(status),
            Handler::Record(layout) => HandlerView::Record(layout@),
        }
    }
}

/// What a handler kept of the request that it answered.
#[derive(Debug, Clone, PartialEq, Eq)]
pub enum Recording {
    /// No request came yet.
    Waiting,
    /// The request was answered, and nothing of it is kept.
    Answered,
    /// The text of the statement.
    Query(String),
    /// The body of the statement was no text.
    NotText,
    /// The rows of the insert, in the order of insertion.
    Rows(Vec<Vec<Value>>),
    /// The body of the insert was no sequence of rows.
    Malformed(DecodeError),
}

/// A recording, as contracts speak of it.
pub enum RecordingView {
    Waiting,
    Answered,
    Query(Seq<char>),
    NotText,
    Rows(Seq<Seq<ValueView>>),
    Malformed(DecodeError),
}

impl View for Recording {
    type V = RecordingView;

    open spec fn view(&self) -> RecordingView {
        match *self {
            Recording::Waiting => RecordingView::Waiting,
            Recording::Answered => RecordingView::Answered,
            Recording::Query(text) => RecordingView::Query(text@),
            Recording::NotText => RecordingView::NotText,
            Recording::Rows(rows) => RecordingView::Rows(rows_view(rows@)),
            Recording::Malformed(e) => RecordingView::Malformed(e),
        }
    }
}

/// A response, as contracts speak of it.
pub struct ResponseView {
    pub status: u16,
    pub reason: Seq<char>,
    pub body: Seq<u8>,
}

impl View for Response {
    type V = ResponseView;

    open spec fn view(&self) -> ResponseView {
        ResponseView { status: self.status, reason: self.reason@, body: self.body@ }
    }
}

/// The response of success with this body.
pub open spec fn success(body: Seq<u8>) -> ResponseView {
    ResponseView { status: 200, reason: "OK"@, body: body }
}

/// The response that `handler` gives to a request with this body.
pub open spec fn answer(handler: HandlerView, body: Seq<u8>) -> ResponseView {
    match handler {
        HandlerView::RecordDdl => success(Seq::empty()),
        HandlerView::Provide(rows) => success(rows),
        HandlerView::Failure(status) => ResponseView {
            status: status,
            reason: failure_reason(status),
            body: Seq::empty(),
        },
        HandlerView::Record(_) => success(Seq::empty()),
    }
}

/// What `handler` keeps of a request with this body.
pub open spec fn kept(handler: HandlerView, body: Seq<u8>) -> RecordingView {
    match handler {
        HandlerView::RecordDdl => if valid_utf8(body) {
            RecordingView::Query(decode_utf8(body))
        } else {
            RecordingView::NotText
        },
        HandlerView::Provide(_) => RecordingView::Answered,
        HandlerView::Failure(_) => RecordingView::Answered,
        HandlerView::Record(layout) => match decoded_rows(layout, body) {
            Ok(rows) => RecordingView::Rows(rows),
            Err(e) => RecordingView::Malformed(e),
        },
    }
}

/// A handler that keeps the text of the next statement.
pub fn record_ddl() -> (h: Handler)
    ensures
        h@ == HandlerView::RecordDdl,
{
    Handler::RecordDdl
}

/// A handler that answers the next query with `rows`, in the format in which a cursor
/// reads them; `None` where a row does not conform to `layout`.
pub fn provide(layout: &Vec<Column>, rows: &Vec<Vec<Value>>) -> (h: Option<Handler>)
    ensures
        h is Some == all_conform(rows_view(rows@), layout@),
        h is Some ==> h->Some_0@ == HandlerView::Provide(encoded_rows(rows_view(rows@), layout@)),
{
    match encode_rows(rows, layout) {
        Some(body) => Some(Handler::Provide(body)),
        None => None,
    }
}

/// A handler that answers the next request with the failure `status`.
pub fn failure(status: u16) -> (h: Handler)
    ensures
        h@ == HandlerView::Failure(status),
{
    Handler::Failure(status)
}

/// A handler that keeps the rows of the next insert, read by `layout`.
pub fn record(layout: Vec<Column>) -> (h: Handler)
    ensures
        h@ == HandlerView::Record(layout@),
{
    Handler::Record(layout)
}

fn ok_response(body: Vec<u8>) -> (r: Response)
    ensures
        r@ == success(body@),
{
    Response { status: 200, reason: "OK".to_owned(), body }
}

/// Answers one request as `handler` does: the response, and what is kept of the request.
pub fn serve(handler: &Handler, request: &Request) -> (r: (Response, Recording))
    ensures
        r.0@ == answer(handler@, request.body@),
        r.1@ == kept(handler@, request.body@),
{
    match handler {
        Handler::RecordDdl => {
            let recording = match text_of(request.body.as_slice()) {
                Some(text) => Recording::Query(text),
                None => Recording::NotText,
            };
            (ok_response(Vec::new()), recording)
        },
        Handler::Provide(rows) => {
            let body = copy_range(rows.as_slice(), 0, rows.len());
            proof {
                assert(body@ =~= rows@);
            }
            (ok_response(body), Recording::Answered)
        },
        Handler::Failure(status) => {
            (
                Response {
                    status: *status,
                    reason: phrase_or_unknown(reason_phrase(*status)),
                    body: Vec::new(),
                },
                Recording::Answered,
            )
        },
        Handler::Record(layout) => {
            let recording = match collect(layout, request.body.as_slice(), BUFFER_SIZE) {
                Ok(rows) => Recording::Rows(rows),
                Err(e) => Recording::Malformed(e),
            };
            (ok_response(Vec::new()), recording)
        },
    }
}

/// What the double holds: the handlers in the order in which they were added, what each
/// of them kept, and how many of them have answered.
pub struct MockView {
    pub handlers: Seq<HandlerView>,
    pub recordings: Seq<RecordingView>,
    pub answered: nat,
}

/// A double of the server: handlers are added to a queue, and each request is answered
/// by the handler that has waited longest.
#[derive(Debug)]
pub struct Mock {
    handlers: Vec<Handler>,
    recordings: Vec<Recording>,
    answered: usize,
}

impl View for Mock {
    type V = MockView;

    closed spec fn view(&self) -> MockView {
        MockView {
            handlers: Seq::new(self.handlers@.len(), |i: int| self.handlers@[i]@),
            recordings: Seq::new(self.recordings@.len(), |i: int| self.recordings@[i]@),
            answered: self.answered as nat,
        }
    }
}

impl MockView {
    /// Each handler has its recording, and no more handlers have answered than there are.
    pub open spec fn wf(self) -> bool {
        &&& self.handlers.len() == self.recordings.len()
        &&& self.answered <= self.handlers.len()
    }

    /// The number of handlers that wait for a request.
    pub open spec fn waiting(self) -> nat {
        (self.handlers.len() - self.answered) as nat
    }
}

impl Mock {
    /// A double with no handler.
    pub fn new() -> (m: Mock)
        ensures
            m@.wf(),
            m@ == (MockView { handlers: Seq::empty(), recordings: Seq::empty(), answered: 0 }),
    {
        let m = Mock { handlers: Vec::new(), recordings: Vec::new(), answered: 0 };
        proof {
            assert(m@.handlers =~= Seq::empty());
            assert(m@.recordings =~= Seq::empty());
        }
        m
    }

    /// Adds `handler` behind the handlers that wait, and gives the number under which
    /// its recording is found.
    pub fn add(&mut self, handler: Handler) -> (id: usize)
        requires
            old(self)@.wf(),
        ensures
            final(self)@.wf(),
            id == old(self)@.handlers.len(),
            final(self)@ == (MockView {
                handlers: old(self)@.handlers.push(handler@),
                recordings: old(self)@.recordings.push(RecordingView::Waiting),
                answered: old(self)@.answered,
            }),
    {
        let id = self.handlers.len();
        self.handlers.push(handler);
        self.recordings.push(Recording::Waiting);
        proof {
            assert(self@.handlers =~= old(self)@.handlers.push(handler@));
            assert(self@.recordings =~= old(self)@.recordings.push(RecordingView::Waiting));
        }
        id
    }

    /// The number of handlers that wait for a request.
    pub fn waiting(&self) -> (n: usize)
        requires
            self@.wf(),
        ensures
            n == self@.waiting(),
    {
        self.handlers.len() - self.answered
    }

    /// Answers `request` by the handler that has waited longest, and keeps what that
    /// handler records. A request for which no handler waits must not come.
    pub fn handle(&mut self, request: &Request) -> (r: Response)
        requires
            old(self)@.wf(),
            old(self)@.waiting() > 0,
        ensures
            final(self)@.wf(),
            r@ == answer(old(self)@.handlers[old(self)@.answered as int], request.body@),
            final(self)@ == (MockView {
                handlers: old(self)@.handlers,
                recordings: old(self)@.recordings.update(
                    old(self)@.answered as int,
                    kept(old(self)@.handlers[old(self)@.answered as int], request.body@),
                ),
                answered: old(self)@.answered + 1,
            }),
    {
        let at = self.answered;
        let n = self.handlers.len();
        let (response, recording) = serve(&self.handlers[at], request);
        self.recordings.set(at, recording);
        self.answered = at + 1;
        proof {
            assert(self@.handlers =~= old(self)@.handlers);
            assert(self@.recordings =~= old(self)@.recordings.update(at as int, recording@));
        }
        response
    }

    /// What the handler added under `id` kept.
    pub fn recording(&self, id: usize) -> (r: Option<&Recording>)
        requires
            self@.wf(),
        ensures
            id < self@.recordings.len() ==> r is Some && r->Some_0@ == self@.recordings[id as int],
            id >= self@.recordings.len() ==> r is None,
    {
        if id < self.recordings.len() {
            Some(&self.recordings[id])
        } else {
            None
        }
    }

    /// The text that the handler added under `id` kept, once its request has come.
    pub fn query(&self, id: usize) -> (r: Option<&str>)
        requires
            self@.wf(),
        ensures
            match r {
                Some(text) => id < self@.recordings.len() && self@.recordings[id as int]
                    == RecordingView::Query(text@),
                None => id >= self@.recordings.len() || !(self@.recordings[id as int] is Query),
            },
    {
        if id < self.recordings.len() {
            match &self.recordings[id] {
                Recording::Query(text) => Some(text.as_str()),
                _ => None,
            }
        } else {
            None
        }
    }

    /// The rows that the handler added under `id` kept, in the order of insertion, once
    /// its request has come.
    pub fn collect(&self, id: usize) -> (r: Option<&Vec<Vec<Value>>>)
        requires
            self@.wf(),
        ensures
            match r {
                Some(rows) => id < self@.recordings.len() && self@.recordings[id as int]
                    == RecordingView::Rows(rows_view(rows@)),
                None => id >= self@.recordings.len() || !(self@.recordings[id as int] is Rows),
            },
    {
        if id < self.recordings.len() {
            match &self.recordings[id] {
                Recording::Rows(rows) => Some(rows),
                _ => None,
            }
        } else {
            None
        }
    }
}

/// Rows that are provided come back: the body that a providing handler answers with
/// decodes to the rows that it was made of, in their order, whatever the request.
pub proof fn lemma_provided_rows_come_back(
    rows: Seq<Seq<ValueView>>,
    layout: Seq<Column>,
    request_body: Seq<u8>,
)
    requires
        layout.len() > 0,
        all_conform(rows, layout),
    ensures
        is_success(answer(HandlerView::Provide(encoded_rows(rows, layout)), request_body).status),
        decoded_rows(
            layout,
            answer(HandlerView::Provide(encoded_rows(rows, layout)), request_body).body,
        ) == Ok::<Seq<Seq<ValueView>>, DecodeError>(rows),
{
    lemma_decode_encoded(rows, layout);
}

/// Rows that are inserted are recorded: a recording handler keeps the rows whose bytes
/// the body of the insert holds, in the order of insertion.
pub proof fn lemma_inserted_rows_are_recorded(rows: Seq<Seq<ValueView>>, layout: Seq<Column>)
    requires
        layout.len() > 0,
        all_conform(rows, layout),
    ensures
        kept(HandlerView::Record(layout), encoded_rows(rows, layout)) == RecordingView::Rows(rows),
{
    lemma_decode_encoded(rows, layout);
}

/// The text of a statement is recorded: a statement that does not only read goes out
/// with its text as the body, and the handler keeps that text, letter for letter.
pub proof fn lemma_statement_is_recorded(text: Seq<char>)
    ensures
        kept(HandlerView::RecordDdl, planned_body(text, false)) == RecordingView::Query(text),
{
    vstd::utf8::encode_utf8_valid_utf8(text);
    vstd::utf8::encode_utf8_decode_utf8(text);
}

/// A failing handler answers with its status and the reason of that status, and a
/// status that is no success is no success for the one who asked.
pub proof fn lemma_failure_is_reported(status: u16, request_body: Seq<u8>)
    requires
        !is_success(status),
    ensures
        !is_success(answer(HandlerView::Failure(status), request_body).status),
        answer(HandlerView::Failure(status), request_body).reason == failure_reason(status),
{
}

} // verus!
