//! The event record a notification's payload parses into: the submitted
//! request (a source and its answers) and the response identifier.
//!
//! Answers are held as an ordered association list, the insertion order of
//! the payload; an answer is either a single string or a collection of
//! string-to-string records.

use vstd::prelude::*;
use vstd::string::StringExecFns;

verus! {

/// The mathematical value of an [`Answer`].
pub ghost enum AnswerView {
    Simple(Seq<char>),
    Collection(Seq<Seq<(Seq<char>, Seq<char>)>>),
}

/// The mathematical value of a [`Request`].
pub ghost struct RequestView {
    pub source: Seq<char>,
    pub answers: Seq<(Seq<char>, AnswerView)>,
}

/// The mathematical value of a [`Response`].
pub ghost struct ResponseView {
    pub id: Seq<char>,
}

/// The mathematical value of an [`Event`].
pub ghost struct EventView {
    pub request: RequestView,
    pub response: ResponseView,
}

/// One answer of a request: a plain string, or a collection of
/// string-to-string records.
#[derive(Debug)]
pub enum Answer {
    Simple(String),
    Collection(Vec<Vec<(String, String)>>),
}

/// The values of a string-to-string association list.
pub open spec fn string_pairs_view(s: Seq<(String, String)>) -> Seq<(Seq<char>, Seq<char>)> {
    s.map_values(|kv: (String, String)| (kv.0@, kv.1@))
}

/// The values of two association lists laid end to end are the values laid
/// end to end.
pub proof fn lemma_string_pairs_view_concat(a: Seq<(String, String)>, b: Seq<(String, String)>)
    ensures
        string_pairs_view(a + b) == string_pairs_view(a) + string_pairs_view(b),
{
    assert(string_pairs_view(a + b) =~= string_pairs_view(a) + string_pairs_view(b));
}

impl View for Answer {
    type V = AnswerView;

    open spec fn view(&self) -> AnswerView {
        match self {
            Answer::Simple(value) => AnswerView::Simple(value@),
            Answer::Collection(collection) => AnswerView::Collection(
                collection@.map_values(|m: Vec<(String, String)>| string_pairs_view(m@)),
            ),
        }
    }
}

/// The submitted request: its logical source and its answers, in payload
/// order.
#[derive(Debug)]
pub struct Request {
    source: String,
    answers: Vec<(String, Answer)>,
}

impl View for Request {
    type V = RequestView;

    closed spec fn view(&self) -> RequestView {
        RequestView {
            source: self.source@,
            answers: self.answers@.map_values(|kv: (String, Answer)| (kv.0@, kv.1@)),
        }
    }
}

impl Request {
    pub fn new(source: &str, answers: Vec<(String, Answer)>) -> (r: Request)
        ensures
            r@.source == source@,
            r@.answers == answers@.map_values(|kv: (String, Answer)| (kv.0@, kv.1@)),
    {
        Request { source: source.to_owned(), answers }
    }

    pub fn source(&self) -> (s: &str)
        ensures
            s@ == self@.source,
    {
        self.source.as_str()
    }

    pub fn answers(&self) -> (a: &Vec<(String, Answer)>)
        ensures
            a@.map_values(|kv: (String, Answer)| (kv.0@, kv.1@)) == self@.answers,
    {
        &self.answers
    }
}

/// The response part of the event: its identifier.
#[derive(Debug)]
pub struct Response {
    id: String,
}

impl View for Response {
    type V = ResponseView;

    closed spec fn view(&self) -> ResponseView {
        ResponseView { id: self.id@ }
    }
}

impl Response {
    pub fn new(id: &str) -> (r: Response)
        ensures
            r@.id == id@,
    {
        Response { id: id.to_owned() }
    }

    pub fn id(&self) -> (s: &str)
        ensures
            s@ == self@.id,
    {
        self.id.as_str()
    }
}

/// One parsed event: request and response.
#[derive(Debug)]
pub struct Event {
    request: Request,
    response: Response,
}

impl View for Event {
    type V = EventView;

    closed spec fn view(&self) -> EventView {
        EventView { request: self.request@, response: self.response@ }
    }
}

impl Event {
    pub fn new(request: Request, response: Response) -> (e: Event)
        ensures
            e@.request == request@,
            e@.response == response@,
    {
        Event { request, response }
    }

    pub fn request(&self) -> (r: &Request)
        ensures
            r@ == self@.request,
    {
        &self.request
    }

    pub fn response(&self) -> (r: &Response)
        ensures
            r@ == self@.response,
    {
        &self.response
    }
}

} // verus!
