//! One notification drawn from the ingestion queue: the message identity,
//! the event timestamp, and where the payload lives in object storage.

use vstd::prelude::*;
use vstd::string::StringExecFns;

verus! {

/// The mathematical value of a [`Notification`].
pub ghost struct NotificationView {
    pub message_id: Seq<char>,
    pub receipt_handle: Seq<char>,
    pub created: int,
    pub bucket: Seq<char>,
    pub key: Seq<char>,
}

/// One accepted notification, immutable once built.
#[derive(Debug)]
pub struct Notification {
    message_id: String,
    receipt_handle: String,
    created: i64,
    bucket: String,
    key: String,
}

impl View for Notification {
    type V = NotificationView;

    closed spec fn view(&self) -> NotificationView {
        NotificationView {
            message_id: self.message_id@,
            receipt_handle: self.receipt_handle@,
            created: self.created as int,
            bucket: self.bucket@,
            key: self.key@,
        }
    }
}

impl Notification {
    pub fn builder() -> (b: Builder)
        ensures
            b@ == (BuilderView {
                message_id: None,
                receipt_handle: None,
                created: None,
                bucket: None,
                key: None,
            }),
    {
        Builder::new()
    }

    pub fn message_id(&self) -> (s: &str)
        ensures
            s@ == self@.message_id,
    {
        self.message_id.as_str()
    }

    pub fn receipt_handle(&self) -> (s: &str)
        ensures
            s@ == self@.receipt_handle,
    {
        self.receipt_handle.as_str()
    }

    pub fn created(&self) -> (t: i64)
        ensures
            t as int == self@.created,
    {
        self.created
    }

    pub fn bucket(&self) -> (s: &str)
        ensures
            s@ == self@.bucket,
    {
        self.bucket.as_str()
    }

    pub fn key(&self) -> (s: &str)
        ensures
            s@ == self@.key,
    {
        self.key.as_str()
    }
}

/// The mathematical value of a [`Builder`].
pub ghost struct BuilderView {
    pub message_id: Option<Seq<char>>,
    pub receipt_handle: Option<Seq<char>>,
    pub created: Option<int>,
    pub bucket: Option<Seq<char>>,
    pub key: Option<Seq<char>>,
}

/// Step-by-step construction of a [`Notification`]; `build` needs every
/// field set.
#[derive(Debug)]
pub struct Builder {
    message_id: Option<String>,
    receipt_handle: Option<String>,
    created: Option<i64>,
    bucket: Option<String>,
    key: Option<String>,
}

impl View for Builder {
    type V = BuilderView;

    closed spec fn view(&self) -> BuilderView {
        BuilderView {
            message_id: match &self.message_id {
                Some(s) => Some(s@),
                None => None,
            },
            receipt_handle: match &self.receipt_handle {
                Some(s) => Some(s@),
                None => None,
            },
            created: match self.created {
                Some(t) => Some(t as int),
                None => None,
            },
            bucket: match &self.bucket {
                Some(s) => Some(s@),
                None => None,
            },
            key: match &self.key {
                Some(s) => Some(s@),
                None => None,
            },
        }
    }
}

impl Builder {
    fn new() -> (b: Builder)
        ensures
            b@ == (BuilderView {
                message_id: None,
                receipt_handle: None,
                created: None,
                bucket: None,
                key: None,
            }),
    {
        Builder {
            message_id: None,
            receipt_handle: None,
            created: None,
            bucket: None,
            key: None,
        }
    }

    pub fn message_id(self, message_id: &str) -> (b: Builder)
        ensures
            b@ == (BuilderView { message_id: Some(message_id@), ..self@ }),
    {
        Builder { message_id: Some(message_id.to_owned()), ..self }
    }

    pub fn receipt_handle(self, receipt_handle: &str) -> (b: Builder)
        ensures
            b@ == (BuilderView { receipt_handle: Some(receipt_handle@), ..self@ }),
    {
        Builder { receipt_handle: Some(receipt_handle.to_owned()), ..self }
    }

    pub fn created(self, created: i64) -> (b: Builder)
        ensures
            b@ == (BuilderView { created: Some(created as int), ..self@ }),
    {
        Builder { created: Some(created), ..self }
    }

    pub fn bucket(self, bucket: &str) -> (b: Builder)
        ensures
            b@ == (BuilderView { bucket: Some(bucket@), ..self@ }),
    {
        Builder { bucket: Some(bucket.to_owned()), ..self }
    }

    pub fn key(self, key: &str) -> (b: Builder)
        ensures
            b@ == (BuilderView { key: Some(key@), ..self@ }),
    {
        Builder { key: Some(key.to_owned()), ..self }
    }

    /// Finishes the notification. Every field must have been set: a missing
    /// field is a programming error at the call site, not an input to
    /// handle.
    pub fn build(self) -> (n: Notification)
        requires
            self@.message_id is Some,
            self@.receipt_handle is Some,
            self@.created is Some,
            self@.bucket is Some,
            self@.key is Some,
        ensures
            n@ == (NotificationView {
                message_id: self@.message_id->0,
                receipt_handle: self@.receipt_handle->0,
                created: self@.created->0,
                bucket: self@.bucket->0,
                key: self@.key->0,
            }),
    {
        Notification {
            message_id: self.message_id.unwrap(),
            receipt_handle: self.receipt_handle.unwrap(),
            created: self.created.unwrap(),
            bucket: self.bucket.unwrap(),
            key: self.key.unwrap(),
        }
    }
}

} // verus!
