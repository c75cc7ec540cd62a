//! The shape of an object-storage notification: which records it announces
//! and where each payload lives. The surrounding process parses the wire
//! format into these values.

use vstd::prelude::*;
use vstd::string::StringExecFns;

verus! {

/// The mathematical value of an [`S3`] location.
pub ghost struct S3View {
    pub bucket: Seq<char>,
    pub key: Seq<char>,
}

/// The mathematical value of a [`Record`].
pub ghost struct RecordView {
    pub event_time: int,
    pub s3: S3View,
}

/// The bucket a payload lives in.
#[derive(Debug)]
pub struct Bucket {
    name: String,
}

impl View for Bucket {
    type V = Seq<char>;

    closed spec fn view(&self) -> Seq<char> {
        self.name@
    }
}

impl Bucket {
    pub fn new(name: &str) -> (b: Bucket)
        ensures
            b@ == name@,
    {
        Bucket { name: name.to_owned() }
    }

    pub fn name(&self) -> (s: &str)
        ensures
            s@ == self@,
    {
        self.name.as_str()
    }
}

/// The object key of a payload.
#[derive(Debug)]
pub struct Object {
    key: String,
}

impl View for Object {
    type V = Seq<char>;

    closed spec fn view(&self) -> Seq<char> {
        self.key@
    }
}

impl Object {
    pub fn new(key: &str) -> (o: Object)
        ensures
            o@ == key@,
    {
        Object { key: key.to_owned() }
    }

    pub fn key(&self) -> (s: &str)
        ensures
            s@ == self@,
    {
        self.key.as_str()
    }
}

/// Where one announced payload lives.
#[derive(Debug)]
pub struct S3 {
    bucket: Bucket,
    object: Object,
}

impl View for S3 {
    type V = S3View;

    closed spec fn view(&self) -> S3View {
        S3View { bucket: self.bucket@, key: self.object@ }
    }
}

impl S3 {
    pub fn new(bucket: Bucket, object: Object) -> (s: S3)
        ensures
            s@ == (S3View { bucket: bucket@, key: object@ }),
    {
        S3 { bucket, object }
    }

    pub fn bucket(&self) -> (b: &Bucket)
        ensures
            b@ == self@.bucket,
    {
        &self.bucket
    }

    pub fn object(&self) -> (o: &Object)
        ensures
            o@ == self@.key,
    {
        &self.object
    }
}

/// One announced record: when the event happened, and where its payload
/// lives.
#[derive(Debug)]
pub struct Record {
    event_time: i64,
    s3: S3,
}

impl View for Record {
    type V = RecordView;

    closed spec fn view(&self) -> RecordView {
        RecordView { event_time: self.event_time as int, s3: self.s3@ }
    }
}

impl Record {
    pub fn new(event_time: i64, s3: S3) -> (r: Record)
        ensures
            r@ == (RecordView { event_time: event_time as int, s3: s3@ }),
    {
        Record { event_time, s3 }
    }

    pub fn event_time(&self) -> (t: i64)
        ensures
            t as int == self@.event_time,
    {
        self.event_time
    }

    pub fn s3(&self) -> (s: &S3)
        ensures
            s@ == self@.s3,
    {
        &self.s3
    }
}

/// One notification message: the records it announces, in message order.
#[derive(Debug)]
pub struct S3Notification {
    records: Vec<Record>,
}

impl View for S3Notification {
    type V = Seq<RecordView>;

    closed spec fn view(&self) -> Seq<RecordView> {
        self.records@.map_values(|r: Record| r@)
    }
}

impl S3Notification {
    pub fn new(records: Vec<Record>) -> (n: S3Notification)
        ensures
            n@ == records@.map_values(|r: Record| r@),
    {
        S3Notification { records }
    }

    pub fn records(&self) -> (r: &[Record])
        ensures
            r@.map_values(|rec: Record| rec@) == self@,
    {
        self.records.as_slice()
    }
}

} // verus!
