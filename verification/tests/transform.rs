//! Flattening and serialisation of parsed events.

use batcher::batch::StoreImpl;
use batcher::model::{Answer, Event, Notification, Request, Response};
use batcher::processor::{entry_from, serialise};
use batcher::processor::transform::{apply, transform_answer, transform_collection_answer};

/// 2024-08-10T11:00:00Z in epoch milliseconds.
const CREATED_MS: i64 = 1_723_287_600_000;

fn notification() -> Notification {
    Notification::builder()
        .message_id("some-message")
        .receipt_handle("receipt")
        .created(CREATED_MS)
        .bucket("test-bucket")
        .key("1234.json")
        .build()
}

fn event() -> Event {
    Event::new(request(), response())
}

fn request() -> Request {
    Request::new(
        "somewhere",
        vec![
            (
                String::from("first_name"),
                Answer::Simple(String::from("Tim")),
            ),
            (
                String::from("pets"),
                Answer::Collection(vec![
                    vec![
                        (String::from("type"), String::from("Cat")),
                        (String::from("name"), String::from("Tiffin")),
                    ],
                    vec![
                        (String::from("type"), String::from("Dog")),
                        (String::from("name"), String::from("Waldo")),
                    ],
                ]),
            ),
        ],
    )
}

fn response() -> Response {
    Response::new("1234")
}

fn expected() -> Vec<(String, String)> {
    vec![
        (String::from("id"), String::from("1234")),
        (
            String::from("created"),
            String::from("2024-08-10T11:00:00+00:00"),
        ),
        (
            String::from("s3_uri"),
            String::from("s3://test-bucket/1234.json"),
        ),
        (String::from("first_name"), String::from("Tim")),
        (String::from("pets1_type"), String::from("Cat")),
        (String::from("pets1_name"), String::from("Tiffin")),
        (String::from("pets2_type"), String::from("Dog")),
        (String::from("pets2_name"), String::from("Waldo")),
    ]
}

#[test]
fn transforms_event() {
    let actual = apply(&event(), &notification());
    assert_eq!(actual, expected())
}

#[test]
fn transforms_simple_answer() {
    let pairs = transform_answer("colour", &Answer::Simple(String::from("blue")));
    assert_eq!(
        pairs,
        vec![(String::from("colour"), String::from("blue"))]
    );
}

#[test]
fn transforms_empty_collection_answer() {
    let pairs = transform_answer("pets", &Answer::Collection(vec![]));
    assert_eq!(pairs, Vec::<(String, String)>::new());
}

#[test]
fn numbers_collection_records_from_one() {
    let pairs = transform_collection_answer(
        "pet",
        1,
        &vec![(String::from("name"), String::from("Tiffin"))],
    );
    assert_eq!(
        pairs,
        vec![(String::from("pet1_name"), String::from("Tiffin"))]
    );
}

#[test]
fn serialises_pairs_as_json_object() {
    let json = serialise(&vec![
        (String::from("id"), String::from("1234")),
        (String::from("first_name"), String::from("Tim")),
    ]);
    assert_eq!(json, r#"{"id":"1234","first_name":"Tim"}"#);
}

#[test]
fn serialises_empty_map() {
    let json = serialise(&vec![]);
    assert_eq!(json, "{}");
}

#[test]
fn escapes_quotes_backslashes_and_control_characters() {
    let json = serialise(&vec![(
        String::from("quote"),
        String::from("a\"b\\c\nd\u{1f}e"),
    )]);
    assert_eq!(json, "{\"quote\":\"a\\\"b\\\\c\\u000ad\\u001fe\"}");
}

#[test]
fn answer_keyed_like_a_fixed_pair_stands_after_it() {
    let event = Event::new(
        Request::new(
            "somewhere",
            vec![(String::from("id"), Answer::Simple(String::from("other")))],
        ),
        response(),
    );
    let pairs = apply(&event, &notification());
    // Both pairs are kept, the fixed one first: a consumer reading the last
    // member of a repeated JSON key sees the answer's value.
    assert_eq!(pairs[0], (String::from("id"), String::from("1234")));
    assert_eq!(
        pairs[3],
        (String::from("id"), String::from("other"))
    );
    let json = serialise(&pairs);
    assert!(json.ends_with("\"id\":\"other\"}"));
}

#[test]
fn builds_entry_from_event() {
    let entry = entry_from(&event(), &notification());
    let _ = entry;
}

#[test]
fn entry_payload_is_serialised_flattening() {
    let mut store = StoreImpl::new();
    store.add(entry_from(&event(), &notification()));
    let batches = store.batches();
    assert_eq!(batches.len(), 1);
    let batch = &batches[0];
    assert_eq!(batch.partition().source(), "somewhere");
    let date = batch.partition().date();
    assert_eq!((date.year, date.month, date.day), (2024, 8, 10));
    assert_eq!(batch.oldest_record(), CREATED_MS);
    assert_eq!(batch.record_count(), 1);
    assert_eq!(
        batch.records()[0],
        r#"{"id":"1234","created":"2024-08-10T11:00:00+00:00","s3_uri":"s3://test-bucket/1234.json","first_name":"Tim","pets1_type":"Cat","pets1_name":"Tiffin","pets2_type":"Dog","pets2_name":"Waldo"}"#
    );
}
