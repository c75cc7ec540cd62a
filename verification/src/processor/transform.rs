//! Flattening a parsed event into the flat key-value pairs a batch record
//! carries: the response identifier, the event timestamp, the payload's
//! object-storage address, and every answer — collection answers spread into
//! `key1_subkey`-style entries, numbered from one in collection order.

use crate::model::event::{string_pairs_view, Answer, AnswerView, Event, EventView};
use crate::model::notification::{Notification, NotificationView};
use crate::text::decimal_str;
use crate::time::{rfc3339_of, timestamp_to_rfc3339, MAX_TIMESTAMP_MS, MIN_TIMESTAMP_MS};
use vstd::prelude::*;
use vstd::string::StringExecFns;

verus! {

/// The pairs one record of a collection answer spreads into: each child key
/// prefixed with the parent key and the record's one-based position.
pub open spec fn collection_record_pairs(
    parent_key: Seq<char>,
    index: int,
    value: Seq<(Seq<char>, Seq<char>)>,
) -> Seq<(Seq<char>, Seq<char>)> {
    value.map_values(
        |kv: (Seq<char>, Seq<char>)|
            (parent_key + decimal_str(index as nat) + seq!['_'] + kv.0, kv.1),
    )
}

/// The pairs of every record of a collection answer, numbered from one.
pub open spec fn collection_pairs(
    parent_key: Seq<char>,
    items: Seq<Seq<(Seq<char>, Seq<char>)>>,
) -> Seq<(Seq<char>, Seq<char>)>
    decreases items.len(),
{
    if items.len() == 0 {
        Seq::empty()
    } else {
        collection_pairs(parent_key, items.drop_last()) + collection_record_pairs(
            parent_key,
            items.len() as int,
            items.last(),
        )
    }
}

/// The pairs one answer flattens into.
pub open spec fn answer_pairs(key: Seq<char>, a: AnswerView) -> Seq<(Seq<char>, Seq<char>)> {
    match a {
        AnswerView::Simple(value) => seq![(key, value)],
        AnswerView::Collection(items) => collection_pairs(key, items),
    }
}

/// The pairs of a whole answer list, in list order.
pub open spec fn answers_pairs(answers: Seq<(Seq<char>, AnswerView)>) -> Seq<
    (Seq<char>, Seq<char>),
>
    decreases answers.len(),
{
    if answers.len() == 0 {
        Seq::empty()
    } else {
        answers_pairs(answers.drop_last()) + answer_pairs(
            answers.last().0,
            answers.last().1,
        )
    }
}

/// Everything a flattened record holds, in order: the response identifier,
/// the event timestamp rendered RFC 3339, the payload's address, then every
/// answer flattened.
///
/// An answer keyed like one of the three fixed pairs (`id`, `created`,
/// `s3_uri`) is kept beside it, after it: the record is an ordered pair
/// list, not a map, so nothing is overwritten here. Serialised, the
/// answer's member stands after the fixed one, and a consumer that reads a
/// JSON object's repeated key by its last member sees the answer's value.
pub open spec fn apply_spec(e: EventView, n: NotificationView) -> Seq<(Seq<char>, Seq<char>)> {
    seq![
        ("id"@, e.response.id),
        ("created"@, rfc3339_of(n.created)),
        ("s3_uri"@, "s3://"@ + n.bucket + "/"@ + n.key),
    ] + answers_pairs(e.request.answers)
}

/// Flattens one record of a collection answer, exactly as
/// [`collection_record_pairs`] says. `index` is the record's one-based
/// position.
pub fn transform_collection_answer(
    parent_key: &str,
    index: usize,
    value: &Vec<(String, String)>,
) -> (r: Vec<(String, String)>)
    requires
        0 < index,
    ensures
        string_pairs_view(r@) == collection_record_pairs(
            parent_key@,
            index as int,
            string_pairs_view(value@),
        ),
{
    let mut r: Vec<(String, String)> = Vec::new();
    let mut i: usize = 0;
    while i < value.len()
        invariant
            i <= value@.len(),
            r@.len() == i,
            0 < index,
            forall|j: int|
                0 <= j < i ==> #[trigger] r@[j].0@ == parent_key@ + decimal_str(index as nat)
                    + seq!['_'] + value@[j].0@ && r@[j].1@ == value@[j].1@,
        decreases value@.len() - i,
    {
        let mut child_key = String::new();
        child_key.append(parent_key);
        crate::text::append_decimal(&mut child_key, index as u64);
        proof {
            reveal_strlit("_");
            assert("_"@ =~= seq!['_']);
            assert(index as u64 as nat == index as nat);
        }
        child_key.append("_");
        child_key.append(value[i].0.as_str());
        proof {
            assert(child_key@ =~= parent_key@ + decimal_str(index as nat) + seq!['_']
                + value@[i as int].0@);
        }
        let child_value = value[i].1.clone();
        r.push((child_key, child_value));
        i += 1;
    }
    proof {
        assert(string_pairs_view(r@) =~= collection_record_pairs(
            parent_key@,
            index as int,
            string_pairs_view(value@),
        ));
    }
    r
}

/// Flattens one answer, exactly as [`answer_pairs`] says.
pub fn transform_answer(key: &str, answer: &Answer) -> (r: Vec<(String, String)>)
    ensures
        string_pairs_view(r@) == answer_pairs(key@, answer@),
{
    match answer {
        Answer::Simple(value) => {
            let mut r: Vec<(String, String)> = Vec::new();
            r.push((key.to_owned(), value.clone()));
            proof {
                assert(string_pairs_view(r@) =~= answer_pairs(key@, answer@));
            }
            r
        },
        Answer::Collection(collection) => {
            let ghost items = collection@.map_values(
                |m: Vec<(String, String)>| string_pairs_view(m@),
            );
            let mut r: Vec<(String, String)> = Vec::new();
            let mut i: usize = 0;
            proof {
                assert(string_pairs_view(r@) =~= collection_pairs(key@, items.take(0)));
            }
            while i < collection.len()
                invariant
                    i <= collection@.len(),
                    items == collection@.map_values(
                        |m: Vec<(String, String)>| string_pairs_view(m@),
                    ),
                    items.len() == collection@.len(),
                    string_pairs_view(r@) == collection_pairs(key@, items.take(i as int)),
                decreases collection@.len() - i,
            {
                let mut part = transform_collection_answer(key, i + 1, &collection[i]);
                let ghost part0 = part@;
                let ghost r0 = r@;
                r.append(&mut part);
                proof {
                    crate::model::event::lemma_string_pairs_view_concat(r0, part0);
                    assert(items.take(i as int + 1).drop_last() =~= items.take(i as int));
                    assert(items.take(i as int + 1).last() == items[i as int]);
                    assert(items.take(i as int + 1).len() == i + 1);
                    assert(items[i as int] == string_pairs_view(collection@[i as int]@));
                    assert(collection_pairs(key@, items.take(i as int + 1)) == collection_pairs(
                        key@,
                        items.take(i as int),
                    ) + collection_record_pairs(key@, i as int + 1, items[i as int]));
                    assert(string_pairs_view(part0) == collection_record_pairs(
                        key@,
                        i as int + 1,
                        items[i as int],
                    ));
                    assert(string_pairs_view(r@) == collection_pairs(
                        key@,
                        items.take(i as int + 1),
                    ));
                }
                i += 1;
            }
            proof {
                assert(items.take(collection@.len() as int) =~= items);
            }
            r
        },
    }
}

/// Flattens a parsed event and its notification into the record's flat
/// key-value pairs, exactly as [`apply_spec`] says — a key collision keeps
/// both pairs in order, the answer's after the fixed one.
pub fn apply(event: &Event, notification: &Notification) -> (r: Vec<(String, String)>)
    requires
        MIN_TIMESTAMP_MS <= notification@.created <= MAX_TIMESTAMP_MS,
    ensures
        string_pairs_view(r@) == apply_spec(event@, notification@),
{
    let ghost base = seq![
        ("id"@, event@.response.id),
        ("created"@, rfc3339_of(notification@.created)),
        ("s3_uri"@, "s3://"@ + notification@.bucket + "/"@ + notification@.key),
    ];
    let mut r: Vec<(String, String)> = Vec::new();
    proof {
        reveal_strlit("id");
        reveal_strlit("created");
        reveal_strlit("s3_uri");
        reveal_strlit("s3://");
        reveal_strlit("/");
    }
    let mut id_key = String::new();
    id_key.append("id");
    r.push((id_key, event.response().id().to_owned()));

    let mut created_key = String::new();
    created_key.append("created");
    r.push((created_key, timestamp_to_rfc3339(notification.created())));

    let mut uri_key = String::new();
    uri_key.append("s3_uri");
    let mut uri = String::new();
    uri.append("s3://");
    uri.append(notification.bucket());
    uri.append("/");
    uri.append(notification.key());
    proof {
        assert(uri@ =~= "s3://"@ + notification@.bucket + "/"@ + notification@.key);
    }
    r.push((uri_key, uri));

    let ghost avs = event@.request.answers;
    proof {
        assert(string_pairs_view(r@) =~= base);
    }
    let answers = event.request().answers();
    let mut i: usize = 0;
    proof {
        assert(avs.take(0) =~= Seq::<(Seq<char>, AnswerView)>::empty());
        assert(string_pairs_view(r@) =~= base + answers_pairs(avs.take(0)));
    }
    while i < answers.len()
        invariant
            i <= answers@.len(),
            avs == event@.request.answers,
            avs == answers@.map_values(|kv: (String, Answer)| (kv.0@, kv.1@)),
            avs.len() == answers@.len(),
            string_pairs_view(r@) == base + answers_pairs(avs.take(i as int)),
        decreases answers@.len() - i,
    {
        let mut part = transform_answer(answers[i].0.as_str(), &answers[i].1);
        let ghost part0 = part@;
        let ghost r0 = r@;
        r.append(&mut part);
        proof {
            crate::model::event::lemma_string_pairs_view_concat(r0, part0);
            assert(avs.take(i as int + 1).drop_last() =~= avs.take(i as int));
            assert(avs.take(i as int + 1).last() == avs[i as int]);
            assert(avs[i as int] == (answers@[i as int].0@, answers@[i as int].1@));
            assert(answers_pairs(avs.take(i as int + 1)) == answers_pairs(avs.take(i as int))
                + answer_pairs(avs[i as int].0, avs[i as int].1));
            assert(string_pairs_view(part0) == answer_pairs(avs[i as int].0, avs[i as int].1));
            assert(string_pairs_view(r@) == (base + answers_pairs(avs.take(i as int)))
                + answer_pairs(avs[i as int].0, avs[i as int].1));
            assert((base + answers_pairs(avs.take(i as int))) + answer_pairs(
                avs[i as int].0,
                avs[i as int].1,
            ) =~= base + answers_pairs(avs.take(i as int + 1)));
        }
        i += 1;
    }
    proof {
        assert(avs.take(answers@.len() as int) =~= avs);
        assert(apply_spec(event@, notification@) == base + answers_pairs(avs));
    }
    r
}

} // verus!
