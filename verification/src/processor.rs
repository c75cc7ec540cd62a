//! Turning a parsed event into the entry the store accepts: the flattened
//! pairs serialised as a JSON object string, keyed by the partition of the
//! event's source and the notification's calendar date.
//!
//! Fetching and parsing the payload is the surrounding process's job; what
//! reaches this module are plain values.

use crate::batch::{Entry, Partition};
use crate::model::event::{string_pairs_view, Event};
use crate::model::notification::Notification;
use crate::processor::transform::{apply, apply_spec};
use crate::text::{digit_char, push_char};
use crate::time::{civil_date_of, date_of_timestamp, MAX_TIMESTAMP_MS, MIN_TIMESTAMP_MS};
use vstd::prelude::*;
use vstd::string::{StrSliceExecFns, StringExecFns};

pub mod transform;

verus! {

/// The character of one hexadecimal digit, lower case.
pub open spec fn hex_char(d: int) -> char {
    if d < 10 {
        digit_char(d)
    } else if d == 10 {
        'a'
    } else if d == 11 {
        'b'
    } else if d == 12 {
        'c'
    } else if d == 13 {
        'd'
    } else if d == 14 {
        'e'
    } else {
        'f'
    }
}

/// How one character appears inside a JSON string: quote and backslash are
/// escaped, control characters take the `\u00XX` form, everything else
/// stands as itself.
pub open spec fn escaped_char(c: char) -> Seq<char> {
    if c == '"' {
        seq!['\\', '"']
    } else if c == '\\' {
        seq!['\\', '\\']
    } else if (c as int) < 32 {
        seq!['\\', 'u', '0', '0', hex_char((c as int) / 16), hex_char((c as int) % 16)]
    } else {
        seq![c]
    }
}

/// A character run escaped for a JSON string.
pub open spec fn json_escaped(s: Seq<char>) -> Seq<char>
    decreases s.len(),
{
    if s.len() == 0 {
        Seq::empty()
    } else {
        json_escaped(s.drop_last()) + escaped_char(s.last())
    }
}

/// A JSON string literal: the escaped run between quotes.
pub open spec fn json_string(s: Seq<char>) -> Seq<char> {
    seq!['"'] + json_escaped(s) + seq!['"']
}

/// One `"key":"value"` member.
pub open spec fn json_member(kv: (Seq<char>, Seq<char>)) -> Seq<char> {
    json_string(kv.0) + seq![':'] + json_string(kv.1)
}

/// The members of a JSON object, comma-separated, in pair order.
pub open spec fn json_members(pairs: Seq<(Seq<char>, Seq<char>)>) -> Seq<char>
    decreases pairs.len(),
{
    if pairs.len() == 0 {
        Seq::empty()
    } else if pairs.len() == 1 {
        json_member(pairs[0])
    } else {
        json_members(pairs.drop_last()) + seq![','] + json_member(pairs.last())
    }
}

/// A flat string map as one JSON object string.
pub open spec fn json_object_str(pairs: Seq<(Seq<char>, Seq<char>)>) -> Seq<char> {
    seq!['{'] + json_members(pairs) + seq!['}']
}

/// The one-character string of a low hexadecimal digit (10 to 15).
fn hex_letter(d: u32) -> (s: &'static str)
    requires
        10 <= d < 16,
    ensures
        s@ == seq![hex_char(d as int)],
{
    if d == 10 {
        proof {
            reveal_strlit("a");
            assert("a"@ =~= seq!['a']);
        }
        "a"
    } else if d == 11 {
        proof {
            reveal_strlit("b");
            assert("b"@ =~= seq!['b']);
        }
        "b"
    } else if d == 12 {
        proof {
            reveal_strlit("c");
            assert("c"@ =~= seq!['c']);
        }
        "c"
    } else if d == 13 {
        proof {
            reveal_strlit("d");
            assert("d"@ =~= seq!['d']);
        }
        "d"
    } else if d == 14 {
        proof {
            reveal_strlit("e");
            assert("e"@ =~= seq!['e']);
        }
        "e"
    } else {
        proof {
            reveal_strlit("f");
            assert("f"@ =~= seq!['f']);
        }
        "f"
    }
}

/// Appends one character in its JSON-escaped form.
fn append_escaped_char(out: &mut String, c: char)
    ensures
        final(out)@ == old(out)@ + escaped_char(c),
{
    if c == '"' {
        proof {
            reveal_strlit("\\\"");
            assert("\\\""@ =~= seq!['\\', '"']);
        }
        out.append("\\\"");
    } else if c == '\\' {
        proof {
            reveal_strlit("\\\\");
            assert("\\\\"@ =~= seq!['\\', '\\']);
        }
        out.append("\\\\");
    } else if (c as u32) < 32 {
        proof {
            reveal_strlit("\\u00");
            assert("\\u00"@ =~= seq!['\\', 'u', '0', '0']);
        }
        out.append("\\u00");
        let hi = (c as u32) / 16;
        let lo = (c as u32) % 16;
        push_char(out, if hi == 0 { '0' } else { '1' });
        if lo < 10 {
            out.append(crate::text::digit_literal(lo as u64));
        } else {
            out.append(hex_letter(lo));
        }
        proof {
            assert(c as int == c as u32 as int);
            assert(out@ =~= old(out)@ + escaped_char(c));
        }
    } else {
        push_char(out, c);
    }
}

/// Appends a whole character run in its JSON-escaped form.
fn append_json_escaped(out: &mut String, s: &str)
    ensures
        final(out)@ == old(out)@ + json_escaped(s@),
{
    let n = s.unicode_len();
    let mut i: usize = 0;
    proof {
        assert(s@.take(0) =~= Seq::<char>::empty());
        assert(out@ =~= old(out)@ + json_escaped(s@.take(0)));
    }
    while i < n
        invariant
            i <= n,
            n == s@.len(),
            out@ == old(out)@ + json_escaped(s@.take(i as int)),
        decreases n - i,
    {
        let c = s.get_char(i);
        append_escaped_char(out, c);
        proof {
            assert(s@.take(i as int + 1).drop_last() =~= s@.take(i as int));
            assert(s@.take(i as int + 1).last() == s@[i as int]);
            assert(out@ =~= old(out)@ + json_escaped(s@.take(i as int + 1)));
        }
        i += 1;
    }
    proof {
        assert(s@.take(n as int) =~= s@);
    }
}

/// Appends a JSON string literal.
fn append_json_string(out: &mut String, s: &str)
    ensures
        final(out)@ == old(out)@ + json_string(s@),
{
    proof {
        reveal_strlit("\"");
        assert("\""@ =~= seq!['"']);
    }
    out.append("\"");
    append_json_escaped(out, s);
    out.append("\"");
    proof {
        assert(out@ =~= old(out)@ + json_string(s@));
    }
}

/// Serialises the flattened pairs as one JSON object string, members in
/// pair order, exactly as [`json_object_str`] says. A repeated key yields a
/// repeated member, the later occurrence after the earlier; this function
/// resolves nothing.
pub fn serialise(pairs: &Vec<(String, String)>) -> (r: String)
    ensures
        r@ == json_object_str(string_pairs_view(pairs@)),
{
    let ghost pv = string_pairs_view(pairs@);
    let mut out = String::new();
    proof {
        reveal_strlit("{");
        reveal_strlit("}");
        reveal_strlit(",");
        assert("{"@ =~= seq!['{']);
        assert("}"@ =~= seq!['}']);
        assert(","@ =~= seq![',']);
    }
    out.append("{");
    let mut i: usize = 0;
    proof {
        assert(pv.take(0) =~= Seq::<(Seq<char>, Seq<char>)>::empty());
        assert(out@ =~= seq!['{'] + json_members(pv.take(0)));
    }
    while i < pairs.len()
        invariant
            i <= pairs@.len(),
            pv == string_pairs_view(pairs@),
            pv.len() == pairs@.len(),
            out@ == seq!['{'] + json_members(pv.take(i as int)),
        decreases pairs@.len() - i,
    {
        if i > 0 {
            proof {
                reveal_strlit(",");
                assert(","@ =~= seq![',']);
            }
            out.append(",");
        }
        append_json_string(&mut out, pairs[i].0.as_str());
        proof {
            reveal_strlit(":");
            assert(":"@ =~= seq![':']);
        }
        out.append(":");
        append_json_string(&mut out, pairs[i].1.as_str());
        proof {
            assert(pv.take(i as int + 1).drop_last() =~= pv.take(i as int));
            assert(pv.take(i as int + 1).last() == pv[i as int]);
            assert(pv.take(i as int + 1).len() == i + 1);
            assert(pv[i as int] == (pairs@[i as int].0@, pairs@[i as int].1@));
            if i == 0 {
                assert(json_members(pv.take(1)) == json_member(pv[0]));
            } else {
                assert(json_members(pv.take(i as int + 1)) == json_members(pv.take(i as int))
                    + seq![','] + json_member(pv[i as int]));
            }
            assert(out@ =~= seq!['{'] + json_members(pv.take(i as int + 1)));
        }
        i += 1;
    }
    proof {
        assert(pv.take(pairs@.len() as int) =~= pv);
    }
    proof {
        reveal_strlit("}");
        assert("}"@ =~= seq!['}']);
    }
    out.append("}");
    proof {
        assert(out@ =~= json_object_str(pv));
    }
    out
}

/// Builds the entry a record is stored as: the partition is the source plus
/// the calendar date of the record's timestamp.
pub fn entry(source: &str, created: i64, json: &str) -> (e: Entry)
    requires
        MIN_TIMESTAMP_MS <= created <= MAX_TIMESTAMP_MS,
    ensures
        e@.partition.source == source@,
        (
            e@.partition.date.year as int,
            e@.partition.date.month as int,
            e@.partition.date.day as int,
        ) == civil_date_of(created as int),
        e@.partition.date.valid(),
        e@.created == created as int,
        e@.payload == json@,
{
    let date = date_of_timestamp(created);
    let partition = Partition::new(source, date);
    Entry::new(partition, created, json)
}

/// The verified heart of notification processing: flattens the parsed event,
/// serialises the pairs to the record's JSON payload, and keys the entry by
/// the event's source and the notification's calendar date.
pub fn entry_from(event: &Event, notification: &Notification) -> (e: Entry)
    requires
        MIN_TIMESTAMP_MS <= notification@.created <= MAX_TIMESTAMP_MS,
    ensures
        e@.partition.source == event@.request.source,
        (
            e@.partition.date.year as int,
            e@.partition.date.month as int,
            e@.partition.date.day as int,
        ) == civil_date_of(notification@.created),
        e@.created == notification@.created,
        e@.payload == json_object_str(apply_spec(event@, notification@)),
{
    let flattened = apply(event, notification);
    let json = serialise(&flattened);
    entry(event.request().source(), notification.created(), json.as_str())
}

} // verus!
