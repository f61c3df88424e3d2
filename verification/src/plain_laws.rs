//! What holds of the plain things both sides are made of: text, numbers,
//! headers, documents, and what stands for each in specifications.

use crate::client::{self, Received};
use crate::encoding::{self, Decoding};
use crate::failure::{Arrived, ArrivedView, Failure, FailureView};
use crate::json::{self, Json, Reading, Tree};
use crate::message::{self, HeadersView, Request, Response, ResponseView};
use crate::model::{self, EventView, HeldView, Outcome, Reply};
use crate::receiving::{self, Step, StepView};
use crate::session::Event;
use crate::table;
use crate::text;
use vstd::prelude::*;
use vstd::utf8;

verus! {

/// Whether two characters are one but for the case of an ASCII letter.
pub open spec fn one_letter(a: char, b: char) -> bool {
    ||| a == b
    ||| 'A' <= a <= 'Z' && b as u32 == a as u32 + 32
    ||| 'A' <= b <= 'Z' && a as u32 == b as u32 + 32
}

/// Whether two names are one but for the case of ASCII letters.
pub open spec fn one_name(a: Seq<char>, b: Seq<char>) -> bool {
    &&& a.len() == b.len()
    &&& forall|i: int| 0 <= i < a.len() ==> one_letter(#[trigger] a[i], b[i])
}

/// Whether the header at `at` is the first that is called `name`.
pub open spec fn first_called(headers: HeadersView, name: Seq<char>, at: int) -> bool {
    &&& 0 <= at < headers.len()
    &&& one_name(headers[at].0, name)
    &&& forall|i: int| 0 <= i < at ==> !one_name((#[trigger] headers[i]).0, name)
}

/// The text of the field `name` of an object; empty, where there is none.
pub open spec fn text_at(tree: Tree, name: Seq<char>) -> Seq<char> {
    match tree {
        Tree::Object(fields) => if fields.contains_key(name) && fields[name] is Text {
            fields[name]->Text_0
        } else {
            Seq::empty()
        },
        _ => Seq::empty(),
    }
}

/// An object with the one field `name`.
pub open spec fn only(name: Seq<char>, value: Tree) -> Tree {
    Tree::Object(Map::<Seq<char>, Tree>::empty().insert(name, value))
}

/// Two names are the same to a header exactly where they are one but for
/// the case of ASCII letters.
pub proof fn law_names_alike(a: Seq<char>, b: Seq<char>)
    ensures
        text::same_but_for_case(a, b) <==> one_name(a, b),
{
    let smalled = |c: char| text::small(c);
    let a_small = a.map_values(smalled);
    let b_small = b.map_values(smalled);
    assert forall|x: char, y: char| #[trigger] text::small(x) == #[trigger] text::small(y)
        <==> one_letter(x, y) by {}
    if one_name(a, b) {
        assert forall|i: int| 0 <= i < a.len() implies a_small[i] == b_small[i] by {
            assert(one_letter(a[i], b[i]));
            assert(text::small(a[i]) == text::small(b[i]));
        }
        assert(a_small == b_small);
    }
    if a_small == b_small {
        assert(a_small.len() == a.len() && b_small.len() == b.len());
        assert forall|i: int| 0 <= i < a.len() implies one_letter(#[trigger] a[i], b[i]) by {
            assert(a_small[i] == text::small(a[i]) && b_small[i] == text::small(b[i]));
        }
    }
}

/// A header is found exactly where one is called so, and the first counts.
pub proof fn law_first_header_counts(headers: HeadersView, name: Seq<char>)
    ensures
        match message::header_named(headers, name) {
            Some(value) => exists|at: int| #[trigger]
                first_called(headers, name, at) && headers[at].1 == value,
            None => forall|i: int|
                0 <= i < headers.len() ==> !one_name((#[trigger] headers[i]).0, name),
        },
        forall|at: int| #[trigger]
            first_called(headers, name, at) ==> message::header_named(headers, name) == Some(
                headers[at].1,
            ),
    decreases headers.len(),
{
    if headers.len() > 0 {
        law_names_alike(headers[0].0, name);
        let rest = headers.drop_first();
        law_first_header_counts(rest, name);
        if one_name(headers[0].0, name) {
            assert(first_called(headers, name, 0));
            assert forall|at: int| #[trigger] first_called(headers, name, at) implies at == 0 by {
                if at > 0 {
                    assert(!one_name(headers[0].0, name));
                }
            }
        } else {
            assert forall|at: int| #[trigger] first_called(headers, name, at) implies first_called(
                rest,
                name,
                at - 1,
            ) && rest[at - 1] == headers[at] by {
                assert(at != 0);
                assert forall|i: int| 0 <= i < at - 1 implies !one_name(
                    (#[trigger] rest[i]).0,
                    name,
                ) by {
                    assert(headers[i + 1] == rest[i]);
                }
            }
            assert forall|at: int| #[trigger] first_called(rest, name, at) implies first_called(
                headers,
                name,
                at + 1,
            ) && rest[at] == headers[at + 1] by {
                assert forall|i: int| 0 <= i < at + 1 implies !one_name(
                    (#[trigger] headers[i]).0,
                    name,
                ) by {
                    if i > 0 {
                        assert(rest[i - 1] == headers[i]);
                    }
                }
            }
            match message::header_named(headers, name) {
                Some(value) => {
                    let at = choose|at: int| #[trigger]
                        first_called(rest, name, at) && rest[at].1 == value;
                    assert(first_called(headers, name, at + 1));
                },
                None => {
                    assert forall|i: int| 0 <= i < headers.len() implies !one_name(
                        (#[trigger] headers[i]).0,
                        name,
                    ) by {
                        if i > 0 {
                            assert(rest[i - 1] == headers[i]);
                        }
                    }
                },
            }
        }
    }
}

/// What is left behind a prefix is what makes the text with it.
pub proof fn law_stripped(text: Seq<char>, prefix: Seq<char>, rest: Seq<char>)
    ensures
        text::stripped(text, prefix) == Some(rest) <==> text == prefix + rest,
{
    if text == prefix + rest {
        assert(text.take(prefix.len() as int) == prefix);
        assert(text.skip(prefix.len() as int) == rest);
    }
    if text::stripped(text, prefix) == Some(rest) {
        assert(text == prefix + text.skip(prefix.len() as int));
    }
}

/// A text is parted at a mark with none behind it.
pub proof fn law_parted(text: Seq<char>, mark: char, before: Seq<char>, behind: Seq<char>)
    ensures
        text::parted_at_last(text, mark) == Some((before, behind)) <==> text == before.push(mark)
            + behind && !behind.contains(mark),
        text::parted_at_last(text, mark) is None <==> !text.contains(mark),
{
    text::lemma_parts_at_last(text, mark);
    if text == before.push(mark) + behind && !behind.contains(mark) {
        text::lemma_parted_at_last(before, mark, behind);
    }
    if let Some((b, e)) = text::parted_at_last(text, mark) {
        assert(text[b.len() as int] == mark);
    }
}

/// A number in decimal: one digit for each ten it is more, the last digit
/// last, and no two numbers alike.
pub proof fn law_decimal(number: nat, digit: nat, other: nat)
    requires
        digit < 10,
    ensures
        text::decimal(digit) == seq![(48 + digit) as char],
        number > 0 ==> text::decimal(10 * number + digit) == text::decimal(number).push(
            (48 + digit) as char,
        ),
        text::decimal(number) == text::decimal(other) ==> number == other,
{
    if number > 0 {
        assert((10 * number + digit) / 10 == number && (10 * number + digit) % 10 == digit);
    }
    if text::decimal(number) == text::decimal(other) {
        text::lemma_decimal_injective(number, other);
    }
}

/// The order of texts is the order of the first characters that differ, and
/// a text comes before what it begins.
pub proof fn law_order_of_texts(
    shared: Seq<char>,
    a: char,
    after_a: Seq<char>,
    b: char,
    after_b: Seq<char>,
)
    ensures
        a < b ==> text::precedes(shared.push(a) + after_a, shared.push(b) + after_b),
        a < b ==> !text::precedes(shared.push(b) + after_b, shared.push(a) + after_a),
        text::precedes(shared, shared.push(a) + after_a),
        !text::precedes(shared.push(a) + after_a, shared),
        !text::precedes(shared, shared),
    decreases shared.len(),
{
    if shared.len() > 0 {
        let rest = shared.drop_first();
        law_order_of_texts(rest, a, after_a, b, after_b);
        assert((shared.push(a) + after_a).drop_first() == rest.push(a) + after_a);
        assert((shared.push(b) + after_b).drop_first() == rest.push(b) + after_b);
    }
}

/// An object with a field set has it, and its other fields as they were.
pub proof fn law_fields(fields: Map<Seq<char>, Tree>, name: Seq<char>, value: Tree, other: Seq<char>)
    ensures
        Tree::Object(fields).with(name, value) == Tree::Object(fields.insert(name, value)),
        Tree::Object(fields).field(name) == if fields.contains_key(name) {
            Some(fields[name])
        } else {
            None
        },
        Tree::Object(fields).with(name, value).field(name) == Some(value),
        name != other ==> Tree::Object(fields).with(name, value).field(other) == Tree::Object(
            fields,
        ).field(other),
        !(value is Object) ==> value.field(name) is None,
        json::no_fields() == Tree::Object(Map::<Seq<char>, Tree>::empty()),
        Tree::Object(fields).has_fields() <==> exists|n: Seq<char>| #[trigger]
            fields.contains_key(n),
        !(value is Object) ==> !value.has_fields(),
{
    if fields != Map::<Seq<char>, Tree>::empty() {
        if forall|n: Seq<char>| !#[trigger] fields.contains_key(n) {
            assert(fields.dom() =~= Set::<Seq<char>>::empty());
            assert(fields =~= Map::<Seq<char>, Tree>::empty());
        }
    }
}

/// The text of a field is there where the field is a text, and empty
/// everywhere else.
pub proof fn law_text_of_a_field(tree: Tree, name: Seq<char>, texts: Seq<Seq<char>>)
    ensures
        json::text_or_empty(tree.field(name)) == text_at(tree, name),
        json::text_list(texts) is Array,
        json::text_list(texts)->Array_0.len() == texts.len(),
        forall|i: int|
            0 <= i < texts.len() ==> (#[trigger] json::text_list(texts)->Array_0[i]) == Tree::Text(
                texts[i],
            ),
{
}

/// A document says what stands in it: of an object, each field once, the
/// later of two with one name.
pub proof fn law_said(
    text: String,
    number: u64,
    items: Vec<Json>,
    fields: Vec<(String, Json)>,
    at: int,
    name: Seq<char>,
)
    ensures
        Json::Text(text)@ == Tree::Text(text@),
        Json::Number(number)@ == Tree::Number(number),
        Json::Other@ == Tree::Other,
        Json::Array(items)@ is Array,
        Json::Array(items)@->Array_0.len() == items@.len(),
        0 <= at < items@.len() ==> Json::Array(items)@->Array_0[at] == items@[at]@,
        Json::Object(fields)@ is Object,
        0 <= at < fields@.len() && fields@[at].0@ == name && (forall|i: int|
            at < i < fields@.len() ==> (#[trigger] fields@[i]).0@ != name)
            ==> Json::Object(fields)@.field(name) == Some(fields@[at].1@),
        (forall|i: int| 0 <= i < fields@.len() ==> (#[trigger] fields@[i]).0@ != name)
            ==> Json::Object(fields)@.field(name) is None,
{
    let pairs = json::said_fields(fields@);
    assert forall|i: int| 0 <= i < pairs.len() implies (#[trigger] pairs[i]).0 == fields@[i].0@
        && pairs[i].1 == fields@[i].1@ by {}
    table::lemma_gathered_keys(pairs);
    if 0 <= at < fields@.len() && fields@[at].0@ == name && (forall|i: int|
        at < i < fields@.len() ==> (#[trigger] fields@[i]).0@ != name) {
        assert forall|i: int| at < i < pairs.len() implies (#[trigger] pairs[i]).0 != name by {
            assert(fields@[i].0@ != name);
        }
        law_later_pair_counts(pairs, at);
    }
}

/// Of two pairs with one key the later is in the map they make.
pub proof fn law_later_pair_counts<V>(pairs: Seq<(Seq<char>, V)>, at: int)
    requires
        0 <= at < pairs.len(),
        forall|i: int| at < i < pairs.len() ==> (#[trigger] pairs[i]).0 != pairs[at].0,
    ensures
        table::gathered(pairs).contains_key(pairs[at].0),
        table::gathered(pairs)[pairs[at].0] == pairs[at].1,
    decreases pairs.len(),
{
    if at < pairs.len() - 1 {
        let fewer = pairs.drop_last();
        assert forall|i: int| at < i < fewer.len() implies (#[trigger] fewer[i]).0 != fewer[at].0 by {
            assert(pairs[i] == fewer[i]);
        }
        law_later_pair_counts(fewer, at);
        assert(pairs[pairs.len() - 1].0 != pairs[at].0);
    }
}

/// What can be written holds nothing that cannot.
pub proof fn law_writable(tree: Tree, depth: nat)
    requires
        tree.writable(depth),
    ensures
        !(tree is Other),
        (tree is Array || tree is Object) ==> depth > 0,
        tree matches Tree::Array(items) ==> forall|i: int|
            0 <= i < items.len() ==> (#[trigger] items[i]).writable((depth - 1) as nat),
        tree matches Tree::Object(fields) ==> forall|name: Seq<char>| #[trigger]
            fields.contains_key(name) ==> fields[name].writable((depth - 1) as nat),
        json::DEEPEST == 127,
{
}

/// Bytes are read and texts decoded as what came of it, nothing of it lost.
pub proof fn law_readings(
    read: Result<Json, String>,
    decoded: Result<Vec<u8>, String>,
    tree: Tree,
)
    ensures
        match read {
            Ok(json) => json::reading(read) == Reading::Ok(json@),
            Err(why) => json::reading(read) == Reading::Err(why@),
        },
        match decoded {
            Ok(bytes) => encoding::decoding(decoded) == Decoding::Ok(bytes@),
            Err(why) => encoding::decoding(decoded) == Decoding::Err(why@),
        },
        json::json_bytes(tree) == utf8::encode_utf8(json::json_rendered(tree)),
{
}

/// A response that says a reply has its status, one header, and its body,
/// and is read back as it.
pub proof fn law_response_says(response: ResponseView, reply: Reply)
    ensures
        response.says(reply) <==> {
            &&& response.status == reply.status
            &&& response.headers.len() == 1
            &&& response.headers[0] == ("Content-Type"@, "application/json; charset=UTF-8"@)
            &&& response.body == utf8::encode_utf8(json::json_rendered(reply.body))
            &&& json::json_decoded(response.body) == Reading::Ok(reply.body)
        },
{
    if response.headers.len() == 1 && response.headers[0] == (
        "Content-Type"@,
        "application/json; charset=UTF-8"@,
    ) {
        assert(response.headers == seq![
            ("Content-Type"@, "application/json; charset=UTF-8"@),
        ]);
    }
}

/// Nothing of a Stream, a received message, a request or a response is lost
/// in what stands for it.
pub proof fn law_messages_stand_for_themselves(
    arrived: Arrived,
    received: Received,
    request: Request,
    response: Response,
    at: int,
)
    ensures
        arrived@.origin_uri == arrived.origin_uri@,
        arrived@.bytes == arrived.bytes@,
        received@.ack_id == received.ack_id@,
        received@.id == received.id@,
        received@.data == received.data@,
        request@.method == request.method@,
        request@.path == request.path@,
        request@.body == request.body@,
        request@.headers.len() == request.headers@.len(),
        0 <= at < request.headers@.len() ==> request@.headers[at] == (
            request.headers@[at].0@,
            request.headers@[at].1@,
        ),
        response@.status == response.status,
        response@.body == response.body@,
        response@.headers.len() == response.headers@.len(),
        0 <= at < response.headers@.len() ==> response@.headers[at] == (
            response.headers@[at].0@,
            response.headers@[at].1@,
        ),
{
}

/// Nothing of a list is lost in what stands for it.
pub proof fn law_lists_stand_for_themselves(
    arrived: Seq<Arrived>,
    received: Seq<Received>,
    payloads: Seq<Vec<u8>>,
    held: Seq<HeldView>,
    at: int,
)
    ensures
        receiving::arrived_views(arrived).len() == arrived.len(),
        0 <= at < arrived.len() ==> receiving::arrived_views(arrived)[at] == arrived[at]@,
        client::received_views(received).len() == received.len(),
        0 <= at < received.len() ==> client::received_views(received)[at] == received[at]@,
        model::contents(payloads).len() == payloads.len(),
        0 <= at < payloads.len() ==> model::contents(payloads)[at] == payloads[at]@,
        model::ids_of(held).len() == held.len(),
        0 <= at < held.len() ==> model::ids_of(held)[at] == held[at].id,
{
}

/// A failure says what it is: its words, and whether to try again, which is
/// never of what cannot be done, and not said of a broken protocol.
pub proof fn law_failures(failure: Failure)
    ensures
        match failure {
            Failure::Permanent(message) => failure@ == FailureView::Permanent(message@)
                && failure@.message() == message@ && failure@.retryable() == Some(false),
            Failure::Protocol(message) => failure@ == FailureView::Protocol(message@)
                && failure@.message() == message@ && failure@.retryable() is None,
            Failure::Answered { message, retryable } => failure@ == FailureView::Answered {
                message: message@,
                retryable,
            } && failure@.message() == message@ && failure@.retryable() == Some(retryable),
            Failure::Endpoint { message, retryable } => failure@ == FailureView::Endpoint {
                message: message@,
                retryable,
            } && failure@.message() == message@ && failure@.retryable() == Some(retryable),
        },
{
}

/// A result fails with a failure exactly where it is that failure.
pub proof fn law_fails<T>(result: Result<T, FailureView>, failure: Failure)
    ensures
        client::fails(result, failure) <==> result == Err::<T, FailureView>(failure@),
{
}

/// An event says what the client did, nothing of it lost.
pub proof fn law_events(event: Event, at: int)
    ensures
        match event {
            Event::Published(arrived) => event@ == EventView::Published(
                ArrivedView { origin_uri: arrived.origin_uri@, bytes: arrived.bytes@ },
            ),
            Event::Pulled { subscription, count } => event@ == (EventView::Pulled {
                subscription: subscription@,
                count: count as nat,
            }),
            Event::Acknowledged(ids) => {
                &&& event@ is Acknowledged
                &&& event@->Acknowledged_0.len() == ids@.len()
                &&& 0 <= at < ids@.len() ==> event@->Acknowledged_0[at] == ids@[at]@
            },
            Event::Refused(status) => event@ == EventView::Refused(status@),
        },
{
}

/// An outcome is one that a machine holds exactly where its next number is.
pub proof fn law_numbers(outcome: Outcome)
    ensures
        outcome.numbered() <==> outcome.session.next <= usize::MAX,
{
}

/// How far a receive has come, nothing of it lost.
pub proof fn law_steps(step: Step, at: int)
    ensures
        match step {
            Step::More(next) => step@ == StepView::More(next@),
            Step::Done(arrived) => {
                &&& step@ is Done
                &&& step@->Done_0.len() == arrived@.len()
                &&& 0 <= at < arrived@.len() ==> step@->Done_0[at] == arrived@[at]@
            },
        },
{
}

/// Each of a list of documents says what it says.
pub proof fn law_said_each(items: Seq<Json>, at: int)
    ensures
        json::said_each(items).len() == items.len(),
        0 <= at < items.len() ==> json::said_each(items)[at] == items[at]@,
{
}

/// Pairs make the map that holds them, one put in after the other; and keys
/// ascend where each comes before those behind it.
pub proof fn law_pairs<V>(
    pairs: Seq<(Seq<char>, V)>,
    key: Seq<char>,
    value: V,
    i: int,
    j: int,
)
    ensures
        table::gathered(Seq::<(Seq<char>, V)>::empty()) == Map::<Seq<char>, V>::empty(),
        table::gathered(pairs.push((key, value))) == table::gathered(pairs).insert(key, value),
        table::keys_ascend(pairs) && 0 <= i < j < pairs.len() ==> text::precedes(
            pairs[i].0,
            pairs[j].0,
        ),
        table::keys_differ(pairs) && 0 <= i < j < pairs.len() ==> pairs[i].0 != pairs[j].0,
{
    assert(pairs.push((key, value)).drop_last() == pairs);
}

} // verus!
