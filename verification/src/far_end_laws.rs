//! What the far end does with each request, said of the request, of what it
//! held before and of what it holds and answers after.

use crate::encoding::{self, Decoding};
use crate::failure::ArrivedView;
use crate::json::{Reading, Tree};
use crate::laws;
use crate::message::{HeadersView, RequestView};
use crate::model::{self, EventView, HeldView, Outcome, SessionView};
use crate::plain_laws;
use crate::text;
use vstd::prelude::*;

verus! {

/// Whether `headers` present `token`: the first authorization bears it.
pub open spec fn presents(headers: HeadersView, token: Seq<char>) -> bool {
    exists|at: int| #[trigger]
        plain_laws::first_called(headers, "authorization"@, at) && headers[at].1 == "Bearer "@
            + token
}

/// Whether `path` is that of `verb` on `resource`.
pub open spec fn path_of(path: Seq<char>, resource: Seq<char>, verb: Seq<char>) -> bool {
    path == "/v1/"@ + resource + ":"@ + verb
}

/// Whether a request was answered with an error and changed nothing.
pub open spec fn refused_with(
    outcome: Outcome,
    session: SessionView,
    code: u16,
    status: Seq<char>,
    message: Seq<char>,
) -> bool {
    &&& outcome.session == session
    &&& outcome.event == EventView::Refused(status)
    &&& outcome.handed.len() == 0
    &&& outcome.reply.status == code
    &&& outcome.reply.body == plain_laws::only(
        "error"@,
        Tree::Object(
            Map::<Seq<char>, Tree>::empty().insert("code"@, Tree::Number(code as u64)).insert(
                "message"@,
                Tree::Text(message),
            ).insert("status"@, Tree::Text(status)),
        ),
    )
}

/// Whether a session differs from another in what it holds and its numbers
/// at most.
pub open spec fn holds_on(after: SessionView, before: SessionView) -> bool {
    &&& after.token == before.token
    &&& after.subscriptions == before.subscriptions
    &&& after.timeout == before.timeout
}

/// Whether two sessions hold the same on every topic but `topic`.
pub open spec fn alike_but_on(after: SessionView, before: SessionView, topic: Seq<char>) -> bool {
    &&& after.topics.dom() == before.topics.dom().insert(topic)
    &&& forall|name: Seq<char>|
        name != topic && before.topics.contains_key(name) ==> #[trigger] after.topics[name]
            == before.topics[name]
}

/// The messages on `topic`; none, where nothing was ever there.
pub open spec fn on_topic(session: SessionView, topic: Seq<char>) -> Seq<HeldView> {
    if session.topics.contains_key(topic) {
        session.topics[topic]
    } else {
        Seq::empty()
    }
}

/// Whether a message has an attribute.
pub open spec fn has_attribute(message: Tree) -> bool {
    message matches Tree::Object(fields) && fields.contains_key("attributes"@) && (
    fields["attributes"@] matches Tree::Object(attributes) && exists|name: Seq<char>| #[trigger]
        attributes.contains_key(name))
}

/// Whether a message carries `payload`: its data decodes as it, and it is
/// within what the service carries.
pub open spec fn carries(message: Tree, payload: Seq<u8>) -> bool {
    &&& encoding::base64_decoded(plain_laws::text_at(message, "data"@)) == Decoding::Ok(payload)
    &&& payload.len() <= 10_485_760
    &&& payload.len() > 0 || has_attribute(message)
}

/// Whether `part` is what stands in `whole` at `places`, in order.
pub open spec fn picked(places: Seq<int>, whole: Seq<HeldView>, part: Seq<HeldView>) -> bool {
    &&& places.len() == part.len()
    &&& forall|k: int|
        0 <= k < places.len() ==> 0 <= #[trigger] places[k] < whole.len() && part[k]
            == whole[places[k]]
    &&& forall|k: int, l: int|
        0 <= k < l < places.len() ==> #[trigger] places[k] < #[trigger] places[l]
}

/// A token is presented where the authorization that is found bears it.
proof fn lemma_presents(headers: HeadersView, token: Seq<char>)
    ensures
        presents(headers, token) <==> crate::message::header_named(headers, "authorization"@)
            == Some("Bearer "@ + token),
{
    plain_laws::law_first_header_counts(headers, "authorization"@);
}

/// A request that does not present the token is refused, whatever it is.
pub proof fn law_unpresented(session: SessionView, request: RequestView, read: Reading)
    requires
        !presents(request.headers, session.token),
    ensures
        refused_with(
            session.answers(request, read),
            session,
            401,
            "UNAUTHENTICATED"@,
            "Request had invalid credentials"@,
        ),
{
    lemma_presents(request.headers, session.token);
}

/// A path that is not that of a verb on a resource is not found, whatever
/// comes with it.
pub proof fn law_no_call(session: SessionView, request: RequestView, read: Reading)
    requires
        presents(request.headers, session.token),
        forall|resource: Seq<char>, verb: Seq<char>| !#[trigger]
            path_of(request.path, resource, verb),
    ensures
        refused_with(
            session.answers(request, read),
            session,
            404,
            "NOT_FOUND"@,
            "Not a resource and a verb"@,
        ),
{
    lemma_presents(request.headers, session.token);
    if let Some((resource, verb)) = model::resource_and_verb(request.path) {
        let rest = text::stripped(request.path, "/v1/"@)->0;
        plain_laws::law_stripped(request.path, "/v1/"@, rest);
        plain_laws::law_parted(rest, ':', resource, verb);
        reveal_strlit(":");
        assert("/v1/"@ + (resource.push(':') + verb) == "/v1/"@ + resource + ":"@ + verb);
        assert(path_of(request.path, resource, verb));
    }
}

/// A call whose body is no JSON is refused with the reason, whatever is
/// called.
pub proof fn law_no_json(
    session: SessionView,
    request: RequestView,
    resource: Seq<char>,
    verb: Seq<char>,
    why: Seq<char>,
)
    requires
        presents(request.headers, session.token),
        path_of(request.path, resource, verb),
    ensures
        refused_with(
            session.answers(request, Reading::Err(why)),
            session,
            400,
            "INVALID_ARGUMENT"@,
            "Not JSON: "@ + why,
        ),
{
    lemma_presents(request.headers, session.token);
    let rest = resource + ":"@ + verb;
    reveal_strlit(":");
    assert(request.path == "/v1/"@ + rest);
    plain_laws::law_stripped(request.path, "/v1/"@, rest);
    assert(rest[resource.len() as int] == ':');
    plain_laws::law_parted(rest, ':', resource, verb);
}

/// A call that is none of the three is not found.
pub proof fn law_none_of_the_three(
    session: SessionView,
    request: RequestView,
    resource: Seq<char>,
    verb: Seq<char>,
    document: Tree,
)
    requires
        presents(request.headers, session.token),
        path_of(request.path, resource, verb),
        !verb.contains(':'),
        request.method != "POST"@ || (verb != "publish"@ && verb != "pull"@ && verb
            != "acknowledge"@),
    ensures
        refused_with(
            session.answers(request, Reading::Ok(document)),
            session,
            404,
            "NOT_FOUND"@,
            "Not one of the three calls"@,
        ),
{
    lemma_presents(request.headers, session.token);
    laws::law_path_names_the_call(resource, verb);
}

/// Each of the three calls does to the resource what its verb says.
pub proof fn law_three_calls(
    session: SessionView,
    request: RequestView,
    resource: Seq<char>,
    document: Tree,
)
    requires
        presents(request.headers, session.token),
        request.method == "POST"@,
    ensures
        path_of(request.path, resource, "publish"@) ==> session.answers(
            request,
            Reading::Ok(document),
        ) == session.publishes(resource, document),
        path_of(request.path, resource, "pull"@) ==> session.answers(
            request,
            Reading::Ok(document),
        ) == session.pulls(resource, document),
        path_of(request.path, resource, "acknowledge"@) ==> session.answers(
            request,
            Reading::Ok(document),
        ) == session.acknowledges(resource, document),
{
    lemma_presents(request.headers, session.token);
    laws::lemma_verbs();
    laws::law_path_names_the_call(resource, "publish"@);
    laws::law_path_names_the_call(resource, "pull"@);
    laws::law_path_names_the_call(resource, "acknowledge"@);
}

/// A publish that names no list of messages is refused.
pub proof fn law_publish_without_messages(session: SessionView, topic: Seq<char>, document: Tree)
    requires
        !(document matches Tree::Object(fields) && fields.contains_key("messages"@)
            && fields["messages"@] is Array),
    ensures
        refused_with(
            session.publishes(topic, document),
            session,
            400,
            "INVALID_ARGUMENT"@,
            "A publish names messages"@,
        ),
{
}

/// A publish of no message is refused.
pub proof fn law_publish_of_none(
    session: SessionView,
    topic: Seq<char>,
    fields: Map<Seq<char>, Tree>,
)
    requires
        fields.contains_key("messages"@),
        fields["messages"@] == Tree::Array(Seq::empty()),
    ensures
        refused_with(
            session.publishes(topic, Tree::Object(fields)),
            session,
            400,
            "INVALID_ARGUMENT"@,
            "A publish with no messages"@,
        ),
{
    assert(model::payloads_of(Seq::<Tree>::empty()) == Ok::<Seq<Seq<u8>>, Seq<char>>(Seq::empty()));
}

/// The number that a refusal for size names.
pub proof fn lemma_ceiling_in_decimal()
    ensures
        text::decimal(10_485_760) == "10485760"@,
{
    reveal_with_fuel(text::decimal, 9);
    reveal_strlit("10485760");
    assert(text::decimal(10_485_760) =~= "10485760"@);
}

/// What one message of a publish carries is its data, whole, whatever other
/// fields it has; and it is refused where the data is no base64, too large,
/// or nothing without an attribute.
pub proof fn law_message_carries_its_data(message: Tree)
    ensures
        match encoding::base64_decoded(plain_laws::text_at(message, "data"@)) {
            Err(why) => model::message_payload(message) == Decoding::Err("Not base64: "@ + why),
            Ok(data) => if data.len() > 10_485_760 {
                model::message_payload(message) == Decoding::Err(
                    "Request payload size exceeds the limit: "@ + "10485760"@ + " bytes."@,
                )
            } else if data.len() > 0 || has_attribute(message) {
                model::message_payload(message) == Decoding::Ok(data)
            } else {
                model::message_payload(message) == Decoding::Err(
                    "a message has data or an attribute, and an empty Stream has neither"@,
                )
            },
        },
{
    lemma_ceiling_in_decimal();
    if let Tree::Object(fields) = message {
        if fields.contains_key("attributes"@) {
            if let Tree::Object(attributes) = fields["attributes"@] {
                plain_laws::law_fields(attributes, ""@, Tree::Other, ""@);
            }
        }
    }
}

/// Messages that all carry something carry each its own.
proof fn lemma_payloads(messages: Seq<Tree>, payloads: Seq<Seq<u8>>)
    requires
        messages.len() == payloads.len(),
        forall|i: int| 0 <= i < messages.len() ==> carries(#[trigger] messages[i], payloads[i]),
    ensures
        model::payloads_of(messages) == Ok::<Seq<Seq<u8>>, Seq<char>>(payloads),
    decreases messages.len(),
{
    if messages.len() > 0 {
        let fewer = messages.drop_last();
        assert forall|i: int| 0 <= i < fewer.len() implies carries(
            #[trigger] fewer[i],
            payloads.drop_last()[i],
        ) by {
            assert(messages[i] == fewer[i]);
        }
        lemma_payloads(fewer, payloads.drop_last());
        assert(carries(messages[messages.len() - 1], payloads[messages.len() - 1]));
        law_message_carries_its_data(messages.last());
        assert(payloads.drop_last().push(payloads.last()) == payloads);
    } else {
        assert(payloads == Seq::<Seq<u8>>::empty());
    }
}

/// A publish of which one message carries nothing is refused for the first
/// that does not, and none of it is taken in.
pub proof fn law_publish_refused_whole(
    session: SessionView,
    topic: Seq<char>,
    fields: Map<Seq<char>, Tree>,
    messages: Seq<Tree>,
    payloads: Seq<Seq<u8>>,
    why: Seq<char>,
)
    requires
        fields.contains_key("messages"@),
        fields["messages"@] == Tree::Array(messages),
        payloads.len() < messages.len(),
        forall|i: int| 0 <= i < payloads.len() ==> carries(#[trigger] messages[i], payloads[i]),
        model::message_payload(messages[payloads.len() as int]) == Decoding::Err(why),
    ensures
        refused_with(
            session.publishes(topic, Tree::Object(fields)),
            session,
            400,
            "INVALID_ARGUMENT"@,
            why,
        ),
{
    let n = payloads.len() as int;
    let before = messages.take(n);
    assert forall|i: int| 0 <= i < before.len() implies carries(
        #[trigger] before[i],
        payloads[i],
    ) by {
        assert(before[i] == messages[i]);
    }
    lemma_payloads(before, payloads);
    assert(messages.take(n + 1).drop_last() == before);
    assert(messages.take(n + 1).last() == messages[n]);
    model::lemma_first_refusal(messages, n, why);
}

/// A publish takes in every message it names, whole and in order, behind
/// what the topic holds, each under the next number; it tells the numbers,
/// and reports the first as the Stream that came.
pub proof fn law_publish_takes_in_all(
    session: SessionView,
    topic: Seq<char>,
    fields: Map<Seq<char>, Tree>,
    messages: Seq<Tree>,
    payloads: Seq<Seq<u8>>,
)
    requires
        fields.contains_key("messages"@),
        fields["messages"@] == Tree::Array(messages),
        messages.len() > 0,
        messages.len() == payloads.len(),
        forall|i: int| 0 <= i < messages.len() ==> carries(#[trigger] messages[i], payloads[i]),
    ensures
        ({
            let outcome = session.publishes(topic, Tree::Object(fields));
            taken_in(session, topic, payloads, outcome)
        }),
{
    lemma_payloads(messages, payloads);
    law_taken_in(session, topic, payloads);
}

/// Whether `outcome` is that of `payloads` published to `topic`.
pub open spec fn taken_in(
    session: SessionView,
    topic: Seq<char>,
    payloads: Seq<Seq<u8>>,
    outcome: Outcome,
) -> bool {
    let n = payloads.len();
    let held = on_topic(session, topic);
    let after = on_topic(outcome.session, topic);
    &&& holds_on(outcome.session, session)
    &&& outcome.session.next == session.next + n
    &&& alike_but_on(outcome.session, session, topic)
    &&& after.len() == held.len() + n
    &&& forall|i: int| 0 <= i < held.len() ==> #[trigger] after[i] == held[i]
    &&& forall|i: int|
        held.len() <= i < after.len() ==> {
            &&& (#[trigger] after[i]).id == text::decimal((session.next + i - held.len()) as nat)
            &&& after[i].data == payloads[i - held.len()]
            &&& !after[i].in_flight
        }
    &&& outcome.event == EventView::Published(
        ArrivedView {
            origin_uri: "pubsub://"@ + topic + "#"@ + text::decimal(session.next),
            bytes: payloads[0],
        },
    )
    &&& outcome.handed.len() == 0
    &&& outcome.reply.status == 200
    &&& exists|ids: Seq<Tree>|
        {
            &&& outcome.reply.body == #[trigger] plain_laws::only("messageIds"@, Tree::Array(ids))
            &&& ids.len() == n
            &&& forall|i: int|
                0 <= i < n ==> #[trigger] ids[i] == Tree::Text(
                    text::decimal((session.next + i) as nat),
                )
        }
}

/// Payloads that are published are taken in, all of them; none are refused.
pub proof fn law_taken_in(session: SessionView, topic: Seq<char>, payloads: Seq<Seq<u8>>)
    ensures
        payloads.len() > 0 ==> taken_in(
            session,
            topic,
            payloads,
            session.takes_in(topic, payloads),
        ),
        payloads.len() == 0 ==> refused_with(
            session.takes_in(topic, payloads),
            session,
            400,
            "INVALID_ARGUMENT"@,
            "A publish with no messages"@,
        ),
{
    if payloads.len() > 0 {
        let outcome = session.takes_in(topic, payloads);
        let held = on_topic(session, topic);
        let after = on_topic(outcome.session, topic);
        let new = model::numbered(payloads, session.next);
        assert(after == held + new);
        assert forall|i: int| held.len() <= i < after.len() implies {
            &&& (#[trigger] after[i]).id == text::decimal((session.next + i - held.len()) as nat)
            &&& after[i].data == payloads[i - held.len()]
            &&& !after[i].in_flight
        } by {
            assert(after[i] == new[i - held.len()]);
        }
        assert(outcome.session.topics.dom() =~= session.topics.dom().insert(topic));
        let ids = model::ids_of(new).map_values(|text: Seq<char>| Tree::Text(text));
        assert(outcome.reply.body == plain_laws::only("messageIds"@, Tree::Array(ids)));
        assert forall|i: int| 0 <= i < payloads.len() implies #[trigger] ids[i] == Tree::Text(
            text::decimal((session.next + i) as nat),
        ) by {}
    }
}

/// A subscription that nobody knows is not found, pulled from or
/// acknowledged on.
pub proof fn law_unknown_subscription(
    session: SessionView,
    subscription: Seq<char>,
    document: Tree,
)
    requires
        !session.subscriptions.contains_key(subscription),
    ensures
        refused_with(
            session.pulls(subscription, document),
            session,
            404,
            "NOT_FOUND"@,
            "Resource not found: "@ + subscription,
        ),
        refused_with(
            session.acknowledges(subscription, document),
            session,
            404,
            "NOT_FOUND"@,
            "Resource not found: "@ + subscription,
        ),
{
}

/// Whether a pull asks for `most` messages: the number it gives, and one
/// where it gives none.
pub open spec fn asks_for(document: Tree, most: nat) -> bool {
    if document matches Tree::Object(fields) && fields.contains_key("maxMessages"@)
        && fields["maxMessages"@] is Number {
        most == document->Object_0["maxMessages"@]->Number_0
    } else {
        most == 1
    }
}

/// What waits is what is not in flight, in order.
pub proof fn law_waiting(held: Seq<HeldView>) -> (places: Seq<int>)
    ensures
        picked(places, held, model::waiting(held)),
        forall|i: int|
            0 <= i < held.len() ==> (places.contains(i) <==> !(#[trigger] held[i]).in_flight),
{
    lemma_places(held, |message: HeldView| !message.in_flight)
}

/// Where what a filter leaves stood.
proof fn lemma_places(held: Seq<HeldView>, keeps: spec_fn(HeldView) -> bool) -> (places: Seq<int>)
    ensures
        picked(places, held, held.filter(keeps)),
        forall|i: int|
            0 <= i < held.len() ==> (places.contains(i) <==> keeps(#[trigger] held[i])),
    decreases held.len(),
{
    reveal(Seq::filter);
    if held.len() == 0 {
        Seq::empty()
    } else {
        let fewer = held.drop_last();
        let before = lemma_places(fewer, keeps);
        let last = held.len() - 1;
        let kept = fewer.filter(keeps);
        assert forall|k: int| 0 <= k < before.len() implies 0 <= #[trigger] before[k] < last
            && kept[k] == held[before[k]] by {}
        if keeps(held.last()) {
            let places = before.push(last);
            assert forall|i: int| 0 <= i < held.len() implies (places.contains(i) <==> keeps(
                #[trigger] held[i],
            )) by {
                if i < last {
                    assert(fewer[i] == held[i]);
                    if before.contains(i) {
                        let k = choose|k: int| 0 <= k < before.len() && before[k] == i;
                        assert(places[k] == i);
                    }
                    if places.contains(i) {
                        let k = choose|k: int| 0 <= k < places.len() && places[k] == i;
                        assert(before[k] == i);
                    }
                } else {
                    assert(places[before.len() as int] == i);
                }
            }
            places
        } else {
            assert forall|i: int| 0 <= i < held.len() implies (before.contains(i) <==> keeps(
                #[trigger] held[i],
            )) by {
                if i < last {
                    assert(fewer[i] == held[i]);
                }
            }
            before
        }
    }
}

/// The further along, the more wait.
proof fn lemma_line_grows(held: Seq<HeldView>, i: int, j: int)
    requires
        0 <= i <= j <= held.len(),
    ensures
        model::waiting(held.take(i)).len() <= model::waiting(held.take(j)).len(),
    decreases j - i,
{
    if i < j {
        lemma_line_grows(held, i, j - 1);
        model::lemma_waiting_next(held, j - 1);
    }
}

/// How many wait before the message at `i`.
spec fn in_line(held: Seq<HeldView>, i: int) -> nat {
    model::waiting(held.take(i)).len()
}

/// Whether the message at `i` waits, with `k` before it.
spec fn stands(held: Seq<HeldView>, k: int, i: int) -> bool {
    &&& 0 <= i < held.len()
    &&& !held[i].in_flight
    &&& held[i] == model::waiting(held)[k]
    &&& in_line(held, i) == k
}

/// A pull hands over as many of the messages that wait as it asks for, and
/// all where it asks for more; those that came first, in order. They are in
/// flight after it; nothing else of any message changes. It answers each
/// with its ack id, its data and its id.
pub proof fn law_pull_hands_over(
    session: SessionView,
    subscription: Seq<char>,
    document: Tree,
    most: nat,
) -> (places: Seq<int>)
    requires
        session.subscriptions.contains_key(subscription),
        asks_for(document, most),
    ensures
        ({
            let outcome = session.pulls(subscription, document);
            let topic = session.subscriptions[subscription];
            let held = on_topic(session, topic);
            let after = on_topic(outcome.session, topic);
            let handed = outcome.handed;
            let ready = model::waiting(held).len();
            &&& handed.len() == if most < ready { most } else { ready }
            &&& handed.len() <= most
            &&& picked(places, held, handed)
            &&& holds_on(outcome.session, session)
            &&& outcome.session.next == session.next
            &&& alike_but_on(outcome.session, session, topic)
            &&& after.len() == held.len()
            &&& forall|i: int|
                0 <= i < held.len() ==> {
                    &&& (#[trigger] after[i]).id == held[i].id
                    &&& after[i].data == held[i].data
                    &&& held[i].in_flight ==> after[i].in_flight && !places.contains(i)
                    &&& !held[i].in_flight ==> after[i].in_flight == places.contains(i)
                    &&& handed.len() < most ==> after[i].in_flight
                }
            &&& forall|i: int, j: int|
                0 <= i < held.len() && 0 <= j < held.len() && places.contains(i)
                    && !(#[trigger] after[j]).in_flight ==> #[trigger] after[i].in_flight && i < j
            &&& outcome.event == (EventView::Pulled { subscription, count: handed.len() })
            &&& outcome.reply.status == 200
            &&& handed.len() == 0 ==> outcome.reply.body == Tree::Object(
                Map::<Seq<char>, Tree>::empty(),
            )
            &&& handed.len() > 0 ==> exists|values: Seq<Tree>|
                {
                    &&& outcome.reply.body == #[trigger] plain_laws::only(
                        "receivedMessages"@,
                        Tree::Array(values),
                    )
                    &&& values.len() == handed.len()
                    &&& forall|k: int|
                        0 <= k < values.len() ==> shows(#[trigger] values[k], handed[k])
                }
        }),
{
    let outcome = session.pulls(subscription, document);
    let topic = session.subscriptions[subscription];
    let held = on_topic(session, topic);
    let after = on_topic(outcome.session, topic);
    let handed = outcome.handed;
    assert(model::most_asked(document) == most);
    assert(handed == model::handed_over(held, most));
    assert(after == model::after_pull(held, most));
    let places = Seq::new(handed.len(), |k: int| choose|i: int| stands(held, k, i));
    assert forall|k: int| 0 <= k < places.len() implies stands(held, k, #[trigger] places[k]) by {
        let i = laws::lemma_line_is_held(held, k);
        assert(stands(held, k, i));
    }
    assert forall|k: int, l: int| 0 <= k < l < places.len() implies #[trigger] places[k]
        < #[trigger] places[l] by {
        assert(stands(held, k, places[k]) && stands(held, l, places[l]));
        if places[k] >= places[l] {
            lemma_line_grows(held, places[l], places[k]);
        }
    }
    assert forall|k: int| 0 <= k < places.len() implies 0 <= #[trigger] places[k] < held.len()
        && handed[k] == held[places[k]] by {
        assert(stands(held, k, places[k]));
    }
    assert forall|i: int| 0 <= i < held.len() implies (places.contains(i) <==> !held[i].in_flight
        && #[trigger] in_line(held, i) < most) by {
        if places.contains(i) {
            let k = choose|k: int| 0 <= k < places.len() && places[k] == i;
            assert(stands(held, k, places[k]));
        }
        if !held[i].in_flight && in_line(held, i) < most {
            laws::lemma_place_in_line(held, i);
            let k = in_line(held, i) as int;
            assert(k < handed.len());
            assert(stands(held, k, places[k]));
            let other = places[k];
            if other < i {
                model::lemma_waiting_next(held, other);
                lemma_line_grows(held, other + 1, i);
            } else if i < other {
                model::lemma_waiting_next(held, i);
                lemma_line_grows(held, i + 1, other);
            }
            assert(places[k] == i);
        }
    }
    assert forall|i: int| 0 <= i < held.len() implies {
        &&& (#[trigger] after[i]).id == held[i].id
        &&& after[i].data == held[i].data
        &&& held[i].in_flight ==> after[i].in_flight && !places.contains(i)
        &&& !held[i].in_flight ==> after[i].in_flight == places.contains(i)
        &&& handed.len() < most ==> after[i].in_flight
    } by {
        assert(after[i].in_flight == (held[i].in_flight || in_line(held, i) < most));
        if !held[i].in_flight {
            laws::lemma_place_in_line(held, i);
        }
    }
    assert forall|i: int, j: int|
        0 <= i < held.len() && 0 <= j < held.len() && places.contains(i) && !(
        #[trigger] after[j]).in_flight implies #[trigger] after[i].in_flight && i < j by {
        assert(in_line(held, i) < most && in_line(held, j) >= most);
        if j <= i {
            lemma_line_grows(held, j, i);
        }
    }
    assert(outcome.session.topics.dom() =~= session.topics.dom().insert(topic));
    if handed.len() > 0 {
        let values = handed.map_values(|message: HeldView| model::received_message(message));
        assert(outcome.reply.body == plain_laws::only("receivedMessages"@, Tree::Array(values)));
    }
    places
}

/// Whether `value` is how a pull answers `message`.
pub open spec fn shows(value: Tree, message: HeldView) -> bool {
    value == Tree::Object(
        Map::<Seq<char>, Tree>::empty().insert("ackId"@, Tree::Text("ack-"@ + message.id)).insert(
            "message"@,
            Tree::Object(
                Map::<Seq<char>, Tree>::empty().insert(
                    "data"@,
                    Tree::Text(encoding::base64_encoded(message.data)),
                ).insert("messageId"@, Tree::Text(message.id)),
            ),
        ),
    )
}

/// What was handed over is decodable where each of it is decoded from how
/// it is answered.
pub proof fn law_decodable(messages: Seq<HeldView>, at: int)
    requires
        model::decodable(messages),
        0 <= at < messages.len(),
    ensures
        encoding::base64_decoded(encoding::base64_encoded(messages[at].data)) == Decoding::Ok(
            messages[at].data,
        ),
{
}

/// The ids that are acknowledged are what follows `ack-` in the texts that
/// begin with it, each for itself and in order; nothing else names one.
pub proof fn law_acknowledged_ids(acks: Seq<Tree>, more: Seq<Tree>, one: Tree, id: Seq<char>)
    ensures
        model::acked_ids(Seq::empty()) == Seq::<Seq<char>>::empty(),
        model::acked_ids(acks + more) == model::acked_ids(acks) + model::acked_ids(more),
        one == Tree::Text("ack-"@ + id) ==> model::acked_ids(seq![one]) == seq![id],
        (forall|rest: Seq<char>| one != Tree::Text(#[trigger] ("ack-"@ + rest)))
            ==> model::acked_ids(seq![one]) == Seq::<Seq<char>>::empty(),
    decreases more.len(),
{
    let none = Seq::<Tree>::empty();
    assert(model::acked_ids(none) == Seq::<Seq<char>>::empty());
    assert(seq![one].drop_last() == none);
    if more.len() == 0 {
        assert(acks + more == acks);
        assert(model::acked_ids(acks) + model::acked_ids(more) == model::acked_ids(acks));
    } else {
        law_acknowledged_ids(acks, more.drop_last(), one, id);
        assert((acks + more).drop_last() == acks + more.drop_last());
        assert((acks + more).last() == more.last());
        let before = model::acked_ids(acks);
        let fewer = model::acked_ids(more.drop_last());
        if let Tree::Text(ack) = more.last() {
            if let Some(named) = text::stripped(ack, "ack-"@) {
                assert((before + fewer).push(named) == before + fewer.push(named));
            }
        }
    }
    if one == Tree::Text("ack-"@ + id) {
        plain_laws::law_stripped("ack-"@ + id, "ack-"@, id);
        assert(Seq::<Seq<char>>::empty().push(id) == seq![id]);
    }
    if forall|rest: Seq<char>| one != Tree::Text(#[trigger] ("ack-"@ + rest)) {
        if let Tree::Text(ack) = one {
            if let Some(named) = text::stripped(ack, "ack-"@) {
                plain_laws::law_stripped(ack, "ack-"@, named);
                assert(one == Tree::Text("ack-"@ + named));
            }
        }
    }
}

/// Whether an acknowledgement names `acks`: the list it gives, and none
/// where it gives no list.
pub open spec fn names(document: Tree, acks: Seq<Tree>) -> bool {
    if document matches Tree::Object(fields) && fields.contains_key("ackIds"@)
        && fields["ackIds"@] is Array {
        acks == document->Object_0["ackIds"@]->Array_0
    } else {
        acks.len() == 0
    }
}

/// An acknowledgement takes away the messages that it names and that are in
/// flight; all others stay as they are, in order. It tells the ids it
/// named.
pub proof fn law_acknowledge_takes_away(
    session: SessionView,
    subscription: Seq<char>,
    document: Tree,
    acks: Seq<Tree>,
) -> (places: Seq<int>)
    requires
        session.subscriptions.contains_key(subscription),
        names(document, acks),
    ensures
        ({
            let outcome = session.acknowledges(subscription, document);
            let topic = session.subscriptions[subscription];
            let held = on_topic(session, topic);
            let left = on_topic(outcome.session, topic);
            let ids = model::acked_ids(acks);
            &&& picked(places, held, left)
            &&& forall|i: int|
                0 <= i < held.len() ==> (places.contains(i) <==> !((#[trigger] held[i]).in_flight
                    && ids.contains(held[i].id)))
            &&& holds_on(outcome.session, session)
            &&& outcome.session.next == session.next
            &&& alike_but_on(outcome.session, session, topic)
            &&& outcome.event == EventView::Acknowledged(ids)
            &&& outcome.handed.len() == 0
            &&& outcome.reply.status == 200
            &&& outcome.reply.body == Tree::Object(Map::<Seq<char>, Tree>::empty())
        }),
{
    let outcome = session.acknowledges(subscription, document);
    let topic = session.subscriptions[subscription];
    let held = on_topic(session, topic);
    let ids = model::acked_ids(acks);
    assert(model::ids_acknowledged(document) == ids) by {
        if acks.len() == 0 {
            assert(acks == Seq::<Tree>::empty());
        }
    }
    assert(outcome.session.topics.dom() =~= session.topics.dom().insert(topic));
    lemma_places(held, |message: HeldView| !(message.in_flight && ids.contains(message.id)))
}

/// Whether `uri` is the origin of the message at `at` on `topic`.
pub open spec fn origin_at(
    session: SessionView,
    uri: Seq<char>,
    topic: Seq<char>,
    at: int,
) -> bool {
    &&& session.topics.contains_key(topic)
    &&& 0 <= at < session.topics[topic].len()
    &&& uri == "pubsub://"@ + topic + "#"@ + session.topics[topic][at].id
}

/// The messages are those held on the topics, in flight or not, each with
/// its data under its origin; no two have one id, and none is larger than
/// the service carries.
pub proof fn law_messages(session: SessionView, topic: Seq<char>, at: int, uri: Seq<char>)
    requires
        session.sound(),
    ensures
        session.next > 0,
        origin_at(session, uri, topic, at) ==> session.messages().contains_key(uri)
            && session.messages()[uri] == session.topics[topic][at].data
            && session.messages()[uri].len() <= 10_485_760,
        session.messages().contains_key(uri) ==> exists|name: Seq<char>, i: int| #[trigger]
            origin_at(session, uri, name, i),
        forall|name: Seq<char>, i: int| #[trigger]
            origin_at(session, uri, name, i) && origin_at(session, uri, topic, at) ==> name == topic
                && i == at,
        forall|one: Seq<char>, i: int, other: Seq<char>, j: int|
            session.topics.contains_key(one) && 0 <= i < session.topics[one].len()
                && session.topics.contains_key(other) && 0 <= j < session.topics[other].len()
                && (#[trigger] session.topics[one][i]).id == (#[trigger] session.topics[other][j]).id
                ==> one == other && i == j,
{
    session.lemma_messages();
    if session.messages().contains_key(uri) {
        let (name, i) = choose|name: Seq<char>, i: int| #[trigger]
            session.holds_at(name, i) && uri == model::origin_of(name, session.topics[name][i].id);
        assert(origin_at(session, uri, name, i));
    }
    if origin_at(session, uri, topic, at) {
        assert(session.holds_at(topic, at));
    }
    assert forall|name: Seq<char>, i: int| #[trigger]
        origin_at(session, uri, name, i) && origin_at(session, uri, topic, at) implies name == topic
        && i == at by {
        assert(session.holds_at(name, i) && session.holds_at(topic, at));
        session.lemma_origins_differ(name, i, topic, at);
    }
    assert forall|one: Seq<char>, i: int, other: Seq<char>, j: int|
        session.topics.contains_key(one) && 0 <= i < session.topics[one].len()
            && session.topics.contains_key(other) && 0 <= j < session.topics[other].len() && (
        #[trigger] session.topics[one][i]).id == (#[trigger] session.topics[other][j]).id implies one
        == other && i == j by {
        assert(session.holds_at(one, i) && session.holds_at(other, j));
    }
}

/// An origin is `pubsub://`, where the message is, `#` and its id.
pub proof fn law_origin(topic: Seq<char>, id: Seq<char>)
    ensures
        model::origin_of(topic, id) == "pubsub://"@ + topic + "#"@ + id,
{
}

/// What a message to publish carries is what its data decodes as, whether
/// an attribute comes with it or not, where there is any data and not too
/// much; without data, nothing, and only with an attribute.
pub proof fn law_payload(decoded: Decoding, attributed: bool)
    ensures
        match decoded {
            Err(why) => model::payload_of(decoded, attributed) == Decoding::Err(
                "Not base64: "@ + why,
            ),
            Ok(data) => if data.len() > 10_485_760 {
                model::payload_of(decoded, attributed) == Decoding::Err(
                    "Request payload size exceeds the limit: "@ + "10485760"@ + " bytes."@,
                )
            } else if data.len() > 0 || attributed {
                model::payload_of(decoded, attributed) == Decoding::Ok(data)
            } else {
                model::payload_of(decoded, attributed) == Decoding::Err(
                    "a message has data or an attribute, and an empty Stream has neither"@,
                )
            },
        },
{
    lemma_ceiling_in_decimal();
}

/// A refusal is answered with its code, and with an error that holds the
/// code, the message and the status.
pub proof fn law_refusal_reply(code: u16, status: Seq<char>, message: Seq<char>)
    ensures
        model::refusal_reply(code, status, message).status == code,
        model::refusal_reply(code, status, message).body == plain_laws::only(
            "error"@,
            Tree::Object(
                Map::<Seq<char>, Tree>::empty().insert("code"@, Tree::Number(code as u64)).insert(
                    "message"@,
                    Tree::Text(message),
                ).insert("status"@, Tree::Text(status)),
            ),
        ),
{
}

} // verus!
