//! What holds of both sides together: what is published arrives, what is
//! pulled is what was published, what is acknowledged leaves, and what is
//! refused changes nothing.

use crate::client::{self, ClientView, ReceivedView};
use crate::encoding::{self, Decoding};
use crate::failure::{ArrivedView, FailureView};
use crate::json::{self, Reading, Tree};
use crate::message::{self, RequestView, ResponseView};
use crate::model::{self, EventView, HeldView, Reply, SessionView};
use crate::receiving::{self, ReceivingView, StepView};
use crate::table;
use crate::text;
use crate::{TransportView, CEILING};
use vstd::prelude::*;

verus! {

/// The path of a call names its resource and its verb, whatever the
/// resource is called.
pub proof fn law_path_names_the_call(resource: Seq<char>, verb: Seq<char>)
    requires
        !verb.contains(':'),
    ensures
        model::resource_and_verb("/v1/"@ + resource + ":"@ + verb) == Some((resource, verb)),
{
    let path = "/v1/"@ + resource + ":"@ + verb;
    let rest = resource.push(':') + verb;
    reveal_strlit(":");
    assert(path == "/v1/"@ + rest);
    assert(path.take("/v1/"@.len() as int) == "/v1/"@);
    assert(path.skip("/v1/"@.len() as int) == rest);
    text::lemma_parted_at_last(resource, ':', verb);
}

/// The verbs of the three calls hold no colon, and differ.
pub proof fn lemma_verbs()
    ensures
        !"publish"@.contains(':'),
        !"pull"@.contains(':'),
        !"acknowledge"@.contains(':'),
        "publish"@ != "pull"@,
        "publish"@ != "acknowledge"@,
        "pull"@ != "acknowledge"@,
{
    reveal_strlit("publish");
    reveal_strlit("pull");
    reveal_strlit("acknowledge");
    assert("publish"@.len() == 7 && "pull"@.len() == 4 && "acknowledge"@.len() == 11);
}

/// What a client authorizes a request with is its token.
proof fn lemma_authorization(
    client: ClientView,
    request: RequestView,
    resource: Seq<char>,
    verb: Seq<char>,
    document: Tree,
)
    requires
        client.calls(request, resource, verb, document),
    ensures
        message::header_named(request.headers, "authorization"@) == Some("Bearer "@ + client.token),
{
    reveal_strlit("Host");
    reveal_strlit("Authorization");
    reveal_strlit("authorization");
    let headers = request.headers;
    let rest = headers.drop_first();
    assert(rest[0] == headers[1]);
    let smalled = |c: char| text::small(c);
    assert("Host"@.map_values(smalled).len() != "authorization"@.map_values(smalled).len());
    assert(text::small('A') == 'a');
    assert("Authorization"@.map_values(smalled) == "authorization"@.map_values(smalled));
    assert(message::header_named(rest, "authorization"@) == Some(rest[0].1));
}

/// A request that does not present the session's token is refused with
/// 401, whatever else it says, and the session stays as it was.
pub proof fn law_token_is_asked_of_every_request(
    session: SessionView,
    request: RequestView,
    read: Reading,
)
    ensures
        message::header_named(request.headers, "authorization"@) != Some("Bearer "@ + session.token)
            <==> session.answers(request, read) == session.refuses(
            401,
            "UNAUTHENTICATED"@,
            "Request had invalid credentials"@,
        ),
{
    reveal_strlit("UNAUTHENTICATED");
    reveal_strlit("NOT_FOUND");
    reveal_strlit("INVALID_ARGUMENT");
    assert("UNAUTHENTICATED"@.len() == 15);
    assert("NOT_FOUND"@.len() == 9 && "INVALID_ARGUMENT"@.len() == 16);
    if message::header_named(request.headers, "authorization"@) == Some(session.bearer()) {
        let event = session.answers(request, read).event;
        assert(event != EventView::Refused("UNAUTHENTICATED"@));
    }
}

/// A client whose token is not the session's is refused whatever it asks
/// for, with 401, and the session stays as it was.
pub proof fn law_wrong_token_is_refused(
    client: ClientView,
    request: RequestView,
    resource: Seq<char>,
    verb: Seq<char>,
    document: Tree,
    session: SessionView,
    read: Reading,
)
    requires
        client.calls(request, resource, verb, document),
        client.token != session.token,
    ensures
        session.answers(request, read) == session.refuses(
            401,
            "UNAUTHENTICATED"@,
            "Request had invalid credentials"@,
        ),
{
    lemma_authorization(client, request, resource, verb, document);
    let bearer = "Bearer "@;
    if bearer + client.token == session.bearer() {
        assert(client.token == (bearer + client.token).skip(bearer.len() as int));
        assert(session.token == (bearer + session.token).skip(bearer.len() as int));
    }
}

/// A request that is refused leaves the session as it was.
pub proof fn law_refused_changes_nothing(session: SessionView, request: RequestView, read: Reading)
    requires
        session.answers(request, read).event is Refused,
    ensures
        session.answers(request, read).session == session,
{
}

/// A refusal reaches the client as a failure that names its status and its
/// message, and is worth repeating where the status says come back.
pub proof fn law_refusal_reaches_the_client(
    code: u16,
    status: Seq<char>,
    message: Seq<char>,
    response: ResponseView,
)
    requires
        !client::succeeds(code),
        response.says(model::refusal_reply(code, status, message)),
    ensures
        client::answer_in(response) == Err::<Tree, FailureView>(
            client::answered_failure(code, message),
        ),
        client::publish_result(response) == Err::<Seq<char>, FailureView>(
            client::answered_failure(code, message),
        ),
        client::pull_result(response) == Err::<Seq<ReceivedView>, FailureView>(
            client::answered_failure(code, message),
        ),
        client::acknowledge_result(response) == Err::<(), FailureView>(
            client::answered_failure(code, message),
        ),
{
    reveal_strlit("code");
    reveal_strlit("message");
    reveal_strlit("status");
    assert("code"@.len() == 4 && "message"@.len() == 7 && "status"@.len() == 6);
    assert(client::reason_in(Reading::Ok(model::refusal_reply(code, status, message).body)) == message);
}

/// Every answer keeps a session sound: its ids stay different, and its
/// messages within what the service carries.
pub proof fn law_answers_keep_sound(session: SessionView, request: RequestView, read: Reading)
    requires
        session.sound(),
    ensures
        session.answers(request, read).session.sound(),
{
    if let Some((resource, verb)) = model::resource_and_verb(request.path) {
        if let Ok(document) = read {
            if let Some(Tree::Array(messages)) = document.field("messages"@) {
                if let Ok(payloads) = model::payloads_of(messages) {
                    lemma_payloads_within(messages);
                    session.lemma_takes_in_sound(resource, payloads);
                }
            }
            session.lemma_pulls_sound(resource, document);
            session.lemma_acknowledges_sound(resource, document);
        }
    }
}

/// What a publish carries is within what the service carries, and as many
/// as it names.
proof fn lemma_payloads_within(messages: Seq<Tree>)
    ensures
        model::payloads_of(messages) matches Ok(payloads) ==> {
            &&& payloads.len() == messages.len()
            &&& forall|i: int| 0 <= i < payloads.len() ==> (#[trigger] payloads[i]).len() <= CEILING
        },
    decreases messages.len(),
{
    if messages.len() > 0 {
        lemma_payloads_within(messages.drop_last());
    }
}

/// No answer changes the token, who reads what or the timeout, and ids are
/// never given out again.
pub proof fn law_answers_keep_the_rest(session: SessionView, request: RequestView, read: Reading)
    ensures
        ({
            let after = session.answers(request, read).session;
            &&& after.token == session.token
            &&& after.subscriptions == session.subscriptions
            &&& after.timeout == session.timeout
            &&& after.next >= session.next
        }),
{
}

/// What a session refuses to take in, a transport turns away before a
/// request is formed, and nothing else.
pub proof fn law_turned_away_is_what_is_refused(bytes: Seq<u8>)
    ensures
        crate::turned_away(bytes.len()) is None <==> model::payload_of(
            Decoding::Ok(bytes),
            false,
        ) is Ok,
{
}

/// What is published arrives whole: the session that knows the client's
/// token takes it in as the newest message of the topic, waiting, under a
/// number of its own, and the client learns that number.
pub proof fn law_published_arrives(
    client: ClientView,
    request: RequestView,
    topic: Seq<char>,
    bytes: Seq<u8>,
    session: SessionView,
)
    requires
        client.publishes(request, topic, bytes),
        client.token == session.token,
        0 < bytes.len() <= CEILING,
    ensures
        ({
            let outcome = session.answers(request, json::json_decoded(request.body));
            let id = text::decimal(session.next);
            &&& outcome.event == EventView::Published(
                ArrivedView { origin_uri: model::origin_of(topic, id), bytes },
            )
            &&& outcome.session == (SessionView {
                topics: session.topics.insert(
                    topic,
                    session.held(topic).push(HeldView { id, data: bytes, in_flight: false }),
                ),
                next: session.next + 1,
                ..session
            })
            &&& forall|response: ResponseView| #[trigger]
                response.says(outcome.reply) ==> client::publish_result(response) == Ok::<
                    Seq<char>,
                    FailureView,
                >(id)
        }),
{
    let encoded = encoding::base64_encoded(bytes);
    let document = client::publish_document(encoded);
    lemma_authorization(client, request, topic, "publish"@, document);
    lemma_verbs();
    law_path_names_the_call(topic, "publish"@);
    let one = json::no_fields().with("data"@, Tree::Text(encoded));
    reveal_strlit("data");
    reveal_strlit("attributes");
    assert("data"@.len() == 4 && "attributes"@.len() == 10);
    let messages = seq![one];
    assert(document.field("messages"@) == Some(Tree::Array(messages)));
    assert(messages.drop_last() == Seq::<Tree>::empty());
    assert(model::message_payload(one) == Decoding::Ok(bytes));
    assert(model::payloads_of(Seq::<Tree>::empty()) == Ok::<Seq<Seq<u8>>, Seq<char>>(Seq::empty()));
    assert(Seq::<Seq<u8>>::empty().push(bytes) == seq![bytes]);
    assert(model::payloads_of(messages) == Ok::<Seq<Seq<u8>>, Seq<char>>(seq![bytes]));
    let outcome = session.takes_in(topic, seq![bytes]);
    assert(session.answers(request, json::json_decoded(request.body)) == outcome);
    let id = text::decimal(session.next);
    let held = HeldView { id, data: bytes, in_flight: false };
    assert(model::numbered(seq![bytes], session.next) == seq![held]);
    assert(session.held(topic) + seq![held] == session.held(topic).push(held));
    assert(model::ids_of(seq![held]) == seq![id]);
    assert(json::text_list(seq![id]) == Tree::Array(seq![Tree::Text(id)])) by {
        assert(seq![id].map_values(|text: Seq<char>| Tree::Text(text)) == seq![Tree::Text(id)]);
    }
}

/// A message as the client receives it.
pub open spec fn received_view(message: HeldView) -> ReceivedView {
    ReceivedView { ack_id: model::ack_id_of(message.id), id: message.id, data: message.data }
}

/// Messages as the client receives them.
pub open spec fn received_views(messages: Seq<HeldView>) -> Seq<ReceivedView> {
    messages.map_values(|message: HeldView| received_view(message))
}

/// Messages as a pull answers them are read back as they were.
proof fn lemma_each_received(messages: Seq<HeldView>)
    requires
        model::decodable(messages),
    ensures
        client::each_received_in(
            messages.map_values(|message: HeldView| model::received_message(message)),
        ) == Ok::<Seq<ReceivedView>, FailureView>(received_views(messages)),
    decreases messages.len(),
{
    let values = messages.map_values(|message: HeldView| model::received_message(message));
    if messages.len() == 0 {
        assert(received_views(messages) == Seq::<ReceivedView>::empty());
    } else {
        let fewer = messages.drop_last();
        let last = messages.last();
        assert(messages[messages.len() - 1] == last);
        assert forall|i: int| 0 <= i < fewer.len() implies encoding::base64_decoded(
            encoding::base64_encoded((#[trigger] fewer[i]).data),
        ) == Decoding::Ok(fewer[i].data) by {
            assert(messages[i] == fewer[i]);
        }
        lemma_each_received(fewer);
        assert(values.drop_last() == fewer.map_values(
            |message: HeldView| model::received_message(message),
        ));
        assert(values.last() == model::received_message(last));
        reveal_strlit("ackId");
        reveal_strlit("message");
        reveal_strlit("data");
        reveal_strlit("messageId");
        assert("ackId"@.len() == 5 && "message"@.len() == 7);
        assert("data"@.len() == 4 && "messageId"@.len() == 9);
        let inner = json::no_fields().with(
            "data"@,
            Tree::Text(encoding::base64_encoded(last.data)),
        ).with("messageId"@, Tree::Text(last.id));
        assert(values.last().field("message"@) == Some(inner));
        assert(values.last().field("ackId"@) == Some(Tree::Text(model::ack_id_of(last.id))));
        assert(client::received_in(values.last()) == Ok::<ReceivedView, FailureView>(
            received_view(last),
        ));
        assert(received_views(fewer).push(received_view(last)) == received_views(messages));
    }
}

/// A pull hands the client the messages that wait longest, whole and in
/// order, and leaves them in flight.
pub proof fn law_pulled_is_what_waits(
    client: ClientView,
    request: RequestView,
    subscription: Seq<char>,
    session: SessionView,
)
    requires
        client.calls(request, subscription, "pull"@, client::pull_document()),
        client.token == session.token,
        session.subscriptions.contains_key(subscription),
    ensures
        ({
            let outcome = session.answers(request, json::json_decoded(request.body));
            let topic = session.subscriptions[subscription];
            let most = client::MAX_MESSAGES as nat;
            let messages = model::handed_over(session.held(topic), most);
            &&& outcome.event == EventView::Pulled { subscription, count: messages.len() }
            &&& outcome.handed == messages
            &&& outcome.session == (SessionView {
                topics: session.topics.insert(topic, model::after_pull(session.held(topic), most)),
                ..session
            })
            &&& forall|response: ResponseView| #[trigger]
                response.says(outcome.reply) && model::decodable(messages) ==> client::pull_result(
                    response,
                ) == Ok::<Seq<ReceivedView>, FailureView>(received_views(messages))
        }),
{
    lemma_authorization(client, request, subscription, "pull"@, client::pull_document());
    lemma_verbs();
    law_path_names_the_call(subscription, "pull"@);
    assert(client::pull_document().field("maxMessages"@) == Some(
        Tree::Number(client::MAX_MESSAGES as u64),
    ));
    let topic = session.subscriptions[subscription];
    let messages = model::handed_over(session.held(topic), client::MAX_MESSAGES as nat);
    let outcome = session.answers(request, json::json_decoded(request.body));
    assert(outcome == session.pulls(subscription, client::pull_document()));
    assert forall|response: ResponseView| #[trigger]
        response.says(outcome.reply) && model::decodable(messages) implies client::pull_result(
        response,
    ) == Ok::<Seq<ReceivedView>, FailureView>(received_views(messages)) by {
        lemma_each_received(messages);
        if messages.len() == 0 {
            assert(received_views(messages) == Seq::<ReceivedView>::empty());
        }
    }
}

/// What waits after a pull is what it did not hand over.
proof fn lemma_waiting_after_pull(held: Seq<HeldView>, most: nat)
    ensures
        model::waiting(model::after_pull(held, most)) == model::waiting(held).skip(
            model::handed_over(held, most).len() as int,
        ),
    decreases held.len(),
{
    reveal(Seq::filter);
    let after = model::after_pull(held, most);
    if held.len() > 0 {
        let fewer = held.drop_last();
        lemma_waiting_after_pull(fewer, most);
        assert(after.drop_last() == model::after_pull(fewer, most)) by {
            assert forall|i: int| 0 <= i < fewer.len() implies after[i] == model::after_pull(
                fewer,
                most,
            )[i] by {
                assert(held.take(i) == fewer.take(i));
            }
        }
        assert(held.take(held.len() - 1) == fewer);
        let before = model::waiting(fewer);
        let n = model::handed_over(fewer, most).len() as int;
        if !held.last().in_flight {
            assert(model::waiting(held) == before.push(held.last()));
            if before.len() < most {
                assert(model::waiting(after) == before.skip(n));
                assert(before.skip(n) == before.push(held.last()).skip(n + 1));
            } else {
                assert(before.skip(n).push(held.last()) == before.push(held.last()).skip(n));
            }
        }
    } else {
        assert(model::waiting(after) == model::waiting(held).skip(0));
    }
}

/// Two pulls hand over, one behind the other, what one pull for as many
/// would.
pub proof fn law_two_pulls_are_one(held: Seq<HeldView>, first: nat, second: nat)
    ensures
        model::handed_over(held, first) + model::handed_over(
            model::after_pull(held, first),
            second,
        ) == model::handed_over(held, first + second),
{
    lemma_waiting_after_pull(held, first);
    let one = model::handed_over(held, first);
    let other = model::handed_over(model::after_pull(held, first), second);
    let both = model::handed_over(held, first + second);
    assert(one + other =~= both);
}

/// What waits of two sequences, one behind the other.
proof fn lemma_waiting_joined(one: Seq<HeldView>, other: Seq<HeldView>)
    ensures
        model::waiting(one + other) == model::waiting(one) + model::waiting(other),
    decreases other.len(),
{
    reveal(Seq::filter);
    if other.len() == 0 {
        assert(one + other == one);
        assert(model::waiting(one) + model::waiting(other) == model::waiting(one));
    } else {
        lemma_waiting_joined(one, other.drop_last());
        assert((one + other).drop_last() == one + other.drop_last());
    }
}

/// The line moves on: after a pull, a publish and an acknowledgement, what
/// the pull did not hand over waits still, and what was published waits
/// behind it.
pub proof fn law_line_moves_on(
    held: Seq<HeldView>,
    most: nat,
    published: Seq<HeldView>,
    ids: Seq<Seq<char>>,
)
    ensures
        model::waiting(
            model::after_acknowledge(model::after_pull(held, most) + published, ids),
        ) == model::waiting(held).skip(model::handed_over(held, most).len() as int)
            + model::waiting(published),
{
    lemma_waiting_after_pull(held, most);
    let all = model::after_pull(held, most) + published;
    lemma_waiting_joined(model::after_pull(held, most), published);
    let waits = |message: HeldView| !message.in_flight;
    let keeps = |message: HeldView| !(message.in_flight && ids.contains(message.id));
    lemma_filter_twice(all, keeps, waits, waits);
}

/// Whether `id` was given out, and no message that has it waits.
pub open spec fn past_waiting(session: SessionView, id: Seq<char>) -> bool {
    &&& model::numbered_below(id, session.next)
    &&& forall|topic: Seq<char>, at: int| #[trigger]
        session.holds_at(topic, at) && session.topics[topic][at].id == id
            ==> session.topics[topic][at].in_flight
}

/// A message that is in flight or gone does not wait again, whatever is
/// asked of the session.
pub proof fn law_waits_once(
    session: SessionView,
    request: RequestView,
    read: Reading,
    id: Seq<char>,
)
    requires
        session.sound(),
        past_waiting(session, id),
    ensures
        past_waiting(session.answers(request, read).session, id),
{
    let outcome = session.answers(request, read);
    let after = outcome.session;
    let number = choose|number: nat|
        number < session.next && id == #[trigger] text::decimal(number);
    law_answers_keep_the_rest(session, request, read);
    assert(number < after.next && id == text::decimal(number));
    assert forall|topic: Seq<char>, at: int| #[trigger]
        after.holds_at(topic, at) && after.topics[topic][at].id == id implies
        after.topics[topic][at].in_flight by {
        match outcome.event {
            EventView::Published(_) => {
                if session.holds_at(topic, at) {
                    assert(after.topics[topic][at] == session.topics[topic][at]);
                } else {
                    let held = session.held(topic);
                    let new = at - held.len();
                    assert(after.topics[topic][at].id == text::decimal((session.next + new) as nat));
                    text::lemma_decimal_injective(number, (session.next + new) as nat);
                }
            },
            EventView::Pulled { .. } => {
                assert(session.holds_at(topic, at));
            },
            EventView::Acknowledged(ids) => {
                if !session.holds_at(topic, at) || after.topics[topic] != session.topics[topic] {
                    let held = session.held(topic);
                    lemma_filter_contains(
                        held,
                        |message: HeldView| !(message.in_flight && ids.contains(message.id)),
                    );
                    let left = model::after_acknowledge(held, ids);
                    assert(after.topics[topic] == left);
                    assert(left.contains(left[at]));
                    let was = choose|was: int| 0 <= was < held.len() && held[was] == left[at];
                    assert(session.holds_at(topic, was));
                }
            },
            EventView::Refused(_) => {
                assert(session.holds_at(topic, at));
            },
        }
    }
}

/// A session after it answered `requests`, each with what its body is read
/// as.
pub open spec fn answered_all(
    session: SessionView,
    requests: Seq<(RequestView, Reading)>,
) -> SessionView
    decreases requests.len(),
{
    if requests.len() == 0 {
        session
    } else {
        answered_all(
            session.answers(requests[0].0, requests[0].1).session,
            requests.drop_first(),
        )
    }
}

/// What is past waiting stays so through any requests, and a session sound.
proof fn lemma_answered_all(
    session: SessionView,
    requests: Seq<(RequestView, Reading)>,
    id: Seq<char>,
)
    requires
        session.sound(),
        past_waiting(session, id),
    ensures
        answered_all(session, requests).sound(),
        past_waiting(answered_all(session, requests), id),
    decreases requests.len(),
{
    if requests.len() > 0 {
        law_waits_once(session, requests[0].0, requests[0].1, id);
        law_answers_keep_sound(session, requests[0].0, requests[0].1);
        lemma_answered_all(
            session.answers(requests[0].0, requests[0].1).session,
            requests.drop_first(),
            id,
        );
    }
}

/// What a request has handed over waited on a topic, and is in flight now.
proof fn lemma_handed(session: SessionView, request: RequestView, read: Reading, i: int)
    requires
        session.sound(),
        0 <= i < session.answers(request, read).handed.len(),
    ensures
        ({
            let outcome = session.answers(request, read);
            &&& past_waiting(outcome.session, outcome.handed[i].id)
            &&& !past_waiting(session, outcome.handed[i].id)
        }),
{
    let outcome = session.answers(request, read);
    let after = outcome.session;
    let id = outcome.handed[i].id;
    let (resource, verb) = model::resource_and_verb(request.path)->0;
    let document = read->Ok_0;
    assert(outcome == session.pulls(resource, document));
    let topic = session.subscriptions[resource];
    let held = session.held(topic);
    let most = model::most_asked(document);
    assert(outcome.handed[i] == model::waiting(held)[i]);
    let at = lemma_line_is_held(held, i);
    assert(session.holds_at(topic, at));
    assert(after.holds_at(topic, at));
    assert(after.topics[topic][at] == model::after_pull(held, most)[at]);
    assert(after.topics[topic][at].in_flight);
    session.lemma_pulls_sound(resource, document);
    assert forall|name: Seq<char>, j: int| #[trigger]
        after.holds_at(name, j) && after.topics[name][j].id == id implies
        after.topics[name][j].in_flight by {
        assert(name == topic && j == at);
    }
}

/// No message is handed over twice: whatever is asked of a session between
/// two requests, what the one hands over the other does not.
pub proof fn law_pulls_hand_over_once(
    session: SessionView,
    first: (RequestView, Reading),
    between: Seq<(RequestView, Reading)>,
    second: (RequestView, Reading),
)
    requires
        session.sound(),
    ensures
        ({
            let one = session.answers(first.0, first.1);
            let other = answered_all(one.session, between).answers(second.0, second.1);
            forall|i: int, j: int|
                0 <= i < one.handed.len() && 0 <= j < other.handed.len() ==> (
                #[trigger] one.handed[i]).id != (#[trigger] other.handed[j]).id
        }),
{
    let one = session.answers(first.0, first.1);
    let later = answered_all(one.session, between);
    let other = later.answers(second.0, second.1);
    assert forall|i: int, j: int|
        0 <= i < one.handed.len() && 0 <= j < other.handed.len() implies (
        #[trigger] one.handed[i]).id != (#[trigger] other.handed[j]).id by {
        lemma_handed(session, first.0, first.1, i);
        law_answers_keep_sound(session, first.0, first.1);
        lemma_answered_all(one.session, between, one.handed[i].id);
        lemma_handed(later, second.0, second.1, j);
    }
}

/// What is published waits behind what waits already: a pull hands it over
/// last where it asks for enough, and not yet where it does not.
pub proof fn law_published_is_pulled_in_turn(held: Seq<HeldView>, message: HeldView, most: nat)
    requires
        !message.in_flight,
    ensures
        model::handed_over(held.push(message), most) == if model::waiting(held).len() < most {
            model::waiting(held).push(message)
        } else {
            model::handed_over(held, most)
        },
{
    reveal(Seq::filter);
    assert(held.push(message).drop_last() == held);
    assert(model::waiting(held.push(message)) == model::waiting(held).push(message));
}

/// The ack ids of messages.
pub open spec fn ack_ids_of(ids: Seq<Seq<char>>) -> Seq<Seq<char>> {
    ids.map_values(|id: Seq<char>| model::ack_id_of(id))
}

/// Ack ids name the messages they were given for.
proof fn lemma_acked_ids(ids: Seq<Seq<char>>)
    ensures
        model::acked_ids(
            ack_ids_of(ids).map_values(|text: Seq<char>| Tree::Text(text)),
        ) == ids,
    decreases ids.len(),
{
    let acks = ack_ids_of(ids).map_values(|text: Seq<char>| Tree::Text(text));
    if ids.len() > 0 {
        let fewer = ids.drop_last();
        lemma_acked_ids(fewer);
        assert(acks.drop_last() == ack_ids_of(fewer).map_values(|text: Seq<char>| Tree::Text(text)));
        let ack = model::ack_id_of(ids.last());
        assert(acks.last() == Tree::Text(ack));
        assert(ack.take("ack-"@.len() as int) == "ack-"@);
        assert(ack.skip("ack-"@.len() as int) == ids.last());
        assert(fewer.push(ids.last()) == ids);
    }
}

/// What is acknowledged by the ack ids it was received with leaves, where
/// it is in flight; what is not in flight and what is not named stays, and
/// the order with it.
pub proof fn law_acknowledged_leaves(
    client: ClientView,
    request: RequestView,
    subscription: Seq<char>,
    ids: Seq<Seq<char>>,
    session: SessionView,
)
    requires
        client.calls(
            request,
            subscription,
            "acknowledge"@,
            client::acknowledge_document(ack_ids_of(ids)),
        ),
        client.token == session.token,
        session.subscriptions.contains_key(subscription),
    ensures
        ({
            let outcome = session.answers(request, json::json_decoded(request.body));
            let topic = session.subscriptions[subscription];
            let held = session.held(topic);
            let left = outcome.session.held(topic);
            &&& outcome.event == EventView::Acknowledged(ids)
            &&& outcome.session == (SessionView {
                topics: session.topics.insert(topic, model::after_acknowledge(held, ids)),
                ..session
            })
            &&& forall|message: HeldView| #[trigger]
                left.contains(message) <==> held.contains(message) && !(message.in_flight
                    && ids.contains(message.id))
            &&& forall|response: ResponseView| #[trigger]
                response.says(outcome.reply) ==> client::acknowledge_result(response) is Ok
        }),
{
    let document = client::acknowledge_document(ack_ids_of(ids));
    lemma_authorization(client, request, subscription, "acknowledge"@, document);
    lemma_verbs();
    law_path_names_the_call(subscription, "acknowledge"@);
    lemma_acked_ids(ids);
    assert(document.field("ackIds"@) == Some(json::text_list(ack_ids_of(ids))));
    let outcome = session.answers(request, json::json_decoded(request.body));
    assert(outcome == session.acknowledges(subscription, document));
    let topic = session.subscriptions[subscription];
    lemma_filter_contains(
        session.held(topic),
        |message: HeldView| !(message.in_flight && ids.contains(message.id)),
    );
}

/// What is left of a sequence is what was there and is kept.
proof fn lemma_filter_contains(held: Seq<HeldView>, keeps: spec_fn(HeldView) -> bool)
    ensures
        forall|message: HeldView| #[trigger]
            held.filter(keeps).contains(message) <==> held.contains(message) && keeps(message),
    decreases held.len(),
{
    reveal(Seq::filter);
    if held.len() > 0 {
        let fewer = held.drop_last();
        let last = held.last();
        lemma_filter_contains(fewer, keeps);
        let kept = fewer.filter(keeps);
        assert forall|message: HeldView| #[trigger] held.filter(keeps).contains(message) <==>
            held.contains(message) && keeps(message) by {
            assert(held == fewer.push(last));
            if held.contains(message) {
                let i = choose|i: int| 0 <= i < held.len() && held[i] == message;
                if i < fewer.len() {
                    assert(fewer[i] == message);
                }
                if keeps(message) {
                    if fewer.contains(message) {
                        assert(kept.contains(message));
                        let k = choose|k: int| 0 <= k < kept.len() && kept[k] == message;
                        assert(held.filter(keeps)[k] == message);
                    } else {
                        assert(held.filter(keeps)[kept.len() as int] == message);
                    }
                }
            }
            if held.filter(keeps).contains(message) {
                let k = choose|k: int|
                    0 <= k < held.filter(keeps).len() && held.filter(keeps)[k] == message;
                if k < kept.len() {
                    assert(kept[k] == message);
                    assert(kept.contains(message));
                    let i = choose|i: int| 0 <= i < fewer.len() && fewer[i] == message;
                    assert(held[i] == message);
                } else {
                    assert(message == last);
                    assert(held[held.len() - 1] == message);
                }
            }
        }
    }
}

/// Whether no two of `held` have one id.
pub open spec fn ids_differ(held: Seq<HeldView>) -> bool {
    forall|i: int, j: int|
        0 <= i < held.len() && 0 <= j < held.len() && (#[trigger] held[i]).id == (
        #[trigger] held[j]).id ==> i == j
}

/// Two sequences that agree on what is kept leave the same.
proof fn lemma_filters_agree(
    one: Seq<HeldView>,
    other: Seq<HeldView>,
    keeps_one: spec_fn(HeldView) -> bool,
    keeps_other: spec_fn(HeldView) -> bool,
)
    requires
        one.len() == other.len(),
        forall|i: int|
            0 <= i < one.len() ==> keeps_one(#[trigger] one[i]) == keeps_other(other[i]) && (
            keeps_one(one[i]) ==> one[i] == other[i]),
    ensures
        one.filter(keeps_one) == other.filter(keeps_other),
    decreases one.len(),
{
    reveal(Seq::filter);
    if one.len() > 0 {
        assert forall|i: int| 0 <= i < one.len() - 1 implies keeps_one(
            #[trigger] one.drop_last()[i],
        ) == keeps_other(other.drop_last()[i]) && (keeps_one(one.drop_last()[i])
            ==> one.drop_last()[i] == other.drop_last()[i]) by {
            assert(one.drop_last()[i] == one[i]);
        }
        lemma_filters_agree(one.drop_last(), other.drop_last(), keeps_one, keeps_other);
        assert(one[one.len() - 1] == one.last());
    } else {
        assert(one == other);
        assert(one.filter(keeps_one) == Seq::<HeldView>::empty());
    }
}

/// The place in line of a message that waits.
pub proof fn lemma_place_in_line(held: Seq<HeldView>, at: int)
    requires
        0 <= at < held.len(),
        !held[at].in_flight,
    ensures
        ({
            let place = model::waiting(held.take(at)).len() as int;
            place < model::waiting(held).len() && model::waiting(held)[place] == held[at]
        }),
    decreases held.len(),
{
    reveal(Seq::filter);
    let fewer = held.drop_last();
    if at == held.len() - 1 {
        assert(held.take(at) == fewer);
    } else {
        assert(held.take(at) == fewer.take(at));
        lemma_place_in_line(fewer, at);
    }
}

/// What waits at a place in line is a message that is held.
pub proof fn lemma_line_is_held(held: Seq<HeldView>, place: int) -> (at: int)
    requires
        0 <= place < model::waiting(held).len(),
    ensures
        0 <= at < held.len(),
        held[at] == model::waiting(held)[place],
        !held[at].in_flight,
        model::waiting(held.take(at)).len() == place,
    decreases held.len(),
{
    reveal(Seq::filter);
    let fewer = held.drop_last();
    if place < model::waiting(fewer).len() {
        let at = lemma_line_is_held(fewer, place);
        assert(held.take(at) == fewer.take(at));
        at
    } else {
        assert(held.take(held.len() - 1) == fewer);
        held.len() - 1
    }
}

/// What was pulled and is acknowledged leaves, and nothing else changes:
/// the other messages stay as they were before the pull, and in order.
pub proof fn law_pulled_and_acknowledged_leaves(held: Seq<HeldView>, most: nat)
    requires
        ids_differ(held),
    ensures
        ({
            let ids = model::ids_of(model::handed_over(held, most));
            model::after_acknowledge(model::after_pull(held, most), ids) == held.filter(
                |message: HeldView| !ids.contains(message.id),
            )
        }),
{
    let handed = model::handed_over(held, most);
    let ids = model::ids_of(handed);
    let after = model::after_pull(held, most);
    let ready = model::waiting(held);
    let keeps = |message: HeldView| !(message.in_flight && ids.contains(message.id));
    let others = |message: HeldView| !ids.contains(message.id);
    assert forall|i: int| 0 <= i < after.len() implies keeps(#[trigger] after[i]) == others(held[i])
        && (keeps(after[i]) ==> after[i] == held[i]) by {
        let place = model::waiting(held.take(i)).len() as int;
        if ids.contains(held[i].id) {
            let k = choose|k: int| 0 <= k < ids.len() && ids[k] == held[i].id;
            assert(handed[k] == ready[k]);
            let at = lemma_line_is_held(held, k);
            assert(held[at].id == held[i].id);
        } else if !held[i].in_flight && place < most {
            lemma_place_in_line(held, i);
            assert(handed[place] == held[i]);
            assert(ids[place] == held[i].id);
        }
    }
    lemma_filters_agree(after, held, keeps, others);
}

/// The messages of a sound session have different ids.
proof fn lemma_sound_ids_differ(session: SessionView, topic: Seq<char>)
    requires
        session.sound(),
    ensures
        ids_differ(session.held(topic)),
{
    let held = session.held(topic);
    assert forall|i: int, j: int|
        0 <= i < held.len() && 0 <= j < held.len() && (#[trigger] held[i]).id == (
        #[trigger] held[j]).id implies i == j by {
        assert(session.holds_at(topic, i) && session.holds_at(topic, j));
    }
}

/// A session after each of `ids` was acknowledged by a request of its own.
pub open spec fn acknowledged_each(
    session: SessionView,
    subscription: Seq<char>,
    ids: Seq<Seq<char>>,
) -> SessionView
    decreases ids.len(),
{
    if ids.len() == 0 {
        session
    } else {
        let document = client::acknowledge_document(seq![model::ack_id_of(ids[0])]);
        acknowledged_each(
            session.acknowledges(subscription, document).session,
            subscription,
            ids.drop_first(),
        )
    }
}

/// What two filters leave one behind the other is what both keep.
proof fn lemma_filter_twice(
    held: Seq<HeldView>,
    first: spec_fn(HeldView) -> bool,
    second: spec_fn(HeldView) -> bool,
    both: spec_fn(HeldView) -> bool,
)
    requires
        forall|message: HeldView| #[trigger]
            both(message) == (first(message) && second(message)),
    ensures
        held.filter(first).filter(second) == held.filter(both),
    decreases held.len(),
{
    reveal(Seq::filter);
    if held.len() > 0 {
        let fewer = held.drop_last();
        lemma_filter_twice(fewer, first, second, both);
        if first(held.last()) {
            assert(fewer.filter(first).push(held.last()).drop_last() == fewer.filter(first));
        }
    } else {
        assert(held.filter(first) == Seq::<HeldView>::empty());
        assert(held.filter(first).filter(second) == Seq::<HeldView>::empty());
        assert(held.filter(both) == Seq::<HeldView>::empty());
    }
}

/// Acknowledging messages one by one does what acknowledging them together
/// does.
pub proof fn law_acknowledged_one_by_one(
    session: SessionView,
    subscription: Seq<char>,
    ids: Seq<Seq<char>>,
)
    requires
        session.subscriptions.contains_key(subscription),
        ids.len() > 0,
    ensures
        acknowledged_each(session, subscription, ids) == session.acknowledges(
            subscription,
            client::acknowledge_document(ack_ids_of(ids)),
        ).session,
    decreases ids.len(),
{
    let topic = session.subscriptions[subscription];
    let held = session.held(topic);
    let rest = ids.drop_first();
    let one = seq![ids[0]];
    assert(ack_ids_of(one) == seq![model::ack_id_of(ids[0])]);
    lemma_acked_ids(one);
    lemma_acked_ids(ids);
    let document = client::acknowledge_document(ack_ids_of(one));
    assert(document.field("ackIds"@) == Some(json::text_list(ack_ids_of(one))));
    let whole = client::acknowledge_document(ack_ids_of(ids));
    assert(whole.field("ackIds"@) == Some(json::text_list(ack_ids_of(ids))));
    let next = session.acknowledges(subscription, document).session;
    assert(next.held(topic) == model::after_acknowledge(held, one));
    if rest.len() == 0 {
        assert(ids == one);
        assert(acknowledged_each(next, subscription, rest) == next);
    } else {
        law_acknowledged_one_by_one(next, subscription, rest);
        lemma_acked_ids(rest);
        let others = client::acknowledge_document(ack_ids_of(rest));
        assert(others.field("ackIds"@) == Some(json::text_list(ack_ids_of(rest))));
        let keeps_one = |message: HeldView| !(message.in_flight && one.contains(message.id));
        let keeps_rest = |message: HeldView| !(message.in_flight && rest.contains(message.id));
        let keeps_all = |message: HeldView| !(message.in_flight && ids.contains(message.id));
        assert forall|message: HeldView| #[trigger] keeps_all(message) == (keeps_one(message)
            && keeps_rest(message)) by {
            let id = message.id;
            if ids.contains(id) {
                let i = choose|i: int| 0 <= i < ids.len() && ids[i] == id;
                if i == 0 {
                    assert(one[0] == id);
                } else {
                    assert(rest[i - 1] == id);
                }
            }
            if one.contains(id) {
                assert(ids[0] == id);
            }
            if rest.contains(id) {
                let i = choose|i: int| 0 <= i < rest.len() && rest[i] == id;
                assert(ids[i + 1] == id);
            }
        }
        lemma_filter_twice(held, keeps_one, keeps_rest, keeps_all);
        assert(next.topics.insert(topic, model::after_acknowledge(held, ids)) == session.topics.insert(
            topic,
            model::after_acknowledge(held, ids),
        ));
    }
}

/// A receive leaves on the topic what it did not receive, as it was; where
/// nothing is in flight and one pull hands everything over, nothing.
pub proof fn law_received_leaves(session: SessionView, subscription: Seq<char>)
    requires
        session.sound(),
        session.subscriptions.contains_key(subscription),
        model::waiting(session.held(session.subscriptions[subscription])).len() > 0,
    ensures
        ({
            let topic = session.subscriptions[subscription];
            let held = session.held(topic);
            let pulled = session.pulls(subscription, client::pull_document());
            let ids = model::ids_of(pulled.handed);
            let left = acknowledged_each(pulled.session, subscription, ids).held(topic);
            &&& left == held.filter(|message: HeldView| !ids.contains(message.id))
            &&& model::waiting(held) == held && held.len() <= client::MAX_MESSAGES ==> left.len()
                == 0
        }),
{
    let topic = session.subscriptions[subscription];
    let held = session.held(topic);
    let most = client::MAX_MESSAGES as nat;
    assert(client::pull_document().field("maxMessages"@) == Some(
        Tree::Number(client::MAX_MESSAGES as u64),
    ));
    let pulled = session.pulls(subscription, client::pull_document());
    let handed = pulled.handed;
    assert(handed == model::handed_over(held, most));
    let ids = model::ids_of(handed);
    lemma_sound_ids_differ(session, topic);
    law_pulled_and_acknowledged_leaves(held, most);
    law_acknowledged_one_by_one(pulled.session, subscription, ids);
    lemma_acked_ids(ids);
    let document = client::acknowledge_document(ack_ids_of(ids));
    assert(document.field("ackIds"@) == Some(json::text_list(ack_ids_of(ids))));
    assert(pulled.session.held(topic) == model::after_pull(held, most));
    let others = |message: HeldView| !ids.contains(message.id);
    let left = held.filter(others);
    if model::waiting(held) == held && held.len() <= most {
        assert(handed == held);
        lemma_filter_contains(held, others);
        if left.len() > 0 {
            assert(left.contains(left[0]));
            let i = choose|i: int| 0 <= i < held.len() && held[i] == left[0];
            assert(ids[i] == left[0].id);
        }
    }
}

/// While the acknowledgements go through, a receive has the messages
/// acknowledged so far as Streams and asks to acknowledge the next; with
/// the last it is done, and the Streams are the messages, whole and in
/// order.
pub proof fn law_receives_in_order(
    receiving: ReceivingView,
    pulled: ResponseView,
    acknowledged: Seq<ResponseView>,
    messages: Seq<ReceivedView>,
)
    requires
        receiving.sound(),
        !receiving.pulled,
        client::pull_result(pulled) == Ok::<Seq<ReceivedView>, FailureView>(messages),
        acknowledged.len() <= messages.len(),
        forall|i: int|
            0 <= i < acknowledged.len() ==> client::acknowledge_result(
                #[trigger] acknowledged[i],
            ) is Ok,
    ensures
        receiving.runs(seq![pulled] + acknowledged) == Ok::<StepView, FailureView>(
            if acknowledged.len() == messages.len() {
                StepView::Done(receiving::arrivals(receiving.subscription, messages))
            } else {
                StepView::More(
                    ReceivingView {
                        pulled: true,
                        pending: messages.skip(acknowledged.len() as int),
                        arrived: receiving::arrivals(
                            receiving.subscription,
                            messages.take(acknowledged.len() as int),
                        ),
                        ..receiving
                    },
                )
            },
        ),
{
    let responses = seq![pulled] + acknowledged;
    assert(responses[0] == pulled);
    assert(responses.drop_first() == acknowledged);
    assert(receiving.arrived == Seq::<ArrivedView>::empty());
    if messages.len() == 0 {
        assert(receiving::arrivals(receiving.subscription, messages) == Seq::<ArrivedView>::empty());
        assert(acknowledged == Seq::<ResponseView>::empty());
    } else {
        let started = ReceivingView { pulled: true, pending: messages, ..receiving };
        lemma_acknowledging(started, acknowledged);
        assert(receiving.arrived + receiving::arrivals(receiving.subscription, messages)
            == receiving::arrivals(receiving.subscription, messages));
        let n = acknowledged.len() as int;
        assert(receiving.arrived + receiving::arrivals(receiving.subscription, messages.take(n))
            == receiving::arrivals(receiving.subscription, messages.take(n)));
    }
}

/// What a receive comes to once its messages are being acknowledged.
proof fn lemma_acknowledging(receiving: ReceivingView, acknowledged: Seq<ResponseView>)
    requires
        receiving.pulled,
        receiving.pending.len() > 0,
        acknowledged.len() <= receiving.pending.len(),
        forall|i: int|
            0 <= i < acknowledged.len() ==> client::acknowledge_result(
                #[trigger] acknowledged[i],
            ) is Ok,
    ensures
        ({
            let n = acknowledged.len() as int;
            let arrived = receiving.arrived + receiving::arrivals(
                receiving.subscription,
                receiving.pending.take(n),
            );
            receiving.runs(acknowledged) == Ok::<StepView, FailureView>(
                if n == receiving.pending.len() {
                    StepView::Done(
                        receiving.arrived + receiving::arrivals(
                            receiving.subscription,
                            receiving.pending,
                        ),
                    )
                } else {
                    StepView::More(
                        ReceivingView { pending: receiving.pending.skip(n), arrived, ..receiving },
                    )
                },
            )
        }),
    decreases acknowledged.len(),
{
    let n = acknowledged.len() as int;
    let subscription = receiving.subscription;
    let pending = receiving.pending;
    if n == 0 {
        assert(pending.skip(0) == pending);
        assert(receiving.arrived + receiving::arrivals(subscription, pending.take(0))
            == receiving.arrived);
    } else {
        let first = receiving::arrival(subscription, pending[0]);
        let rest = pending.drop_first();
        let after = acknowledged.drop_first();
        assert forall|i: int| 0 <= i < after.len() implies client::acknowledge_result(
            #[trigger] after[i],
        ) is Ok by {
            assert(after[i] == acknowledged[i + 1]);
        }
        assert(receiving.arrived.push(first) + receiving::arrivals(subscription, rest)
            == receiving.arrived + receiving::arrivals(subscription, pending));
        if rest.len() == 0 {
            assert(receiving::arrivals(subscription, pending) == seq![first]);
            assert(receiving.arrived.push(first) == receiving.arrived + seq![first]);
        } else {
            let next = ReceivingView {
                pending: rest,
                arrived: receiving.arrived.push(first),
                ..receiving
            };
            lemma_acknowledging(next, after);
            assert(rest.skip(n - 1) == pending.skip(n));
            assert(receiving.arrived.push(first) + receiving::arrivals(
                subscription,
                rest.take(n - 1),
            ) == receiving.arrived + receiving::arrivals(subscription, pending.take(n)));
        }
    }
}

/// No acknowledged message is lost: where an acknowledgement fails, the
/// receive gives the messages acknowledged before it as Streams, whole and
/// in order, and fails only where there are none.
pub proof fn law_acknowledged_is_handed_on(
    receiving: ReceivingView,
    pulled: ResponseView,
    acknowledged: Seq<ResponseView>,
    messages: Seq<ReceivedView>,
    last: ResponseView,
    failure: FailureView,
)
    requires
        receiving.sound(),
        !receiving.pulled,
        client::pull_result(pulled) == Ok::<Seq<ReceivedView>, FailureView>(messages),
        acknowledged.len() < messages.len(),
        forall|i: int|
            0 <= i < acknowledged.len() ==> client::acknowledge_result(
                #[trigger] acknowledged[i],
            ) is Ok,
        client::acknowledge_result(last) == Err::<(), FailureView>(failure),
    ensures
        receiving.runs(seq![pulled] + acknowledged.push(last)) == if acknowledged.len() == 0 {
            Err::<StepView, FailureView>(failure)
        } else {
            Ok::<StepView, FailureView>(
                StepView::Done(
                    receiving::arrivals(
                        receiving.subscription,
                        messages.take(acknowledged.len() as int),
                    ),
                ),
            )
        },
{
    law_receives_in_order(receiving, pulled, acknowledged, messages);
    let before = seq![pulled] + acknowledged;
    assert(seq![pulled] + acknowledged.push(last) == before.push(last));
    lemma_runs_on(receiving, before, last);
}

/// A receive that is not done goes on with one response more.
proof fn lemma_runs_on(receiving: ReceivingView, responses: Seq<ResponseView>, last: ResponseView)
    ensures
        receiving.runs(responses) matches Ok(StepView::More(next)) ==> receiving.runs(
            responses.push(last),
        ) == next.takes(last),
    decreases responses.len(),
{
    let more = responses.push(last);
    if responses.len() == 0 {
        assert(more.drop_first() == Seq::<ResponseView>::empty());
        if let Ok(StepView::More(next)) = receiving.takes(last) {
            assert(next.runs(more.drop_first()) == Ok::<StepView, FailureView>(StepView::More(next)));
        }
    } else {
        assert(more[0] == responses[0]);
        assert(more.drop_first() == responses.drop_first().push(last));
        if let Ok(StepView::More(next)) = receiving.takes(responses[0]) {
            lemma_runs_on(next, responses.drop_first(), last);
        }
    }
}

/// A receive gives back what waited on the topic: each message as a Stream,
/// whole and in order, its origin the subscription and the id it was given.
pub proof fn law_received_is_what_waited(
    receiving: ReceivingView,
    request: RequestView,
    session: SessionView,
    pulled: ResponseView,
    acknowledged: Seq<ResponseView>,
)
    requires
        receiving.sound(),
        !receiving.pulled,
        receiving.asks(request),
        receiving.client.token == session.token,
        session.subscriptions.contains_key(receiving.subscription),
        ({
            let outcome = session.answers(request, json::json_decoded(request.body));
            &&& pulled.says(outcome.reply)
            &&& model::decodable(outcome.handed)
            &&& acknowledged.len() == outcome.handed.len()
        }),
        forall|i: int|
            0 <= i < acknowledged.len() ==> (#[trigger] acknowledged[i]).says(
                Reply { status: 200, body: json::no_fields() },
            ),
    ensures
        ({
            let topic = session.subscriptions[receiving.subscription];
            let messages = model::handed_over(
                session.held(topic),
                client::MAX_MESSAGES as nat,
            );
            receiving.runs(seq![pulled] + acknowledged) == Ok::<StepView, FailureView>(
                StepView::Done(
                    messages.map_values(
                        |message: HeldView|
                            ArrivedView {
                                origin_uri: model::origin_of(receiving.subscription, message.id),
                                bytes: message.data,
                            },
                    ),
                ),
            )
        }),
{
    let subscription = receiving.subscription;
    law_pulled_is_what_waits(receiving.client, request, subscription, session);
    let messages = model::handed_over(
        session.held(session.subscriptions[subscription]),
        client::MAX_MESSAGES as nat,
    );
    assert forall|i: int| 0 <= i < acknowledged.len() implies client::acknowledge_result(
        #[trigger] acknowledged[i],
    ) is Ok by {}
    law_receives_in_order(receiving, pulled, acknowledged, received_views(messages));
    assert(receiving::arrivals(subscription, received_views(messages)) == messages.map_values(
        |message: HeldView|
            ArrivedView {
                origin_uri: model::origin_of(subscription, message.id),
                bytes: message.data,
            },
    ));
}

/// What a transport sends to its own topic it receives: the one Stream that
/// its session took in comes back whole, and nothing is left of it.
pub proof fn law_sent_is_received(
    transport: TransportView,
    host: Seq<char>,
    target: Seq<char>,
    bytes: Seq<u8>,
    sent: RequestView,
    asked: RequestView,
    pulled: ResponseView,
    acknowledged: ResponseView,
)
    requires
        crate::turned_away(bytes.len()) is None,
        transport.resolved(target) == transport.topic_name(),
        transport.client(host).publishes(sent, transport.topic_name(), bytes),
        ({
            let receiving = transport.receiving(host);
            let session = transport.session().answers(sent, json::json_decoded(sent.body)).session;
            let outcome = session.answers(asked, json::json_decoded(asked.body));
            &&& receiving.asks(asked)
            &&& pulled.says(outcome.reply)
            &&& model::decodable(outcome.handed)
        }),
        acknowledged.says(Reply { status: 200, body: json::no_fields() }),
    ensures
        ({
            let subscription = transport.subscription_name();
            let session = transport.session().answers(sent, json::json_decoded(sent.body)).session;
            let outcome = session.answers(asked, json::json_decoded(asked.body));
            let ids = model::ids_of(outcome.handed);
            &&& transport.receiving(host).runs(seq![pulled, acknowledged]) == Ok::<
                StepView,
                FailureView,
            >(
                StepView::Done(
                    seq![
                        ArrivedView {
                            origin_uri: model::origin_of(subscription, text::decimal(1)),
                            bytes,
                        },
                    ],
                ),
            )
            &&& acknowledged_each(outcome.session, subscription, ids).held(
                transport.topic_name(),
            ).len() == 0
        }),
{
    let receiving = transport.receiving(host);
    let topic = transport.topic_name();
    let subscription = transport.subscription_name();
    let fresh = transport.session();
    let session = fresh.answers(sent, json::json_decoded(sent.body)).session;
    law_published_arrives(transport.client(host), sent, topic, bytes, fresh);
    let message = HeldView { id: text::decimal(1), data: bytes, in_flight: false };
    assert(fresh.held(topic) == Seq::<HeldView>::empty());
    assert(fresh.held(topic).push(message) == seq![message]);
    assert(session.held(topic) == seq![message]);
    reveal(Seq::filter);
    assert(seq![message].drop_last() == Seq::<HeldView>::empty());
    assert(model::waiting(Seq::<HeldView>::empty()) == Seq::<HeldView>::empty());
    assert(model::waiting(seq![message]) == seq![message]);
    law_pulled_is_what_waits(transport.client(host), asked, subscription, session);
    let outcome = session.answers(asked, json::json_decoded(asked.body));
    assert(outcome.handed == seq![message]);
    assert(seq![pulled] + seq![acknowledged] == seq![pulled, acknowledged]);
    law_received_is_what_waited(receiving, asked, session, pulled, seq![acknowledged]);
    assert(seq![message].map_values(
        |message: HeldView|
            ArrivedView {
                origin_uri: model::origin_of(subscription, message.id),
                bytes: message.data,
            },
    ) == seq![
        ArrivedView { origin_uri: model::origin_of(subscription, text::decimal(1)), bytes },
    ]);
    law_answers_keep_sound(fresh, sent, json::json_decoded(sent.body));
    law_received_leaves(session, subscription);
    assert(outcome.session == session.pulls(subscription, client::pull_document()).session) by {
        assert(client::pull_document().field("maxMessages"@) == Some(
            Tree::Number(client::MAX_MESSAGES as u64),
        ));
    }
}

/// A transport is its own far end: what it lets through, its session takes
/// in whole, on the topic that the target names, and nothing is refused on
/// the way. An address makes no difference to that.
pub proof fn law_own_session_takes_what_is_sent(
    transport: TransportView,
    address: Seq<char>,
    host: Seq<char>,
    target: Seq<char>,
    bytes: Seq<u8>,
    request: RequestView,
)
    requires
        crate::turned_away(bytes.len()) is None,
        ({
            let near = TransportView { endpoint: "http://"@ + address, ..transport };
            near.client(host).publishes(request, near.resolved(target), bytes)
        }),
    ensures
        ({
            let outcome = transport.session().answers(request, json::json_decoded(request.body));
            let topic = transport.resolved(target);
            &&& outcome.event == EventView::Published(
                ArrivedView { origin_uri: model::origin_of(topic, text::decimal(1)), bytes },
            )
            &&& outcome.session.held(topic) == seq![
                HeldView { id: text::decimal(1), data: bytes, in_flight: false },
            ]
        }),
{
    let near = TransportView { endpoint: "http://"@ + address, ..transport };
    let topic = transport.resolved(target);
    assert(near.resolved(target) == topic);
    let session = transport.session();
    law_published_arrives(near.client(host), request, topic, bytes, session);
    assert(session.held(topic) == Seq::<HeldView>::empty());
    let message = HeldView { id: text::decimal(1), data: bytes, in_flight: false };
    assert(session.held(topic).push(message) == seq![message]);
}

/// What a target is resolved to is named in full, beginning with
/// `projects/`, and stays what it is; no target is the transport's own
/// topic, and so is its name alone.
pub proof fn law_resolved_is_a_topic(transport: TransportView, target: Seq<char>)
    ensures
        "projects/"@.is_prefix_of(transport.resolved(target)),
        transport.resolved(transport.resolved(target)) == transport.resolved(target),
        transport.resolved(Seq::empty()) == transport.topic_name(),
        !"projects/"@.is_prefix_of(transport.topic) ==> transport.resolved(transport.topic)
            == transport.topic_name(),
{
    let topic = transport.resolved(target);
    reveal_strlit("projects/");
    assert("projects/"@.is_prefix_of(topic)) by {
        if !("projects/"@.is_prefix_of(target) && target.len() > 0) {
            let name = if target.len() == 0 { transport.topic } else { target };
            assert(topic == "projects/"@ + (transport.project + "/topics/"@ + name));
        }
    }
}

/// `payloads` under the origins they get on `topic`, numbered from `next`.
pub open spec fn under_origins(
    topic: Seq<char>,
    payloads: Seq<Seq<u8>>,
    next: nat,
) -> Seq<(Seq<char>, Seq<u8>)> {
    Seq::new(
        payloads.len(),
        |i: int| (model::origin_of(topic, text::decimal((next + i) as nat)), payloads[i]),
    )
}

/// Messages that are published stand each under an origin of its own that
/// nothing stood under, and every other message stands where it stood.
pub proof fn law_published_is_held(
    session: SessionView,
    topic: Seq<char>,
    payloads: Seq<Seq<u8>>,
)
    requires
        session.sound(),
        forall|i: int| 0 <= i < payloads.len() ==> (#[trigger] payloads[i]).len() <= CEILING,
    ensures
        ({
            let pairs = under_origins(topic, payloads, session.next);
            &&& table::keys_differ(pairs)
            &&& forall|i: int|
                0 <= i < pairs.len() ==> !session.messages().contains_key((#[trigger] pairs[i]).0)
            &&& session.takes_in(topic, payloads).session.messages()
                == session.messages().union_prefer_right(table::gathered(pairs))
        }),
{
    let after = session.takes_in(topic, payloads).session;
    let pairs = under_origins(topic, payloads, session.next);
    let new = model::numbered(payloads, session.next);
    let held = session.held(topic);
    let n = held.len() as int;
    session.lemma_takes_in_sound(topic, payloads);
    session.lemma_messages();
    after.lemma_messages();
    assert forall|i: int| 0 <= i < pairs.len() implies {
        &&& after.holds_at(topic, n + i)
        &&& (#[trigger] pairs[i]).0 == model::origin_of(topic, after.topics[topic][n + i].id)
        &&& pairs[i].1 == after.topics[topic][n + i].data
    } by {
        assert(after.topics[topic][n + i] == new[i]);
    }
    assert(table::keys_differ(pairs)) by {
        assert forall|i: int, j: int| 0 <= i < j < pairs.len() implies (#[trigger] pairs[i]).0 != (
        #[trigger] pairs[j]).0 by {
            if pairs[i].0 == pairs[j].0 {
                after.lemma_origins_differ(topic, n + i, topic, n + j);
            }
        }
    }
    table::lemma_gathered_keys(pairs);
    table::lemma_gathered_values(pairs);
    assert forall|name: Seq<char>, at: int| #[trigger] session.holds_at(name, at) implies {
        &&& after.holds_at(name, at)
        &&& after.topics[name][at] == session.topics[name][at]
        &&& !(name == topic && at >= n)
    } by {}
    assert forall|i: int| 0 <= i < pairs.len() implies !session.messages().contains_key(
        (#[trigger] pairs[i]).0,
    ) by {
        if session.messages().contains_key(pairs[i].0) {
            let (name, at) = choose|name: Seq<char>, at: int| #[trigger]
                session.holds_at(name, at) && pairs[i].0 == model::origin_of(
                    name,
                    session.topics[name][at].id,
                );
            after.lemma_origins_differ(name, at, topic, n + i);
        }
    }
    let stated = session.messages().union_prefer_right(table::gathered(pairs));
    assert forall|key: Seq<char>| #[trigger] after.messages().contains_key(key) implies {
        stated.contains_key(key) && stated[key] == after.messages()[key]
    } by {
        let (name, at) = choose|name: Seq<char>, at: int| #[trigger]
            after.holds_at(name, at) && key == model::origin_of(name, after.topics[name][at].id);
        if name == topic && at >= n && payloads.len() > 0 {
            assert(pairs[at - n].0 == key);
        } else {
            assert(session.holds_at(name, at));
            assert(session.messages().contains_key(key));
            assert(!table::gathered(pairs).contains_key(key));
        }
    }
    assert forall|key: Seq<char>| #[trigger] stated.contains_key(key) implies
        after.messages().contains_key(key) by {
        if table::gathered(pairs).contains_key(key) {
            let i = choose|i: int| 0 <= i < pairs.len() && (#[trigger] pairs[i]).0 == key;
            assert(after.holds_at(topic, n + i));
        } else {
            assert(session.messages().contains_key(key));
            let (name, at) = choose|name: Seq<char>, at: int| #[trigger]
                session.holds_at(name, at) && key == model::origin_of(
                    name,
                    session.topics[name][at].id,
                );
            assert(after.holds_at(name, at));
        }
    }
    assert(after.messages().dom() =~= stated.dom());
    assert(after.messages() =~= stated);
}

/// The origins of the messages on `topic` that are in flight and among
/// `ids`.
pub open spec fn origins_in_flight(
    session: SessionView,
    topic: Seq<char>,
    ids: Seq<Seq<char>>,
) -> Set<Seq<char>> {
    Set::new(
        |uri: Seq<char>|
            exists|at: int| #[trigger]
                session.holds_at(topic, at) && session.topics[topic][at].in_flight && ids.contains(
                    session.topics[topic][at].id,
                ) && uri == model::origin_of(topic, session.topics[topic][at].id),
    )
}

/// An acknowledgement takes away the messages it names that are in flight,
/// and every other message stands where it stood.
pub proof fn law_acknowledged_is_gone(
    session: SessionView,
    subscription: Seq<char>,
    document: Tree,
)
    requires
        session.sound(),
        session.subscriptions.contains_key(subscription),
    ensures
        session.acknowledges(subscription, document).session.messages()
            == session.messages().remove_keys(
            origins_in_flight(
                session,
                session.subscriptions[subscription],
                model::ids_acknowledged(document),
            ),
        ),
{
    let topic = session.subscriptions[subscription];
    let ids = model::ids_acknowledged(document);
    let after = session.acknowledges(subscription, document).session;
    let held = session.held(topic);
    let left = model::after_acknowledge(held, ids);
    let gone = origins_in_flight(session, topic, ids);
    let stated = session.messages().remove_keys(gone);
    session.lemma_acknowledges_sound(subscription, document);
    session.lemma_messages();
    after.lemma_messages();
    lemma_filter_contains(
        held,
        |message: HeldView| !(message.in_flight && ids.contains(message.id)),
    );
    assert(after.topics[topic] == left);
    assert forall|key: Seq<char>| #[trigger] after.messages().contains_key(key) implies {
        stated.contains_key(key) && stated[key] == after.messages()[key]
    } by {
        let (name, at) = choose|name: Seq<char>, at: int| #[trigger]
            after.holds_at(name, at) && key == model::origin_of(name, after.topics[name][at].id);
        let message = after.topics[name][at];
        let was = if name == topic {
            assert(left.contains(left[at]));
            choose|was: int| 0 <= was < held.len() && held[was] == left[at]
        } else {
            at
        };
        assert(session.holds_at(name, was) && session.topics[name][was] == message);
        if gone.contains(key) {
            let other = choose|other: int| #[trigger]
                session.holds_at(topic, other) && session.topics[topic][other].in_flight
                    && ids.contains(session.topics[topic][other].id) && key == model::origin_of(
                    topic,
                    session.topics[topic][other].id,
                );
            session.lemma_origins_differ(name, was, topic, other);
        }
    }
    assert forall|key: Seq<char>| #[trigger] stated.contains_key(key) implies
        after.messages().contains_key(key) by {
        let (name, at) = choose|name: Seq<char>, at: int| #[trigger]
            session.holds_at(name, at) && key == model::origin_of(
                name,
                session.topics[name][at].id,
            );
        let message = session.topics[name][at];
        if name == topic {
            assert(held[at] == message);
            assert(held.contains(message));
            assert(left.contains(message));
            let now = choose|now: int| 0 <= now < left.len() && left[now] == message;
            assert(after.holds_at(name, now));
        } else {
            assert(after.holds_at(name, at));
        }
    }
    assert(after.messages().dom() =~= stated.dom());
    assert(after.messages() =~= stated);
}

/// A pull takes no message away: what is in flight is held still.
pub proof fn law_pulled_is_held(session: SessionView, subscription: Seq<char>, document: Tree)
    requires
        session.sound(),
    ensures
        session.pulls(subscription, document).session.messages() == session.messages(),
{
    let after = session.pulls(subscription, document).session;
    session.lemma_pulls_sound(subscription, document);
    session.lemma_messages();
    after.lemma_messages();
    assert forall|name: Seq<char>, at: int|
        session.holds_at(name, at) == #[trigger] after.holds_at(name, at) && (session.holds_at(name, at)
            ==> session.topics[name][at].id == after.topics[name][at].id
            && session.topics[name][at].data == after.topics[name][at].data) by {}
    assert forall|key: Seq<char>| #[trigger] after.messages().contains_key(key) implies {
        session.messages().contains_key(key) && session.messages()[key] == after.messages()[key]
    } by {
        let (name, at) = choose|name: Seq<char>, at: int| #[trigger]
            after.holds_at(name, at) && key == model::origin_of(name, after.topics[name][at].id);
        assert(session.holds_at(name, at));
    }
    assert forall|key: Seq<char>| #[trigger] session.messages().contains_key(key) implies
        after.messages().contains_key(key) by {
        let (name, at) = choose|name: Seq<char>, at: int| #[trigger]
            session.holds_at(name, at) && key == model::origin_of(name, session.topics[name][at].id);
        assert(after.holds_at(name, at));
    }
    assert(after.messages().dom() =~= session.messages().dom());
    assert(after.messages() =~= session.messages());
}

} // verus!
