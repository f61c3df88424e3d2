//! What this side does: the requests it forms, what it makes of the
//! responses, how it receives, and where it sends, said of what is given to
//! it and of what comes of it.

use crate::client::{self, ClientView, ReceivedView};
use crate::encoding::{self, Decoding};
use crate::failure::{ArrivedView, FailureView};
use crate::far_end_laws;
use crate::json::{self, Reading, Tree};
use crate::laws;
use crate::message::{RequestView, ResponseView};
use crate::model::{self, SessionView};
use crate::plain_laws;
use crate::receiving::{self, ReceivingView, StepView};
use crate::text;
use crate::TransportView;
use vstd::prelude::*;

verus! {

/// Whether `request` posts to `verb` on `resource` for a client: its host,
/// its token, and a body that is read as `document`.
pub open spec fn posts(
    client: ClientView,
    request: RequestView,
    resource: Seq<char>,
    verb: Seq<char>,
    document: Tree,
) -> bool {
    &&& request.method == "POST"@
    &&& request.path == "/v1/"@ + resource + ":"@ + verb
    &&& request.headers.len() == 3
    &&& request.headers[0] == ("Host"@, client.host)
    &&& request.headers[1] == ("Authorization"@, "Bearer "@ + client.token)
    &&& request.headers[2] == ("Content-Type"@, "application/json"@)
    &&& request.body == json::json_bytes(document)
    &&& json::json_decoded(request.body) == Reading::Ok(document)
}

/// A call posts to a verb on a resource with the host, the token and the
/// document.
pub proof fn law_call(
    client: ClientView,
    request: RequestView,
    resource: Seq<char>,
    verb: Seq<char>,
    document: Tree,
)
    ensures
        client.calls(request, resource, verb, document) <==> posts(
            client,
            request,
            resource,
            verb,
            document,
        ),
{
    if posts(client, request, resource, verb, document) {
        assert(request.headers == seq![
            ("Host"@, client.host),
            ("Authorization"@, "Bearer "@ + client.token),
            ("Content-Type"@, "application/json"@),
        ]);
        assert(request == client.request(resource, verb, document));
    }
}

/// A publish posts one message with the bytes for its data and nothing
/// else, and they are decoded from it.
pub proof fn law_publish_call(
    client: ClientView,
    request: RequestView,
    topic: Seq<char>,
    bytes: Seq<u8>,
)
    ensures
        client.publishes(request, topic, bytes) <==> {
            &&& posts(
                client,
                request,
                topic,
                "publish"@,
                plain_laws::only(
                    "messages"@,
                    Tree::Array(
                        seq![plain_laws::only("data"@, Tree::Text(encoding::base64_encoded(bytes)))],
                    ),
                ),
            )
            &&& encoding::base64_decoded(encoding::base64_encoded(bytes)) == Decoding::Ok(bytes)
        },
{
    let document = client::publish_document(encoding::base64_encoded(bytes));
    law_call(client, request, topic, "publish"@, document);
}

/// A pull asks for ten messages.
pub proof fn law_pull_call(client: ClientView, request: RequestView, subscription: Seq<char>)
    ensures
        client.calls(request, subscription, "pull"@, client::pull_document()) <==> posts(
            client,
            request,
            subscription,
            "pull"@,
            plain_laws::only("maxMessages"@, Tree::Number(10)),
        ),
        client::MAX_MESSAGES == 10,
{
    law_call(client, request, subscription, "pull"@, client::pull_document());
}

/// An acknowledgement names the ack ids it is given, all of them and in
/// order.
pub proof fn law_acknowledge_call(
    client: ClientView,
    request: RequestView,
    subscription: Seq<char>,
    ack_ids: Seq<Seq<char>>,
    acks: Seq<Tree>,
)
    requires
        acks.len() == ack_ids.len(),
        forall|i: int| 0 <= i < acks.len() ==> #[trigger] acks[i] == Tree::Text(ack_ids[i]),
    ensures
        client.calls(
            request,
            subscription,
            "acknowledge"@,
            client::acknowledge_document(ack_ids),
        ) <==> posts(
            client,
            request,
            subscription,
            "acknowledge"@,
            plain_laws::only("ackIds"@, Tree::Array(acks)),
        ),
{
    assert(ack_ids.map_values(|text: Seq<char>| Tree::Text(text)) == acks);
    law_call(
        client,
        request,
        subscription,
        "acknowledge"@,
        client::acknowledge_document(ack_ids),
    );
}

/// What an error answer tells: the message in its error, where there is
/// one.
pub open spec fn told(response: ResponseView) -> Seq<char> {
    match json::json_decoded(response.body) {
        Ok(Tree::Object(fields)) => if fields.contains_key("error"@) {
            plain_laws::text_at(fields["error"@], "message"@)
        } else {
            Seq::empty()
        },
        _ => Seq::empty(),
    }
}

/// The failure that a response outside 2xx is: it names the status and what
/// the service tells, and is worth repeating after 429 and 5xx alone.
pub open spec fn judged(response: ResponseView) -> FailureView {
    FailureView::Answered {
        message: if told(response).len() == 0 {
            "Pub/Sub answered "@ + text::decimal(response.status as nat)
        } else {
            "Pub/Sub answered "@ + text::decimal(response.status as nat) + " "@ + told(response)
        },
        retryable: response.status == 429 || 500 <= response.status <= 599,
    }
}

/// A response outside 2xx fails every call, with the status and what the
/// service tells.
pub proof fn law_refusals_fail(response: ResponseView)
    ensures
        client::answer_in(response) is Ok ==> 200 <= response.status <= 299,
        !(200 <= response.status <= 299) ==> {
            &&& client::publish_result(response) == Err::<Seq<char>, FailureView>(judged(response))
            &&& client::pull_result(response) == Err::<Seq<ReceivedView>, FailureView>(
                judged(response),
            )
            &&& client::acknowledge_result(response) == Err::<(), FailureView>(judged(response))
            &&& client::answer_in(response) == Err::<Tree, FailureView>(judged(response))
        },
        client::succeeds(response.status) <==> 200 <= response.status <= 299,
        client::answered_failure(
            response.status,
            client::reason_in(json::json_decoded(response.body)),
        ) == judged(response),
{
    plain_laws::law_text_of_a_field(Tree::Other, ""@, Seq::empty());
    assert(client::reason_in(json::json_decoded(response.body)) == told(response));
}

/// The failure that an answer with a status is, for a reason.
pub proof fn law_failure_of_an_answer(status: u16, reason: Seq<char>)
    ensures
        client::answered_failure(status, reason) == (FailureView::Answered {
            message: if reason.len() == 0 {
                "Pub/Sub answered "@ + text::decimal(status as nat)
            } else {
                "Pub/Sub answered "@ + text::decimal(status as nat) + " "@ + reason
            },
            retryable: status == 429 || 500 <= status <= 599,
        }),
{
}

/// What an error answer tells is the text of its error's message, and
/// nothing where that is missing, whatever the body is.
pub proof fn law_reason(read: Reading)
    ensures
        match read {
            Ok(Tree::Object(fields)) => client::reason_in(read) == if fields.contains_key(
                "error"@,
            ) {
                plain_laws::text_at(fields["error"@], "message"@)
            } else {
                Seq::empty()
            },
            _ => client::reason_in(read).len() == 0,
        },
{
}

/// A 2xx answer that is no JSON fails every call, with the reason.
pub proof fn law_answers_are_json(response: ResponseView, why: Seq<char>)
    requires
        200 <= response.status <= 299,
        json::json_decoded(response.body) == Reading::Err(why),
    ensures
        ({
            let broken = FailureView::Protocol("an answer that is not JSON: "@ + why);
            &&& client::publish_result(response) == Err::<Seq<char>, FailureView>(broken)
            &&& client::pull_result(response) == Err::<Seq<ReceivedView>, FailureView>(broken)
            &&& client::acknowledge_result(response) == Err::<(), FailureView>(broken)
            &&& client::answer_in(response) == Err::<Tree, FailureView>(broken)
            &&& client::document_in(Reading::Err(why)) == Err::<Tree, FailureView>(broken)
        }),
{
}

/// A 2xx answer that is JSON acknowledges, and says what it says.
pub proof fn law_acknowledge_answer(response: ResponseView, answer: Tree)
    requires
        200 <= response.status <= 299,
        json::json_decoded(response.body) == Reading::Ok(answer),
    ensures
        client::acknowledge_result(response) == Ok::<(), FailureView>(()),
        client::answer_in(response) == Ok::<Tree, FailureView>(answer),
        client::document_in(Reading::Ok(answer)) == Ok::<Tree, FailureView>(answer),
        client::publish_result(response) == client::id_in(answer),
        client::pull_result(response) == client::messages_in(answer),
{
}

/// A publish learns the first of the ids that are answered, where it is a
/// text, and fails where there is none.
pub proof fn law_publish_answer(answer: Tree)
    ensures
        if answer matches Tree::Object(fields) && fields.contains_key("messageIds"@) && (
        fields["messageIds"@] matches Tree::Array(ids) && ids.len() > 0 && ids[0] is Text) {
            client::id_in(answer) == Ok::<Seq<char>, FailureView>(
                answer->Object_0["messageIds"@]->Array_0[0]->Text_0,
            )
        } else {
            client::id_in(answer) == Err::<Seq<char>, FailureView>(
                FailureView::Protocol("a publish answered with no messageIds"@),
            )
        },
{
}

/// The message in a received one, where there is one.
pub open spec fn inner(value: Tree) -> Tree {
    match value {
        Tree::Object(fields) => if fields.contains_key("message"@) {
            fields["message"@]
        } else {
            Tree::Other
        },
        _ => Tree::Other,
    }
}

/// Whether `value` is read as `message`: the ack id that stands under
/// `ackId`, and of its message the id and the bytes its data decodes as.
pub open spec fn read_as(value: Tree, message: ReceivedView) -> bool {
    &&& message.ack_id == plain_laws::text_at(value, "ackId"@)
    &&& message.id == plain_laws::text_at(inner(value), "messageId"@)
    &&& encoding::base64_decoded(plain_laws::text_at(inner(value), "data"@)) == Decoding::Ok(
        message.data,
    )
}

/// A received message is read as what stands in it, and fails where its
/// data is no base64.
pub proof fn law_received(value: Tree, message: ReceivedView)
    ensures
        read_as(value, message) <==> client::received_in(value) == Ok::<ReceivedView, FailureView>(
            message,
        ),
        encoding::base64_decoded(plain_laws::text_at(inner(value), "data"@)) matches Err(why)
            ==> client::received_in(value) == Err::<ReceivedView, FailureView>(
            FailureView::Protocol("a message whose data is not base64: "@ + why),
        ),
{
    assert(client::text_of_message(value, "data"@) == plain_laws::text_at(inner(value), "data"@));
    assert(client::text_of_message(value, "messageId"@) == plain_laws::text_at(
        inner(value),
        "messageId"@,
    ));
}

/// A received message whose data is decoded already.
pub proof fn law_received_as(value: Tree, decoded: Decoding)
    ensures
        match decoded {
            Ok(data) => client::received_as(value, decoded) == Ok::<ReceivedView, FailureView>(
                ReceivedView {
                    ack_id: plain_laws::text_at(value, "ackId"@),
                    id: plain_laws::text_at(inner(value), "messageId"@),
                    data,
                },
            ),
            Err(why) => client::received_as(value, decoded) == Err::<ReceivedView, FailureView>(
                FailureView::Protocol("a message whose data is not base64: "@ + why),
            ),
        },
{
    assert(client::text_of_message(value, "messageId"@) == plain_laws::text_at(
        inner(value),
        "messageId"@,
    ));
}

/// Values that are all read are read each as its own.
proof fn lemma_each_read(values: Seq<Tree>, messages: Seq<ReceivedView>)
    requires
        values.len() == messages.len(),
        forall|i: int| 0 <= i < values.len() ==> read_as(#[trigger] values[i], messages[i]),
    ensures
        client::each_received_in(values) == Ok::<Seq<ReceivedView>, FailureView>(messages),
    decreases values.len(),
{
    if values.len() > 0 {
        let fewer = values.drop_last();
        assert forall|i: int| 0 <= i < fewer.len() implies read_as(
            #[trigger] fewer[i],
            messages.drop_last()[i],
        ) by {
            assert(values[i] == fewer[i]);
        }
        lemma_each_read(fewer, messages.drop_last());
        assert(read_as(values[values.len() - 1], messages[values.len() - 1]));
        law_received(values.last(), messages.last());
        assert(messages.drop_last().push(messages.last()) == messages);
    } else {
        assert(messages == Seq::<ReceivedView>::empty());
    }
}

/// A pull gives the messages of the answer, each as it stands there and in
/// order, the first ten where there are more.
pub proof fn law_pull_answer(
    fields: Map<Seq<char>, Tree>,
    values: Seq<Tree>,
    messages: Seq<ReceivedView>,
)
    requires
        fields.contains_key("receivedMessages"@),
        fields["receivedMessages"@] == Tree::Array(values),
        values.len() == messages.len(),
        forall|i: int| 0 <= i < values.len() ==> read_as(#[trigger] values[i], messages[i]),
    ensures
        client::messages_in(Tree::Object(fields)) == Ok::<Seq<ReceivedView>, FailureView>(
            messages.take(
                if messages.len() < 10 {
                    messages.len() as int
                } else {
                    10
                },
            ),
        ),
{
    lemma_each_read(values, messages);
    assert(messages.take(messages.len() as int) == messages);
}

/// A pull fails for the first message of the answer whose data is no
/// base64.
pub proof fn law_pull_answer_unreadable(
    fields: Map<Seq<char>, Tree>,
    values: Seq<Tree>,
    messages: Seq<ReceivedView>,
    why: Seq<char>,
)
    requires
        fields.contains_key("receivedMessages"@),
        fields["receivedMessages"@] == Tree::Array(values),
        messages.len() < values.len(),
        forall|i: int| 0 <= i < messages.len() ==> read_as(#[trigger] values[i], messages[i]),
        encoding::base64_decoded(
            plain_laws::text_at(inner(values[messages.len() as int]), "data"@),
        ) == Decoding::Err(why),
    ensures
        client::messages_in(Tree::Object(fields)) == Err::<Seq<ReceivedView>, FailureView>(
            FailureView::Protocol("a message whose data is not base64: "@ + why),
        ),
{
    let n = messages.len() as int;
    let before = values.take(n);
    assert forall|i: int| 0 <= i < before.len() implies read_as(
        #[trigger] before[i],
        messages[i],
    ) by {
        assert(before[i] == values[i]);
    }
    lemma_each_read(before, messages);
    law_received(values[n], ReceivedView { ack_id: ""@, id: ""@, data: Seq::empty() });
    assert(values.take(n + 1).drop_last() == before);
    assert(values.take(n + 1).last() == values[n]);
    client::lemma_first_failure(
        values,
        n,
        FailureView::Protocol("a message whose data is not base64: "@ + why),
    );
}

/// A pull whose answer lists no messages gives none.
pub proof fn law_pull_answer_without_messages(answer: Tree)
    requires
        !(answer matches Tree::Object(fields) && fields.contains_key("receivedMessages"@)
            && fields["receivedMessages"@] is Array),
    ensures
        client::messages_in(answer) == Ok::<Seq<ReceivedView>, FailureView>(Seq::empty()),
{
}

/// Whether a receive has sent nothing yet.
pub open spec fn unbegun(receiving: ReceivingView) -> bool {
    !receiving.pulled && receiving.pending.len() == 0 && receiving.arrived.len() == 0
}

/// A receive fails where its pull fails, and never ends as if nothing had
/// waited: a response outside 2xx, one that is no JSON, and one with a
/// message that cannot be read are its failure, whatever comes after.
pub proof fn law_failed_pull_fails(
    receiving: ReceivingView,
    pulled: ResponseView,
    after: Seq<ResponseView>,
)
    requires
        unbegun(receiving),
    ensures
        !(200 <= pulled.status <= 299) ==> receiving.runs(seq![pulled] + after) == Err::<
            StepView,
            FailureView,
        >(judged(pulled)),
        client::pull_result(pulled) matches Err(failure) ==> receiving.runs(seq![pulled] + after)
            == Err::<StepView, FailureView>(failure),
        receiving.takes(pulled) is Err <==> client::pull_result(pulled) is Err,
{
    law_refusals_fail(pulled);
    assert((seq![pulled] + after)[0] == pulled);
}

/// A receive whose pull a session refuses fails with the status and the
/// message of the refusal.
pub proof fn law_refused_pull_fails(
    receiving: ReceivingView,
    session: SessionView,
    request: RequestView,
    read: Reading,
    code: u16,
    status: Seq<char>,
    message: Seq<char>,
    pulled: ResponseView,
    after: Seq<ResponseView>,
)
    requires
        unbegun(receiving),
        !(200 <= code <= 299),
        far_end_laws::refused_with(
            session.answers(request, read),
            session,
            code,
            status,
            message,
        ),
        pulled.says(session.answers(request, read).reply),
    ensures
        receiving.runs(seq![pulled] + after) == Err::<StepView, FailureView>(
            FailureView::Answered {
                message: if message.len() == 0 {
                    "Pub/Sub answered "@ + text::decimal(code as nat)
                } else {
                    "Pub/Sub answered "@ + text::decimal(code as nat) + " "@ + message
                },
                retryable: code == 429 || 500 <= code <= 599,
            },
        ),
{
    reveal_strlit("code");
    reveal_strlit("message");
    reveal_strlit("status");
    assert("code"@.len() == 4 && "message"@.len() == 7 && "status"@.len() == 6);
    plain_laws::law_response_says(pulled, session.answers(request, read).reply);
    assert(told(pulled) == message);
    law_failed_pull_fails(receiving, pulled, after);
}

/// Whether `responses` all acknowledge: each is 2xx and JSON.
pub open spec fn all_acknowledge(responses: Seq<ResponseView>) -> bool {
    forall|i: int|
        0 <= i < responses.len() ==> 200 <= (#[trigger] responses[i]).status <= 299
            && json::json_decoded(responses[i].body) is Ok
}

/// Whether `pulled` hands over `values`, which are read as `messages`.
pub open spec fn hands_over(
    pulled: ResponseView,
    values: Seq<Tree>,
    messages: Seq<ReceivedView>,
) -> bool {
    &&& 200 <= pulled.status <= 299
    &&& json::json_decoded(pulled.body) matches Ok(Tree::Object(fields))
    &&& fields.contains_key("receivedMessages"@)
    &&& fields["receivedMessages"@] == Tree::Array(values)
    &&& values.len() == messages.len()
    &&& forall|i: int| 0 <= i < values.len() ==> read_as(#[trigger] values[i], messages[i])
}

/// What a pull gives, in one step.
proof fn lemma_handed_over(
    pulled: ResponseView,
    values: Seq<Tree>,
    messages: Seq<ReceivedView>,
) -> (given: Seq<ReceivedView>)
    requires
        hands_over(pulled, values, messages),
    ensures
        client::pull_result(pulled) == Ok::<Seq<ReceivedView>, FailureView>(given),
        given.len() == if messages.len() < 10 {
            messages.len()
        } else {
            10
        },
        forall|i: int| 0 <= i < given.len() ==> #[trigger] given[i] == messages[i],
{
    let answer = json::json_decoded(pulled.body)->Ok_0;
    let fields = answer->Object_0;
    law_pull_answer(fields, values, messages);
    law_acknowledge_answer(pulled, answer);
    messages.take(
        if messages.len() < 10 {
            messages.len() as int
        } else {
            10
        },
    )
}

/// A receive begins with a pull from its subscription for ten messages.
pub proof fn law_receive_begins(receiving: ReceivingView, request: RequestView)
    requires
        unbegun(receiving),
    ensures
        receiving.asks(request) <==> posts(
            receiving.client,
            request,
            receiving.subscription,
            "pull"@,
            plain_laws::only("maxMessages"@, Tree::Number(10)),
        ),
{
    law_pull_call(receiving.client, request, receiving.subscription);
}

/// While messages are to be acknowledged, a receive goes on, and asks to
/// acknowledge the next by the ack id it was received with, and no other,
/// whatever its message id is.
pub proof fn law_receive_acknowledges_by_ack_id(
    receiving: ReceivingView,
    pulled: ResponseView,
    values: Seq<Tree>,
    messages: Seq<ReceivedView>,
    acknowledged: Seq<ResponseView>,
    request: RequestView,
)
    requires
        unbegun(receiving),
        hands_over(pulled, values, messages),
        all_acknowledge(acknowledged),
        acknowledged.len() < messages.len(),
        acknowledged.len() < 10,
    ensures
        ({
            let n = acknowledged.len() as int;
            let ack_id = plain_laws::text_at(values[n], "ackId"@);
            &&& receiving.runs(seq![pulled] + acknowledged) matches Ok(StepView::More(next))
            &&& next.client == receiving.client
            &&& next.subscription == receiving.subscription
            &&& next.arrived.len() == n
            &&& next.asks(request) <==> posts(
                receiving.client,
                request,
                receiving.subscription,
                "acknowledge"@,
                plain_laws::only("ackIds"@, Tree::Array(seq![Tree::Text(ack_id)])),
            )
        }),
{
    let n = acknowledged.len() as int;
    let given = lemma_handed_over(pulled, values, messages);
    lemma_acknowledged(acknowledged);
    laws::law_receives_in_order(receiving, pulled, acknowledged, given);
    let ack_id = plain_laws::text_at(values[n], "ackId"@);
    assert(read_as(values[n], messages[n]));
    assert(given.skip(n)[0] == given[n]);
    assert(given[n].ack_id == ack_id);
    law_acknowledge_call(
        receiving.client,
        request,
        receiving.subscription,
        seq![ack_id],
        seq![Tree::Text(ack_id)],
    );
}

/// Responses that all acknowledge are all read so.
proof fn lemma_acknowledged(responses: Seq<ResponseView>)
    requires
        all_acknowledge(responses),
    ensures
        forall|i: int|
            0 <= i < responses.len() ==> client::acknowledge_result(#[trigger] responses[i]) is Ok,
{
    assert forall|i: int| 0 <= i < responses.len() implies client::acknowledge_result(
        #[trigger] responses[i],
    ) is Ok by {
        law_acknowledge_answer(responses[i], json::json_decoded(responses[i].body)->Ok_0);
    }
}

/// Whether `streams` are the first `count` of `messages` from
/// `subscription`.
pub open spec fn streams_of(
    streams: Seq<ArrivedView>,
    subscription: Seq<char>,
    messages: Seq<ReceivedView>,
    count: int,
) -> bool {
    &&& streams.len() == count <= messages.len()
    &&& forall|i: int|
        0 <= i < count ==> {
            &&& (#[trigger] streams[i]).origin_uri == "pubsub://"@ + subscription + "#"@
                + messages[i].id
            &&& streams[i].bytes == messages[i].data
        }
}

/// A receive ends with every message that was pulled as a Stream, in order,
/// once each is acknowledged; where an acknowledgement fails, with those
/// acknowledged before, and with the failure where there are none.
pub proof fn law_receive_ends(
    receiving: ReceivingView,
    pulled: ResponseView,
    values: Seq<Tree>,
    messages: Seq<ReceivedView>,
    acknowledged: Seq<ResponseView>,
    last: ResponseView,
)
    requires
        unbegun(receiving),
        hands_over(pulled, values, messages),
        all_acknowledge(acknowledged),
        acknowledged.len() <= messages.len(),
        acknowledged.len() <= 10,
    ensures
        ({
            let n = acknowledged.len() as int;
            let all = n == messages.len() || n == 10;
            let whole = receiving.runs(seq![pulled] + acknowledged);
            let broken = receiving.runs(seq![pulled] + acknowledged.push(last));
            &&& all ==> whole is Ok && whole->Ok_0 is Done && streams_of(
                whole->Ok_0->Done_0,
                receiving.subscription,
                messages,
                n,
            )
            &&& !all && !(200 <= last.status <= 299) ==> if n == 0 {
                broken == Err::<StepView, FailureView>(judged(last))
            } else {
                broken is Ok && broken->Ok_0 is Done && streams_of(
                    broken->Ok_0->Done_0,
                    receiving.subscription,
                    messages,
                    n,
                )
            }
        }),
{
    let n = acknowledged.len() as int;
    let given = lemma_handed_over(pulled, values, messages);
    lemma_acknowledged(acknowledged);
    laws::law_receives_in_order(receiving, pulled, acknowledged, given);
    law_refusals_fail(last);
    if n < given.len() && !(200 <= last.status <= 299) {
        laws::law_acknowledged_is_handed_on(
            receiving,
            pulled,
            acknowledged,
            given,
            last,
            judged(last),
        );
        assert(streams_of(
            receiving::arrivals(receiving.subscription, given.take(n)),
            receiving.subscription,
            messages,
            n,
        ));
    }
    if n == given.len() {
        assert(streams_of(
            receiving::arrivals(receiving.subscription, given),
            receiving.subscription,
            messages,
            n,
        ));
    }
}

/// A pull that hands over nothing ends a receive with no Streams, and
/// nothing is acknowledged.
pub proof fn law_receive_of_nothing(receiving: ReceivingView, pulled: ResponseView, answer: Tree)
    requires
        unbegun(receiving),
        200 <= pulled.status <= 299,
        json::json_decoded(pulled.body) == Reading::Ok(answer),
        !(answer matches Tree::Object(fields) && fields.contains_key("receivedMessages"@)
            && fields["receivedMessages"@] is Array),
    ensures
        receiving.runs(seq![pulled]) == Ok::<StepView, FailureView>(StepView::Done(Seq::empty())),
{
    law_acknowledge_answer(pulled, answer);
    law_pull_answer_without_messages(answer);
    assert(seq![pulled][0] == pulled);
}

/// A target names a topic: none the transport's own, what begins with
/// `projects/` itself, and any other a topic of the project called so; two
/// names alone never one topic.
pub proof fn law_target(transport: TransportView, target: Seq<char>, other: Seq<char>)
    ensures
        target.len() == 0 ==> transport.resolved(target) == "projects/"@ + transport.project
            + "/topics/"@ + transport.topic,
        forall|rest: Seq<char>|
            target == #[trigger] ("projects/"@ + rest) ==> transport.resolved(target) == target,
        target.len() > 0 && (forall|rest: Seq<char>| target != #[trigger] ("projects/"@ + rest))
            ==> transport.resolved(target) == "projects/"@ + transport.project + "/topics/"@
            + target,
        target.len() > 0 && other.len() > 0 && !"projects/"@.is_prefix_of(target)
            && !"projects/"@.is_prefix_of(other) && transport.resolved(target)
            == transport.resolved(other) ==> target == other,
{
    reveal_strlit("projects/");
    assert("projects/"@.len() == 9);
    assert forall|rest: Seq<char>| target == #[trigger] ("projects/"@ + rest) implies
        transport.resolved(target) == target by {
        assert(target.take(9) == "projects/"@);
        assert("projects/"@.is_prefix_of(target));
    }
    if "projects/"@.is_prefix_of(target) {
        assert(target == "projects/"@ + target.skip(9));
    }
    let before = "projects/"@ + transport.project + "/topics/"@;
    if before + target == before + other {
        assert(target == (before + target).skip(before.len() as int));
        assert(other == (before + other).skip(before.len() as int));
    }
}

/// A transport's names, its client, its receive and its far end take after
/// what it was made with.
pub proof fn law_transport(transport: TransportView, host: Seq<char>)
    ensures
        transport.topic_name() == "projects/"@ + transport.project + "/topics/"@ + transport.topic,
        transport.subscription_name() == "projects/"@ + transport.project + "/subscriptions/"@
            + transport.subscription,
        transport.client(host) == (ClientView {
            endpoint: transport.endpoint,
            host,
            token: transport.token,
            timeout: transport.timeout,
        }),
        unbegun(transport.receiving(host)),
        transport.receiving(host).client == transport.client(host),
        transport.receiving(host).subscription == transport.subscription_name(),
        transport.session().token == transport.token,
        transport.session().timeout == transport.timeout,
        transport.session().next == 1,
        transport.session().topics == Map::<Seq<char>, Seq<model::HeldView>>::empty(),
        transport.session().subscriptions.dom() == set![transport.subscription_name()],
        transport.session().subscriptions[transport.subscription_name()] == transport.topic_name(),
{
    assert(transport.session().subscriptions.dom() =~= set![transport.subscription_name()]);
}

/// A Stream of no bytes, or of more than ten mebibytes, does not travel,
/// now or later, and is told why; every other does.
pub proof fn law_what_travels(size: nat)
    ensures
        size == 0 ==> crate::turned_away(size) == Some(
            FailureView::Permanent(
                "a message has data or an attribute, and an empty Stream has neither"@,
            ),
        ),
        size > 10_485_760 ==> crate::turned_away(size) == Some(
            FailureView::Permanent(
                text::decimal(size) + " bytes, and one Pub/Sub message carries "@ + "10485760"@,
            ),
        ),
        0 < size <= 10_485_760 ==> crate::turned_away(size) is None,
        crate::refusal_text()
            == "a message has data or an attribute, and an empty Stream has neither"@,
{
    far_end_laws::lemma_ceiling_in_decimal();
}

/// A run takes one response after the other, and ends with the first that
/// ends it.
pub proof fn law_run_is_its_steps(
    receiving: ReceivingView,
    response: ResponseView,
    after: Seq<ResponseView>,
)
    ensures
        receiving.runs(Seq::empty()) == Ok::<StepView, FailureView>(StepView::More(receiving)),
        match receiving.takes(response) {
            Ok(StepView::More(next)) => receiving.runs(seq![response] + after) == next.runs(after),
            other => receiving.runs(seq![response] + after) == other,
        },
{
    assert((seq![response] + after)[0] == response);
    assert((seq![response] + after).drop_first() == after);
}

/// One response to a pull: its failure fails the receive, and what it hands
/// over is what is to be acknowledged.
pub proof fn law_take_a_pull(receiving: ReceivingView, response: ResponseView)
    requires
        unbegun(receiving),
    ensures
        match client::pull_result(response) {
            Err(failure) => receiving.takes(response) == Err::<StepView, FailureView>(failure),
            Ok(messages) => if messages.len() == 0 {
                receiving.takes(response) == Ok::<StepView, FailureView>(
                    StepView::Done(Seq::empty()),
                )
            } else {
                receiving.takes(response) == Ok::<StepView, FailureView>(
                    StepView::More(
                        ReceivingView {
                            client: receiving.client,
                            subscription: receiving.subscription,
                            pulled: true,
                            pending: messages,
                            arrived: Seq::empty(),
                        },
                    ),
                )
            },
        },
        !(200 <= response.status <= 299) ==> receiving.takes(response) == Err::<
            StepView,
            FailureView,
        >(judged(response)),
{
    law_refusals_fail(response);
    assert(receiving.arrived == Seq::<ArrivedView>::empty());
}

/// One response to an acknowledgement: where it acknowledges, the message
/// is a Stream more and the next is to be acknowledged, or the receive is
/// done; where it fails, the receive ends with the Streams there are.
pub proof fn law_take_an_acknowledgement(receiving: ReceivingView, response: ResponseView)
    requires
        receiving.pulled,
        receiving.pending.len() > 0,
    ensures
        ({
            let first = receiving.pending[0];
            let stream = ArrivedView {
                origin_uri: "pubsub://"@ + receiving.subscription + "#"@ + first.id,
                bytes: first.data,
            };
            let arrived = receiving.arrived.push(stream);
            match client::acknowledge_result(response) {
                Ok(_) => if receiving.pending.len() == 1 {
                    receiving.takes(response) == Ok::<StepView, FailureView>(
                        StepView::Done(arrived),
                    )
                } else {
                    receiving.takes(response) == Ok::<StepView, FailureView>(
                        StepView::More(
                            ReceivingView {
                                client: receiving.client,
                                subscription: receiving.subscription,
                                pulled: true,
                                pending: receiving.pending.skip(1),
                                arrived,
                            },
                        ),
                    )
                },
                Err(failure) => if receiving.arrived.len() == 0 {
                    receiving.takes(response) == Err::<StepView, FailureView>(failure)
                } else {
                    receiving.takes(response) == Ok::<StepView, FailureView>(
                        StepView::Done(receiving.arrived),
                    )
                },
            }
        }),
{
    assert(receiving.pending.drop_first() == receiving.pending.skip(1));
}

/// Once messages are pulled, the request to send acknowledges the first
/// that is not, by the ack id it was received with.
pub proof fn law_asks_by_ack_id(receiving: ReceivingView, request: RequestView)
    requires
        receiving.pulled,
        receiving.pending.len() > 0,
    ensures
        receiving.asks(request) <==> posts(
            receiving.client,
            request,
            receiving.subscription,
            "acknowledge"@,
            plain_laws::only(
                "ackIds"@,
                Tree::Array(seq![Tree::Text(receiving.pending[0].ack_id)]),
            ),
        ),
        receiving.sound(),
{
    let ack_id = receiving.pending[0].ack_id;
    law_acknowledge_call(
        receiving.client,
        request,
        receiving.subscription,
        seq![ack_id],
        seq![Tree::Text(ack_id)],
    );
}

} // verus!
