//! This side: the three calls a Location makes, each one request with a
//! bearer token, and what is made of the response.
//!
//! The REST API, because it is one HTTP call per operation:
//! `POST /v1/projects/<p>/topics/<t>:publish`,
//! `POST /v1/projects/<p>/subscriptions/<s>:pull`, `POST ...:acknowledge`.
//! Obtaining the token is outside this crate: a Location is configured with
//! one and hands it on as `Authorization: Bearer`. So is the connection:
//! the requests are formed here and the responses read here, and whoever
//! holds the connection carries them.

use crate::encoding::{self, Decoding};
use crate::failure::{Failure, FailureView};
use crate::json::{self, Json, Reading, Tree};
use crate::message::{Request, RequestView, Response, ResponseView};
use crate::text;
use std::time::Duration;
use vstd::prelude::*;
use vstd::string::*;

verus! {

/// The most one pull hands back.
pub const MAX_MESSAGES: u8 = 10;

/// One message as it came off the subscription.
#[derive(Clone, Debug, PartialEq, Eq)]
pub struct Received {
    pub ack_id: String,
    pub id: String,
    pub data: Vec<u8>,
}

/// [`Received`] in specifications.
#[verifier::ext_equal]
pub struct ReceivedView {
    pub ack_id: Seq<char>,
    pub id: Seq<char>,
    pub data: Seq<u8>,
}

impl View for Received {
    type V = ReceivedView;

    open spec fn view(&self) -> ReceivedView {
        ReceivedView { ack_id: self.ack_id@, id: self.id@, data: self.data@ }
    }
}

/// A client in specifications.
#[verifier::ext_equal]
pub struct ClientView {
    pub endpoint: Seq<char>,
    pub host: Seq<char>,
    pub token: Seq<char>,
    pub timeout: Option<Duration>,
}

impl ClientView {
    /// The request that calls `verb` on `resource` with `document`.
    pub open spec fn request(
        self,
        resource: Seq<char>,
        verb: Seq<char>,
        document: Tree,
    ) -> RequestView {
        RequestView {
            method: "POST"@,
            path: "/v1/"@ + resource + ":"@ + verb,
            headers: seq![
                ("Host"@, self.host),
                ("Authorization"@, "Bearer "@ + self.token),
                ("Content-Type"@, "application/json"@),
            ],
            body: json::json_bytes(document),
        }
    }

    /// Whether `request` is that request, and its body is read back as
    /// `document`.
    pub open spec fn calls(
        self,
        request: RequestView,
        resource: Seq<char>,
        verb: Seq<char>,
        document: Tree,
    ) -> bool {
        &&& request == self.request(resource, verb, document)
        &&& json::json_decoded(request.body) == Reading::Ok(document)
    }

    /// Whether `request` publishes `bytes` to `topic`, and they are decoded
    /// from it.
    pub open spec fn publishes(
        self,
        request: RequestView,
        topic: Seq<char>,
        bytes: Seq<u8>,
    ) -> bool {
        &&& self.calls(request, topic, "publish"@, publish_document(encoding::base64_encoded(bytes)))
        &&& encoding::base64_decoded(encoding::base64_encoded(bytes)) == Decoding::Ok(bytes)
    }
}

/// What a publish of one message says, its data encoded.
pub open spec fn publish_document(encoded: Seq<char>) -> Tree {
    json::no_fields().with(
        "messages"@,
        Tree::Array(seq![json::no_fields().with("data"@, Tree::Text(encoded))]),
    )
}

/// What a pull says.
pub open spec fn pull_document() -> Tree {
    json::no_fields().with("maxMessages"@, Tree::Number(MAX_MESSAGES as u64))
}

/// What an acknowledgement says.
pub open spec fn acknowledge_document(ack_ids: Seq<Seq<char>>) -> Tree {
    json::no_fields().with("ackIds"@, json::text_list(ack_ids))
}

/// Whether a status is success.
pub open spec fn succeeds(status: u16) -> bool {
    200 <= status < 300
}

/// Whether a status that is not success says to come back.
pub open spec fn comes_back(status: u16) -> bool {
    status == 429 || 500 <= status < 600
}

/// The message that an error answer carries, by what its body is read as;
/// nothing, where it carries none.
pub open spec fn reason_in(read: Reading) -> Seq<char> {
    match read {
        Ok(answer) => match answer.field("error"@) {
            Some(error) => json::text_or_empty(error.field("message"@)),
            None => Seq::empty(),
        },
        Err(_) => Seq::empty(),
    }
}

/// The failure that an answer with `status` is, for `reason`.
pub open spec fn answered_failure(status: u16, reason: Seq<char>) -> FailureView {
    FailureView::Answered {
        message: if reason.len() == 0 {
            "Pub/Sub answered "@ + text::decimal(status as nat)
        } else {
            "Pub/Sub answered "@ + text::decimal(status as nat) + " "@ + reason
        },
        retryable: comes_back(status),
    }
}

/// What the document of an answer is, by what its body is read as.
pub open spec fn document_in(read: Reading) -> Result<Tree, FailureView> {
    match read {
        Ok(answer) => Ok(answer),
        Err(why) => Err(FailureView::Protocol("an answer that is not JSON: "@ + why)),
    }
}

/// What an answer says, or the failure it is.
pub open spec fn answer_in(response: ResponseView) -> Result<Tree, FailureView> {
    if succeeds(response.status) {
        document_in(json::json_decoded(response.body))
    } else {
        Err(answered_failure(response.status, reason_in(json::json_decoded(response.body))))
    }
}

/// The id that an answer to a publish gives.
pub open spec fn id_in(answer: Tree) -> Result<Seq<char>, FailureView> {
    match answer.field("messageIds"@) {
        Some(Tree::Array(ids)) => if ids.len() > 0 && ids[0] is Text {
            Ok(ids[0]->Text_0)
        } else {
            Err(FailureView::Protocol("a publish answered with no messageIds"@))
        },
        _ => Err(FailureView::Protocol("a publish answered with no messageIds"@)),
    }
}

/// The text of a field of the message in `value`, empty where there is
/// none.
pub open spec fn text_of_message(value: Tree, name: Seq<char>) -> Seq<char> {
    match value.field("message"@) {
        Some(message) => json::text_or_empty(message.field(name)),
        None => Seq::empty(),
    }
}

/// One received message, its data decoded as `decoded`.
pub open spec fn received_as(value: Tree, decoded: Decoding) -> Result<ReceivedView, FailureView> {
    match decoded {
        Ok(data) => Ok(
            ReceivedView {
                ack_id: json::text_or_empty(value.field("ackId"@)),
                id: text_of_message(value, "messageId"@),
                data,
            },
        ),
        Err(why) => Err(
            FailureView::Protocol("a message whose data is not base64: "@ + why),
        ),
    }
}

/// One received message as the API writes it, read back.
pub open spec fn received_in(value: Tree) -> Result<ReceivedView, FailureView> {
    received_as(value, encoding::base64_decoded(text_of_message(value, "data"@)))
}

/// The received messages, or the failure that the first that is none is.
pub open spec fn each_received_in(values: Seq<Tree>) -> Result<Seq<ReceivedView>, FailureView>
    decreases values.len(),
{
    if values.len() == 0 {
        Ok(Seq::empty())
    } else {
        match each_received_in(values.drop_last()) {
            Err(failure) => Err(failure),
            Ok(messages) => match received_in(values.last()) {
                Err(failure) => Err(failure),
                Ok(message) => Ok(messages.push(message)),
            },
        }
    }
}

/// The first of `messages`, as many as one pull hands back.
pub open spec fn at_most_one_pull(messages: Seq<ReceivedView>) -> Seq<ReceivedView> {
    if messages.len() > MAX_MESSAGES {
        messages.take(MAX_MESSAGES as int)
    } else {
        messages
    }
}

/// The messages that an answer to a pull hands over: the first
/// [`MAX_MESSAGES`], where all of it can be read.
pub open spec fn messages_in(answer: Tree) -> Result<Seq<ReceivedView>, FailureView> {
    match answer.field("receivedMessages"@) {
        Some(Tree::Array(values)) => match each_received_in(values) {
            Ok(messages) => Ok(at_most_one_pull(messages)),
            Err(failure) => Err(failure),
        },
        _ => Ok(Seq::empty()),
    }
}

/// What comes of a publish that is answered with `response`.
pub open spec fn publish_result(response: ResponseView) -> Result<Seq<char>, FailureView> {
    match answer_in(response) {
        Ok(answer) => id_in(answer),
        Err(failure) => Err(failure),
    }
}

/// What comes of a pull that is answered with `response`.
pub open spec fn pull_result(response: ResponseView) -> Result<Seq<ReceivedView>, FailureView> {
    match answer_in(response) {
        Ok(answer) => messages_in(answer),
        Err(failure) => Err(failure),
    }
}

/// What comes of an acknowledgement that is answered with `response`.
pub open spec fn acknowledge_result(response: ResponseView) -> Result<(), FailureView> {
    match answer_in(response) {
        Ok(_) => Ok(()),
        Err(failure) => Err(failure),
    }
}

/// A failing result is one failure.
pub open spec fn fails<T>(result: Result<T, FailureView>, failure: Failure) -> bool {
    result matches Err(stated) && stated == failure@
}

/// The client of one endpoint.
pub struct Client {
    endpoint: String,
    host: String,
    token: String,
    timeout: Option<Duration>,
}

impl View for Client {
    type V = ClientView;

    closed spec fn view(&self) -> ClientView {
        ClientView {
            endpoint: self.endpoint@,
            host: self.host@,
            token: self.token@,
            timeout: self.timeout,
        }
    }
}

impl Client {
    /// Speak to the Pub/Sub endpoint at `endpoint` (`http://host:port` or
    /// `https://host:port`, `https://pubsub.googleapis.com` in the cloud),
    /// presenting `token`. `authority` is the host that the endpoint names.
    ///
    /// # Errors
    /// Where `endpoint` is not an HTTP URL, so that it names none.
    pub fn new(endpoint: &str, authority: Result<String, Failure>, token: &str) -> (client: Result<
        Self,
        Failure,
    >)
        ensures
            match authority {
                Ok(host) => client matches Ok(client) && client@ == (ClientView {
                    endpoint: endpoint@,
                    host: host@,
                    token: token@,
                    timeout: None,
                }),
                Err(failure) => client matches Err(why) && why == failure,
            },
    {
        match authority {
            Ok(host) => Ok(
                Client {
                    endpoint: endpoint.to_string(),
                    host,
                    token: token.to_string(),
                    timeout: None,
                },
            ),
            Err(failure) => Err(failure),
        }
    }

    /// Give up on an endpoint that stops answering after `timeout`.
    #[must_use]
    pub fn timing_out_after(self, timeout: Duration) -> (client: Self)
        ensures
            client@ == (ClientView { timeout: Some(timeout), ..self@ }),
    {
        let mut client = self;
        client.timeout = Some(timeout);
        client
    }

    /// Where the endpoint is.
    pub fn endpoint(&self) -> (endpoint: &str)
        ensures
            endpoint@ == self@.endpoint,
    {
        self.endpoint.as_str()
    }

    /// How long to wait for an endpoint that stops answering.
    pub fn timeout(&self) -> (timeout: Option<Duration>)
        ensures
            timeout == self@.timeout,
    {
        self.timeout
    }

    /// The request that calls `verb` on `resource` with `document`.
    pub fn call(&self, resource: &str, verb: &str, document: &Json) -> (request: Request)
        requires
            document.writable(json::DEEPEST as nat),
        ensures
            self@.calls(request@, resource@, verb@, document@),
    {
        let mut path = "/v1/".to_string();
        path.append(resource);
        path.append(":");
        path.append(verb);
        let bytes = json::write(document);
        let request = Request::new("POST", path.as_str()).header("Host", self.host.as_str()).header(
            "Authorization",
            text::joined("Bearer ", self.token.as_str()).as_str(),
        ).header("Content-Type", "application/json").body(bytes.as_slice());
        assert(request@.headers == self@.request(resource@, verb@, document@).headers);
        request
    }

    /// The request that publishes `bytes` as one message to `topic`
    /// (`projects/<p>/topics/<t>`). What comes of it is [`published`].
    pub fn publish(&self, topic: &str, bytes: &[u8]) -> (request: Request)
        ensures
            self@.publishes(request@, topic@, bytes@),
    {
        let encoded = encoding::encode(bytes);
        let message = Json::object().with("data", Json::Text(encoded));
        let mut messages: Vec<Json> = Vec::new();
        messages.push(message);
        let list = Json::Array(messages);
        proof {
            assert(message.writable((json::DEEPEST - 2) as nat));
            assert(list.writable((json::DEEPEST - 1) as nat));
            assert(json::said_each(messages@) == seq![message@]);
        }
        let document = Json::object().with("messages", list);
        self.call(topic, "publish", &document)
    }

    /// The request for up to [`MAX_MESSAGES`] messages from `subscription`
    /// (`projects/<p>/subscriptions/<s>`), each held until it is
    /// acknowledged. What comes of it is [`pulled`].
    pub fn pull(&self, subscription: &str) -> (request: Request)
        ensures
            self@.calls(request@, subscription@, "pull"@, pull_document()),
    {
        let document = Json::object().with("maxMessages", Json::Number(MAX_MESSAGES as u64));
        self.call(subscription, "pull", &document)
    }

    /// The request that acknowledges the messages `ack_ids` were received
    /// with: they are Streams now, and leave the subscription. What comes
    /// of it is [`acknowledged`].
    pub fn acknowledge(&self, subscription: &str, ack_ids: &[String]) -> (request: Request)
        ensures
            self@.calls(
                request@,
                subscription@,
                "acknowledge"@,
                acknowledge_document(ack_ids@.map_values(|ack_id: String| ack_id@)),
            ),
    {
        let document = Json::object().with("ackIds", Json::texts(ack_ids));
        self.call(subscription, "acknowledge", &document)
    }
}

/// The id of the message that was published, by the response.
///
/// # Errors
/// Where the endpoint refused, or answered with no id.
pub fn published(response: Response) -> (id: Result<String, Failure>)
    ensures
        match id {
            Ok(id) => publish_result(response@) matches Ok(stated) && stated == id@,
            Err(failure) => fails(publish_result(response@), failure),
        },
{
    match answer(response) {
        Ok(answer) => id_given(&answer),
        Err(failure) => Err(failure),
    }
}

/// The id that an answer to a publish gives.
///
/// # Errors
/// Where it gives none.
pub fn id_given(answer: &Json) -> (id: Result<String, Failure>)
    ensures
        match id {
            Ok(id) => id_in(answer@) matches Ok(stated) && stated == id@,
            Err(failure) => fails(id_in(answer@), failure),
        },
{
    let ids = match answer.field("messageIds") {
        Some(field) => field.as_array(),
        None => None,
    };
    if let Some(ids) = ids {
        if ids.len() > 0 {
            assert(json::said_each(ids@)[0] == ids@[0]@);
            if let Some(id) = ids[0].as_str() {
                return Ok(id.to_string());
            }
        }
    }
    Err(Failure::Protocol("a publish answered with no messageIds".to_string()))
}

/// The messages that were pulled, by the response: [`MAX_MESSAGES`] at
/// most. What an endpoint answers beyond that stays unacknowledged.
///
/// # Errors
/// Where the endpoint refused, or answered with messages that are not
/// base64.
pub fn pulled(response: Response) -> (messages: Result<Vec<Received>, Failure>)
    ensures
        messages matches Ok(messages) ==> messages@.len() <= MAX_MESSAGES,
        match messages {
            Ok(messages) => pull_result(response@) matches Ok(stated) && stated == received_views(
                messages@,
            ),
            Err(failure) => fails(pull_result(response@), failure),
        },
{
    match answer(response) {
        Ok(answer) => messages_given(&answer),
        Err(failure) => Err(failure),
    }
}

/// What `messages` are in specifications.
pub open spec fn received_views(messages: Seq<Received>) -> Seq<ReceivedView> {
    messages.map_values(|message: Received| message@)
}

/// The messages that an answer to a pull hands over, [`MAX_MESSAGES`] at
/// most.
///
/// # Errors
/// Where one is not base64.
pub fn messages_given(answer: &Json) -> (messages: Result<Vec<Received>, Failure>)
    ensures
        messages matches Ok(messages) ==> messages@.len() <= MAX_MESSAGES,
        match messages {
            Ok(messages) => messages_in(answer@) matches Ok(stated) && stated == received_views(
                messages@,
            ),
            Err(failure) => fails(messages_in(answer@), failure),
        },
{
    let values = match answer.field("receivedMessages") {
        Some(field) => field.as_array(),
        None => None,
    };
    let mut messages: Vec<Received> = Vec::new();
    assert(received_views(messages@) == Seq::<ReceivedView>::empty());
    let values = match values {
        Some(values) => values,
        None => {
            return Ok(messages);
        },
    };
    let ghost trees = json::said_each(values@);
    while messages.len() < values.len()
        invariant
            messages.len() <= values.len() == trees.len(),
            trees == json::said_each(values@),
            answer@.field("receivedMessages"@) == Some(Tree::Array(trees)),
            each_received_in(trees.take(messages@.len() as int)) matches Ok(stated) && stated
                == received_views(messages@),
        decreases values.len() - messages.len(),
    {
        let at: usize = messages.len();
        let ghost before = received_views(messages@);
        proof {
            assert(trees.take(at + 1).drop_last() == trees.take(at as int));
            assert(trees.take(at + 1).last() == values@[at as int]@);
        }
        match received(&values[at]) {
            Ok(message) => {
                messages.push(message);
                assert(received_views(messages@) == before.push(message@));
            },
            Err(failure) => {
                proof {
                    lemma_first_failure(trees, at as int, failure@);
                }
                return Err(failure);
            },
        }
    }
    assert(trees.take(trees.len() as int) == trees);
    let ghost all = messages@;
    messages.truncate(MAX_MESSAGES as usize);
    assert(received_views(messages@) == at_most_one_pull(received_views(all)));
    Ok(messages)
}

/// One message that cannot be read is the failure of all of them, where
/// none before it is.
pub proof fn lemma_first_failure(values: Seq<Tree>, at: int, failure: FailureView)
    requires
        0 <= at < values.len(),
        each_received_in(values.take(at + 1)) == Err::<Seq<ReceivedView>, FailureView>(failure),
    ensures
        each_received_in(values) == Err::<Seq<ReceivedView>, FailureView>(failure),
    decreases values.len() - at,
{
    if at + 1 == values.len() {
        assert(values.take(at + 1) == values);
    } else {
        assert(values.take(at + 2).drop_last() == values.take(at + 1));
        lemma_first_failure(values, at + 1, failure);
    }
}

/// Whether the messages were acknowledged, by the response.
///
/// # Errors
/// Where the endpoint refused.
pub fn acknowledged(response: Response) -> (done: Result<(), Failure>)
    ensures
        match done {
            Ok(_) => acknowledge_result(response@) is Ok,
            Err(failure) => fails(acknowledge_result(response@), failure),
        },
{
    match answer(response) {
        Ok(_) => Ok(()),
        Err(failure) => Err(failure),
    }
}

/// One received message as the API writes it, read back.
///
/// # Errors
/// Where its data is not base64.
pub fn received(value: &Json) -> (message: Result<Received, Failure>)
    ensures
        match message {
            Ok(message) => received_in(value@) matches Ok(stated) && stated == message@,
            Err(failure) => fails(received_in(value@), failure),
        },
{
    proof {
        reveal_strlit("");
    }
    let data = match value.field("message") {
        Some(message) => message.text_of("data"),
        None => "",
    };
    assert(data@ == text_of_message(value@, "data"@));
    received_with(value, encoding::decode(data))
}

/// One received message, its data decoded as `decoded`.
///
/// # Errors
/// Where it was not base64.
pub fn received_with(value: &Json, decoded: Result<Vec<u8>, String>) -> (message: Result<
    Received,
    Failure,
>)
    ensures
        match message {
            Ok(message) => received_as(value@, encoding::decoding(decoded)) matches Ok(stated)
                && stated == message@,
            Err(failure) => fails(received_as(value@, encoding::decoding(decoded)), failure),
        },
{
    proof {
        reveal_strlit("");
    }
    match decoded {
        Ok(data) => {
            let id = match value.field("message") {
                Some(message) => message.text_of("messageId"),
                None => "",
            };
            Ok(
                Received {
                    ack_id: value.text_of("ackId").to_string(),
                    id: id.to_string(),
                    data,
                },
            )
        },
        Err(why) => Err(
            Failure::Protocol(text::joined("a message whose data is not base64: ", why.as_str())),
        ),
    }
}

/// What a response says.
///
/// # Errors
/// Where its status is not 2xx or its body is not JSON.
pub fn answer(response: Response) -> (answer: Result<Json, Failure>)
    ensures
        match answer {
            Ok(answer) => answer_in(response@) matches Ok(stated) && stated == answer@,
            Err(failure) => fails(answer_in(response@), failure),
        },
{
    match judge(response) {
        Ok(response) => document(json::parse(response.body.as_slice())),
        Err(failure) => Err(failure),
    }
}

/// The document of an answer, by what its body is read as.
///
/// # Errors
/// Where that is no document.
pub fn document(read: Result<Json, String>) -> (answer: Result<Json, Failure>)
    ensures
        match answer {
            Ok(answer) => document_in(json::reading(read)) matches Ok(stated) && stated == answer@,
            Err(failure) => fails(document_in(json::reading(read)), failure),
        },
{
    match read {
        Ok(answer) => Ok(answer),
        Err(why) => Err(
            Failure::Protocol(text::joined("an answer that is not JSON: ", why.as_str())),
        ),
    }
}

/// A 2xx answer as it is; anything else as a failure naming the status and
/// the message the service put in the body, retryable where HTTP says come
/// back.
///
/// # Errors
/// Where the status is not 2xx.
pub fn judge(response: Response) -> (judged: Result<Response, Failure>)
    ensures
        match judged {
            Ok(answer) => succeeds(response.status) && answer == response,
            Err(failure) => !succeeds(response.status) && failure@ == answered_failure(
                response.status,
                reason_in(json::json_decoded(response@.body)),
            ),
        },
{
    if 200 <= response.status && response.status < 300 {
        Ok(response)
    } else {
        let reason = reason(json::parse(response.body.as_slice()));
        Err(failure(response.status, reason.as_str()))
    }
}

/// The failure that an answer with `status` is, for `reason`.
pub fn failure(status: u16, reason: &str) -> (failure: Failure)
    ensures
        failure@ == answered_failure(status, reason@),
{
    let mut message = "Pub/Sub answered ".to_string();
    message.append(text::in_decimal(status as usize).as_str());
    if !reason.is_empty() {
        message.append(" ");
        message.append(reason);
    }
    let retryable = status == 429 || (500 <= status && status < 600);
    Failure::Answered { message, retryable }
}

/// The message an error answer carries, by what its body is read as; or
/// nothing.
pub fn reason(read: Result<Json, String>) -> (reason: String)
    ensures
        reason@ == reason_in(json::reading(read)),
{
    match read {
        Ok(answer) => match answer.field("error") {
            Some(error) => error.text_of("message").to_string(),
            None => String::new(),
        },
        Err(_) => String::new(),
    }
}

} // verus!
