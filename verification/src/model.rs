//! What a far end does, stated: the messages it holds, what each of the
//! three calls makes of them, and how it answers.

use crate::encoding::{self, Decoding};
use crate::failure::ArrivedView;
use crate::json::{self, Reading, Tree};
use crate::message::{self, RequestView, ResponseView};
use crate::text;
use crate::CEILING;
use std::time::Duration;
use vstd::prelude::*;

verus! {

/// [`Event`] in specifications.
pub enum EventView {
    Published(ArrivedView),
    Pulled { subscription: Seq<char>, count: nat },
    Acknowledged(Seq<Seq<char>>),
    Refused(Seq<char>),
}

/// A held message in specifications.
#[verifier::ext_equal]
pub struct HeldView {
    pub id: Seq<char>,
    pub data: Seq<u8>,
    pub in_flight: bool,
}

/// A session in specifications.
#[verifier::ext_equal]
pub struct SessionView {
    /// The token every request has to present.
    pub token: Seq<char>,
    /// The messages held on each topic, in the order they came.
    pub topics: Map<Seq<char>, Seq<HeldView>>,
    /// The topic each subscription reads.
    pub subscriptions: Map<Seq<char>, Seq<char>>,
    /// The number that the next message gets for its id.
    pub next: nat,
    /// How long to wait for a client that stops mid-request.
    pub timeout: Option<Duration>,
}

/// How a request is answered: the status, and the document in the body.
pub struct Reply {
    pub status: u16,
    pub body: Tree,
}

/// How a refused request is answered.
pub open spec fn refusal_reply(code: u16, status: Seq<char>, message: Seq<char>) -> Reply {
    Reply {
        status: code,
        body: json::no_fields().with(
            "error"@,
            json::no_fields().with("code"@, Tree::Number(code as u64)).with(
                "message"@,
                Tree::Text(message),
            ).with("status"@, Tree::Text(status)),
        ),
    }
}

/// What comes of a request.
pub struct Outcome {
    pub session: SessionView,
    pub event: EventView,
    pub reply: Reply,
    /// The messages whose data goes into the reply.
    pub handed: Seq<HeldView>,
}

impl Outcome {
    /// Whether the next number after it is one that a machine holds.
    pub open spec fn numbered(self) -> bool {
        self.session.next <= usize::MAX
    }
}

/// The message `id` on `topic`, as an origin says it.
pub open spec fn origin_of(topic: Seq<char>, id: Seq<char>) -> Seq<char> {
    "pubsub://"@ + topic + "#"@ + id
}

/// Whether `id` is the decimal of a number below `bound`.
pub open spec fn numbered_below(id: Seq<char>, bound: nat) -> bool {
    exists|number: nat| number < bound && id == #[trigger] text::decimal(number)
}

/// The messages that are not in flight.
pub open spec fn waiting(held: Seq<HeldView>) -> Seq<HeldView> {
    held.filter(|message: HeldView| !message.in_flight)
}

/// The messages that a pull of `most` hands over: the first that wait.
pub open spec fn handed_over(held: Seq<HeldView>, most: nat) -> Seq<HeldView> {
    let ready = waiting(held);
    ready.take(if most < ready.len() { most as int } else { ready.len() as int })
}

/// The messages as a pull of `most` leaves them: what it handed over is in
/// flight now.
pub open spec fn after_pull(held: Seq<HeldView>, most: nat) -> Seq<HeldView> {
    Seq::new(
        held.len(),
        |i: int|
            HeldView {
                in_flight: held[i].in_flight || waiting(held.take(i)).len() < most,
                ..held[i]
            },
    )
}

/// The messages as an acknowledgement of `ids` leaves them: without those
/// of them that are in flight.
pub open spec fn after_acknowledge(held: Seq<HeldView>, ids: Seq<Seq<char>>) -> Seq<HeldView> {
    held.filter(|message: HeldView| !(message.in_flight && ids.contains(message.id)))
}

/// `payloads` as messages, numbered from `next`.
pub open spec fn numbered(payloads: Seq<Seq<u8>>, next: nat) -> Seq<HeldView> {
    Seq::new(
        payloads.len(),
        |i: int|
            HeldView { id: text::decimal((next + i) as nat), data: payloads[i], in_flight: false },
    )
}

/// The bytes of each of `payloads`.
pub open spec fn contents(payloads: Seq<Vec<u8>>) -> Seq<Seq<u8>> {
    payloads.map_values(|payload: Vec<u8>| payload@)
}

/// The ids of `messages`.
pub open spec fn ids_of(messages: Seq<HeldView>) -> Seq<Seq<char>> {
    messages.map_values(|message: HeldView| message.id)
}

/// What a message to publish carries, by what its data decodes as and
/// whether an attribute comes with it; or why it is refused.
pub open spec fn payload_of(decoded: Decoding, attributed: bool) -> Decoding {
    match decoded {
        Err(why) => Err("Not base64: "@ + why),
        Ok(data) => if data.len() == 0 && !attributed {
            Err(crate::refusal_text())
        } else if data.len() > CEILING {
            Err(
                "Request payload size exceeds the limit: "@ + text::decimal(CEILING as nat)
                    + " bytes."@,
            )
        } else {
            Ok(data)
        },
    }
}

/// What one message of a publish carries, or why it is refused.
pub open spec fn message_payload(message: Tree) -> Decoding {
    payload_of(
        encoding::base64_decoded(json::text_or_empty(message.field("data"@))),
        message.field("attributes"@) matches Some(attributes) && attributes.has_fields(),
    )
}

/// What the messages of a publish carry, or why the first that is refused
/// is.
pub open spec fn payloads_of(messages: Seq<Tree>) -> Result<Seq<Seq<u8>>, Seq<char>>
    decreases messages.len(),
{
    if messages.len() == 0 {
        Ok(Seq::empty())
    } else {
        match payloads_of(messages.drop_last()) {
            Err(why) => Err(why),
            Ok(payloads) => match message_payload(messages.last()) {
                Err(why) => Err(why),
                Ok(payload) => Ok(payloads.push(payload)),
            },
        }
    }
}

/// The most messages that a pull asks for: one, where it does not say.
pub open spec fn most_asked(document: Tree) -> nat {
    match document.field("maxMessages"@) {
        Some(Tree::Number(most)) => most as nat,
        _ => 1,
    }
}

/// The ack id of the message `id`.
pub open spec fn ack_id_of(id: Seq<char>) -> Seq<char> {
    "ack-"@ + id
}

/// A message as a pull answers it.
pub open spec fn received_message(message: HeldView) -> Tree {
    json::no_fields().with("ackId"@, Tree::Text(ack_id_of(message.id))).with(
        "message"@,
        json::no_fields().with("data"@, Tree::Text(encoding::base64_encoded(message.data))).with(
            "messageId"@,
            Tree::Text(message.id),
        ),
    )
}

/// The answer to a pull that hands over `messages`.
pub open spec fn pull_answer(messages: Seq<HeldView>) -> Tree {
    if messages.len() == 0 {
        json::no_fields()
    } else {
        json::no_fields().with(
            "receivedMessages"@,
            Tree::Array(messages.map_values(|message: HeldView| received_message(message))),
        )
    }
}

/// Whether the data of `messages`, as a pull answers it, decodes as what
/// they hold.
pub open spec fn decodable(messages: Seq<HeldView>) -> bool {
    forall|i: int|
        0 <= i < messages.len() ==> encoding::base64_decoded(
            encoding::base64_encoded((#[trigger] messages[i]).data),
        ) == Decoding::Ok(messages[i].data)
}

/// The ids that `acks` name: of each that is a text behind `ack-`, what
/// follows.
pub open spec fn acked_ids(acks: Seq<Tree>) -> Seq<Seq<char>>
    decreases acks.len(),
{
    if acks.len() == 0 {
        Seq::empty()
    } else {
        let before = acked_ids(acks.drop_last());
        match acks.last() {
            Tree::Text(ack) => match text::stripped(ack, "ack-"@) {
                Some(id) => before.push(id),
                None => before,
            },
            _ => before,
        }
    }
}

/// The ids that an acknowledgement names.
pub open spec fn ids_acknowledged(document: Tree) -> Seq<Seq<char>> {
    match document.field("ackIds"@) {
        Some(Tree::Array(acks)) => acked_ids(acks),
        _ => Seq::empty(),
    }
}

/// What is left of messages with different ids was there before, and their
/// ids differ.
proof fn lemma_filter_ids(held: Seq<HeldView>, keeps: spec_fn(HeldView) -> bool)
    requires
        forall|i: int, j: int|
            0 <= i < j < held.len() ==> (#[trigger] held[i]).id != (#[trigger] held[j]).id,
    ensures
        forall|i: int|
            0 <= i < held.filter(keeps).len() ==> held.contains(#[trigger] held.filter(keeps)[i]),
        forall|i: int, j: int|
            0 <= i < j < held.filter(keeps).len() ==> (#[trigger] held.filter(keeps)[i]).id != (
            #[trigger] held.filter(keeps)[j]).id,
    decreases held.len(),
{
    reveal(Seq::filter);
    if held.len() > 0 {
        let fewer = held.drop_last();
        let kept = fewer.filter(keeps);
        assert forall|i: int, j: int| 0 <= i < j < fewer.len() implies (#[trigger] fewer[i]).id != (
        #[trigger] fewer[j]).id by {
            assert(held[i] == fewer[i] && held[j] == fewer[j]);
        }
        lemma_filter_ids(fewer, keeps);
        assert forall|i: int| 0 <= i < kept.len() implies held.contains(#[trigger] kept[i])
            && kept[i].id != held.last().id by {
            assert(fewer.contains(kept[i]));
            let was = choose|was: int| 0 <= was < fewer.len() && fewer[was] == kept[i];
            assert(held[was] == kept[i]);
            assert(held[held.len() - 1] == held.last());
        }
        assert(held.contains(held.last())) by {
            assert(held[held.len() - 1] == held.last());
        }
    }
}

/// The origin of a numbered message parts into its topic and its id.
proof fn lemma_origin_parts(topic: Seq<char>, number: nat)
    ensures
        text::parted_at_last(origin_of(topic, text::decimal(number)), '#') == Some(
            ("pubsub://"@ + topic, text::decimal(number)),
        ),
{
    let id = text::decimal(number);
    let before = "pubsub://"@ + topic;
    text::lemma_decimal_digits(number);
    assert(!id.contains('#')) by {
        assert forall|i: int| 0 <= i < id.len() implies id[i] != '#' by {
            assert('0' <= text::decimal(number)[i]);
        }
    }
    text::lemma_parted_at_last(before, '#', id);
    reveal_strlit("#");
    assert(before.push('#') + id == origin_of(topic, id));
}

/// One message that is refused has all of them refused for its reason,
/// where none before it is.
pub proof fn lemma_first_refusal(messages: Seq<Tree>, at: int, why: Seq<char>)
    requires
        0 <= at < messages.len(),
        payloads_of(messages.take(at + 1)) == Err::<Seq<Seq<u8>>, Seq<char>>(why),
    ensures
        payloads_of(messages) == Err::<Seq<Seq<u8>>, Seq<char>>(why),
    decreases messages.len() - at,
{
    if at + 1 == messages.len() {
        assert(messages.take(at + 1) == messages);
    } else {
        assert(messages.take(at + 2).drop_last() == messages.take(at + 1));
        lemma_first_refusal(messages, at + 1, why);
    }
}

/// One message more, and it waits unless it is in flight.
pub proof fn lemma_waiting_next(held: Seq<HeldView>, at: int)
    requires
        0 <= at < held.len(),
    ensures
        waiting(held.take(at + 1)) == if held[at].in_flight {
            waiting(held.take(at))
        } else {
            waiting(held.take(at)).push(held[at])
        },
{
    reveal(Seq::filter);
    assert(held.take(at + 1).drop_last() == held.take(at));
    assert(held.take(at + 1).last() == held[at]);
}

impl SessionView {
    /// The messages held on `topic`.
    pub open spec fn held(self, topic: Seq<char>) -> Seq<HeldView> {
        if self.topics.contains_key(topic) {
            self.topics[topic]
        } else {
            Seq::empty()
        }
    }

    /// Whether `at` is the place of a message on `topic`.
    pub open spec fn holds_at(self, topic: Seq<char>, at: int) -> bool {
        self.topics.contains_key(topic) && 0 <= at < self.topics[topic].len()
    }

    /// Every id is a number that was given out, none twice, and no message
    /// is larger than the service carries.
    pub open spec fn sound(self) -> bool {
        &&& self.next > 0
        &&& forall|topic: Seq<char>, at: int| #[trigger]
            self.holds_at(topic, at) ==> {
                &&& numbered_below(self.topics[topic][at].id, self.next)
                &&& self.topics[topic][at].data.len() <= CEILING
            }
        &&& forall|one: Seq<char>, i: int, other: Seq<char>, j: int|
            #![trigger self.holds_at(one, i), self.holds_at(other, j)]
            self.holds_at(one, i) && self.holds_at(other, j) && self.topics[one][i].id
                == self.topics[other][j].id ==> one == other && i == j
    }

    /// Every message held, by its origin.
    pub open spec fn messages(self) -> Map<Seq<char>, Seq<u8>> {
        Map::new(
            |uri: Seq<char>|
                exists|topic: Seq<char>, at: int| #[trigger]
                    self.holds_at(topic, at) && uri == origin_of(topic, self.topics[topic][at].id),
            |uri: Seq<char>|
                {
                    let (topic, at) = choose|topic: Seq<char>, at: int| #[trigger]
                        self.holds_at(topic, at) && uri == origin_of(
                            topic,
                            self.topics[topic][at].id,
                        );
                    self.topics[topic][at].data
                },
        )
    }

    /// Two messages with one origin are one message.
    pub proof fn lemma_origins_differ(self, one: Seq<char>, i: int, other: Seq<char>, j: int)
        requires
            self.sound(),
            self.holds_at(one, i),
            self.holds_at(other, j),
            origin_of(one, self.topics[one][i].id) == origin_of(other, self.topics[other][j].id),
        ensures
            one == other,
            i == j,
    {
        let m = choose|m: nat|
            m < self.next && self.topics[one][i].id == #[trigger] text::decimal(m);
        let n = choose|n: nat|
            n < self.next && self.topics[other][j].id == #[trigger] text::decimal(n);
        lemma_origin_parts(one, m);
        lemma_origin_parts(other, n);
        assert("pubsub://"@ + one == "pubsub://"@ + other);
        assert(one == ("pubsub://"@ + one).skip("pubsub://"@.len() as int));
        assert(other == ("pubsub://"@ + other).skip("pubsub://"@.len() as int));
    }

    /// Each message stands under its origin, and nothing else does.
    pub proof fn lemma_messages(self)
        requires
            self.sound(),
        ensures
            forall|topic: Seq<char>, at: int| #[trigger]
                self.holds_at(topic, at) ==> {
                    let uri = origin_of(topic, self.topics[topic][at].id);
                    self.messages().contains_key(uri) && self.messages()[uri]
                        == self.topics[topic][at].data
                },
    {
        assert forall|topic: Seq<char>, at: int| #[trigger] self.holds_at(topic, at) implies {
            let uri = origin_of(topic, self.topics[topic][at].id);
            self.messages().contains_key(uri) && self.messages()[uri]
                == self.topics[topic][at].data
        } by {
            let uri = origin_of(topic, self.topics[topic][at].id);
            let (other, j) = choose|other: Seq<char>, j: int| #[trigger]
                self.holds_at(other, j) && uri == origin_of(other, self.topics[other][j].id);
            self.lemma_origins_differ(topic, at, other, j);
        }
    }

    /// Whether `found` holds the messages of the first `topics` of `names`
    /// and the first `more` of the next, each under its origin, and
    /// nothing that is not held.
    pub open spec fn gathers(
        self,
        found: Map<Seq<char>, Seq<u8>>,
        names: Seq<Seq<char>>,
        topics: int,
        more: int,
    ) -> bool {
        &&& forall|t: int, at: int| #[trigger]
            self.holds_at(names[t], at) && 0 <= t < names.len() && (t < topics || t == topics && at
                < more) ==> {
                let uri = origin_of(names[t], self.topics[names[t]][at].id);
                found.contains_key(uri) && found[uri] == self.topics[names[t]][at].data
            }
        &&& forall|uri: Seq<char>| #[trigger]
            found.contains_key(uri) ==> exists|topic: Seq<char>, at: int| #[trigger]
                self.holds_at(topic, at) && uri == origin_of(topic, self.topics[topic][at].id)
                    && found[uri] == self.topics[topic][at].data
    }

    /// One message more is gathered.
    pub proof fn lemma_gathers_next(
        self,
        found: Map<Seq<char>, Seq<u8>>,
        names: Seq<Seq<char>>,
        topics: int,
        more: int,
    )
        requires
            self.sound(),
            self.gathers(found, names, topics, more),
            0 <= topics < names.len(),
            self.holds_at(names[topics], more),
        ensures
            ({
                let message = self.topics[names[topics]][more];
                self.gathers(
                    found.insert(origin_of(names[topics], message.id), message.data),
                    names,
                    topics,
                    more + 1,
                )
            }),
    {
        let message = self.topics[names[topics]][more];
        let new = origin_of(names[topics], message.id);
        let now = found.insert(new, message.data);
        assert forall|t: int, at: int| #[trigger]
            self.holds_at(names[t], at) && 0 <= t < names.len() && (t < topics || t == topics && at
                < more + 1) implies {
            let uri = origin_of(names[t], self.topics[names[t]][at].id);
            now.contains_key(uri) && now[uri] == self.topics[names[t]][at].data
        } by {
            let uri = origin_of(names[t], self.topics[names[t]][at].id);
            if uri == new {
                self.lemma_origins_differ(names[t], at, names[topics], more);
            } else {
                assert(!(t == topics && at == more));
            }
        }
        assert forall|uri: Seq<char>| #[trigger] now.contains_key(uri) implies exists|
            topic: Seq<char>,
            at: int,
        | #[trigger]
            self.holds_at(topic, at) && uri == origin_of(topic, self.topics[topic][at].id)
                && now[uri] == self.topics[topic][at].data by {
            if uri == new {
                assert(self.holds_at(names[topics], more));
            } else {
                assert(found.contains_key(uri));
                let (topic, at) = choose|topic: Seq<char>, at: int| #[trigger]
                    self.holds_at(topic, at) && uri == origin_of(topic, self.topics[topic][at].id)
                        && found[uri] == self.topics[topic][at].data;
                assert(self.holds_at(topic, at));
            }
        }
    }

    /// What the authorization of a request has to say.
    pub open spec fn bearer(self) -> Seq<char> {
        "Bearer "@ + self.token
    }

    /// A request is refused: nothing else changes.
    pub open spec fn refuses(self, code: u16, status: Seq<char>, message: Seq<char>) -> Outcome {
        Outcome {
            session: self,
            event: EventView::Refused(status),
            reply: refusal_reply(code, status, message),
            handed: Seq::empty(),
        }
    }

    /// `payloads` are published to `topic`.
    pub open spec fn takes_in(self, topic: Seq<char>, payloads: Seq<Seq<u8>>) -> Outcome {
        if payloads.len() == 0 {
            self.refuses(400, "INVALID_ARGUMENT"@, "A publish with no messages"@)
        } else {
            let messages = numbered(payloads, self.next);
            Outcome {
                session: SessionView {
                    topics: self.topics.insert(topic, self.held(topic) + messages),
                    next: self.next + payloads.len(),
                    ..self
                },
                event: EventView::Published(
                    ArrivedView {
                        origin_uri: origin_of(topic, messages[0].id),
                        bytes: payloads[0],
                    },
                ),
                reply: Reply {
                    status: 200,
                    body: json::no_fields().with("messageIds"@, json::text_list(ids_of(messages))),
                },
                handed: Seq::empty(),
            }
        }
    }

    /// `document` is published to `topic`.
    pub open spec fn publishes(self, topic: Seq<char>, document: Tree) -> Outcome {
        match document.field("messages"@) {
            Some(Tree::Array(messages)) => match payloads_of(messages) {
                Ok(payloads) => self.takes_in(topic, payloads),
                Err(why) => self.refuses(400, "INVALID_ARGUMENT"@, why),
            },
            _ => self.refuses(400, "INVALID_ARGUMENT"@, "A publish names messages"@),
        }
    }

    /// A subscription that nobody knows is asked for.
    pub open spec fn knows_not(self, subscription: Seq<char>) -> Outcome {
        self.refuses(404, "NOT_FOUND"@, "Resource not found: "@ + subscription)
    }

    /// `document` asks to pull from `subscription`.
    pub open spec fn pulls(self, subscription: Seq<char>, document: Tree) -> Outcome {
        if !self.subscriptions.contains_key(subscription) {
            self.knows_not(subscription)
        } else {
            let topic = self.subscriptions[subscription];
            let most = most_asked(document);
            let messages = handed_over(self.held(topic), most);
            Outcome {
                session: SessionView {
                    topics: self.topics.insert(topic, after_pull(self.held(topic), most)),
                    ..self
                },
                event: EventView::Pulled { subscription, count: messages.len() },
                reply: Reply { status: 200, body: pull_answer(messages) },
                handed: messages,
            }
        }
    }

    /// `document` acknowledges messages of `subscription`.
    pub open spec fn acknowledges(self, subscription: Seq<char>, document: Tree) -> Outcome {
        if !self.subscriptions.contains_key(subscription) {
            self.knows_not(subscription)
        } else {
            let topic = self.subscriptions[subscription];
            let ids = ids_acknowledged(document);
            Outcome {
                session: SessionView {
                    topics: self.topics.insert(topic, after_acknowledge(self.held(topic), ids)),
                    ..self
                },
                event: EventView::Acknowledged(ids),
                reply: Reply { status: 200, body: json::no_fields() },
                handed: Seq::empty(),
            }
        }
    }

    /// `request` is answered, its body read as `read`.
    pub open spec fn answers(self, request: RequestView, read: Reading) -> Outcome {
        if message::header_named(request.headers, "authorization"@) != Some(self.bearer()) {
            self.refuses(401, "UNAUTHENTICATED"@, "Request had invalid credentials"@)
        } else {
            match resource_and_verb(request.path) {
                None => self.refuses(404, "NOT_FOUND"@, "Not a resource and a verb"@),
                Some((resource, verb)) => match read {
                    Err(why) => self.refuses(400, "INVALID_ARGUMENT"@, "Not JSON: "@ + why),
                    Ok(document) => if request.method == "POST"@ && verb == "publish"@ {
                        self.publishes(resource, document)
                    } else if request.method == "POST"@ && verb == "pull"@ {
                        self.pulls(resource, document)
                    } else if request.method == "POST"@ && verb == "acknowledge"@ {
                        self.acknowledges(resource, document)
                    } else {
                        self.refuses(404, "NOT_FOUND"@, "Not one of the three calls"@)
                    },
                },
            }
        }
    }

    /// What is published is given ids that nothing else has.
    pub proof fn lemma_takes_in_sound(self, topic: Seq<char>, payloads: Seq<Seq<u8>>)
        requires
            self.sound(),
            forall|i: int| 0 <= i < payloads.len() ==> (#[trigger] payloads[i]).len() <= CEILING,
        ensures
            self.takes_in(topic, payloads).session.sound(),
    {
        if payloads.len() > 0 {
            let after = self.takes_in(topic, payloads).session;
            let held = self.held(topic);
            let messages = numbered(payloads, self.next);
            assert forall|name: Seq<char>, at: int| #[trigger] after.holds_at(name, at) implies {
                &&& numbered_below(after.topics[name][at].id, after.next)
                &&& after.topics[name][at].data.len() <= CEILING
            } by {
                if name == topic && at >= held.len() {
                    let i = at - held.len();
                    assert(after.topics[name][at] == messages[i]);
                    assert(messages[i].id == text::decimal((self.next + i) as nat));
                    assert(messages[i].data == payloads[i]);
                } else {
                    assert(self.holds_at(name, at));
                    assert(after.topics[name][at] == self.topics[name][at]);
                    let number = choose|number: nat|
                        number < self.next && self.topics[name][at].id == #[trigger] text::decimal(
                            number,
                        );
                    assert(after.topics[name][at].id == text::decimal(number));
                }
            }
            assert forall|one: Seq<char>, i: int, other: Seq<char>, j: int|
                #![trigger after.holds_at(one, i), after.holds_at(other, j)]
                after.holds_at(one, i) && after.holds_at(other, j) && after.topics[one][i].id
                    == after.topics[other][j].id implies one == other && i == j by {
                let one_new = one == topic && i >= held.len();
                let other_new = other == topic && j >= held.len();
                if one_new && other_new {
                    assert(after.topics[one][i] == messages[i - held.len()]);
                    assert(after.topics[other][j] == messages[j - held.len()]);
                    text::lemma_decimal_injective(
                        (self.next + i - held.len()) as nat,
                        (self.next + j - held.len()) as nat,
                    );
                } else if one_new {
                    assert(after.topics[one][i] == messages[i - held.len()]);
                    self.lemma_new_number(other, j, (i - held.len()) as nat);
                    assert(after.topics[other][j] == self.topics[other][j]);
                } else if other_new {
                    assert(after.topics[other][j] == messages[j - held.len()]);
                    self.lemma_new_number(one, i, (j - held.len()) as nat);
                    assert(after.topics[one][i] == self.topics[one][i]);
                } else {
                    assert(self.holds_at(one, i) && self.holds_at(other, j));
                    assert(after.topics[one][i] == self.topics[one][i]);
                    assert(after.topics[other][j] == self.topics[other][j]);
                }
            }
        }
    }

    /// What a pull puts in flight changes no id and no data.
    pub proof fn lemma_pulls_sound(self, subscription: Seq<char>, document: Tree)
        requires
            self.sound(),
        ensures
            self.pulls(subscription, document).session.sound(),
    {
        let after = self.pulls(subscription, document).session;
        assert forall|name: Seq<char>, at: int| #[trigger] after.holds_at(name, at) implies {
            &&& self.holds_at(name, at)
            &&& after.topics[name][at].id == self.topics[name][at].id
            &&& after.topics[name][at].data == self.topics[name][at].data
        } by {}
    }

    /// What an acknowledgement leaves was there before.
    pub proof fn lemma_acknowledges_sound(self, subscription: Seq<char>, document: Tree)
        requires
            self.sound(),
        ensures
            self.acknowledges(subscription, document).session.sound(),
    {
        if self.subscriptions.contains_key(subscription) {
            let topic = self.subscriptions[subscription];
            let after = self.acknowledges(subscription, document).session;
            let ids = ids_acknowledged(document);
            let keeps = |message: HeldView| !(message.in_flight && ids.contains(message.id));
            let held = self.held(topic);
            assert forall|i: int, j: int| 0 <= i < j < held.len() implies held[i].id != held[j].id by {
                assert(self.holds_at(topic, i) && self.holds_at(topic, j));
            }
            lemma_filter_ids(held, keeps);
            let kept = after_acknowledge(held, ids);
            assert(after.topics[topic] == kept);
            assert forall|name: Seq<char>, at: int| #[trigger] after.holds_at(name, at) implies exists|
                was: int,
            |
                #[trigger] self.holds_at(name, was) && self.topics[name][was]
                    == after.topics[name][at] by {
                if name == topic {
                    assert(held.contains(kept[at]));
                    let was = choose|was: int| 0 <= was < held.len() && held[was] == kept[at];
                    assert(self.holds_at(name, was));
                } else {
                    assert(self.holds_at(name, at));
                }
            }
            assert forall|one: Seq<char>, i: int, other: Seq<char>, j: int|
                #![trigger after.holds_at(one, i), after.holds_at(other, j)]
                after.holds_at(one, i) && after.holds_at(other, j) && after.topics[one][i].id
                    == after.topics[other][j].id implies one == other && i == j by {
                let was_i = choose|was: int| #[trigger]
                    self.holds_at(one, was) && self.topics[one][was] == after.topics[one][i];
                let was_j = choose|was: int| #[trigger]
                    self.holds_at(other, was) && self.topics[other][was] == after.topics[other][j];
                assert(one == other);
                if one == topic {
                    if i < j {
                        assert(kept[i].id != kept[j].id);
                    } else if j < i {
                        assert(kept[j].id != kept[i].id);
                    }
                } else {
                    assert(self.holds_at(one, i) && self.holds_at(other, j));
                }
            }
        }
    }

    /// A number that was not given out yet is the id of no message.
    proof fn lemma_new_number(self, topic: Seq<char>, at: int, ahead: nat)
        requires
            self.sound(),
            self.holds_at(topic, at),
        ensures
            self.topics[topic][at].id != text::decimal(self.next + ahead),
    {
        let number = choose|number: nat|
            number < self.next && self.topics[topic][at].id == #[trigger] text::decimal(number);
        if self.topics[topic][at].id == text::decimal(self.next + ahead) {
            text::lemma_decimal_injective(number, self.next + ahead);
        }
    }
}

/// What `/v1/<resource>:<verb>` names.
pub open spec fn resource_and_verb(path: Seq<char>) -> Option<(Seq<char>, Seq<char>)> {
    match text::stripped(path, "/v1/"@) {
        Some(rest) => text::parted_at_last(rest, ':'),
        None => None,
    }
}

impl ResponseView {
    /// Whether this is `reply` as the API writes it, and is read back as
    /// it.
    pub open spec fn says(self, reply: Reply) -> bool {
        &&& self.status == reply.status
        &&& self.headers == seq![("Content-Type"@, "application/json; charset=UTF-8"@)]
        &&& self.body == json::json_bytes(reply.body)
        &&& json::json_decoded(self.body) == Reading::Ok(reply.body)
    }
}

} // verus!
