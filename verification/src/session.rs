//! The far end: enough of Pub/Sub to answer one Location, and what a test
//! or the playground puts on loopback.
//!
//! Not Pub/Sub. One session holds the messages of every topic it is asked
//! about in memory, knows which subscription reads which topic, checks
//! every request for one bearer token, and answers the three calls with
//! the shapes the API answers them: the message ids, the received messages
//! with their ack ids, the error with its status. A pulled message stays in
//! flight until it is acknowledged, as the service keeps it; a pull that
//! finds nothing answers at once.

use crate::encoding::{self, Decoding};
use crate::failure::Arrived;
use crate::json::{self, Json};
use crate::message::{Request, Response};
use crate::model::{self, EventView, HeldView, Reply, SessionView};
use crate::table::Table;
use crate::text;
use crate::{ceiling, refusal, CEILING};
use std::time::Duration;
use vstd::prelude::*;
use vstd::string::*;

verus! {

/// What the client did, as an answered request shows it.
#[derive(Clone, Debug, PartialEq, Eq)]
pub enum Event {
    /// The client published a message; here is the Stream, its origin the
    /// topic and the id it was given.
    Published(Arrived),
    /// The client pulled `count` messages from `subscription`.
    Pulled { subscription: String, count: usize },
    /// The client acknowledged these messages, by id.
    Acknowledged(Vec<String>),
    /// The client was answered with this error status.
    Refused(String),
}

impl View for Event {
    type V = EventView;

    open spec fn view(&self) -> EventView {
        match *self {
            Event::Published(arrived) => EventView::Published(arrived@),
            Event::Pulled { subscription, count } => EventView::Pulled {
                subscription: subscription@,
                count: count as nat,
            },
            Event::Acknowledged(ids) => EventView::Acknowledged(
                ids@.map_values(|id: String| id@),
            ),
            Event::Refused(status) => EventView::Refused(status@),
        }
    }
}

/// One message held, on its topic.
struct Held {
    id: String,
    data: Vec<u8>,
    in_flight: bool,
}

/// What the held messages are in specifications.
spec fn held_views(held: Seq<Held>) -> Seq<HeldView> {
    held.map_values(|message: Held| message@)
}

impl View for Held {
    type V = HeldView;

    closed spec fn view(&self) -> HeldView {
        HeldView { id: self.id@, data: self.data@, in_flight: self.in_flight }
    }
}

/// One Pub/Sub far end, in memory.
pub struct Session {
    token: String,
    topics: Table<Vec<Held>>,
    subscriptions: Table<String>,
    next: usize,
    timeout: Option<Duration>,
}

impl View for Session {
    type V = SessionView;

    closed spec fn view(&self) -> SessionView {
        SessionView {
            token: self.token@,
            topics: self.topics@.map_values(|held: Vec<Held>| held_views(held@)),
            subscriptions: self.subscriptions@.map_values(|topic: String| topic@),
            next: self.next as nat,
            timeout: self.timeout,
        }
    }
}

/// The message `id` on `topic`, as an origin says it.
#[must_use]
pub fn origin(topic: &str, id: &str) -> (uri: String)
    ensures
        uri@ == model::origin_of(topic@, id@),
{
    let mut uri = "pubsub://".to_string();
    uri.append(topic);
    uri.append("#");
    uri.append(id);
    uri
}

/// A response with `body` as the API writes it.
fn written(status: u16, body: &Json) -> (response: Response)
    requires
        body.writable(json::DEEPEST as nat),
    ensures
        response@.says(Reply { status, body: body@ }),
{
    let bytes = json::write(body);
    let response = Response::new(status).header(
        "Content-Type",
        "application/json; charset=UTF-8",
    ).body(bytes.as_slice());
    assert(response@.headers == seq![("Content-Type"@, "application/json; charset=UTF-8"@)]);
    response
}

/// The answer to a call that came about.
pub fn answer(body: &Json) -> (response: Response)
    requires
        body.writable(json::DEEPEST as nat),
    ensures
        response@.says(Reply { status: 200, body: body@ }),
{
    written(200, body)
}

/// The answer to a call that did not, and what it was.
pub fn refused(code: u16, status: &str, message: &str) -> (answered: (Event, Response))
    ensures
        answered.0@ == EventView::Refused(status@),
        answered.1@.says(model::refusal_reply(code, status@, message@)),
{
    let error = Json::object().with("code", Json::Number(code as u64)).with(
        "message",
        Json::Text(message.to_string()),
    ).with("status", Json::Text(status.to_string()));
    let body = Json::object().with("error", error);
    proof {
        assert(error.writable(1)) by {
            assert(Json::Number(code as u64).writable(0));
        }
        assert(error.writable((json::DEEPEST - 1) as nat));
    }
    (Event::Refused(status.to_string()), written(code, &body))
}

/// What a message to publish carries, by what its data decodes as and
/// whether an attribute comes with it; or why it is refused.
pub fn payload(decoded: Result<Vec<u8>, String>, attributed: bool) -> (carried: Result<
    Vec<u8>,
    String,
>)
    ensures
        encoding::decoding(carried) == model::payload_of(encoding::decoding(decoded), attributed),
{
    match decoded {
        Err(why) => Err(text::joined("Not base64: ", why.as_str())),
        Ok(data) => {
            if !attributed {
                if let Some(why) = refusal(data.as_slice()) {
                    return Err(why);
                }
            }
            if data.len() > ceiling() {
                let mut why = "Request payload size exceeds the limit: ".to_string();
                why.append(text::in_decimal(ceiling()).as_str());
                why.append(" bytes.");
                return Err(why);
            }
            Ok(data)
        },
    }
}

/// What the messages of a publish carry, or why the first that is refused
/// is.
fn payloads(messages: &Vec<Json>) -> (carried: Result<Vec<Vec<u8>>, String>)
    ensures
        match carried {
            Ok(carried) => {
                &&& model::payloads_of(json::said_each(messages@)) == Ok::<Seq<Seq<u8>>, Seq<char>>(
                    model::contents(carried@),
                )
                &&& carried@.len() == messages@.len()
                &&& forall|i: int|
                    0 <= i < carried@.len() ==> (#[trigger] carried@[i])@.len() <= CEILING
            },
            Err(why) => model::payloads_of(json::said_each(messages@)) == Err::<Seq<Seq<u8>>, Seq<char>>(
                why@,
            ),
        },
{
    let ghost trees = json::said_each(messages@);
    let mut carried: Vec<Vec<u8>> = Vec::new();
    assert(model::contents(carried@) == Seq::<Seq<u8>>::empty());
    while carried.len() < messages.len()
        invariant
            carried.len() <= messages.len() == trees.len(),
            trees == json::said_each(messages@),
            model::payloads_of(trees.take(carried@.len() as int)) == Ok::<Seq<Seq<u8>>, Seq<char>>(
                model::contents(carried@),
            ),
            forall|i: int| 0 <= i < carried@.len() ==> (#[trigger] carried@[i])@.len() <= CEILING,
        decreases messages.len() - carried.len(),
    {
        let at: usize = carried.len();
        let message = &messages[at];
        let attributed = match message.field("attributes") {
            Some(attributes) => attributes.has_fields(),
            None => false,
        };
        let ghost before = model::contents(carried@);
        proof {
            assert(trees.take(at + 1).drop_last() == trees.take(at as int));
            assert(trees.take(at + 1).last() == message@);
        }
        match payload(encoding::decode(message.text_of("data")), attributed) {
            Ok(data) => {
                carried.push(data);
                assert(model::contents(carried@) == before.push(data@));
            },
            Err(why) => {
                proof {
                    model::lemma_first_refusal(trees, at as int, why@);
                }
                return Err(why);
            },
        }
    }
    assert(trees.take(trees.len() as int) == trees);
    Ok(carried)
}

/// `message` as a pull answers it.
fn received_json(message: &Held) -> (json: Json)
    ensures
        json@ == model::received_message(message@),
        forall|depth: nat| depth > 1 ==> #[trigger] json.writable(depth),
        encoding::base64_decoded(encoding::base64_encoded(message@.data)) == Decoding::Ok(
            message@.data,
        ),
{
    let data = encoding::encode(message.data.as_slice());
    let inner = Json::object().with("data", Json::Text(data)).with(
        "messageId",
        Json::Text(message.id.clone()),
    );
    let json = Json::object().with(
        "ackId",
        Json::Text(text::joined("ack-", message.id.as_str())),
    ).with("message", inner);
    assert forall|depth: nat| depth > 1 implies #[trigger] json.writable(depth) by {
        assert(inner.writable((depth - 1) as nat));
    }
    json
}

/// The ids that `acks` name.
fn named_ids(acks: &Vec<Json>) -> (ids: Vec<String>)
    ensures
        ids@.map_values(|id: String| id@) == model::acked_ids(json::said_each(acks@)),
{
    let ghost trees = json::said_each(acks@);
    let mut ids: Vec<String> = Vec::new();
    let mut at: usize = 0;
    assert(ids@.map_values(|id: String| id@) == model::acked_ids(trees.take(0)));
    while at < acks.len()
        invariant
            at <= acks.len() == trees.len(),
            trees == json::said_each(acks@),
            ids@.map_values(|id: String| id@) == model::acked_ids(trees.take(at as int)),
        decreases acks.len() - at,
    {
        let ghost before = ids@.map_values(|id: String| id@);
        proof {
            assert(trees.take(at + 1).drop_last() == trees.take(at as int));
            assert(trees.take(at + 1).last() == acks@[at as int]@);
        }
        if let Some(ack) = acks[at].as_str() {
            if let Some(id) = text::strip(ack, "ack-") {
                ids.push(id.to_string());
                assert(ids@.map_values(|id: String| id@) == before.push(id@));
            }
        }
        at = at + 1;
    }
    assert(trees.take(trees.len() as int) == trees);
    ids
}

/// Whether `id` is among `ids`.
fn among(ids: &Vec<String>, id: &str) -> (yes: bool)
    ensures
        yes == ids@.map_values(|id: String| id@).contains(id@),
{
    let ghost names = ids@.map_values(|id: String| id@);
    let mut at: usize = 0;
    while at < ids.len()
        invariant
            at <= ids.len() == names.len(),
            names == ids@.map_values(|id: String| id@),
            forall|i: int| 0 <= i < at ==> names[i] != id@,
        decreases ids.len() - at,
    {
        if text::same(ids[at].as_str(), id) {
            assert(names[at as int] == id@);
            return true;
        }
        at = at + 1;
    }
    false
}

impl Session {
    /// The tables are in order and the messages sound.
    pub closed spec fn well_formed(self) -> bool {
        &&& self.topics.ordered()
        &&& self.subscriptions.ordered()
        &&& self@.sound()
    }

    /// A session that is well formed is sound, and holds its next number.
    pub proof fn lemma_well_formed(self)
        requires
            self.well_formed(),
        ensures
            self@.sound(),
            self@.next <= usize::MAX,
    {
    }

    /// Answer requests presenting `token`.
    #[must_use]
    pub fn new(token: &str) -> (session: Self)
        ensures
            session.well_formed(),
            session@ == (SessionView {
                token: token@,
                topics: Map::empty(),
                subscriptions: Map::empty(),
                next: 1,
                timeout: None,
            }),
    {
        let session = Session {
            token: token.to_string(),
            topics: Table::new(),
            subscriptions: Table::new(),
            next: 1,
            timeout: None,
        };
        assert(session@.topics == Map::<Seq<char>, Seq<HeldView>>::empty());
        assert(session@.subscriptions == Map::<Seq<char>, Seq<char>>::empty());
        session
    }

    /// Give up on a client that stops mid-request after `timeout`.
    #[must_use]
    pub fn timing_out_after(self, timeout: Duration) -> (session: Self)
        requires
            self.well_formed(),
        ensures
            session.well_formed(),
            session@ == (SessionView { timeout: Some(timeout), ..self@ }),
    {
        let mut session = self;
        session.timeout = Some(timeout);
        assert(forall|topic: Seq<char>, at: int| session@.holds_at(topic, at) == self@.holds_at(topic, at));
        session
    }

    /// How long to wait for a client that stops mid-request.
    pub fn timeout(&self) -> (timeout: Option<Duration>)
        ensures
            timeout == self@.timeout,
    {
        self.timeout
    }

    /// Know `subscription` (`projects/<p>/subscriptions/<s>`) as a reader
    /// of `topic` (`projects/<p>/topics/<t>`).
    #[must_use]
    pub fn subscribing(self, subscription: &str, topic: &str) -> (session: Self)
        requires
            self.well_formed(),
        ensures
            session.well_formed(),
            session@ == (SessionView {
                subscriptions: self@.subscriptions.insert(subscription@, topic@),
                ..self@
            }),
    {
        let mut session = self;
        session.subscriptions.insert(subscription.to_string(), topic.to_string());
        assert(session@.subscriptions == self@.subscriptions.insert(subscription@, topic@));
        assert(forall|topic: Seq<char>, at: int| session@.holds_at(topic, at) == self@.holds_at(topic, at));
        session
    }

    /// Publish `payloads` to `topic`, each as one message.
    pub fn take_in(&mut self, topic: &str, payloads: Vec<Vec<u8>>) -> (answered: (Event, Response))
        requires
            old(self).well_formed(),
            old(self)@.next + payloads@.len() <= usize::MAX,
            forall|i: int| 0 <= i < payloads@.len() ==> (#[trigger] payloads@[i])@.len() <= CEILING,
        ensures
            final(self).well_formed(),
            final(self)@ == old(self)@.takes_in(topic@, model::contents(payloads@)).session,
            answered.0@ == old(self)@.takes_in(topic@, model::contents(payloads@)).event,
            answered.1@.says(old(self)@.takes_in(topic@, model::contents(payloads@)).reply),
    {
        let ghost given = model::contents(payloads@);
        let ghost before = self@;
        if payloads.len() == 0 {
            return refused(400, "INVALID_ARGUMENT", "A publish with no messages");
        }
        let first = Arrived::new(
            origin(topic, text::in_decimal(self.next).as_str()),
            payloads[0].clone(),
        );
        let ghost messages = model::numbered(given, before.next);
        let mut payloads = payloads;
        let mut ids: Vec<String> = Vec::new();
        let mut new: Vec<Held> = Vec::new();
        let mut at: usize = 0;
        while at < payloads.len()
            invariant
                at <= payloads.len() == given.len() == messages.len(),
                self.next == before.next,
                before.next + given.len() <= usize::MAX,
                messages == model::numbered(given, before.next),
                forall|i: int| at <= i < given.len() ==> (#[trigger] payloads@[i])@ == given[i],
                new@.len() == at,
                forall|i: int| 0 <= i < at ==> (#[trigger] new@[i])@ == messages[i],
                ids@.len() == at,
                forall|i: int| 0 <= i < at ==> (#[trigger] ids@[i])@ == messages[i].id,
            decreases payloads.len() - at,
        {
            let id = text::in_decimal(self.next + at);
            let mut data: Vec<u8> = Vec::new();
            std::mem::swap(&mut data, &mut payloads[at]);
            new.push(Held { id: id.clone(), data, in_flight: false });
            ids.push(id);
            at = at + 1;
        }
        proof {
            assert(held_views(new@) == messages);
            assert(ids@.map_values(|id: String| id@) == model::ids_of(messages));
        }
        let count: usize = payloads.len();
        let held = self.topics.slot(topic.to_string(), Vec::new());
        let ghost held_before = held@;
        held.append(&mut new);
        proof {
            assert(held_views(held@) == held_views(held_before) + messages);
        }
        self.next = self.next + count;
        proof {
            assert(self@.topics == before.topics.insert(topic@, before.held(topic@) + messages));
            before.lemma_takes_in_sound(topic@, given);
        }
        let body = Json::object().with("messageIds", Json::texts(ids.as_slice()));
        (Event::Published(first), answer(&body))
    }

    /// Publish the messages of `document` to `topic`; nothing happens where
    /// the numbers for their ids run out.
    pub fn publish(&mut self, topic: &str, document: &Json) -> (answered: Option<(Event, Response)>)
        requires
            old(self).well_formed(),
        ensures
            final(self).well_formed(),
            ({
                let outcome = old(self)@.publishes(topic@, document@);
                match answered {
                    Some((event, response)) => {
                        &&& outcome.numbered()
                        &&& final(self)@ == outcome.session
                        &&& event@ == outcome.event
                        &&& response@.says(outcome.reply)
                    },
                    None => !outcome.numbered() && final(self)@ == old(self)@,
                }
            }),
    {
        assert(self@.next <= usize::MAX);
        let messages = match document.field("messages") {
            Some(field) => field.as_array(),
            None => None,
        };
        match messages {
            None => Some(refused(400, "INVALID_ARGUMENT", "A publish names messages")),
            Some(messages) => match payloads(messages) {
                Ok(carried) => {
                    if carried.len() > usize::MAX - self.next {
                        return None;
                    }
                    Some(self.take_in(topic, carried))
                },
                Err(why) => Some(refused(400, "INVALID_ARGUMENT", why.as_str())),
            },
        }
    }

    /// Hand over what waits for `subscription`, as many as `document` asks
    /// for, and hold it in flight.
    pub fn pull(&mut self, subscription: &str, document: &Json) -> (answered: (Event, Response))
        requires
            old(self).well_formed(),
        ensures
            final(self).well_formed(),
            final(self)@ == old(self)@.pulls(subscription@, document@).session,
            answered.0@ == old(self)@.pulls(subscription@, document@).event,
            answered.1@.says(old(self)@.pulls(subscription@, document@).reply),
            model::decodable(old(self)@.pulls(subscription@, document@).handed),
    {
        let ghost before = self@;
        let topic = match self.subscriptions.get(subscription) {
            Some(topic) => topic.clone(),
            None => {
                return refused(
                    404,
                    "NOT_FOUND",
                    text::joined("Resource not found: ", subscription).as_str(),
                );
            },
        };
        let asked = match document.field("maxMessages") {
            Some(field) => field.as_u64(),
            None => None,
        };
        let most: u64 = match asked {
            Some(most) => most,
            None => 1,
        };
        let mut held: Vec<Held> = Vec::new();
        std::mem::swap(self.topics.slot(topic.clone(), Vec::new()), &mut held);
        let ghost all = held_views(held@);
        assert(all == before.held(topic@));
        let mut received: Vec<Json> = Vec::new();
        let mut at: usize = 0;
        while at < held.len()
            invariant
                at <= held.len() == all.len(),
                forall|i: int| 0 <= i < at ==> (#[trigger] held@[i])@ == model::after_pull(all, most as nat)[i],
                forall|i: int| at <= i < all.len() ==> (#[trigger] held@[i])@ == all[i],
                received.len() <= most,
                received.len() <= model::waiting(all.take(at as int)).len(),
                received.len() == most || received.len() == model::waiting(all.take(at as int)).len(),
                forall|i: int|
                    0 <= i < received.len() ==> {
                        let message = model::waiting(all.take(at as int))[i];
                        &&& (#[trigger] received@[i])@ == model::received_message(message)
                        &&& received@[i].writable((json::DEEPEST - 2) as nat)
                        &&& encoding::base64_decoded(encoding::base64_encoded(message.data))
                            == Decoding::Ok(message.data)
                    },
            decreases held.len() - at,
        {
            proof {
                model::lemma_waiting_next(all, at as int);
            }
            if !held[at].in_flight && received.len() as u64 != most {
                received.push(received_json(&held[at]));
                held[at].in_flight = true;
            }
            at = at + 1;
        }
        let ghost messages = model::handed_over(all, most as nat);
        proof {
            assert(all.take(all.len() as int) == all);
            assert(held_views(held@) == model::after_pull(all, most as nat));
            assert(json::said_each(received@) == messages.map_values(
                |message: HeldView| model::received_message(message),
            ));
            assert forall|i: int| 0 <= i < messages.len() implies encoding::base64_decoded(
                encoding::base64_encoded((#[trigger] messages[i]).data),
            ) == Decoding::Ok(messages[i].data) by {
                assert(received@[i]@ == model::received_message(messages[i]));
            }
        }
        self.topics.insert(topic, held);
        proof {
            assert(self@.topics == before.pulls(subscription@, document@).session.topics);
            before.lemma_pulls_sound(subscription@, document@);
        }
        let count: usize = received.len();
        let mut body = Json::object();
        if count > 0 {
            let list = Json::Array(received);
            assert(list.writable((json::DEEPEST - 1) as nat));
            body = body.with("receivedMessages", list);
        }
        let event = Event::Pulled { subscription: subscription.to_string(), count };
        (event, answer(&body))
    }

    /// Let go of the messages of `subscription` that `document` names,
    /// where they are in flight.
    pub fn acknowledge(&mut self, subscription: &str, document: &Json) -> (answered: (
        Event,
        Response,
    ))
        requires
            old(self).well_formed(),
        ensures
            final(self).well_formed(),
            final(self)@ == old(self)@.acknowledges(subscription@, document@).session,
            answered.0@ == old(self)@.acknowledges(subscription@, document@).event,
            answered.1@.says(old(self)@.acknowledges(subscription@, document@).reply),
    {
        let ghost before = self@;
        let topic = match self.subscriptions.get(subscription) {
            Some(topic) => topic.clone(),
            None => {
                return refused(
                    404,
                    "NOT_FOUND",
                    text::joined("Resource not found: ", subscription).as_str(),
                );
            },
        };
        let acks = match document.field("ackIds") {
            Some(field) => field.as_array(),
            None => None,
        };
        let ids = match acks {
            Some(acks) => named_ids(acks),
            None => Vec::new(),
        };
        let ghost names = ids@.map_values(|id: String| id@);
        assert(names == model::ids_acknowledged(document@));
        let mut held: Vec<Held> = Vec::new();
        std::mem::swap(self.topics.slot(topic.clone(), Vec::new()), &mut held);
        let ghost all = held_views(held@);
        assert(all == before.held(topic@));
        let ghost mut seen: int = 0;
        let mut at: usize = 0;
        proof {
            reveal(Seq::filter);
            assert(model::after_acknowledge(all.take(0), names) == Seq::<HeldView>::empty());
        }
        while at < held.len()
            invariant
                at <= held.len(),
                0 <= seen <= all.len(),
                held.len() - at == all.len() - seen,
                names == ids@.map_values(|id: String| id@),
                held_views(held@) == model::after_acknowledge(all.take(seen), names) + all.skip(seen),
                model::after_acknowledge(all.take(seen), names).len() == at,
            decreases held.len() - at,
        {
            let ghost kept = model::after_acknowledge(all.take(seen), names);
            let ghost current = held@;
            proof {
                assert(held_views(held@)[at as int] == held@[at as int]@);
                assert(held@[at as int]@ == all[seen]);
                reveal(Seq::filter);
                assert(all.take(seen + 1).drop_last() == all.take(seen));
                assert(all.take(seen + 1).last() == all[seen]);
            }
            if held[at].in_flight && among(&ids, held[at].id.as_str()) {
                held.remove(at);
                assert(held_views(held@) == held_views(current).remove(at as int));
                assert(held_views(held@) == kept + all.skip(seen + 1));
            } else {
                at = at + 1;
                assert(held_views(held@) == kept.push(all[seen]) + all.skip(seen + 1));
            }
            proof {
                seen = seen + 1;
            }
        }
        proof {
            assert(all.take(all.len() as int) == all);
            assert(held_views(held@) == model::after_acknowledge(all, names));
        }
        self.topics.insert(topic, held);
        proof {
            assert(self@.topics == before.acknowledges(subscription@, document@).session.topics);
            before.lemma_acknowledges_sound(subscription@, document@);
        }
        (Event::Acknowledged(ids), answer(&Json::object()))
    }

    /// Answer `request`, its body read as `read`, and say what it was;
    /// nothing happens where the numbers for the ids of its messages run
    /// out.
    pub fn answer_read(&mut self, request: &Request, read: Result<Json, String>) -> (answered: Option<
        (Event, Response),
    >)
        requires
            old(self).well_formed(),
        ensures
            final(self).well_formed(),
            ({
                let outcome = old(self)@.answers(request@, json::reading(read));
                match answered {
                    Some((event, response)) => {
                        &&& outcome.numbered()
                        &&& final(self)@ == outcome.session
                        &&& event@ == outcome.event
                        &&& response@.says(outcome.reply)
                        &&& model::decodable(outcome.handed)
                    },
                    None => !outcome.numbered() && final(self)@ == old(self)@,
                }
            }),
    {
        assert(self@.next <= usize::MAX);
        let bearer = text::joined("Bearer ", self.token.as_str());
        let presented = match request.header_value("authorization") {
            Some(value) => text::same(value, bearer.as_str()),
            None => false,
        };
        if !presented {
            return Some(refused(401, "UNAUTHENTICATED", "Request had invalid credentials"));
        }
        let parts = match text::strip(request.path.as_str(), "/v1/") {
            Some(rest) => text::part_at_last(rest, ':'),
            None => None,
        };
        let (resource, verb) = match parts {
            Some(parts) => parts,
            None => {
                return Some(refused(404, "NOT_FOUND", "Not a resource and a verb"));
            },
        };
        let document = match read {
            Ok(document) => document,
            Err(why) => {
                let message = text::joined("Not JSON: ", why.as_str());
                return Some(refused(400, "INVALID_ARGUMENT", message.as_str()));
            },
        };
        let post = text::same(request.method.as_str(), "POST");
        if post && text::same(verb, "publish") {
            self.publish(resource, &document)
        } else if post && text::same(verb, "pull") {
            Some(self.pull(resource, &document))
        } else if post && text::same(verb, "acknowledge") {
            Some(self.acknowledge(resource, &document))
        } else {
            Some(refused(404, "NOT_FOUND", "Not one of the three calls"))
        }
    }

    /// Answer `request` and say what it was; nothing happens where the
    /// numbers for the ids of its messages run out.
    pub fn answer(&mut self, request: &Request) -> (answered: Option<(Event, Response)>)
        requires
            old(self).well_formed(),
        ensures
            final(self).well_formed(),
            ({
                let outcome = old(self)@.answers(request@, json::json_decoded(request@.body));
                match answered {
                    Some((event, response)) => {
                        &&& outcome.numbered()
                        &&& final(self)@ == outcome.session
                        &&& event@ == outcome.event
                        &&& response@.says(outcome.reply)
                        &&& model::decodable(outcome.handed)
                    },
                    None => !outcome.numbered() && final(self)@ == old(self)@,
                }
            }),
    {
        let read = json::parse(request.body.as_slice());
        self.answer_read(request, read)
    }

    /// Every message held now, keyed `pubsub://<topic>#<id>`, in flight or
    /// not.
    #[must_use]
    pub fn messages(&self) -> (messages: Table<Vec<u8>>)
        requires
            self.well_formed(),
        ensures
            messages.ordered(),
            messages@.map_values(|data: Vec<u8>| data@) == self@.messages(),
    {
        let mut messages: Table<Vec<u8>> = Table::new();
        let ghost whole = self@;
        let ghost pairs = self.topics.pairs();
        let ghost names = pairs.map_values(|pair: (Seq<char>, Vec<Held>)| pair.0);
        proof {
            self.topics.lemma_entries();
            assert(messages@.map_values(|data: Vec<u8>| data@) == Map::<Seq<char>, Seq<u8>>::empty());
        }
        let count: usize = self.topics.len();
        let mut t: usize = 0;
        while t < count
            invariant
                t <= count == pairs.len() == names.len(),
                self.well_formed(),
                whole == self@,
                pairs == self.topics.pairs(),
                names == pairs.map_values(|pair: (Seq<char>, Vec<Held>)| pair.0),
                messages.ordered(),
                whole.gathers(messages@.map_values(|data: Vec<u8>| data@), names, t as int, 0),
            decreases count - t,
        {
            let (topic, held) = self.topics.entry(t);
            proof {
                self.topics.lemma_entries();
                assert(names[t as int] == topic@);
                assert(whole.topics[topic@] == held_views(held@));
            }
            let mut at: usize = 0;
            while at < held.len()
                invariant
                    t < count == names.len(),
                    at <= held.len(),
                    whole.sound(),
                    names[t as int] == topic@,
                    whole.topics.contains_key(topic@),
                    whole.topics[topic@] == held_views(held@),
                    messages.ordered(),
                    whole.gathers(
                        messages@.map_values(|data: Vec<u8>| data@),
                        names,
                        t as int,
                        at as int,
                    ),
                decreases held.len() - at,
            {
                let ghost found = messages@.map_values(|data: Vec<u8>| data@);
                let uri = origin(topic.as_str(), held[at].id.as_str());
                let data = held[at].data.clone();
                proof {
                    assert(whole.topics[topic@][at as int] == held@[at as int]@);
                    assert(data@ == held@[at as int].data@);
                    assert(whole.holds_at(names[t as int], at as int));
                    whole.lemma_gathers_next(found, names, t as int, at as int);
                }
                messages.insert(uri, data);
                assert(messages@.map_values(|data: Vec<u8>| data@) == found.insert(uri@, data@));
                at = at + 1;
            }
            t = t + 1;
        }
        proof {
            let found = messages@.map_values(|data: Vec<u8>| data@);
            whole.lemma_messages();
            self.topics.lemma_entries();
            assert forall|uri: Seq<char>| #[trigger] whole.messages().contains_key(uri) implies {
                found.contains_key(uri) && found[uri] == whole.messages()[uri]
            } by {
                let (topic, at) = choose|topic: Seq<char>, at: int| #[trigger]
                    whole.holds_at(topic, at) && uri == model::origin_of(
                        topic,
                        whole.topics[topic][at].id,
                    );
                assert(self.topics@.contains_key(topic));
                let i = choose|i: int| 0 <= i < pairs.len() && (#[trigger] pairs[i]).0 == topic;
                assert(names[i] == topic);
                assert(whole.holds_at(names[i], at));
            }
            assert forall|uri: Seq<char>| #[trigger] found.contains_key(uri) implies
                whole.messages().contains_key(uri) by {
                let (topic, at) = choose|topic: Seq<char>, at: int| #[trigger]
                    whole.holds_at(topic, at) && uri == model::origin_of(
                        topic,
                        whole.topics[topic][at].id,
                    ) && found[uri] == whole.topics[topic][at].data;
                assert(whole.holds_at(topic, at));
            }
            assert(found.dom() =~= whole.messages().dom());
            assert(found =~= whole.messages());
        }
        messages
    }
}

} // verus!
