//! Streams that arrive as messages on a Pub/Sub subscription. One message
//! is one Stream, its id kept beside it.
//!
//! Pub/Sub is the message bus of every organisation that lives in Google
//! Cloud: a topic, and subscriptions that keep what is published to it
//! until each reader acknowledges. Its REST API is three calls: publish to
//! a topic, pull from a subscription, acknowledge what was pulled. A
//! Receive Location pulls, hands each message on as a Stream and
//! acknowledges it once it is; a Send Location publishes a Stream as one
//! message. Both present a bearer token. Obtaining the token is outside: a
//! Location is configured with it. So is the connection: what is sent is
//! formed here, and what comes back is read here.
//!
//! A message is bytes, base64 on the wire, ten mebibytes at most:
//! [`ceiling`]. A message has data or an attribute, and a Stream is data,
//! so an empty Stream is what the service does not carry: [`refusal`] says
//! so before a request is formed rather than after the service answers
//! `INVALID_ARGUMENT`.
//!
//! The origin URI is `pubsub://projects/<p>/subscriptions/<s>#<id>` for
//! what was pulled and `pubsub://projects/<p>/topics/<t>#<id>` for what the
//! far end took. A send target is a topic (`projects/<p>/topics/<t>`, or a
//! name alone in this transport's project) or empty for its own.

pub mod client;
pub mod encoding;
pub mod failure;
pub mod far_end_laws;
pub mod json;
pub mod laws;
pub mod message;
pub mod model;
pub mod near_end_laws;
pub mod plain_laws;
pub mod receiving;
pub mod session;
pub mod table;
pub mod text;

pub use client::{Client, Received, MAX_MESSAGES};
pub use failure::{Arrived, Failure};
pub use receiving::{Receiving, Step};
pub use session::{Event, Session};

use client::ClientView;
use failure::FailureView;
use message::{Request, Response};
use model::SessionView;
use receiving::ReceivingView;
use std::time::Duration;
use vstd::prelude::*;
use vstd::string::*;

verus! {

/// The largest message Pub/Sub carries, in bytes.
pub const CEILING: usize = 10 * 1024 * 1024;

/// The largest message Pub/Sub carries: ten mebibytes, the number its own
/// refusal names.
#[must_use]
pub fn ceiling() -> (bytes: usize)
    ensures
        bytes == CEILING,
        bytes == 10_485_760,
{
    CEILING
}

/// Why an empty Stream cannot travel.
pub open spec fn refusal_text() -> Seq<char> {
    "a message has data or an attribute, and an empty Stream has neither"@
}

/// Why `bytes` cannot travel as a message, or `None` where they can: a
/// message has data or an attribute, and an empty Stream has neither.
#[must_use]
pub fn refusal(bytes: &[u8]) -> (why: Option<String>)
    ensures
        match why {
            Some(why) => bytes@.len() == 0 && why@ == refusal_text(),
            None => bytes@.len() > 0,
        },
{
    if bytes.is_empty() {
        Some("a message has data or an attribute, and an empty Stream has neither".to_string())
    } else {
        None
    }
}

/// A transport in specifications.
#[verifier::ext_equal]
pub struct TransportView {
    pub endpoint: Seq<char>,
    pub project: Seq<char>,
    pub topic: Seq<char>,
    pub subscription: Seq<char>,
    pub token: Seq<char>,
    pub timeout: Option<Duration>,
}

impl TransportView {
    /// The topic `name` of the project.
    pub open spec fn topic_called(self, name: Seq<char>) -> Seq<char> {
        "projects/"@ + self.project + "/topics/"@ + name
    }

    /// Its own topic in full.
    pub open spec fn topic_name(self) -> Seq<char> {
        self.topic_called(self.topic)
    }

    /// Its subscription in full.
    pub open spec fn subscription_name(self) -> Seq<char> {
        "projects/"@ + self.project + "/subscriptions/"@ + self.subscription
    }

    /// The topic that `target` names.
    pub open spec fn resolved(self, target: Seq<char>) -> Seq<char> {
        if target.len() == 0 {
            self.topic_name()
        } else if "projects/"@.is_prefix_of(target) {
            target
        } else {
            self.topic_called(target)
        }
    }

    /// Its client, where `host` is what its endpoint names.
    pub open spec fn client(self, host: Seq<char>) -> ClientView {
        ClientView { endpoint: self.endpoint, host, token: self.token, timeout: self.timeout }
    }

    /// A receive through its client, as it is before the first request.
    pub open spec fn receiving(self, host: Seq<char>) -> ReceivingView {
        ReceivingView {
            client: self.client(host),
            subscription: self.subscription_name(),
            pulled: false,
            pending: Seq::empty(),
            arrived: Seq::empty(),
        }
    }

    /// Its far end, as it is before the first request.
    pub open spec fn session(self) -> SessionView {
        SessionView {
            token: self.token,
            topics: Map::empty(),
            subscriptions: Map::empty().insert(self.subscription_name(), self.topic_name()),
            next: 1,
            timeout: self.timeout,
        }
    }
}

/// Why a Stream of `size` bytes is too large.
pub open spec fn excess_text(size: nat) -> Seq<char> {
    text::decimal(size) + " bytes, and one Pub/Sub message carries "@ + text::decimal(
        CEILING as nat,
    )
}

/// Why a Stream of `size` bytes does not travel, where it does not.
pub open spec fn turned_away(size: nat) -> Option<FailureView> {
    if size == 0 {
        Some(FailureView::Permanent(refusal_text()))
    } else if size > CEILING {
        Some(FailureView::Permanent(excess_text(size)))
    } else {
        None
    }
}

/// Whether `bytes` travel as one message.
///
/// # Errors
/// Where they are none, or more than one message carries.
pub fn within_ceiling(bytes: &[u8]) -> (admitted: Result<(), Failure>)
    ensures
        match admitted {
            Ok(_) => turned_away(bytes@.len()) is None,
            Err(failure) => turned_away(bytes@.len()) == Some(failure@),
        },
{
    if let Some(why) = refusal(bytes) {
        return Err(Failure::Permanent(why));
    }
    if bytes.len() > ceiling() {
        let mut why = text::in_decimal(bytes.len());
        why.append(" bytes, and one Pub/Sub message carries ");
        why.append(text::in_decimal(ceiling()).as_str());
        return Err(Failure::Permanent(why));
    }
    Ok(())
}

/// What the loopback pair agrees on: one project, one topic, one
/// subscription reading it, one bearer token.
const LOOPBACK_PROJECT: &'static str = "probe";

const LOOPBACK_TOPIC: &'static str = "probe";

const LOOPBACK_SUBSCRIPTION: &'static str = "probe-xmip";

const LOOPBACK_TOKEN: &'static str = "ya29.probe";

/// One topic to publish to and one subscription to pull from, at one
/// endpoint.
pub struct PubSubTransport {
    endpoint: String,
    project: String,
    topic: String,
    subscription: String,
    token: String,
    timeout: Option<Duration>,
}

impl View for PubSubTransport {
    type V = TransportView;

    closed spec fn view(&self) -> TransportView {
        TransportView {
            endpoint: self.endpoint@,
            project: self.project@,
            topic: self.topic@,
            subscription: self.subscription@,
            token: self.token@,
            timeout: self.timeout,
        }
    }
}

impl Clone for PubSubTransport {
    fn clone(&self) -> (transport: Self)
        ensures
            transport@ == self@,
    {
        PubSubTransport {
            endpoint: self.endpoint.clone(),
            project: self.project.clone(),
            topic: self.topic.clone(),
            subscription: self.subscription.clone(),
            token: self.token.clone(),
            timeout: self.timeout,
        }
    }
}

/// Why a far end did not take one publish.
pub enum Undelivered {
    /// It refused.
    Refused(Failure),
    /// It was asked for something else.
    NotAPublish(Event),
}

/// The Stream that a far end took, where what the client did is a publish.
///
/// # Errors
/// Where it is not.
pub fn delivered(event: Event) -> (arrived: Result<Arrived, Undelivered>)
    ensures
        match event {
            Event::Published(stream) => arrived matches Ok(taken) && taken == stream,
            Event::Refused(status) => arrived matches Err(Undelivered::Refused(failure))
                && failure@ == FailureView::Protocol("the session refused: "@ + status@),
            _ => arrived matches Err(Undelivered::NotAPublish(other)) && other == event,
        },
{
    match event {
        Event::Published(arrived) => Ok(arrived),
        Event::Refused(status) => Err(
            Undelivered::Refused(
                Failure::Protocol(text::joined("the session refused: ", status.as_str())),
            ),
        ),
        other => Err(Undelivered::NotAPublish(other)),
    }
}

impl PubSubTransport {
    /// Speak to the endpoint at `endpoint` (`https://pubsub.googleapis.com`
    /// in the cloud, `http://host:port` for a stand-in) in `project`,
    /// publishing to `topic` and pulling from `subscription`.
    #[must_use]
    pub fn new(endpoint: &str, project: &str, topic: &str, subscription: &str) -> (transport: Self)
        ensures
            transport@ == (TransportView {
                endpoint: endpoint@,
                project: project@,
                topic: topic@,
                subscription: subscription@,
                token: Seq::empty(),
                timeout: None,
            }),
    {
        PubSubTransport {
            endpoint: endpoint.to_string(),
            project: project.to_string(),
            topic: topic.to_string(),
            subscription: subscription.to_string(),
            token: String::new(),
            timeout: None,
        }
    }

    /// Present this bearer token.
    #[must_use]
    pub fn with_token(self, token: &str) -> (transport: Self)
        ensures
            transport@ == (TransportView { token: token@, ..self@ }),
    {
        let mut transport = self;
        transport.token = token.to_string();
        transport
    }

    /// Give up on an endpoint that stops answering after `timeout`.
    #[must_use]
    pub fn timing_out_after(self, timeout: Duration) -> (transport: Self)
        ensures
            transport@ == (TransportView { timeout: Some(timeout), ..self@ }),
    {
        let mut transport = self;
        transport.timeout = Some(timeout);
        transport
    }

    /// Both ends on this machine: an ephemeral local port, one token the
    /// far end expects and the near end presents, `timeout` for both.
    #[must_use]
    pub fn loopback(timeout: Duration) -> (transport: Self)
        ensures
            transport@ == (TransportView {
                endpoint: "http://127.0.0.1:0"@,
                project: "probe"@,
                topic: "probe"@,
                subscription: "probe-xmip"@,
                token: "ya29.probe"@,
                timeout: Some(timeout),
            }),
    {
        PubSubTransport::new(
            "http://127.0.0.1:0",
            LOOPBACK_PROJECT,
            LOOPBACK_TOPIC,
            LOOPBACK_SUBSCRIPTION,
        ).with_token(LOOPBACK_TOKEN).timing_out_after(timeout)
    }

    /// A near end of this transport at `address`.
    #[must_use]
    pub fn near_end(&self, address: &str) -> (transport: Self)
        ensures
            transport@ == (TransportView { endpoint: "http://"@ + address@, ..self@ }),
    {
        let mut transport = self.clone();
        transport.endpoint = text::joined("http://", address);
        transport
    }

    /// What the technology is called.
    pub fn name(&self) -> (name: &'static str)
        ensures
            name@ == "google-pub-sub"@,
    {
        "google-pub-sub"
    }

    /// The largest payload it carries.
    pub fn ceiling(&self) -> (most: Option<usize>)
        ensures
            most == Some(CEILING),
    {
        Some(ceiling())
    }

    /// Why it does not carry `payload`, or `None` where it does.
    pub fn refuses(&self, payload: &[u8]) -> (why: Option<String>)
        ensures
            match why {
                Some(why) => payload@.len() == 0 && why@ == refusal_text(),
                None => payload@.len() > 0,
            },
    {
        refusal(payload)
    }

    /// Where the endpoint is.
    pub fn endpoint(&self) -> (endpoint: &str)
        ensures
            endpoint@ == self@.endpoint,
    {
        self.endpoint.as_str()
    }

    /// The client this transport speaks through. `authority` is the host
    /// that its endpoint names.
    ///
    /// # Errors
    /// Where the endpoint is not an HTTP URL, so that it names none.
    pub fn client(&self, authority: Result<String, Failure>) -> (client: Result<Client, Failure>)
        ensures
            match authority {
                Ok(host) => client matches Ok(client) && client@ == self@.client(host@),
                Err(failure) => client matches Err(why) && why == failure,
            },
    {
        match Client::new(self.endpoint.as_str(), authority, self.token.as_str()) {
            Ok(client) => match self.timeout {
                Some(timeout) => Ok(client.timing_out_after(timeout)),
                None => Ok(client),
            },
            Err(failure) => Err(failure),
        }
    }

    /// A far end that expects this transport's token and knows its
    /// subscription as a reader of its topic, for a test or the playground
    /// to run on loopback.
    #[must_use]
    pub fn session(&self) -> (session: Session)
        ensures
            session.well_formed(),
            session@ == self@.session(),
    {
        let session = Session::new(self.token.as_str()).subscribing(
            self.subscription_name().as_str(),
            self.topic_name().as_str(),
        );
        match self.timeout {
            Some(timeout) => session.timing_out_after(timeout),
            None => session,
        }
    }

    /// The topic `name` of this transport's project.
    fn topic_called(&self, name: &str) -> (topic: String)
        ensures
            topic@ == self@.topic_called(name@),
    {
        let mut topic = "projects/".to_string();
        topic.append(self.project.as_str());
        topic.append("/topics/");
        topic.append(name);
        topic
    }

    /// This transport's topic in full: `projects/<p>/topics/<t>`.
    #[must_use]
    pub fn topic_name(&self) -> (topic: String)
        ensures
            topic@ == self@.topic_name(),
    {
        self.topic_called(self.topic.as_str())
    }

    /// This transport's subscription in full:
    /// `projects/<p>/subscriptions/<s>`.
    #[must_use]
    pub fn subscription_name(&self) -> (subscription: String)
        ensures
            subscription@ == self@.subscription_name(),
    {
        let mut subscription = "projects/".to_string();
        subscription.append(self.project.as_str());
        subscription.append("/subscriptions/");
        subscription.append(self.subscription.as_str());
        subscription
    }

    /// The topic a target names in full, a name alone in this transport's
    /// project, or its own where it names none.
    pub fn resolve(&self, target: &str) -> (topic: String)
        ensures
            topic@ == self@.resolved(target@),
    {
        if target.is_empty() {
            self.topic_name()
        } else if text::strip(target, "projects/").is_some() {
            target.to_string()
        } else {
            self.topic_called(target)
        }
    }

    /// Begin to receive: every message one pull hands back, each
    /// acknowledged once it is a Stream.
    ///
    /// # Errors
    /// Where the endpoint is not an HTTP URL.
    pub fn receive(&self, authority: Result<String, Failure>) -> (receiving: Result<
        Receiving,
        Failure,
    >)
        ensures
            match authority {
                Ok(host) => {
                    &&& receiving matches Ok(receiving)
                    &&& receiving.well_formed()
                    &&& receiving@ == self@.receiving(host@)
                },
                Err(failure) => receiving matches Err(why) && why == failure,
            },
    {
        match self.client(authority) {
            Ok(client) => Ok(Receiving::new(client, self.subscription_name())),
            Err(failure) => Err(failure),
        }
    }

    /// The request that sends `bytes` to `target`. What comes of it is
    /// [`sent`].
    ///
    /// # Errors
    /// Where they do not travel as one message, and then where the endpoint
    /// is not an HTTP URL.
    pub fn send(&self, authority: Result<String, Failure>, target: &str, bytes: &[u8]) -> (request:
        Result<Request, Failure>)
        ensures
            match turned_away(bytes@.len()) {
                Some(stated) => request matches Err(failure) && failure@ == stated,
                None => match authority {
                    Ok(host) => request matches Ok(request) && self@.client(host@).publishes(
                        request@,
                        self@.resolved(target@),
                        bytes@,
                    ),
                    Err(failure) => request matches Err(why) && why == failure,
                },
            },
    {
        match within_ceiling(bytes) {
            Err(failure) => Err(failure),
            Ok(_) => match self.client(authority) {
                Err(failure) => Err(failure),
                Ok(client) => Ok(client.publish(self.resolve(target).as_str(), bytes)),
            },
        }
    }
}

/// Whether a Stream was sent, by the response.
///
/// # Errors
/// Where the endpoint refused, or answered with no id.
pub fn sent(response: Response) -> (done: Result<(), Failure>)
    ensures
        match done {
            Ok(_) => client::publish_result(response@) is Ok,
            Err(failure) => client::fails(client::publish_result(response@), failure),
        },
{
    match client::published(response) {
        Ok(_) => Ok(()),
        Err(failure) => Err(failure),
    }
}

} // verus!
