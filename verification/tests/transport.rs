use google_pub_sub::client;
use google_pub_sub::message::{Request, Response};
use google_pub_sub::{
    ceiling, delivered, refusal, sent, Arrived, Event, Failure, PubSubTransport, Session, Step,
    Undelivered,
};
use std::time::Duration;

fn node(endpoint: &str, token: &str) -> PubSubTransport {
    PubSubTransport::new(endpoint, "partner-x", "orders", "orders-xmip")
        .with_token(token)
        .timing_out_after(Duration::from_secs(2))
}

fn authority() -> Result<String, Failure> {
    Ok("127.0.0.1:1".to_string())
}

fn exchange(session: &mut Session, events: &mut Vec<Event>, request: &Request) -> Response {
    let (event, response) = session.answer(request).expect("served");
    events.push(event);
    response
}

fn send(
    near: &PubSubTransport,
    session: &mut Session,
    events: &mut Vec<Event>,
    target: &str,
    bytes: &[u8],
) -> Result<(), Failure> {
    let request = near.send(authority(), target, bytes)?;
    sent(exchange(session, events, &request))
}

fn receive(
    near: &PubSubTransport,
    session: &mut Session,
    events: &mut Vec<Event>,
) -> Result<Vec<Arrived>, Failure> {
    let mut receiving = near.receive(authority())?;
    loop {
        let response = exchange(session, events, &receiving.request());
        match receiving.take(response)? {
            Step::More(next) => receiving = next,
            Step::Done(arrived) => return Ok(arrived),
        }
    }
}

fn round(loopback: &PubSubTransport, payload: &[u8]) -> Result<Arrived, Failure> {
    let mut session = loopback.session();
    let mut events = Vec::new();
    let near = loopback.near_end("127.0.0.1:4711");
    assert_eq!(near.endpoint(), "http://127.0.0.1:4711");
    send(&near, &mut session, &mut events, "", payload)?;
    match delivered(events.remove(0)) {
        Ok(arrived) => Ok(arrived),
        Err(_) => panic!("not a publish"),
    }
}

#[test]
fn what_is_published_to_a_session_is_pulled_back_and_acknowledged() {
    let near = node("http://127.0.0.1:1", "ya29.token");
    // Two publishes, one pull, then an acknowledge per message.
    let mut session = near.session();
    let mut events = Vec::new();
    send(&near, &mut session, &mut events, "", b"UNA:+.? '").expect("its own topic");
    send(
        &near,
        &mut session,
        &mut events,
        "orders",
        &[0, 0xff, b'\r', b'\n'],
    )
    .expect("a name alone");
    let arrived = receive(&near, &mut session, &mut events).expect("received");
    assert_eq!(arrived.len(), 2);
    assert_eq!(arrived[0].bytes, b"UNA:+.? '");
    assert_eq!(arrived[1].bytes, [0, 0xff, b'\r', b'\n']);
    assert!(arrived[0]
        .origin_uri
        .starts_with("pubsub://projects/partner-x/subscriptions/orders-xmip#"));
    assert_eq!(events.len(), 5);
    assert!(session.messages().is_empty(), "acknowledged after receive");
    assert_eq!(
        events[0],
        Event::Published(Arrived::new(
            "pubsub://projects/partner-x/topics/orders#1".to_string(),
            b"UNA:+.? '".to_vec()
        ))
    );
    assert!(matches!(&events[2], Event::Pulled { count: 2, .. }));
    assert_eq!(events[3], Event::Acknowledged(vec!["1".to_string()]));
    assert_eq!(
        near.resolve("projects/other/topics/t"),
        "projects/other/topics/t"
    );
}

#[test]
fn a_wrong_token_is_refused_with_the_apis_own_status_and_message() {
    let mut session = node("http://x", "ya29.token").session();
    let mut events = Vec::new();
    let near = node("http://127.0.0.1:1", "ya29.other");
    let failure = send(&near, &mut session, &mut events, "", b"x").expect_err("refused");
    assert!(
        failure
            .message()
            .contains("401 Request had invalid credentials"),
        "{failure:?}"
    );
    assert_eq!(failure.retryable(), Some(false));
    assert_eq!(events, vec![Event::Refused("UNAUTHENTICATED".to_string())]);
}

#[test]
fn a_subscription_is_not_claimed_and_an_unreachable_endpoint_is_retryable() {
    let near = node("http://127.0.0.1:1", "t");
    assert_eq!(near.name(), "google-pub-sub");
    let silent = Failure::Endpoint {
        message: "nothing listening".to_string(),
        retryable: true,
    };
    match near.receive(Err(silent)) {
        Err(failure) => assert_eq!(failure.retryable(), Some(true)),
        Ok(_) => panic!("nothing listening"),
    }
    let no_scheme = Failure::Endpoint {
        message: "no scheme".to_string(),
        retryable: false,
    };
    assert_eq!(
        node("pubsub.local", "t")
            .send(Err(no_scheme), "", b"x")
            .expect_err("no scheme")
            .retryable(),
        Some(false)
    );
}

#[test]
fn what_pub_sub_does_not_carry_is_refused_before_the_wire_with_the_reason() {
    let near = node("http://127.0.0.1:1", "t");
    let over = vec![b'x'; ceiling() + 1];
    let failure = near.send(authority(), "", &over).expect_err("over the ceiling");
    assert_eq!(failure.retryable(), Some(false));
    assert!(failure.message().contains("10485760"), "{failure:?}");
    let failure = near.send(authority(), "", b"").expect_err("empty");
    assert_eq!(failure.retryable(), Some(false));
    assert!(failure.message().contains("neither"), "{failure:?}");
    assert!(refusal(b"x").is_none());
}

#[test]
fn a_message_rounds_through_the_loopback_session() {
    let loopback = PubSubTransport::loopback(Duration::from_secs(5));
    let arrived = round(&loopback, b"UNA:+.? '").expect("round");
    assert_eq!(arrived.bytes, b"UNA:+.? '");
    assert_eq!(arrived.origin_uri, "pubsub://projects/probe/topics/probe#1");
    assert_eq!(loopback.name(), "google-pub-sub");
    assert_eq!(loopback.ceiling(), Some(ceiling()));
    assert!(loopback.refuses(&[0xff]).is_none());
    assert!(loopback.refuses(b"").is_some());
}

/// The edge payloads, and one at the brim.
fn edge_payloads() -> Vec<(&'static str, Vec<u8>)> {
    vec![
        ("empty", Vec::new()),
        ("one byte", vec![0x2a]),
        ("every byte", (0..=255).collect()),
        ("nul run", vec![0; 512]),
        ("high bytes", vec![0xff; 512]),
        ("crlf storm", b"\r\n".repeat(400)),
        ("the brim", vec![b'x'; ceiling()]),
    ]
}

#[test]
fn the_loopback_returns_the_edge_payloads_whole_and_refuses_the_rest() {
    let loopback = PubSubTransport::loopback(Duration::from_secs(5));
    let mut carried = 0;
    for (name, payload) in edge_payloads() {
        match loopback.refuses(&payload) {
            None => {
                let arrived = round(&loopback, &payload).expect(name);
                assert_eq!(arrived.bytes, payload, "{name}");
                carried += 1;
            }
            Some(why) => {
                let failure = round(&loopback, &payload).expect_err(name);
                assert!(failure.message().contains(&why), "{name}: {failure:?}");
            }
        }
    }
    assert_eq!(carried, 6, "everything but the empty one");
    let over = vec![b'x'; ceiling() + 1];
    let failure = round(&loopback, &over).expect_err("over the brim");
    assert!(failure.message().contains("10485760"), "{failure:?}");
}

#[test]
fn a_size_is_turned_away_with_both_numbers() {
    let near = node("http://127.0.0.1:1", "t");
    let over = vec![0; ceiling() + 1];
    let why = near.send(authority(), "", &over).expect_err("over").message().to_string();
    assert_eq!(
        why,
        "10485761 bytes, and one Pub/Sub message carries 10485760"
    );
    assert!(near.send(authority(), "", &over[1..]).is_ok(), "the brim");
}

#[test]
fn a_target_names_a_topic_in_full_alone_or_not_at_all() {
    let near = node("http://x", "t");
    assert_eq!(near.topic_name(), "projects/partner-x/topics/orders");
    assert_eq!(
        near.subscription_name(),
        "projects/partner-x/subscriptions/orders-xmip"
    );
    assert_eq!(near.resolve(""), near.topic_name());
    assert_eq!(near.resolve("orders"), near.topic_name());
    assert_eq!(near.resolve("other"), "projects/partner-x/topics/other");
    assert_eq!(near.resolve("projects/"), "projects/");
    assert_eq!(near.resolve(&near.resolve("other")), near.resolve("other"));
}

#[test]
fn a_session_and_a_client_take_after_their_transport() {
    let near = node("http://x", "t").clone();
    assert_eq!(near.session().timeout(), Some(Duration::from_secs(2)));
    match near.client(Ok("x".to_string())) {
        Ok(client) => {
            assert_eq!(client.endpoint(), "http://x");
            assert_eq!(client.timeout(), Some(Duration::from_secs(2)));
        }
        Err(failure) => panic!("{failure:?}"),
    }
    let patient = PubSubTransport::new("http://x", "p", "t", "s");
    assert_eq!(patient.session().timeout(), None);
    match patient.client(Ok("x".to_string())) {
        Ok(client) => assert_eq!(client.timeout(), None),
        Err(failure) => panic!("{failure:?}"),
    }
}

#[test]
fn a_far_end_delivers_a_publish_and_nothing_else() {
    match delivered(Event::Refused("NOT_FOUND".to_string())) {
        Err(Undelivered::Refused(failure)) => assert_eq!(
            failure,
            Failure::Protocol("the session refused: NOT_FOUND".to_string())
        ),
        _ => panic!("it was refused"),
    }
    match delivered(Event::Acknowledged(Vec::new())) {
        Err(Undelivered::NotAPublish(event)) => {
            assert_eq!(event, Event::Acknowledged(Vec::new()));
        }
        _ => panic!("it is no publish"),
    }
}

#[test]
fn one_receive_takes_ten_messages_and_the_next_the_rest() {
    let near = node("http://127.0.0.1:1", "t");
    let mut session = near.session();
    let mut events = Vec::new();
    for number in 0..12u8 {
        send(&near, &mut session, &mut events, "", &[number]).expect("sent");
    }
    let first = receive(&near, &mut session, &mut events).expect("received");
    let numbers: Vec<u8> = first.iter().map(|stream| stream.bytes[0]).collect();
    assert_eq!(numbers, (0..10).collect::<Vec<u8>>());
    assert_eq!(session.messages().len(), 2);
    let second = receive(&near, &mut session, &mut events).expect("received");
    assert_eq!(
        second[1].origin_uri,
        "pubsub://projects/partner-x/subscriptions/orders-xmip#12"
    );
    assert!(receive(&near, &mut session, &mut events)
        .expect("received")
        .is_empty());
}

#[test]
fn an_acknowledgement_that_fails_fails_the_receive() {
    let near = node("http://127.0.0.1:1", "t");
    let mut session = near.session();
    let mut events = Vec::new();
    send(&near, &mut session, &mut events, "", b"x").expect("sent");
    let receiving = near.receive(authority()).ok().expect("an endpoint");
    assert_eq!(receiving.client().endpoint(), "http://127.0.0.1:1");
    let response = exchange(&mut session, &mut events, &receiving.request());
    let receiving = match receiving.take(response) {
        Ok(Step::More(next)) => next,
        _ => panic!("a message to acknowledge"),
    };
    match receiving.take(Response::new(503)) {
        Err(failure) => assert_eq!(failure.retryable(), Some(true)),
        Ok(_) => panic!("it failed"),
    }
    assert_eq!(session.messages().len(), 1, "it is in flight still");
}

#[test]
fn what_was_acknowledged_is_handed_on_where_the_next_acknowledgement_fails() {
    let near = node("http://127.0.0.1:1", "t");
    let mut session = near.session();
    let mut events = Vec::new();
    for payload in [b"1", b"2", b"3"] {
        send(&near, &mut session, &mut events, "", payload).expect("sent");
    }
    let begun = |session: &mut Session, events: &mut Vec<Event>| {
        let mut receiving = near.receive(authority()).ok().expect("an endpoint");
        for _ in 0..2 {
            let response = exchange(session, events, &receiving.request());
            receiving = match receiving.take(response) {
                Ok(Step::More(next)) => next,
                _ => panic!("a message to acknowledge"),
            };
        }
        receiving
    };
    match begun(&mut session, &mut events).take(Response::new(503)) {
        Ok(Step::Done(arrived)) => assert_eq!(
            arrived,
            vec![Arrived::new(
                "pubsub://projects/partner-x/subscriptions/orders-xmip#1".to_string(),
                b"1".to_vec()
            )]
        ),
        _ => panic!("the first was acknowledged"),
    }
    assert_eq!(session.messages().len(), 2);
    for payload in [b"4", b"5"] {
        send(&near, &mut session, &mut events, "", payload).expect("sent");
    }
    let arrived = begun(&mut session, &mut events).break_off("broken").expect("one");
    assert_eq!(arrived.len(), 1);
    assert_eq!(arrived[0].bytes, b"4", "what is in flight is not pulled again");
    let silent = near.receive(authority()).ok().expect("an endpoint");
    assert_eq!(silent.break_off("broken"), Err("broken"));
}

#[test]
fn two_pulls_hand_over_what_one_for_as_many_would() {
    let near = node("http://127.0.0.1:1", "t");
    let mut session = near.session();
    let mut events = Vec::new();
    for number in 0..13u8 {
        send(&near, &mut session, &mut events, "", &[number]).expect("sent");
    }
    let asker = near.client(authority()).ok().expect("an endpoint");
    let mut pulled = Vec::new();
    for _ in 0..3 {
        let request = asker.pull(&near.subscription_name());
        let response = exchange(&mut session, &mut events, &request);
        pulled.extend(client::pulled(response).expect("pulled"));
    }
    let numbers: Vec<u8> = pulled.iter().map(|message| message.data[0]).collect();
    assert_eq!(numbers, (0..13).collect::<Vec<u8>>());
    assert_eq!(session.messages().len(), 13, "in flight is held still");
    let mut ack_ids: Vec<String> = pulled.iter().map(|message| message.ack_id.clone()).collect();
    ack_ids.remove(4);
    let request = asker.acknowledge(&near.subscription_name(), &ack_ids);
    let response = exchange(&mut session, &mut events, &request);
    client::acknowledged(response).expect("acknowledged");
    let left = session.messages();
    assert_eq!(left.len(), 1);
    assert_eq!(left.entry(0).1, &vec![4]);
}
