use google_pub_sub::client::{self, judge, received, received_with};
use google_pub_sub::json::{self, Json};
use google_pub_sub::message::{Request, Response};
use google_pub_sub::{Client, Event, Failure, Received, Session, MAX_MESSAGES};
use std::time::Duration;

const TOPIC: &str = "projects/partner-x/topics/orders";
const SUBSCRIPTION: &str = "projects/partner-x/subscriptions/orders-xmip";

fn client(token: &str) -> Client {
    match Client::new("http://127.0.0.1:1", Ok("127.0.0.1:1".to_string()), token) {
        Ok(client) => client.timing_out_after(Duration::from_secs(2)),
        Err(failure) => panic!("{failure:?}"),
    }
}

fn document(text: &str) -> Json {
    match json::parse(text.as_bytes()) {
        Ok(document) => document,
        Err(why) => panic!("{why}"),
    }
}

fn text(body: &[u8]) -> String {
    String::from_utf8(body.to_vec()).expect("text")
}

#[test]
fn the_three_calls_reach_a_session_and_come_back_shaped_as_the_api_shapes_them() {
    let mut session = Session::new("ya29.token")
        .subscribing(SUBSCRIPTION, TOPIC)
        .timing_out_after(Duration::from_secs(2));
    let mut events: Vec<Event> = Vec::new();
    let mut exchange = |request: Request| -> Response {
        let (event, response) = session.answer(&request).expect("served");
        events.push(event);
        response
    };
    let client = client("ya29.token");
    let id = client::published(exchange(client.publish(TOPIC, b"UNA:+.? '"))).expect("published");
    assert!(!id.is_empty(), "an id came back");
    client::published(exchange(client.publish(TOPIC, &[0, 0xff, b'\n']))).expect("published");
    let pulled = client::pulled(exchange(client.pull(SUBSCRIPTION))).expect("pulled");
    assert_eq!(pulled.len(), 2);
    assert_eq!(pulled[0].id, id);
    assert_eq!(pulled[0].data, b"UNA:+.? '");
    assert_eq!(pulled[1].data, [0, 0xff, b'\n']);
    assert!(client::pulled(exchange(client.pull(SUBSCRIPTION)))
        .expect("pulled")
        .is_empty());
    client::acknowledged(exchange(
        client.acknowledge(SUBSCRIPTION, &[pulled[0].ack_id.clone()]),
    ))
    .expect("acknowledged");
    let missing = client::pulled(exchange(
        client.pull("projects/partner-x/subscriptions/nobody"),
    ))
    .expect_err("no such subscription");
    assert!(missing.message().contains("404"), "{missing:?}");
    assert_eq!(missing.retryable(), Some(false));
    assert_eq!(session.messages().len(), 1, "one left in flight");
    assert!(matches!(&events[2], Event::Pulled { count: 2, .. }));
    assert_eq!(events[4], Event::Acknowledged(vec![id]));
    assert_eq!(events[5], Event::Refused("NOT_FOUND".to_string()));
}

#[test]
fn a_server_failure_is_worth_repeating_and_a_client_one_is_not() {
    let failure = judge(Response::new(503)).expect_err("server");
    assert_eq!(failure.retryable(), Some(true));
    let failure = judge(Response::new(429)).expect_err("throttled");
    assert_eq!(failure.retryable(), Some(true));
    let body = br#"{"error":{"code":403,"message":"no","status":"PERMISSION_DENIED"}}"#;
    let failure = judge(Response::new(403).body(body)).expect_err("forbidden");
    assert_eq!(failure.retryable(), Some(false));
    assert_eq!(failure.message(), "Pub/Sub answered 403 no");
    let no_url = Failure::Endpoint {
        message: "pubsub.local is no HTTP URL".to_string(),
        retryable: false,
    };
    assert!(Client::new("pubsub.local", Err(no_url), "t").is_err());
    assert!(Client::new("http://127.0.0.1:1", Ok("127.0.0.1:1".to_string()), "t").is_ok());
    assert!(received(&document(r#"{"message":{"data":"not base64!"}}"#)).is_err());
}

#[test]
fn a_request_is_formed_as_the_api_reads_it() {
    let client = client("ya29.token");
    let request = client.publish(TOPIC, b"a<b");
    assert_eq!(request.method, "POST");
    assert_eq!(
        request.path,
        "/v1/projects/partner-x/topics/orders:publish"
    );
    assert_eq!(
        request.headers,
        vec![
            ("Host".to_string(), "127.0.0.1:1".to_string()),
            ("Authorization".to_string(), "Bearer ya29.token".to_string()),
            ("Content-Type".to_string(), "application/json".to_string()),
        ]
    );
    assert_eq!(text(&request.body), r#"{"messages":[{"data":"YTxi"}]}"#);
    let request = client.pull(SUBSCRIPTION);
    assert_eq!(
        request.path,
        "/v1/projects/partner-x/subscriptions/orders-xmip:pull"
    );
    assert_eq!(text(&request.body), r#"{"maxMessages":10}"#);
    assert_eq!(MAX_MESSAGES, 10);
    let request = client.acknowledge(SUBSCRIPTION, &["a\"b".to_string(), "ack-2".to_string()]);
    assert_eq!(
        request.path,
        "/v1/projects/partner-x/subscriptions/orders-xmip:acknowledge"
    );
    assert_eq!(text(&request.body), r#"{"ackIds":["a\"b","ack-2"]}"#);
    assert_eq!(client.endpoint(), "http://127.0.0.1:1");
    assert_eq!(client.timeout(), Some(Duration::from_secs(2)));
}

#[test]
fn only_a_2xx_is_judged_an_answer() {
    for status in [200, 204, 299] {
        let response = Response::new(status).body(b"x");
        assert_eq!(judge(response.clone()).expect("success"), response);
    }
    for (status, retryable) in [
        (199, false),
        (300, false),
        (404, false),
        (429, true),
        (500, true),
        (599, true),
        (600, false),
    ] {
        let failure = judge(Response::new(status).body(b"not json")).expect_err("no success");
        assert_eq!(failure.message(), format!("Pub/Sub answered {status}"));
        assert_eq!(failure.retryable(), Some(retryable), "{status}");
    }
}

#[test]
fn an_answer_of_another_shape_is_a_broken_protocol() {
    let ok = |body: &str| Response::new(200).body(body.as_bytes());
    assert_eq!(
        client::published(ok("x")).expect_err("not JSON"),
        Failure::Protocol(
            "an answer that is not JSON: expected value at line 1 column 1".to_string()
        )
    );
    for body in ["{}", r#"{"messageIds":[]}"#, r#"{"messageIds":[1]}"#, "[\"1\"]"] {
        let failure = client::published(ok(body)).expect_err("no id");
        assert_eq!(
            failure,
            Failure::Protocol("a publish answered with no messageIds".to_string())
        );
        assert_eq!(failure.retryable(), None);
    }
    assert_eq!(
        client::published(ok(r#"{"messageIds":["7","8"]}"#)),
        Ok("7".to_string())
    );
    assert_eq!(client::pulled(ok("{}")), Ok(Vec::new()));
    assert_eq!(client::pulled(ok(r#"{"receivedMessages":"x"}"#)), Ok(Vec::new()));
    let failure = client::pulled(ok(
        r#"{"receivedMessages":[{"message":{"data":"YQ=="}},{"message":{"data":"!"}}]}"#,
    ))
    .expect_err("not base64");
    assert_eq!(
        failure,
        Failure::Protocol(
            "a message whose data is not base64: Invalid symbol 33, offset 0.".to_string()
        )
    );
    assert_eq!(client::acknowledged(ok("7")), Ok(()));
    assert!(client::acknowledged(ok("")).is_err());
}

#[test]
fn a_pull_hands_back_ten_messages_at_most() {
    let answer = |count: usize, last: &str| {
        let mut each: Vec<String> = (1..count)
            .map(|id| format!(r#"{{"ackId":"ack-{id}","message":{{"data":"YQ==","messageId":"{id}"}}}}"#))
            .collect();
        each.push(format!(r#"{{"message":{{"data":"{last}"}}}}"#));
        let body = format!(r#"{{"receivedMessages":[{}]}}"#, each.join(","));
        Response::new(200).body(body.as_bytes())
    };
    assert_eq!(client::pulled(answer(9, "YQ==")).expect("nine").len(), 9);
    assert_eq!(client::pulled(answer(10, "YQ==")).expect("ten").len(), 10);
    let pulled = client::pulled(answer(11, "YQ==")).expect("eleven");
    assert_eq!(pulled.len(), 10);
    assert_eq!(pulled[0].id, "1");
    assert_eq!(pulled[9].id, "10", "the first ten");
    assert!(client::pulled(answer(11, "!")).is_err(), "not base64");
}

#[test]
fn what_a_received_message_leaves_out_is_empty() {
    assert_eq!(
        received(&document("{}")),
        Ok(Received {
            ack_id: String::new(),
            id: String::new(),
            data: Vec::new(),
        })
    );
    let whole = document(r#"{"ackId":"ack-1","message":{"data":"AP8=","messageId":"1"}}"#);
    assert_eq!(
        received(&whole),
        Ok(Received {
            ack_id: "ack-1".to_string(),
            id: "1".to_string(),
            data: vec![0, 0xff],
        })
    );
    assert_eq!(
        received_with(&whole, Ok(b"other".to_vec())).expect("decoded").data,
        b"other"
    );
    assert!(received_with(&whole, Err("no".to_string())).is_err());
}

#[test]
fn a_documents_last_field_of_a_name_counts() {
    let twice = document(r#"{"a":"1","b":null,"a":"2"}"#);
    assert_eq!(twice.text_of("a"), "2");
    assert_eq!(twice.text_of("b"), "");
    assert!(twice.field("c").is_none());
    let written = Json::object()
        .with("b", Json::Number(18_446_744_073_709_551_615))
        .with("a", Json::Text("x".to_string()))
        .with("a", Json::Array(vec![Json::Text("\u{1}é".to_string())]));
    assert_eq!(
        text(&json::write(&written)),
        "{\"a\":[\"\\u0001é\"],\"b\":18446744073709551615}"
    );
    for other in ["null", "true", "1.5", "-1"] {
        let other = document(other);
        assert!(other.as_str().is_none() && other.as_u64().is_none());
        assert!(other.as_array().is_none() && !other.has_fields());
    }
}
