use google_pub_sub::message::{Request, Response};
use google_pub_sub::session::origin;
use google_pub_sub::{ceiling, Arrived, Event, Session};
use std::time::Duration;

const TOPIC: &str = "projects/partner-x/topics/orders";
const SUBSCRIPTION: &str = "projects/partner-x/subscriptions/orders-xmip";

fn bearing(path: &str, document: &str) -> Request {
    Request::new("POST", path)
        .header("Authorization", "Bearer ya29.token")
        .body(document.as_bytes())
}

fn text(response: &Response) -> String {
    String::from_utf8(response.body.clone()).expect("text")
}

fn answer(session: &mut Session, request: &Request) -> (Event, Response) {
    session.answer(request).expect("numbers are left")
}

fn ask(session: &mut Session, path: &str, document: &str) -> (Event, Response) {
    answer(session, &bearing(path, document))
}

#[test]
fn a_session_answers_in_the_apis_shapes_and_refuses_a_wrong_token() {
    let mut session = Session::new("ya29.token").subscribing(SUBSCRIPTION, TOPIC);
    let publish = format!("/v1/{TOPIC}:publish");
    let two = r#"{"messages":[{"data":"YTxi"},{"data":"AP8="}]}"#;
    let (event, response) = ask(&mut session, &publish, two);
    assert_eq!(text(&response), r#"{"messageIds":["1","2"]}"#);
    assert_eq!(
        event,
        Event::Published(Arrived::new(
            "pubsub://projects/partner-x/topics/orders#1".to_string(),
            b"a<b".to_vec()
        ))
    );
    let pull = format!("/v1/{SUBSCRIPTION}:pull");
    let (event, response) = ask(&mut session, &pull, r#"{"maxMessages":1}"#);
    assert!(text(&response).contains(r#""ackId":"ack-1""#));
    assert!(text(&response).contains(r#""data":"YTxi""#));
    assert!(matches!(event, Event::Pulled { count: 1, .. }));
    let (event, response) = ask(&mut session, &pull, r#"{"maxMessages":10}"#);
    assert!(
        text(&response).contains(r#""ackId":"ack-2""#),
        "the second, not the first again"
    );
    assert!(matches!(event, Event::Pulled { count: 1, .. }));
    let (_, response) = ask(&mut session, &pull, "{}");
    assert_eq!(text(&response), "{}");
    let acknowledge = format!("/v1/{SUBSCRIPTION}:acknowledge");
    let (event, response) = ask(&mut session, &acknowledge, r#"{"ackIds":["ack-1"]}"#);
    assert_eq!(
        (event, response.status),
        (Event::Acknowledged(vec!["1".to_string()]), 200)
    );
    assert_eq!(session.messages().len(), 1);
    let empty = r#"{"messages":[{"data":""}]}"#;
    let (event, response) = ask(&mut session, &publish, empty);
    assert_eq!(
        (event, response.status),
        (Event::Refused("INVALID_ARGUMENT".to_string()), 400)
    );
    let with_attributes = r#"{"messages":[{"attributes":{"k":"v"},"data":""}]}"#;
    let (_, response) = ask(&mut session, &publish, with_attributes);
    assert_eq!(
        response.status, 200,
        "an attribute makes an empty message one"
    );
    let (_, response) = ask(&mut session, &publish, r#"{"messages":[]}"#);
    assert_eq!(response.status, 400);
    let (_, response) = ask(&mut session, &publish, r#"{"messages":[{"data":"!"}]}"#);
    assert_eq!(response.status, 400);
    let nobody = "/v1/projects/partner-x/subscriptions/x:pull";
    let (_, response) = ask(&mut session, nobody, "{}");
    assert_eq!(response.status, 404);
    let nobody = "/v1/projects/partner-x/subscriptions/x:acknowledge";
    let (_, response) = ask(&mut session, nobody, "{}");
    assert_eq!(response.status, 404);
    let (_, response) = ask(&mut session, "/elsewhere", "{}");
    assert_eq!(response.status, 404);
    let (_, response) = ask(&mut session, &format!("/v1/{TOPIC}:delete"), "{}");
    assert_eq!(response.status, 404);
    let (_, response) = ask(&mut session, &publish, r#""not an object""#);
    assert_eq!(response.status, 400);
    let broken = Request::new("POST", &publish)
        .header("Authorization", "Bearer ya29.token")
        .body(b"not json");
    let (_, response) = answer(&mut session, &broken);
    assert_eq!(response.status, 400, "not JSON");
    let wrong = Request::new("POST", &publish).header("Authorization", "Bearer other");
    let (event, response) = answer(&mut session, &wrong);
    assert_eq!(
        (event, response.status),
        (Event::Refused("UNAUTHENTICATED".to_string()), 401)
    );
}

#[test]
fn every_refusal_says_why_in_the_apis_words() {
    let mut session = Session::new("ya29.token").subscribing(SUBSCRIPTION, TOPIC);
    let publish = format!("/v1/{TOPIC}:publish");
    let refusals = [
        (
            "/elsewhere",
            "{}",
            r#"{"error":{"code":404,"message":"Not a resource and a verb","status":"NOT_FOUND"}}"#,
        ),
        (
            "/v1/no-verb",
            "{}",
            r#"{"error":{"code":404,"message":"Not a resource and a verb","status":"NOT_FOUND"}}"#,
        ),
        (
            "/v1/a:delete",
            "{}",
            r#"{"error":{"code":404,"message":"Not one of the three calls","status":"NOT_FOUND"}}"#,
        ),
        (
            "/v1/a:b:pull",
            "{}",
            r#"{"error":{"code":404,"message":"Resource not found: a:b","status":"NOT_FOUND"}}"#,
        ),
        (
            "/v1/x:acknowledge",
            "{}",
            r#"{"error":{"code":404,"message":"Resource not found: x","status":"NOT_FOUND"}}"#,
        ),
        (
            &publish,
            r#"{"messages":7}"#,
            r#"{"error":{"code":400,"message":"A publish names messages","status":"INVALID_ARGUMENT"}}"#,
        ),
        (
            &publish,
            r#"{"messages":[]}"#,
            r#"{"error":{"code":400,"message":"A publish with no messages","status":"INVALID_ARGUMENT"}}"#,
        ),
        (
            &publish,
            r#"{"messages":[{"attributes":"none"}]}"#,
            r#"{"error":{"code":400,"message":"a message has data or an attribute, and an empty Stream has neither","status":"INVALID_ARGUMENT"}}"#,
        ),
        (
            &publish,
            r#"{"messages":[{"data":"","attributes":{}}]}"#,
            r#"{"error":{"code":400,"message":"a message has data or an attribute, and an empty Stream has neither","status":"INVALID_ARGUMENT"}}"#,
        ),
        (
            &publish,
            r#"{"messages":[{"data":"!"}]}"#,
            r#"{"error":{"code":400,"message":"Not base64: Invalid symbol 33, offset 0.","status":"INVALID_ARGUMENT"}}"#,
        ),
        (
            &publish,
            "x",
            r#"{"error":{"code":400,"message":"Not JSON: expected value at line 1 column 1","status":"INVALID_ARGUMENT"}}"#,
        ),
    ];
    for (path, document, stated) in refusals {
        let (event, response) = ask(&mut session, path, document);
        assert!(matches!(event, Event::Refused(_)), "{path}");
        assert_eq!(text(&response), stated);
        assert_eq!(
            response.headers,
            vec![(
                "Content-Type".to_string(),
                "application/json; charset=UTF-8".to_string()
            )]
        );
    }
    assert!(session.messages().is_empty(), "nothing was taken in");
}

#[test]
fn a_message_with_neither_data_nor_an_attribute_is_not_held() {
    let mut session = Session::new("ya29.token");
    let publish = "/v1/projects/p/topics/t:publish";
    let neither = r#"{"messages":[{"data":"","attributes":{}}]}"#;
    let (event, response) = ask(&mut session, publish, neither);
    assert_eq!(event, Event::Refused("INVALID_ARGUMENT".to_string()));
    assert_eq!(response.status, 400);
    assert!(session.messages().is_empty());
    let data_alone = r#"{"messages":[{"data":"YQ==","attributes":{}}]}"#;
    assert_eq!(ask(&mut session, publish, data_alone).1.status, 200);
    let attribute_alone = r#"{"messages":[{"attributes":{"k":"v"}}]}"#;
    assert_eq!(ask(&mut session, publish, attribute_alone).1.status, 200);
    assert_eq!(session.messages().len(), 2);
}

#[test]
fn only_a_post_is_one_of_the_three_calls() {
    let mut session = Session::new("ya29.token").subscribing(SUBSCRIPTION, TOPIC);
    let request = Request::new("GET", &format!("/v1/{SUBSCRIPTION}:pull"))
        .header("authorization", "Bearer ya29.token")
        .body(b"{}");
    let (event, response) = answer(&mut session, &request);
    assert_eq!(event, Event::Refused("NOT_FOUND".to_string()));
    assert_eq!(response.status, 404);
}

#[test]
fn the_first_authorization_counts_in_whatever_case_it_is_named() {
    let mut session = Session::new("ya29.token").subscribing(SUBSCRIPTION, TOPIC);
    let path = format!("/v1/{SUBSCRIPTION}:pull");
    let loud = Request::new("POST", &path)
        .header("AUTHORIZATION", "Bearer ya29.token")
        .header("Authorization", "Bearer other")
        .body(b"{}");
    assert_eq!(answer(&mut session, &loud).1.status, 200);
    let silent = Request::new("POST", &path).body(b"{}");
    assert_eq!(answer(&mut session, &silent).1.status, 401);
}

#[test]
fn one_message_that_is_refused_has_none_of_them_taken_in() {
    let mut session = Session::new("ya29.token").subscribing(SUBSCRIPTION, TOPIC);
    let publish = format!("/v1/{TOPIC}:publish");
    let mixed = r#"{"messages":[{"data":"YQ=="},{"data":"!"}]}"#;
    assert_eq!(ask(&mut session, &publish, mixed).1.status, 400);
    assert!(session.messages().is_empty());
    let (_, response) = ask(&mut session, &publish, r#"{"messages":[{"data":"YQ=="}]}"#);
    assert_eq!(
        text(&response),
        r#"{"messageIds":["1"]}"#,
        "no number was used up"
    );
}

#[test]
fn what_is_held_stands_under_its_origin_in_order() {
    let mut session = Session::new("ya29.token");
    for topic in ["b", "a"] {
        let path = format!("/v1/{topic}:publish");
        let two = r#"{"messages":[{"data":"YQ=="},{"data":"Yg=="}]}"#;
        assert_eq!(ask(&mut session, &path, two).1.status, 200);
    }
    let messages = session.messages();
    assert_eq!(messages.len(), 4);
    let keys: Vec<String> = (0..4).map(|i| messages.entry(i).0.clone()).collect();
    assert_eq!(
        keys,
        ["pubsub://a#3", "pubsub://a#4", "pubsub://b#1", "pubsub://b#2"]
    );
    assert_eq!(messages.get("pubsub://b#2"), Some(&b"b".to_vec()));
    assert_eq!(messages.get("pubsub://b#3"), None);
    assert_eq!(origin("b", "2"), "pubsub://b#2");
}

#[test]
fn a_pull_hands_over_one_where_it_does_not_say_and_none_where_it_says_so() {
    let mut session = Session::new("ya29.token").subscribing(SUBSCRIPTION, TOPIC);
    let publish = format!("/v1/{TOPIC}:publish");
    let two = r#"{"messages":[{"data":"YQ=="},{"data":"Yg=="}]}"#;
    ask(&mut session, &publish, two);
    let pull = format!("/v1/{SUBSCRIPTION}:pull");
    assert_eq!(
        text(&ask(&mut session, &pull, r#"{"maxMessages":0}"#).1),
        "{}"
    );
    assert_eq!(
        text(&ask(&mut session, &pull, r#"{"maxMessages":-1}"#).1),
        r#"{"receivedMessages":[{"ackId":"ack-1","message":{"data":"YQ==","messageId":"1"}}]}"#
    );
    assert_eq!(
        text(&ask(&mut session, &pull, "[]").1),
        r#"{"receivedMessages":[{"ackId":"ack-2","message":{"data":"Yg==","messageId":"2"}}]}"#
    );
}

#[test]
fn what_is_not_in_flight_or_not_an_ack_id_is_not_acknowledged() {
    let mut session = Session::new("ya29.token").subscribing(SUBSCRIPTION, TOPIC);
    let publish = format!("/v1/{TOPIC}:publish");
    ask(&mut session, &publish, r#"{"messages":[{"data":"YQ=="}]}"#);
    let acknowledge = format!("/v1/{SUBSCRIPTION}:acknowledge");
    let (event, _) = ask(&mut session, &acknowledge, r#"{"ackIds":["ack-1"]}"#);
    assert_eq!(event, Event::Acknowledged(vec!["1".to_string()]));
    assert_eq!(session.messages().len(), 1, "it was not in flight");
    ask(&mut session, &format!("/v1/{SUBSCRIPTION}:pull"), "{}");
    let (event, _) = ask(&mut session, &acknowledge, r#"{"ackIds":["1",1,"ack-9"]}"#);
    assert_eq!(event, Event::Acknowledged(vec!["9".to_string()]));
    let (event, _) = ask(&mut session, &acknowledge, "{}");
    assert_eq!(event, Event::Acknowledged(Vec::new()));
    assert_eq!(session.messages().len(), 1, "it was not named");
    ask(&mut session, &acknowledge, r#"{"ackIds":["ack-1"]}"#);
    assert!(session.messages().is_empty());
}

#[test]
fn a_message_over_the_ceiling_is_refused_by_the_number() {
    let mut session = Session::new("ya29.token").subscribing(SUBSCRIPTION, TOPIC);
    let (event, response) = session.take_in(TOPIC, vec![vec![b'x'; ceiling()]]);
    assert!(matches!(event, Event::Published(_)));
    assert_eq!(response.status, 200);
    let over = google_pub_sub::session::payload(Ok(vec![b'x'; ceiling() + 1]), true);
    assert_eq!(
        over,
        Err("Request payload size exceeds the limit: 10485760 bytes.".to_string())
    );
    let (event, response) = google_pub_sub::session::refused(400, "INVALID_ARGUMENT", "no");
    assert_eq!(event, Event::Refused("INVALID_ARGUMENT".to_string()));
    assert_eq!(
        text(&response),
        r#"{"error":{"code":400,"message":"no","status":"INVALID_ARGUMENT"}}"#
    );
}

#[test]
fn the_ceiling_is_ten_mebibytes() {
    assert_eq!(ceiling(), 10_485_760);
}

#[test]
fn a_session_waits_as_long_as_it_is_told() {
    let session = Session::new("t");
    assert_eq!(session.timeout(), None);
    let session = session.timing_out_after(Duration::from_secs(2));
    assert_eq!(session.timeout(), Some(Duration::from_secs(2)));
}
