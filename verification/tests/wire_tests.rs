use greeting::kafka_greeting_consumer::{
    consume_step, encode_payload, parse_payload, ConsumerAction, GreetingLogg, KafkaTopicPayload,
};
use greeting::kafka_producer::{bus_record, GreetingMessage};
use greeting::service::Greeting;

fn envelope(id: i64, greeting_id: &str, created: i64) -> KafkaTopicPayload {
    KafkaTopicPayload {
        after: GreetingLogg {
            id,
            greeting_id: String::from(greeting_id),
            created,
        },
    }
}

#[test]
fn encode_gives_the_exact_wire_text() {
    let text = encode_payload(&envelope(7, "abc", 123));
    assert_eq!(text, "{\"after\":{\"id\":7,\"greetingId\":\"abc\",\"created\":123}}");
}

#[test]
fn encode_escapes_quote_backslash_and_controls() {
    let text = encode_payload(&envelope(0, "a\"b\\c\nd", -1));
    assert_eq!(
        text,
        "{\"after\":{\"id\":0,\"greetingId\":\"a\\\"b\\\\c\\u000ad\",\"created\":-1}}"
    );
}

#[test]
fn round_trip_preserves_the_record() {
    // what the producer writes, the consumer reads back unchanged
    let cases: Vec<(i64, &str, i64)> = vec![
        (0, "", 0),
        (7, "0190cafe-0000-7abc-8def-0123456789ab", 1700000000),
        (-42, "a\"b\\c", -1700000000),
        (i64::MAX, "nl\nnul\u{0}tab\tqt\"", i64::MIN),
        (i64::MIN, "é-ünïcødé-θ", i64::MAX),
    ];
    for (id, gid, created) in cases {
        let text = encode_payload(&envelope(id, gid, created));
        let back = parse_payload(&text).expect("canonical text must parse");
        assert_eq!(back.after.id, id);
        assert_eq!(back.after.greeting_id, gid);
        assert_eq!(back.after.created, created);
    }
}

#[test]
fn parse_accepts_only_canonical_text() {
    // the exact encoder output parses
    assert!(parse_payload("{\"after\":{\"id\":7,\"greetingId\":\"abc\",\"created\":123}}").is_some());
    // anything non-canonical is refused
    let rejected = vec![
        "",
        "{}",
        "{\"after\":{\"id\":07,\"greetingId\":\"a\",\"created\":1}}", // leading zero
        "{\"after\":{\"id\":-0,\"greetingId\":\"a\",\"created\":1}}", // signed zero
        "{\"after\":{\"id\":7,\"greetingId\":\"a\",\"created\":1}} ", // trailing text
        "{\"after\":{\"id\":7,\"greetingId\":\"a\",\"created\":1}",   // truncated
        "{\"after\":{\"id\":7,\"greetingId\":\"a\\x\",\"created\":1}}", // bad escape
        "{\"after\":{\"id\":7,\"greetingId\":\"a\u{1}\",\"created\":1}}", // bare control char
        "{\"after\":{\"id\":7,\"greetingId\":\"a\\u00GG\",\"created\":1}}", // bad hex
        "{\"after\":{\"id\": 7,\"greetingId\":\"a\",\"created\":1}}", // stray space
        "{\"after\":{\"id\":9223372036854775808,\"greetingId\":\"a\",\"created\":1}}", // too big
        "{\"after\":{\"id\":x,\"greetingId\":\"a\",\"created\":1}}",
    ];
    for text in rejected {
        assert!(parse_payload(text).is_none(), "accepted: {}", text);
    }
}

#[test]
fn consume_step_logs_good_messages_and_dead_letters_the_rest() {
    let text = encode_payload(&envelope(3, "id-1", 99));
    match consume_step(Some(text.as_str())) {
        ConsumerAction::Record(g) => {
            assert_eq!(g.id, 3);
            assert_eq!(g.greeting_id, "id-1");
            assert_eq!(g.created, 99);
        }
        ConsumerAction::DeadLetter => panic!("a canonical payload must be consumed"),
    }
    assert!(matches!(consume_step(None), ConsumerAction::DeadLetter));
    assert!(matches!(
        consume_step(Some("not json")),
        ConsumerAction::DeadLetter
    ));
}

#[test]
fn bus_record_round_trips_through_the_consumer() {
    // the message-bus round trip: a record sent by the producer path is
    // observed with matching identifier and creation time
    let g = Greeting::new(
        String::from("ref"),
        String::from("to"),
        String::from("from"),
        String::from("heading"),
        String::from("message"),
        1234567890,
    );
    let (key, payload) = bus_record(&g, 1);
    assert_eq!(&key, g.id());
    match consume_step(Some(payload.as_str())) {
        ConsumerAction::Record(logg) => {
            assert_eq!(&logg.greeting_id, g.id());
            assert_eq!(logg.created, g.created());
            assert_eq!(logg.id, 1);
        }
        ConsumerAction::DeadLetter => panic!("the producer's own payload must parse"),
    }
}

#[test]
fn message_mirrors_the_record() {
    let g = Greeting::new(
        String::from("ext"),
        String::from("to"),
        String::from("from"),
        String::from("heading"),
        String::from("message"),
        55,
    );
    let msg = GreetingMessage::of_greeting(&g);
    assert_eq!(&msg.external_reference, g.external_reference());
    assert_eq!(&msg.id, g.id());
    assert_eq!(&msg.to, g.to());
    assert_eq!(&msg.from, g.from());
    assert_eq!(&msg.heading, g.heading());
    assert_eq!(&msg.message, g.message());
    assert_eq!(msg.created, g.created());
    assert_eq!(msg.events_created.len(), 0);
}
