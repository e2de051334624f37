use wam_relay::config::{FeedCredentials, KafkaParameters};
use wam_relay::wire::{make_frame, WsMessage};
use wam_relay::{ApiResponse, MessageInfo};

#[test]
fn rendering_an_envelope_matches_the_frame_builder() {
    let msg = WsMessage {
        msg_type: String::from("relay"),
        message: String::from("\"hello\""),
    };
    assert_eq!(msg.render(), "{\"msg_type\":\"relay\",\"message\":\"hello\"}");
    assert_eq!(msg.render(), make_frame("relay", "\"hello\""));
}

#[test]
fn frame_has_the_wire_event_shape() {
    let frame = make_frame("sytral", "[1,2,3]");
    assert_eq!(frame, "{\"msg_type\":\"sytral\",\"message\":[1,2,3]}");
}

#[test]
fn frame_escapes_the_tag() {
    let frame = make_frame("a\"b\\c", "null");
    assert_eq!(frame, "{\"msg_type\":\"a\\\"b\\\\c\",\"message\":null}");
    let frame = make_frame("x\ny", "0");
    assert_eq!(frame, "{\"msg_type\":\"x\\u000ay\",\"message\":0}");
}

#[test]
fn frame_parses_as_json_with_the_tag_intact() {
    let frame = make_frame("tag with \"quotes\" and \\slashes\\", "{\"k\":[true,null]}");
    let value: serde_json::Value = serde_json::from_str(&frame).expect("frame must be valid JSON");
    assert_eq!(value["msg_type"].as_str(), Some("tag with \"quotes\" and \\slashes\\"));
    assert_eq!(value["message"]["k"][0].as_bool(), Some(true));
}

#[test]
fn kafka_parameters_require_all_three_values() {
    let p = KafkaParameters::new(
        String::from("kafka:9092"),
        String::from("vehicles"),
        String::from("wam"),
    )
    .expect("all values set");
    assert_eq!(p.kafka_url, "kafka:9092");
    assert_eq!(p.kafka_topic, "vehicles");
    assert_eq!(p.kafka_group, "wam");
    assert!(KafkaParameters::new(String::new(), String::from("t"), String::from("g")).is_err());
    assert!(KafkaParameters::new(String::from("u"), String::new(), String::from("g")).is_err());
    assert!(KafkaParameters::new(String::from("u"), String::from("t"), String::new()).is_err());
}

#[test]
fn feed_credentials_require_both_values() {
    let c = FeedCredentials::new(String::from("user"), String::from("SECRET-REDACTED"))
        .expect("both set");
    assert_eq!(c.username, "user");
    assert!(FeedCredentials::new(String::new(), String::from("p")).is_err());
    assert!(FeedCredentials::new(String::from("u"), String::new()).is_err());
}

#[test]
fn reply_bodies_carry_their_values() {
    let info = MessageInfo { nb: 7 };
    assert_eq!(info.nb, 7);
    let reply = ApiResponse { message: String::from("Message created successfully") };
    assert_eq!(reply.message, "Message created successfully");
}
