use mqtt_discord_bridge::bridge::{
    classify, on_socket_message, Bridge, Command, Link, Notification, Reading, TopicKind,
};
use mqtt_discord_bridge::codec::{decode, encode};
use mqtt_discord_bridge::config::Config;
use mqtt_discord_bridge::envelope::{DecodeError, Envelope};
use mqtt_discord_bridge::heartbeat::{keepalive_frame, Heartbeat, HEARTBEAT_INTERVAL_SECS};
use mqtt_discord_bridge::ident::{client_id, fresh_client_id};
use mqtt_discord_bridge::router::{Publish, Qos};
use mqtt_discord_bridge::sample::Sample;
use mqtt_discord_bridge::subscriptions::Subscriptions;
use mqtt_discord_bridge::threshold::ThresholdState;

const GENERAL: u64 = 663862252629393421;
const HOPPER: u64 = 700000000000000001;

fn bridge() -> Bridge {
    Bridge::new(Config::standard(GENERAL, HOPPER))
}

fn reading_of(payload: &[u8]) -> Option<Reading> {
    let text = std::str::from_utf8(payload).ok()?;
    let value: f32 = text.parse().ok()?;
    Some(Reading { sample: Sample::from_bits(value.to_bits()), text: value.to_string() })
}

fn published(topic: &str, payload: &[u8]) -> Notification {
    Notification::Publish {
        topic: topic.to_string(),
        payload: payload.to_vec(),
        reading: reading_of(payload),
    }
}

fn send(channel_id: u64, content: &str) -> Command {
    Command::Send(encode(&Envelope::Message { channel_id, content: content.to_string() }))
}

fn subscribe(topic: &str) -> Command {
    Command::Subscribe(topic.to_string(), Qos::AtMostOnce)
}

fn all_subscriptions() -> Vec<Command> {
    vec![
        subscribe("discord/send/general"),
        subscribe("discord/send"),
        subscribe("hopper/telemetry/voltage"),
        subscribe("hopper/telemetry/warning_voltage"),
    ]
}

#[test]
fn new_bridge_is_connected_and_clear() {
    let bridge = bridge();
    assert_eq!(bridge.link, Link::Connected);
    assert_eq!(
        bridge.threshold,
        ThresholdState { current_threshold: Sample::from_bits(10.3f32.to_bits()), alerted: false }
    );
    assert_eq!(bridge.config, Config::standard(GENERAL, HOPPER));
    assert_eq!(bridge.subscribe_commands(), all_subscriptions());
}

#[test]
fn topics_are_classified_by_name() {
    let config = Config::standard(GENERAL, HOPPER);
    assert_eq!(classify(&config, "discord/send/general"), TopicKind::Routed);
    assert_eq!(classify(&config, "discord/send"), TopicKind::Routed);
    assert_eq!(classify(&config, "hopper/telemetry/voltage"), TopicKind::Sample);
    assert_eq!(classify(&config, "hopper/telemetry/warning_voltage"), TopicKind::Threshold);
    assert_eq!(classify(&config, "hopper/telemetry"), TopicKind::Unknown);
    assert_eq!(classify(&config, ""), TopicKind::Unknown);
}

#[test]
fn chat_is_sent_to_the_default_channel() {
    let mut bridge = bridge();
    assert_eq!(
        bridge.handle(published("discord/send/general", b"hello")),
        vec![send(GENERAL, "hello")]
    );
    assert_eq!(
        bridge.handle(published("discord/send/general", b"12.5")),
        vec![send(GENERAL, "12.5")]
    );
    assert_eq!(bridge.handle(published("discord/send/general", b"\xff")), vec![]);
    assert_eq!(bridge.link, Link::Connected);
    assert!(!bridge.threshold.alerted);
}

#[test]
fn relayed_envelope_is_sent_as_it_came() {
    let mut bridge = bridge();
    let payloads: Vec<&[u8]> = vec![
        b"{\"Message\":{\"channel_id\":7,\"content\":\"x\"}}",
        b" {\"Message\":{\"channel_id\":7,\"content\":\"x\"}}",
        b"{\"Message\": {\"channel_id\": 7, \"content\": \"x\"}}",
        b"{\"Message\":{\"content\":\"x\",\"channel_id\":7}}",
        b"{\"Message\":{\"channel_id\":7,\"content\":\"\\u0078\"}}",
    ];
    for payload in payloads {
        let commands = bridge.handle(published("discord/send", payload));
        assert_eq!(commands, vec![Command::Send(payload.to_vec())]);
        match &commands[0] {
            Command::Send(frame) => assert_eq!(
                decode(frame),
                Ok(Envelope::Message { channel_id: 7, content: "x".to_string() })
            ),
            other => panic!("{:?}", other),
        }
    }
    assert!(!bridge.threshold.alerted);
}

#[test]
fn relayed_heartbeat_is_sent_as_it_came() {
    let mut bridge = bridge();
    assert_eq!(
        bridge.handle(published("discord/send", b"{\"KeepAlive\":null}")),
        vec![Command::Send(b"{\"KeepAlive\":null}".to_vec())]
    );
    assert_eq!(
        bridge.handle(published("discord/send", b"{\"KeepAlive\": null}\n")),
        vec![Command::Send(b"{\"KeepAlive\": null}\n".to_vec())]
    );
}

#[test]
fn relayed_payload_that_is_no_envelope_sends_nothing() {
    let mut bridge = bridge();
    assert_eq!(bridge.handle(published("discord/send", b"not an envelope")), vec![]);
    assert_eq!(bridge.handle(published("discord/send", b"\"KeepAlive\"")), vec![]);
    assert_eq!(bridge.handle(published("discord/send", b"9.9")), vec![]);
    assert_eq!(bridge.handle(published("discord/send", b"\xff")), vec![]);
}

#[test]
fn unknown_topic_is_dropped() {
    let mut bridge = bridge();
    assert_eq!(bridge.handle(published("some/other/topic", b"9.9")), vec![]);
    assert!(!bridge.threshold.alerted);
    assert_eq!(bridge.link, Link::Connected);
}

#[test]
fn low_voltage_is_reported_once_and_recovery_clears_it() {
    let mut bridge = bridge();
    assert_eq!(
        bridge.handle(published("hopper/telemetry/voltage", b"9.9")),
        vec![send(HOPPER, "Voltage low: 9.9")]
    );
    assert!(bridge.threshold.alerted);
    assert_eq!(bridge.handle(published("hopper/telemetry/voltage", b"9.8")), vec![]);
    assert!(bridge.threshold.alerted);
    assert_eq!(
        bridge.handle(published("hopper/telemetry/voltage", b"10.5")),
        vec![send(HOPPER, "Voltage good: 10.5")]
    );
    assert!(!bridge.threshold.alerted);
    assert_eq!(bridge.handle(published("hopper/telemetry/voltage", b"10.6")), vec![]);
    assert!(!bridge.threshold.alerted);
}

#[test]
fn alert_reaches_the_topics_of_the_alert_channel() {
    let config = Config::standard(GENERAL, HOPPER);
    let mut bridge = bridge();
    let commands = bridge.handle(published("hopper/telemetry/voltage", b"9.9"));
    assert_eq!(commands.len(), 1);
    let frame = match &commands[0] {
        Command::Send(frame) => frame.clone(),
        other => panic!("{:?}", other),
    };
    assert_eq!(
        on_socket_message(&config, &frame),
        Ok(vec![
            Publish {
                topic: "discord/receive/700000000000000001".to_string(),
                payload: b"Voltage low: 9.9".to_vec(),
                qos: Qos::AtMostOnce,
                retain: false,
            },
            Publish {
                topic: "discord/receive/hopper".to_string(),
                payload: b"Voltage low: 9.9".to_vec(),
                qos: Qos::AtMostOnce,
                retain: false,
            },
        ])
    );
}

#[test]
fn reading_that_spells_no_number_is_dropped() {
    let mut bridge = bridge();
    assert_eq!(bridge.handle(published("hopper/telemetry/voltage", b"low")), vec![]);
    assert_eq!(bridge.handle(published("hopper/telemetry/voltage", b"")), vec![]);
    assert_eq!(bridge.handle(published("hopper/telemetry/voltage", b"\xff")), vec![]);
    assert!(!bridge.threshold.alerted);
    assert_eq!(bridge.handle(published("hopper/telemetry/warning_voltage", b"high")), vec![]);
    assert_eq!(bridge.threshold.current_threshold, Sample::from_bits(10.3f32.to_bits()));
}

#[test]
fn threshold_topic_replaces_the_threshold_only() {
    let mut bridge = bridge();
    assert_eq!(bridge.handle(published("hopper/telemetry/voltage", b"11")), vec![]);
    assert_eq!(bridge.handle(published("hopper/telemetry/warning_voltage", b"12.5")), vec![]);
    assert_eq!(bridge.threshold.current_threshold, Sample::from_bits(12.5f32.to_bits()));
    assert!(!bridge.threshold.alerted);
    assert_eq!(
        bridge.handle(published("hopper/telemetry/voltage", b"11")),
        vec![send(HOPPER, "Voltage low: 11")]
    );
    assert_eq!(bridge.handle(published("hopper/telemetry/warning_voltage", b"10")), vec![]);
    assert!(bridge.threshold.alerted);
    assert_eq!(
        bridge.handle(published("hopper/telemetry/voltage", b"11")),
        vec![send(HOPPER, "Voltage good: 11")]
    );
}

#[test]
fn disconnection_asks_for_nothing() {
    let mut bridge = bridge();
    assert_eq!(bridge.handle(Notification::Disconnection), vec![]);
    assert_eq!(bridge.link, Link::Disconnected);
    assert_eq!(bridge.subscribe_commands(), all_subscriptions());
}

#[test]
fn reconnection_resubscribes_every_topic_once() {
    let mut bridge = bridge();
    assert_eq!(bridge.handle(Notification::Disconnection), vec![]);
    assert_eq!(bridge.handle(Notification::Reconnection), all_subscriptions());
    assert_eq!(bridge.link, Link::Connected);
    assert_eq!(bridge.handle(Notification::Reconnection), all_subscriptions());
    assert_eq!(bridge.handle(Notification::Disconnection), vec![]);
    assert_eq!(bridge.handle(Notification::Disconnection), vec![]);
    assert_eq!(bridge.handle(Notification::Reconnection), all_subscriptions());
    assert_eq!(bridge.link, Link::Connected);
}

#[test]
fn reconnection_keeps_the_alert() {
    let mut bridge = bridge();
    bridge.handle(published("hopper/telemetry/voltage", b"9.9"));
    bridge.handle(Notification::Disconnection);
    bridge.handle(Notification::Reconnection);
    assert!(bridge.threshold.alerted);
    assert_eq!(bridge.handle(published("hopper/telemetry/voltage", b"9.0")), vec![]);
}

#[test]
fn topic_shared_by_two_roles_is_subscribed_once() {
    let mut config = Config::standard(GENERAL, HOPPER);
    config.threshold_topic = config.sample_topic.clone();
    config.rules[1].topic = config.rules[0].topic.clone();
    let mut bridge = Bridge::new(config);
    assert_eq!(
        bridge.handle(Notification::Reconnection),
        vec![subscribe("discord/send/general"), subscribe("hopper/telemetry/voltage")]
    );
    assert_eq!(
        bridge.handle(published(
            "discord/send/general",
            b"{\"Message\":{\"channel_id\":5,\"content\":\"x\"}}"
        )),
        vec![
            send(GENERAL, "{\"Message\":{\"channel_id\":5,\"content\":\"x\"}}"),
            Command::Send(b"{\"Message\":{\"channel_id\":5,\"content\":\"x\"}}".to_vec()),
        ]
    );
}

#[test]
fn subscribing_twice_changes_nothing() {
    let mut subscriptions = Subscriptions::new();
    assert_eq!(subscriptions.topics(), Vec::<String>::new());
    assert!(!subscriptions.contains("a"));
    assert!(subscriptions.insert("a"));
    assert!(subscriptions.insert("b"));
    assert!(!subscriptions.insert("a"));
    assert!(!subscriptions.insert("b"));
    assert!(subscriptions.contains("a"));
    assert!(!subscriptions.contains("c"));
    assert_eq!(subscriptions.topics(), vec!["a".to_string(), "b".to_string()]);
}

#[test]
fn socket_message_is_published_on_its_topics() {
    let config = Config::standard(GENERAL, HOPPER);
    let frame = encode(&Envelope::Message { channel_id: GENERAL, content: "hi".to_string() });
    assert_eq!(
        on_socket_message(&config, &frame),
        Ok(vec![
            Publish {
                topic: "discord/receive/663862252629393421".to_string(),
                payload: b"hi".to_vec(),
                qos: Qos::AtMostOnce,
                retain: false,
            },
            Publish {
                topic: "discord/receive/general".to_string(),
                payload: b"hi".to_vec(),
                qos: Qos::AtMostOnce,
                retain: false,
            },
        ])
    );
    let frame = encode(&Envelope::Message { channel_id: 5, content: "hi".to_string() });
    assert_eq!(
        on_socket_message(&config, &frame),
        Ok(vec![Publish {
            topic: "discord/receive/5".to_string(),
            payload: b"hi".to_vec(),
            qos: Qos::AtMostOnce,
            retain: false,
        }])
    );
}

#[test]
fn socket_keepalive_publishes_nothing() {
    let config = Config::standard(GENERAL, HOPPER);
    assert_eq!(on_socket_message(&config, b"{\"KeepAlive\": null}"), Ok(vec![]));
    assert_eq!(on_socket_message(&config, &keepalive_frame()), Ok(vec![]));
}

#[test]
fn socket_frame_that_is_no_envelope_is_an_error() {
    let config = Config::standard(GENERAL, HOPPER);
    assert_eq!(on_socket_message(&config, b"garbage"), Err(DecodeError));
    assert_eq!(on_socket_message(&config, b"\"KeepAlive\""), Err(DecodeError));
    assert_eq!(on_socket_message(&config, b""), Err(DecodeError));
}

#[test]
fn three_ticks_send_three_keepalives_five_seconds_apart() {
    assert_eq!(HEARTBEAT_INTERVAL_SECS, 5);
    let mut heartbeat = Heartbeat::new(HEARTBEAT_INTERVAL_SECS);
    let mut sent_at: Vec<u64> = Vec::new();
    for now in 0..15u64 {
        if let Some(frame) = heartbeat.poll(now) {
            assert_eq!(decode(&frame), Ok(Envelope::KeepAlive));
            assert_eq!(frame, b"{\"KeepAlive\":null}".to_vec());
            sent_at.push(now);
        }
    }
    assert_eq!(sent_at, vec![0, 5, 10]);
    assert_eq!(heartbeat, Heartbeat { interval: 5, next_due: 15 });
}

#[test]
fn late_poll_moves_the_next_heartbeat_an_interval_on() {
    let mut heartbeat = Heartbeat::new(5);
    assert!(heartbeat.poll(3).is_some());
    assert_eq!(heartbeat.next_due, 8);
    assert_eq!(heartbeat.poll(7), None);
    assert_eq!(heartbeat.next_due, 8);
    assert!(heartbeat.poll(20).is_some());
    assert_eq!(heartbeat.next_due, 25);
    assert!(heartbeat.poll(u64::MAX - 2).is_some());
    assert_eq!(heartbeat.next_due, u64::MAX);
}

#[test]
fn client_id_is_the_prefix_and_the_number() {
    assert_eq!(client_id(0), "mqtt_discord_bridge_0");
    assert_eq!(client_id(42), "mqtt_discord_bridge_42");
    assert_eq!(client_id(u64::MAX), "mqtt_discord_bridge_18446744073709551615");
}

#[test]
fn fresh_client_id_is_the_id_of_some_number() {
    for _ in 0..20 {
        let name = fresh_client_id();
        let digits = name.strip_prefix("mqtt_discord_bridge_").unwrap();
        let nonce: u64 = digits.parse().unwrap();
        assert_eq!(name, client_id(nonce));
    }
}
