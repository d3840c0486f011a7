use mqtt_discord_bridge::codec::encode;
use mqtt_discord_bridge::config::{Alias, Config, RoutingRule, RuleTarget};
use mqtt_discord_bridge::envelope::Envelope;
use mqtt_discord_bridge::router::{route_inbound, route_outbound, OutboundTarget, Publish, Qos};
use mqtt_discord_bridge::text::{append_decimal, text_equal};

const GENERAL: u64 = 663862252629393421;
const HOPPER: u64 = 700000000000000001;

fn frame(channel_id: u64, content: &str) -> Vec<u8> {
    encode(&Envelope::Message { channel_id, content: content.to_string() })
}

fn publish(topic: &str, payload: &str) -> Publish {
    Publish {
        topic: topic.to_string(),
        payload: payload.as_bytes().to_vec(),
        qos: Qos::AtMostOnce,
        retain: false,
    }
}

#[test]
fn standard_config_names_the_well_known_topics() {
    let config = Config::standard(GENERAL, HOPPER);
    assert_eq!(config.namespace, "discord/receive");
    assert_eq!(
        config.aliases,
        vec![
            Alias { channel_id: GENERAL, topic: "discord/receive/general".to_string() },
            Alias { channel_id: HOPPER, topic: "discord/receive/hopper".to_string() },
        ]
    );
    assert_eq!(
        config.rules,
        vec![
            RoutingRule {
                topic: "discord/send/general".to_string(),
                target: RuleTarget::Channel(GENERAL),
            },
            RoutingRule { topic: "discord/send".to_string(), target: RuleTarget::FromEnvelope },
        ]
    );
    assert_eq!(config.alert_channel, HOPPER);
    assert_eq!(config.sample_topic, "hopper/telemetry/voltage");
    assert_eq!(config.threshold_topic, "hopper/telemetry/warning_voltage");
    assert_eq!(config.default_threshold.bits, 10.3f32.to_bits());
}

#[test]
fn standard_config_gives_one_channel_one_alias() {
    let config = Config::standard(GENERAL, GENERAL);
    assert_eq!(
        config.aliases,
        vec![Alias { channel_id: GENERAL, topic: "discord/receive/general".to_string() }]
    );
    assert_eq!(config.alert_channel, GENERAL);
    assert_eq!(
        route_outbound(&config, GENERAL, "hello"),
        vec![
            publish("discord/receive/663862252629393421", "hello"),
            publish("discord/receive/general", "hello"),
        ]
    );
}

#[test]
fn aliased_channel_is_published_twice() {
    let config = Config::standard(GENERAL, HOPPER);
    assert_eq!(
        route_outbound(&config, GENERAL, "hello"),
        vec![
            publish("discord/receive/663862252629393421", "hello"),
            publish("discord/receive/general", "hello"),
        ]
    );
    assert_eq!(
        route_outbound(&config, HOPPER, "volts"),
        vec![
            publish("discord/receive/700000000000000001", "volts"),
            publish("discord/receive/hopper", "volts"),
        ]
    );
}

#[test]
fn unaliased_channel_is_published_once() {
    let config = Config::standard(GENERAL, HOPPER);
    assert_eq!(route_outbound(&config, 5, "hello"), vec![publish("discord/receive/5", "hello")]);
    assert_eq!(route_outbound(&config, 0, ""), vec![publish("discord/receive/0", "")]);
    assert_eq!(
        route_outbound(&config, u64::MAX, "x"),
        vec![publish("discord/receive/18446744073709551615", "x")]
    );
}

#[test]
fn every_alias_of_a_channel_is_published_in_table_order() {
    let mut config = Config::standard(GENERAL, HOPPER);
    config.aliases = vec![
        Alias { channel_id: 1, topic: "a".to_string() },
        Alias { channel_id: 2, topic: "b".to_string() },
        Alias { channel_id: 1, topic: "c".to_string() },
    ];
    config.namespace = "ns".to_string();
    assert_eq!(
        route_outbound(&config, 1, "caf\u{e9}"),
        vec![publish("ns/1", "caf\u{e9}"), publish("a", "caf\u{e9}"), publish("c", "caf\u{e9}")]
    );
    assert_eq!(route_outbound(&config, 2, "p"), vec![publish("ns/2", "p"), publish("b", "p")]);
    config.aliases = vec![];
    assert_eq!(route_outbound(&config, 1, "p"), vec![publish("ns/1", "p")]);
}

#[test]
fn chat_goes_to_the_default_channel_whatever_it_says() {
    let config = Config::standard(GENERAL, HOPPER);
    assert_eq!(
        route_inbound(&config, "discord/send/general", b"hello"),
        vec![(OutboundTarget::Channel(GENERAL), frame(GENERAL, "hello"))]
    );
    assert_eq!(
        route_inbound(&config, "discord/send/general", b"hello"),
        vec![(
            OutboundTarget::Channel(GENERAL),
            b"{\"Message\":{\"channel_id\":663862252629393421,\"content\":\"hello\"}}".to_vec()
        )]
    );
    let envelope = "{\"Message\":{\"channel_id\":5,\"content\":\"x\"}}";
    assert_eq!(
        route_inbound(&config, "discord/send/general", envelope.as_bytes()),
        vec![(OutboundTarget::Channel(GENERAL), frame(GENERAL, envelope))]
    );
    assert_eq!(
        route_inbound(&config, "discord/send/general", "caf\u{e9}".as_bytes()),
        vec![(OutboundTarget::Channel(GENERAL), frame(GENERAL, "caf\u{e9}"))]
    );
}

#[test]
fn chat_that_is_not_utf8_is_dropped() {
    let config = Config::standard(GENERAL, HOPPER);
    assert_eq!(route_inbound(&config, "discord/send/general", b"\xff\xfe"), vec![]);
}

#[test]
fn relayed_envelope_is_passed_through_as_it_came() {
    let config = Config::standard(GENERAL, HOPPER);
    let payloads: Vec<&[u8]> = vec![
        b"{\"Message\":{\"channel_id\":5,\"content\":\"x\"}}",
        b" {\"Message\":{\"channel_id\":5,\"content\":\"x\"}}",
        b"{\"Message\": {\"channel_id\": 5, \"content\": \"x\"}}",
        b"{\"Message\":{\"content\":\"x\",\"channel_id\":5}}",
        b"{\"Message\":{\"channel_id\":5,\"content\":\"\\u0078\"}}\n",
    ];
    for payload in payloads {
        assert_eq!(
            route_inbound(&config, "discord/send", payload),
            vec![(OutboundTarget::Channel(5), payload.to_vec())]
        );
    }
}

#[test]
fn relayed_heartbeat_is_passed_through_to_the_peer() {
    let config = Config::standard(GENERAL, HOPPER);
    assert_eq!(
        route_inbound(&config, "discord/send", b"{\"KeepAlive\":null}"),
        vec![(OutboundTarget::Peer, b"{\"KeepAlive\":null}".to_vec())]
    );
    assert_eq!(
        route_inbound(&config, "discord/send", b"{ \"KeepAlive\" : null }"),
        vec![(OutboundTarget::Peer, b"{ \"KeepAlive\" : null }".to_vec())]
    );
}

#[test]
fn relayed_payload_that_is_no_envelope_is_dropped() {
    let config = Config::standard(GENERAL, HOPPER);
    assert_eq!(route_inbound(&config, "discord/send", b"hello"), vec![]);
    assert_eq!(route_inbound(&config, "discord/send", b"\"KeepAlive\""), vec![]);
    assert_eq!(route_inbound(&config, "discord/send", b"{\"Message\":{\"channel_id\":5}}"), vec![]);
    assert_eq!(route_inbound(&config, "discord/send", b"\xff"), vec![]);
    assert_eq!(route_inbound(&config, "discord/send", b""), vec![]);
}

#[test]
fn other_topics_are_not_routed() {
    let config = Config::standard(GENERAL, HOPPER);
    assert_eq!(route_inbound(&config, "discord/send/other", b"hello"), vec![]);
    assert_eq!(route_inbound(&config, "discord/receive/general", b"hello"), vec![]);
    assert_eq!(route_inbound(&config, "hopper/telemetry/voltage", b"9.9"), vec![]);
    assert_eq!(route_inbound(&config, "", b"hello"), vec![]);
}

#[test]
fn every_rule_for_a_topic_routes_in_table_order() {
    let mut config = Config::standard(GENERAL, HOPPER);
    config.rules = vec![
        RoutingRule { topic: "t".to_string(), target: RuleTarget::Channel(1) },
        RoutingRule { topic: "u".to_string(), target: RuleTarget::Channel(2) },
        RoutingRule { topic: "t".to_string(), target: RuleTarget::FromEnvelope },
        RoutingRule { topic: "t".to_string(), target: RuleTarget::Channel(3) },
    ];
    let envelope = " {\"Message\":{\"channel_id\":9,\"content\":\"x\"}}";
    assert_eq!(
        route_inbound(&config, "t", envelope.as_bytes()),
        vec![
            (OutboundTarget::Channel(1), frame(1, envelope)),
            (OutboundTarget::Channel(9), envelope.as_bytes().to_vec()),
            (OutboundTarget::Channel(3), frame(3, envelope)),
        ]
    );
    assert_eq!(
        route_inbound(&config, "t", b"plain"),
        vec![
            (OutboundTarget::Channel(1), frame(1, "plain")),
            (OutboundTarget::Channel(3), frame(3, "plain")),
        ]
    );
    assert_eq!(
        route_inbound(&config, "u", b"plain"),
        vec![(OutboundTarget::Channel(2), frame(2, "plain"))]
    );
    assert_eq!(route_inbound(&config, "t", b"\xff"), vec![]);
    config.rules = vec![];
    assert_eq!(route_inbound(&config, "t", b"plain"), vec![]);
}

#[test]
fn texts_are_equal_when_their_characters_are() {
    assert!(text_equal("", ""));
    assert!(text_equal("discord/send", "discord/send"));
    assert!(!text_equal("discord/send", "discord/send/general"));
    assert!(!text_equal("discord/send", "discord/senD"));
    assert!(text_equal("caf\u{e9}", "caf\u{e9}"));
    assert!(!text_equal("caf\u{e9}", "cafe"));
}

#[test]
fn decimal_is_appended_without_leading_zeros() {
    for (n, text) in [
        (0u64, "0"),
        (7, "7"),
        (10, "10"),
        (109, "109"),
        (1000, "1000"),
        (u64::MAX, "18446744073709551615"),
    ] {
        let mut out = "n=".to_string();
        append_decimal(&mut out, n);
        assert_eq!(out, format!("n={}", text));
    }
}
