//! The relay's decisions: what to do about one event from either transport.
//!
//! The program around this crate owns the broker client and the socket. It
//! hands every notification of the broker to [`Bridge::handle`] and every
//! frame of the socket to [`on_socket_message`], and carries out what they
//! return.

use vstd::prelude::*;
use vstd::slice::slice_to_vec;
use vstd::string::StringExecFns;
use vstd::utf8::{decode_utf8, valid_utf8};
use crate::codec::{decode, encode, envelope_text, parse_envelope};
use crate::config::{Config, RoutingRule, RuleTarget};
use crate::envelope::{DecodeError, Envelope, EnvelopeView};
use crate::router::{
    OutboundTarget, Publish, PublishView, Qos, has_rule, inbound_routes, lemma_single_rule_decides,
    outbound_publishes, publish_views, route_inbound, route_outbound, route_views,
};
use crate::sample::Sample;
use crate::subscriptions::{Subscriptions, text_views, with_topic};
use crate::text::text_equal;
use crate::threshold::{
    AlertEvent, ThresholdState, alert_for, evaluate, state_after, with_threshold,
};

verus! {

/// What a topic of the broker is for.
#[derive(Debug, Clone, Copy, PartialEq, Eq, Structural)]
pub enum TopicKind {
    /// The routing table has a rule for it.
    Routed,
    /// A telemetry reading.
    Sample,
    /// A new threshold.
    Threshold,
    /// None of the relay's topics.
    Unknown,
}

/// What `topic` is for under `config`. Where two roles share a name, the
/// first in the order of [`TopicKind`] has it.
pub open spec fn topic_kind(config: &Config, topic: Seq<char>) -> TopicKind {
    if has_rule(config.rules@, topic) {
        TopicKind::Routed
    } else if topic == config.sample_topic@ {
        TopicKind::Sample
    } else if topic == config.threshold_topic@ {
        TopicKind::Threshold
    } else {
        TopicKind::Unknown
    }
}

fn has_rule_for(config: &Config, topic: &str) -> (found: bool)
    ensures
        found == has_rule(config.rules@, topic@),
{
    let mut i: usize = 0;
    while i < config.rules.len()
        invariant
            i <= config.rules.len(),
            forall|k: int| 0 <= k < i ==> (#[trigger] config.rules@[k]).topic@ != topic@,
        decreases config.rules.len() - i,
    {
        if text_equal(config.rules[i].topic.as_str(), topic) {
            assert(config.rules@[i as int].topic@ == topic@);
            return true;
        }
        i = i + 1;
    }
    false
}

/// Tells what `topic` is for.
pub fn classify(config: &Config, topic: &str) -> (kind: TopicKind)
    ensures
        kind == topic_kind(config, topic@),
{
    if has_rule_for(config, topic) {
        TopicKind::Routed
    } else if text_equal(topic, config.sample_topic.as_str()) {
        TopicKind::Sample
    } else if text_equal(topic, config.threshold_topic.as_str()) {
        TopicKind::Threshold
    } else {
        TopicKind::Unknown
    }
}

/// A number that a payload spells: its value, and how it is shown in a
/// message. The caller reads both off the payload.
#[derive(Debug, Clone, PartialEq, Eq)]
pub struct Reading {
    pub sample: Sample,
    pub text: String,
}

/// One event from the broker.
#[derive(Debug, Clone, PartialEq, Eq)]
pub enum Notification {
    /// A message on a subscribed topic. `reading` is the number that the
    /// payload spells, where it spells one.
    Publish { topic: String, payload: Vec<u8>, reading: Option<Reading> },
    /// The connection to the broker was lost.
    Disconnection,
    /// The connection to the broker is back.
    Reconnection,
}

/// One thing for the caller to carry out.
#[derive(Debug, Clone, PartialEq, Eq)]
pub enum Command {
    /// Send this frame over the socket.
    Send(Vec<u8>),
    /// Subscribe to this topic on the broker, with this delivery guarantee.
    Subscribe(String, Qos),
}

/// What a [`Command`] is, as a mathematical value.
pub enum CommandView {
    Send(Seq<u8>),
    Subscribe(Seq<char>, Qos),
}

impl View for Command {
    type V = CommandView;

    open spec fn view(&self) -> CommandView {
        match self {
            Command::Send(frame) => CommandView::Send(frame@),
            Command::Subscribe(topic, qos) => CommandView::Subscribe(topic@, *qos),
        }
    }
}

/// The views of a list of commands.
pub open spec fn command_views(list: Seq<Command>) -> Seq<CommandView> {
    list.map_values(|c: Command| c@)
}

/// Whether the broker is reachable.
#[derive(Debug, Clone, Copy, PartialEq, Eq, Structural)]
pub enum Link {
    Connected,
    Disconnected,
}

/// The frame that carries `content` to the channel `channel_id`.
pub open spec fn message_frame(channel_id: u64, content: Seq<char>) -> CommandView {
    CommandView::Send(envelope_text(EnvelopeView::Message { channel_id, content }))
}

/// One frame per route, in the order of the routes.
pub open spec fn frames_for(routes: Seq<(OutboundTarget, Seq<u8>)>) -> Seq<CommandView> {
    routes.map_values(|r: (OutboundTarget, Seq<u8>)| CommandView::Send(r.1))
}

/// The text of the message that reports `event`, for a reading shown as
/// `shown`.
pub open spec fn alert_text(event: AlertEvent, shown: Seq<char>) -> Seq<char> {
    match event {
        AlertEvent::Low(_) => "Voltage low: "@ + shown,
        AlertEvent::Recovered(_) => "Voltage good: "@ + shown,
    }
}

/// What a message from the broker makes the relay send.
///
/// A message on a routed topic is sent in the frames of the router: chat
/// framed as a message for its channel, an envelope passed through as it
/// came. A reading goes through the threshold rule, and an event of the rule
/// is reported to the alert channel.
/// A new threshold, a payload on a telemetry topic that spells no number, and
/// a message on an unknown topic send nothing.
pub open spec fn publish_commands(
    config: &Config,
    threshold: ThresholdState,
    topic: Seq<char>,
    payload: Seq<u8>,
    reading: Option<Reading>,
) -> Seq<CommandView> {
    match topic_kind(config, topic) {
        TopicKind::Routed => frames_for(inbound_routes(config.rules@, topic, payload)),
        TopicKind::Sample => match reading {
            Some(r) => match alert_for(r.sample, threshold) {
                Some(event) => seq![message_frame(config.alert_channel, alert_text(event, r.text@))],
                None => Seq::<CommandView>::empty(),
            },
            None => Seq::<CommandView>::empty(),
        },
        TopicKind::Threshold | TopicKind::Unknown => Seq::<CommandView>::empty(),
    }
}

/// The state of the threshold rule after a message from the broker.
pub open spec fn threshold_after(
    config: &Config,
    threshold: ThresholdState,
    topic: Seq<char>,
    reading: Option<Reading>,
) -> ThresholdState {
    match (topic_kind(config, topic), reading) {
        (TopicKind::Sample, Some(r)) => state_after(r.sample, threshold),
        (TopicKind::Threshold, Some(r)) => with_threshold(threshold, r.sample),
        _ => threshold,
    }
}

/// One subscription per topic, in the order of the topics, each delivered at
/// most once.
pub open spec fn subscribe_commands(topics: Seq<Seq<char>>) -> Seq<CommandView> {
    topics.map_values(|t: Seq<char>| CommandView::Subscribe(t, Qos::AtMostOnce))
}

/// The topics of the routing table, each once, in the order of the table.
pub open spec fn rule_topics(rules: Seq<RoutingRule>) -> Seq<Seq<char>>
    decreases rules.len(),
{
    if rules.len() == 0 {
        Seq::<Seq<char>>::empty()
    } else {
        with_topic(rule_topics(rules.drop_last()), rules.last().topic@)
    }
}

/// The topics that the relay subscribes to under `config`, each once: those of
/// the routing table, then the two telemetry topics.
pub open spec fn inbound_topics(config: &Config) -> Seq<Seq<char>> {
    with_topic(
        with_topic(rule_topics(config.rules@), config.sample_topic@),
        config.threshold_topic@,
    )
}

/// What a notification makes the relay ask of its caller, where the relay is
/// subscribed to `subscribed`.
///
/// A message is routed or filtered. A lost connection asks for nothing:
/// reconnecting is the broker client's own business. A restored connection
/// asks for every subscribed topic again.
pub open spec fn commands_for(
    config: &Config,
    threshold: ThresholdState,
    subscribed: Seq<Seq<char>>,
    notification: Notification,
) -> Seq<CommandView> {
    match notification {
        Notification::Publish { topic, payload, reading } => publish_commands(
            config,
            threshold,
            topic@,
            payload@,
            reading,
        ),
        Notification::Disconnection => Seq::<CommandView>::empty(),
        Notification::Reconnection => subscribe_commands(subscribed),
    }
}

/// The state of the threshold rule after a notification.
pub open spec fn threshold_for(
    config: &Config,
    threshold: ThresholdState,
    notification: Notification,
) -> ThresholdState {
    match notification {
        Notification::Publish { topic, payload, reading } => threshold_after(
            config,
            threshold,
            topic@,
            reading,
        ),
        _ => threshold,
    }
}

/// Whether the broker is reachable after a notification.
pub open spec fn link_after(link: Link, notification: Notification) -> Link {
    match notification {
        Notification::Publish { .. } => link,
        Notification::Disconnection => Link::Disconnected,
        Notification::Reconnection => Link::Connected,
    }
}

/// The relay's state.
#[derive(Debug)]
pub struct Bridge {
    /// The configuration; it does not change.
    pub config: Config,
    /// The state of the threshold rule.
    pub threshold: ThresholdState,
    /// Whether the broker is reachable.
    pub link: Link,
    /// The topics to restore after a reconnect.
    pub subscriptions: Subscriptions,
}

fn alert_message(event: &AlertEvent, shown: &str) -> (text: String)
    ensures
        text@ == alert_text(*event, shown@),
{
    let mut text: String = match event {
        AlertEvent::Low(_) => String::from_str("Voltage low: "),
        AlertEvent::Recovered(_) => String::from_str("Voltage good: "),
    };
    text.append(shown);
    text
}

fn send_message(channel_id: u64, content: String) -> (command: Command)
    ensures
        command@ == message_frame(channel_id, content@),
{
    Command::Send(encode(&Envelope::Message { channel_id, content }))
}

fn subscribe_all(topics: Vec<String>) -> (commands: Vec<Command>)
    ensures
        command_views(commands@) == subscribe_commands(text_views(topics@)),
{
    let mut commands: Vec<Command> = Vec::new();
    let mut i: usize = 0;
    while i < topics.len()
        invariant
            i <= topics.len(),
            commands@.len() == i,
            forall|k: int|
                0 <= k < i ==> (#[trigger] commands@[k])@ == CommandView::Subscribe(
                    topics@[k]@,
                    Qos::AtMostOnce,
                ),
        decreases topics.len() - i,
    {
        commands.push(Command::Subscribe(topics[i].clone(), Qos::AtMostOnce));
        i = i + 1;
    }
    assert(command_views(commands@) =~= subscribe_commands(text_views(topics@)));
    commands
}

impl Bridge {
    /// The relay at startup: connected, no alert raised, the threshold of the
    /// configuration, and subscribed to the topics of the configuration.
    pub fn new(config: Config) -> (bridge: Bridge)
        ensures
            bridge.config == config,
            bridge.threshold == (ThresholdState {
                current_threshold: config.default_threshold,
                alerted: false,
            }),
            bridge.link == Link::Connected,
            bridge.subscriptions@ == inbound_topics(&config),
    {
        let mut subscriptions: Subscriptions = Subscriptions::new();
        let mut i: usize = 0;
        proof {
            assert(config.rules@.subrange(0, 0) =~= Seq::<RoutingRule>::empty());
        }
        while i < config.rules.len()
            invariant
                i <= config.rules.len(),
                subscriptions@ == rule_topics(config.rules@.subrange(0, i as int)),
            decreases config.rules.len() - i,
        {
            proof {
                let after = config.rules@.subrange(0, i + 1);
                assert(after.drop_last() =~= config.rules@.subrange(0, i as int));
                assert(after.last() == config.rules@[i as int]);
            }
            subscriptions.insert(config.rules[i].topic.as_str());
            i = i + 1;
        }
        proof {
            assert(config.rules@.subrange(0, i as int) =~= config.rules@);
        }
        subscriptions.insert(config.sample_topic.as_str());
        subscriptions.insert(config.threshold_topic.as_str());
        let threshold: ThresholdState = ThresholdState::new(config.default_threshold);
        Bridge { config, threshold, link: Link::Connected, subscriptions }
    }

    /// The subscriptions to ask of the broker: one per subscribed topic, and
    /// no topic twice.
    pub fn subscribe_commands(&self) -> (commands: Vec<Command>)
        ensures
            command_views(commands@) == subscribe_commands(self.subscriptions@),
            commands@.len() == self.subscriptions@.len(),
            self.subscriptions@.no_duplicates(),
    {
        let commands: Vec<Command> = subscribe_all(self.subscriptions.topics());
        assert(command_views(commands@).len() == commands@.len());
        commands
    }

    fn on_publish(&mut self, topic: &str, payload: &[u8], reading: Option<Reading>) -> (commands:
        Vec<Command>)
        ensures
            final(self).config == old(self).config,
            final(self).link == old(self).link,
            final(self).subscriptions == old(self).subscriptions,
            command_views(commands@) == publish_commands(
                &old(self).config,
                old(self).threshold,
                topic@,
                payload@,
                reading,
            ),
            final(self).threshold == threshold_after(
                &old(self).config,
                old(self).threshold,
                topic@,
                reading,
            ),
    {
        let mut commands: Vec<Command> = Vec::new();
        match classify(&self.config, topic) {
            TopicKind::Routed => {
                let routes: Vec<(OutboundTarget, Vec<u8>)> = route_inbound(
                    &self.config,
                    topic,
                    payload,
                );
                let mut i: usize = 0;
                while i < routes.len()
                    invariant
                        i <= routes.len(),
                        commands@.len() == i,
                        forall|k: int|
                            0 <= k < i ==> (#[trigger] commands@[k])@ == CommandView::Send(
                                routes@[k].1@,
                            ),
                    decreases routes.len() - i,
                {
                    commands.push(Command::Send(slice_to_vec(routes[i].1.as_slice())));
                    i = i + 1;
                }
                proof {
                    assert(command_views(commands@) =~= frames_for(route_views(routes@)));
                }
            },
            TopicKind::Sample => {
                match reading {
                    Some(r) => {
                        match evaluate(r.sample, &mut self.threshold) {
                            Some(event) => {
                                let text: String = alert_message(&event, r.text.as_str());
                                commands.push(send_message(self.config.alert_channel, text));
                                proof {
                                    assert(command_views(commands@) =~= seq![
                                        message_frame(
                                            self.config.alert_channel,
                                            alert_text(event, r.text@),
                                        ),
                                    ]);
                                }
                            },
                            None => {
                                proof {
                                    assert(command_views(commands@) =~= Seq::<CommandView>::empty());
                                }
                            },
                        }
                    },
                    None => {
                        proof {
                            assert(command_views(commands@) =~= Seq::<CommandView>::empty());
                        }
                    },
                }
            },
            TopicKind::Threshold => {
                match reading {
                    Some(r) => {
                        self.threshold.set_threshold(r.sample);
                    },
                    None => {},
                }
                proof {
                    assert(command_views(commands@) =~= Seq::<CommandView>::empty());
                }
            },
            TopicKind::Unknown => {
                proof {
                    assert(command_views(commands@) =~= Seq::<CommandView>::empty());
                }
            },
        }
        commands
    }

    /// Takes one notification of the broker and returns what to carry out.
    ///
    /// The commands are those of [`commands_for`]; the threshold rule and the
    /// link move as [`threshold_for`] and [`link_after`] say. The
    /// configuration and the subscribed topics never change, and no topic is
    /// subscribed twice.
    pub fn handle(&mut self, notification: Notification) -> (commands: Vec<Command>)
        ensures
            final(self).config == old(self).config,
            final(self).subscriptions == old(self).subscriptions,
            command_views(commands@) == commands_for(
                &old(self).config,
                old(self).threshold,
                old(self).subscriptions@,
                notification,
            ),
            final(self).threshold == threshold_for(
                &old(self).config,
                old(self).threshold,
                notification,
            ),
            final(self).link == link_after(old(self).link, notification),
            notification is Reconnection ==> old(self).subscriptions@.no_duplicates(),
            commands@.len() == commands_for(
                &old(self).config,
                old(self).threshold,
                old(self).subscriptions@,
                notification,
            ).len(),
            forall|k: int|
                0 <= k < commands@.len() ==> (#[trigger] commands@[k])@ == commands_for(
                    &old(self).config,
                    old(self).threshold,
                    old(self).subscriptions@,
                    notification,
                )[k],
    {
        let commands: Vec<Command> = match notification {
            Notification::Publish { topic, payload, reading } => self.on_publish(
                topic.as_str(),
                payload.as_slice(),
                reading,
            ),
            Notification::Disconnection => {
                self.link = Link::Disconnected;
                Vec::new()
            },
            Notification::Reconnection => {
                self.link = Link::Connected;
                self.subscribe_commands()
            },
        };
        assert(command_views(commands@).len() == commands@.len());
        assert(notification is Disconnection ==> command_views(commands@) =~= Seq::<
            CommandView,
        >::empty());
        assert forall|k: int| 0 <= k < commands@.len() implies (#[trigger] commands@[k])@
            == command_views(commands@)[k] by {}
        commands
    }
}

/// What a frame from the socket makes the relay publish: nothing for a
/// heartbeat, the publishes of the router for a message.
pub open spec fn socket_publishes(config: &Config, e: EnvelopeView) -> Seq<PublishView> {
    match e {
        EnvelopeView::KeepAlive => Seq::<PublishView>::empty(),
        EnvelopeView::Message { channel_id, content } => outbound_publishes(
            config,
            channel_id,
            content,
        ),
    }
}

/// Takes one frame of the socket and returns what to publish on the broker.
///
/// A frame that is no envelope is an error for the caller to log; it changes
/// nothing and the next frame is handled as if it had not been.
pub fn on_socket_message(config: &Config, frame: &[u8]) -> (r: Result<Vec<Publish>, DecodeError>)
    ensures
        match r {
            Ok(list) => parse_envelope(frame@) matches Some(e) && publish_views(list@)
                == socket_publishes(config, e) && list@.len() == socket_publishes(config, e).len(),
            Err(_) => parse_envelope(frame@) is None,
        },
{
    match decode(frame) {
        Ok(Envelope::KeepAlive) => {
            let list: Vec<Publish> = Vec::new();
            assert(publish_views(list@) =~= Seq::<PublishView>::empty());
            Ok(list)
        },
        Ok(Envelope::Message { channel_id, content }) => Ok(
            route_outbound(config, channel_id, content.as_str()),
        ),
        Err(e) => Err(e),
    }
}

/// A reconnect restores the subscriptions. The lost connection asks for
/// nothing. The restored connection asks for every subscribed topic exactly
/// once: the commands are as many as the topics, the command at each place
/// subscribes to the topic at that place, delivered at most once, and no two
/// commands are the same.
/// Afterwards the relay is connected, and the threshold rule is where it was.
pub proof fn lemma_reconnect_restores_subscriptions(
    config: &Config,
    threshold: ThresholdState,
    link: Link,
    subscribed: Seq<Seq<char>>,
)
    requires
        subscribed.no_duplicates(),
    ensures
        commands_for(config, threshold, subscribed, Notification::Disconnection).len() == 0,
        link_after(link, Notification::Disconnection) == Link::Disconnected,
        link_after(Link::Disconnected, Notification::Reconnection) == Link::Connected,
        threshold_for(config, threshold, Notification::Disconnection) == threshold,
        threshold_for(config, threshold, Notification::Reconnection) == threshold,
        commands_for(config, threshold, subscribed, Notification::Reconnection).len()
            == subscribed.len(),
        forall|k: int|
            0 <= k < subscribed.len() ==> #[trigger] commands_for(
                config,
                threshold,
                subscribed,
                Notification::Reconnection,
            )[k] == CommandView::Subscribe(subscribed[k], Qos::AtMostOnce),
        commands_for(config, threshold, subscribed, Notification::Reconnection).no_duplicates(),
{
    let commands = subscribe_commands(subscribed);
    assert forall|i: int, j: int|
        0 <= i < commands.len() && 0 <= j < commands.len() && i != j implies commands[i]
        != commands[j] by {
        assert(subscribed[i] != subscribed[j]);
    }
}

/// Whether the rule `at` of the table, and no other, is for `topic`.
pub open spec fn only_rule(config: &Config, topic: Seq<char>, at: int) -> bool {
    &&& 0 <= at < config.rules@.len()
    &&& forall|k: int|
        0 <= k < config.rules@.len() ==> ((#[trigger] config.rules@[k]).topic@ == topic <==> k
            == at)
}

/// A topic for envelopes passes them through. A payload that is a wire form
/// of an envelope, a message for any channel or a heartbeat, is sent once and
/// as it came: the frame is the payload, byte for byte. Any other payload
/// sends nothing. The threshold rule is not touched.
pub proof fn lemma_relay_sends_the_payload(
    config: &Config,
    threshold: ThresholdState,
    topic: Seq<char>,
    payload: Seq<u8>,
    reading: Option<Reading>,
    at: int,
)
    requires
        only_rule(config, topic, at),
        config.rules@[at].target == RuleTarget::FromEnvelope,
    ensures
        publish_commands(config, threshold, topic, payload, reading) == if parse_envelope(
            payload,
        ) is Some {
            seq![CommandView::Send(payload)]
        } else {
            Seq::<CommandView>::empty()
        },
        threshold_after(config, threshold, topic, reading) == threshold,
{
    assert(has_rule(config.rules@, topic)) by {
        assert(config.rules@[at].topic@ == topic);
    }
    lemma_single_rule_decides(config.rules@, at, topic, payload);
    let commands = publish_commands(config, threshold, topic, payload, reading);
    if parse_envelope(payload) is Some {
        assert(commands =~= seq![CommandView::Send(payload)]);
    } else {
        assert(commands =~= Seq::<CommandView>::empty());
    }
}

/// A topic for chat sends the payload to the channel of its rule, whatever it
/// says: one message with the payload as its text where the payload is
/// UTF-8, nothing where it is not. The threshold rule is not touched.
pub proof fn lemma_chat_sends_a_message(
    config: &Config,
    threshold: ThresholdState,
    topic: Seq<char>,
    payload: Seq<u8>,
    reading: Option<Reading>,
    at: int,
    channel_id: u64,
)
    requires
        only_rule(config, topic, at),
        config.rules@[at].target == RuleTarget::Channel(channel_id),
    ensures
        publish_commands(config, threshold, topic, payload, reading) == if valid_utf8(payload) {
            seq![message_frame(channel_id, decode_utf8(payload))]
        } else {
            Seq::<CommandView>::empty()
        },
        threshold_after(config, threshold, topic, reading) == threshold,
{
    assert(has_rule(config.rules@, topic)) by {
        assert(config.rules@[at].topic@ == topic);
    }
    lemma_single_rule_decides(config.rules@, at, topic, payload);
    let commands = publish_commands(config, threshold, topic, payload, reading);
    if valid_utf8(payload) {
        assert(commands =~= seq![message_frame(channel_id, decode_utf8(payload))]);
    } else {
        assert(commands =~= Seq::<CommandView>::empty());
    }
}

/// A message on a topic that is none of the relay's sends nothing and changes
/// nothing.
pub proof fn lemma_unknown_topic_is_dropped(
    config: &Config,
    threshold: ThresholdState,
    topic: Seq<char>,
    payload: Seq<u8>,
    reading: Option<Reading>,
)
    requires
        topic_kind(config, topic) == TopicKind::Unknown,
    ensures
        publish_commands(config, threshold, topic, payload, reading).len() == 0,
        threshold_after(config, threshold, topic, reading) == threshold,
{
}

} // verus!
