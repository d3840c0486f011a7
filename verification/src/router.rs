//! The topic router: which broker topics a channel is mirrored onto, and
//! where a message from the broker goes on the socket side, in which frame.

use vstd::prelude::*;
use vstd::slice::slice_to_vec;
use vstd::string::{StrSliceExecFns, StringExecFns, StringSliceAdditionalSpecFns};
use vstd::utf8::{decode_utf8, encode_utf8, valid_utf8};
use crate::codec::{decode, encode, envelope_text, parse_envelope, text_from_utf8};
use crate::config::{Alias, Config, RoutingRule, RuleTarget};
use crate::envelope::{Envelope, EnvelopeView};
use crate::text::{append_decimal, decimal_text, lemma_decimal_text_is_injective, text_equal};

verus! {

/// The delivery guarantee asked of the broker.
#[derive(Debug, Clone, Copy, PartialEq, Eq, Structural)]
pub enum Qos {
    AtMostOnce,
    AtLeastOnce,
    ExactlyOnce,
}

/// One publish to the broker.
#[derive(Debug, Clone, PartialEq, Eq)]
pub struct Publish {
    pub topic: String,
    pub payload: Vec<u8>,
    pub qos: Qos,
    pub retain: bool,
}

/// What a [`Publish`] is, as a mathematical value.
pub struct PublishView {
    pub topic: Seq<char>,
    pub payload: Seq<u8>,
    pub qos: Qos,
    pub retain: bool,
}

impl View for Publish {
    type V = PublishView;

    open spec fn view(&self) -> PublishView {
        PublishView {
            topic: self.topic@,
            payload: self.payload@,
            qos: self.qos,
            retain: self.retain,
        }
    }
}

/// Where a frame goes on the socket side.
#[derive(Debug, Clone, Copy, PartialEq, Eq, Structural)]
pub enum OutboundTarget {
    /// To this channel.
    Channel(u64),
    /// To the peer itself: a heartbeat, which is for no channel.
    Peer,
}

/// The topic of a channel's own mirror: `<namespace>/<channel_id>`.
pub open spec fn primary_topic(namespace: Seq<char>, channel_id: u64) -> Seq<char> {
    namespace + seq!['/'] + decimal_text(channel_id as nat)
}

/// The topics of the aliases of `channel_id`, in the order of the table.
pub open spec fn alias_topics(aliases: Seq<Alias>, channel_id: u64) -> Seq<Seq<char>>
    decreases aliases.len(),
{
    if aliases.len() == 0 {
        Seq::<Seq<char>>::empty()
    } else if aliases.last().channel_id == channel_id {
        alias_topics(aliases.drop_last(), channel_id).push(aliases.last().topic@)
    } else {
        alias_topics(aliases.drop_last(), channel_id)
    }
}

/// Every topic that a message of `channel_id` is published on: the channel's
/// own first, then its aliases.
pub open spec fn outbound_topics(config: &Config, channel_id: u64) -> Seq<Seq<char>> {
    seq![primary_topic(config.namespace@, channel_id)] + alias_topics(
        config.aliases@,
        channel_id,
    )
}

/// The publish of `content` on `topic`: the text as it is, delivered at most
/// once and not retained.
pub open spec fn publish_of(topic: Seq<char>, content: Seq<char>) -> PublishView {
    PublishView {
        topic,
        payload: encode_utf8(content),
        qos: Qos::AtMostOnce,
        retain: false,
    }
}

/// The publishes that a message from the socket side results in.
pub open spec fn outbound_publishes(config: &Config, channel_id: u64, content: Seq<char>) -> Seq<
    PublishView,
> {
    outbound_topics(config, channel_id).map_values(|topic: Seq<char>| publish_of(topic, content))
}

/// The views of a list of publishes.
pub open spec fn publish_views(list: Seq<Publish>) -> Seq<PublishView> {
    list.map_values(|p: Publish| p@)
}

fn make_publish(topic: String, content: &str) -> (p: Publish)
    ensures
        p@ == publish_of(topic@, content@),
{
    Publish { topic, payload: content.as_bytes_vec(), qos: Qos::AtMostOnce, retain: false }
}

/// Routes a message from the socket side to the broker: one publish on the
/// channel's own topic, and one on the topic of each alias of the channel,
/// all with the same payload.
pub fn route_outbound(config: &Config, channel_id: u64, content: &str) -> (list: Vec<Publish>)
    ensures
        publish_views(list@) == outbound_publishes(config, channel_id, content@),
        list@.len() == outbound_topics(config, channel_id).len(),
        forall|k: int|
            0 <= k < list@.len() ==> (#[trigger] list@[k])@ == publish_of(
                outbound_topics(config, channel_id)[k],
                content@,
            ),
{
    let mut topic: String = config.namespace.clone();
    topic.append("/");
    proof {
        reveal_strlit("/");
        assert("/"@ =~= seq!['/']);
    }
    append_decimal(&mut topic, channel_id);
    let mut list: Vec<Publish> = Vec::new();
    list.push(make_publish(topic, content));
    let ghost mut topics: Seq<Seq<char>> = seq![primary_topic(config.namespace@, channel_id)];
    let mut i: usize = 0;
    proof {
        assert(config.aliases@.subrange(0, 0) =~= Seq::<Alias>::empty());
        assert(topics =~= topics + alias_topics(config.aliases@.subrange(0, 0), channel_id));
    }
    while i < config.aliases.len()
        invariant
            i <= config.aliases.len(),
            topics == seq![primary_topic(config.namespace@, channel_id)] + alias_topics(
                config.aliases@.subrange(0, i as int),
                channel_id,
            ),
            list@.len() == topics.len(),
            forall|k: int| 0 <= k < list@.len() ==> (#[trigger] list@[k])@ == publish_of(
                topics[k],
                content@,
            ),
        decreases config.aliases.len() - i,
    {
        let ghost before = config.aliases@.subrange(0, i as int);
        let ghost after = config.aliases@.subrange(0, i + 1);
        proof {
            assert(after.drop_last() =~= before);
            assert(after.last() == config.aliases@[i as int]);
        }
        if config.aliases[i].channel_id == channel_id {
            list.push(make_publish(config.aliases[i].topic.clone(), content));
            proof {
                topics = topics.push(config.aliases@[i as int].topic@);
                assert(topics =~= seq![primary_topic(config.namespace@, channel_id)]
                    + alias_topics(after, channel_id));
            }
        }
        i = i + 1;
    }
    proof {
        assert(config.aliases@.subrange(0, i as int) =~= config.aliases@);
        assert(publish_views(list@) =~= outbound_publishes(config, channel_id, content@));
    }
    list
}

/// A channel without an alias is published once, on its own topic.
pub proof fn lemma_unaliased_channel_has_one_topic(config: &Config, channel_id: u64)
    requires
        forall|k: int|
            0 <= k < config.aliases@.len() ==> (#[trigger] config.aliases@[k]).channel_id
                != channel_id,
    ensures
        outbound_topics(config, channel_id) == seq![primary_topic(config.namespace@, channel_id)],
{
    lemma_no_alias(config.aliases@, channel_id);
}

proof fn lemma_no_alias(aliases: Seq<Alias>, channel_id: u64)
    requires
        forall|k: int| 0 <= k < aliases.len() ==> (#[trigger] aliases[k]).channel_id != channel_id,
    ensures
        alias_topics(aliases, channel_id) == Seq::<Seq<char>>::empty(),
    decreases aliases.len(),
{
    if aliases.len() > 0 {
        lemma_no_alias(aliases.drop_last(), channel_id);
    }
}

/// A channel with exactly one alias, the entry `at` of the table, is
/// published twice: on its own topic, then on the topic of the alias.
pub proof fn lemma_aliased_channel_has_two_topics(config: &Config, channel_id: u64, at: int)
    requires
        0 <= at < config.aliases@.len(),
        forall|k: int|
            0 <= k < config.aliases@.len() ==> ((#[trigger] config.aliases@[k]).channel_id
                == channel_id <==> k == at),
    ensures
        outbound_topics(config, channel_id) == seq![
            primary_topic(config.namespace@, channel_id),
            config.aliases@[at].topic@,
        ],
{
    lemma_one_alias(config.aliases@, channel_id, at);
}

proof fn lemma_one_alias(aliases: Seq<Alias>, channel_id: u64, at: int)
    requires
        0 <= at < aliases.len(),
        forall|k: int|
            0 <= k < aliases.len() ==> ((#[trigger] aliases[k]).channel_id == channel_id <==> k
                == at),
    ensures
        alias_topics(aliases, channel_id) == seq![aliases[at].topic@],
    decreases aliases.len(),
{
    if at == aliases.len() - 1 {
        lemma_no_alias(aliases.drop_last(), channel_id);
    } else {
        lemma_one_alias(aliases.drop_last(), channel_id, at);
    }
}

/// Every publish of one message carries the same payload, is delivered at most
/// once and is not retained; the first is on the channel's own topic.
pub proof fn lemma_outbound_publishes_agree(config: &Config, channel_id: u64, content: Seq<char>)
    ensures
        outbound_publishes(config, channel_id, content).len() == 1 + alias_topics(
            config.aliases@,
            channel_id,
        ).len(),
        outbound_publishes(config, channel_id, content)[0].topic == primary_topic(
            config.namespace@,
            channel_id,
        ),
        forall|k: int|
            0 <= k < outbound_publishes(config, channel_id, content).len() ==> {
                let p = #[trigger] outbound_publishes(config, channel_id, content)[k];
                p.payload == encode_utf8(content) && p.qos == Qos::AtMostOnce && !p.retain
            },
{
}

/// Every channel has a topic of its own: two channels with the same own topic
/// are the same channel.
pub proof fn lemma_own_topic_names_one_channel(namespace: Seq<char>, a: u64, b: u64)
    requires
        primary_topic(namespace, a) == primary_topic(namespace, b),
    ensures
        a == b,
{
    let head = namespace + seq!['/'];
    let x = head + decimal_text(a as nat);
    let y = head + decimal_text(b as nat);
    assert(x.subrange(head.len() as int, x.len() as int) =~= decimal_text(a as nat));
    assert(y.subrange(head.len() as int, y.len() as int) =~= decimal_text(b as nat));
    lemma_decimal_text_is_injective(a as nat, b as nat);
}

/// Where the envelope `e` goes.
pub open spec fn target_of(e: EnvelopeView) -> OutboundTarget {
    match e {
        EnvelopeView::Message { channel_id, content } => OutboundTarget::Channel(channel_id),
        EnvelopeView::KeepAlive => OutboundTarget::Peer,
    }
}

/// Where a rule sends a payload, and the frame that goes there.
///
/// A rule for a fixed channel takes the payload as text for that channel,
/// whatever it says, and frames it as a message. A rule for envelopes passes
/// the payload through: where it is a wire form of an envelope, the frame is
/// the payload itself, byte for byte, and goes where that envelope goes. A
/// payload that is no UTF-8, or no envelope where one is asked for, is not
/// routed.
pub open spec fn route_of(target: RuleTarget, payload: Seq<u8>) -> Option<
    (OutboundTarget, Seq<u8>),
> {
    match target {
        RuleTarget::Channel(channel_id) => if valid_utf8(payload) {
            Some(
                (
                    OutboundTarget::Channel(channel_id),
                    envelope_text(
                        EnvelopeView::Message { channel_id, content: decode_utf8(payload) },
                    ),
                ),
            )
        } else {
            None
        },
        RuleTarget::FromEnvelope => match parse_envelope(payload) {
            Some(e) => Some((target_of(e), payload)),
            None => None,
        },
    }
}

/// Where a message from the broker goes: what each rule for its topic makes
/// of the payload, in the order of the table.
pub open spec fn inbound_routes(rules: Seq<RoutingRule>, topic: Seq<char>, payload: Seq<u8>) -> Seq<
    (OutboundTarget, Seq<u8>),
>
    decreases rules.len(),
{
    if rules.len() == 0 {
        Seq::<(OutboundTarget, Seq<u8>)>::empty()
    } else {
        let before = inbound_routes(rules.drop_last(), topic, payload);
        if rules.last().topic@ == topic {
            match route_of(rules.last().target, payload) {
                Some(route) => before.push(route),
                None => before,
            }
        } else {
            before
        }
    }
}

/// The views of a list of routes.
pub open spec fn route_views(list: Seq<(OutboundTarget, Vec<u8>)>) -> Seq<
    (OutboundTarget, Seq<u8>),
> {
    list.map_values(|r: (OutboundTarget, Vec<u8>)| (r.0, r.1@))
}

fn route_by(target: RuleTarget, payload: &[u8]) -> (r: Option<(OutboundTarget, Vec<u8>)>)
    ensures
        match r {
            Some((to, frame)) => route_of(target, payload@) == Some((to, frame@)),
            None => route_of(target, payload@) is None,
        },
{
    match target {
        RuleTarget::Channel(channel_id) => match text_from_utf8(slice_to_vec(payload)) {
            Some(content) => Some(
                (
                    OutboundTarget::Channel(channel_id),
                    encode(&Envelope::Message { channel_id, content }),
                ),
            ),
            None => None,
        },
        RuleTarget::FromEnvelope => match decode(payload) {
            Ok(Envelope::Message { channel_id, content }) => Some(
                (OutboundTarget::Channel(channel_id), slice_to_vec(payload)),
            ),
            Ok(Envelope::KeepAlive) => Some((OutboundTarget::Peer, slice_to_vec(payload))),
            Err(_) => None,
        },
    }
}

/// Routes a message from the broker to the socket side: for each rule for
/// its topic, in the order of the table, where the message goes and the frame
/// to send there.
pub fn route_inbound(config: &Config, topic: &str, payload: &[u8]) -> (list: Vec<
    (OutboundTarget, Vec<u8>),
>)
    ensures
        route_views(list@) == inbound_routes(config.rules@, topic@, payload@),
        list@.len() == inbound_routes(config.rules@, topic@, payload@).len(),
{
    let mut list: Vec<(OutboundTarget, Vec<u8>)> = Vec::new();
    let mut i: usize = 0;
    proof {
        assert(config.rules@.subrange(0, 0) =~= Seq::<RoutingRule>::empty());
        assert(route_views(list@) =~= inbound_routes(
            config.rules@.subrange(0, 0),
            topic@,
            payload@,
        ));
    }
    while i < config.rules.len()
        invariant
            i <= config.rules.len(),
            route_views(list@) == inbound_routes(
                config.rules@.subrange(0, i as int),
                topic@,
                payload@,
            ),
        decreases config.rules.len() - i,
    {
        let ghost before = config.rules@.subrange(0, i as int);
        let ghost after = config.rules@.subrange(0, i + 1);
        let ghost routed = route_views(list@);
        proof {
            assert(after.drop_last() =~= before);
            assert(after.last() == config.rules@[i as int]);
        }
        if text_equal(config.rules[i].topic.as_str(), topic) {
            match route_by(config.rules[i].target, payload) {
                Some(route) => {
                    list.push(route);
                    proof {
                        assert(route_views(list@) =~= routed.push((route.0, route.1@)));
                    }
                },
                None => {},
            }
        }
        i = i + 1;
    }
    proof {
        assert(config.rules@.subrange(0, i as int) =~= config.rules@);
        assert(route_views(list@).len() == list@.len());
    }
    list
}

/// Whether the table has a rule for `topic`.
pub open spec fn has_rule(rules: Seq<RoutingRule>, topic: Seq<char>) -> bool {
    exists|k: int| 0 <= k < rules.len() && (#[trigger] rules[k]).topic@ == topic
}

/// A message on a topic without a rule goes nowhere.
pub proof fn lemma_unmatched_topic_is_dropped(
    rules: Seq<RoutingRule>,
    topic: Seq<char>,
    payload: Seq<u8>,
)
    requires
        !has_rule(rules, topic),
    ensures
        inbound_routes(rules, topic, payload).len() == 0,
    decreases rules.len(),
{
    if rules.len() > 0 {
        assert(rules.last() == rules[rules.len() - 1]);
        assert forall|k: int| 0 <= k < rules.drop_last().len() implies (#[trigger] rules.drop_last()[k]).topic@
            != topic by {
            assert(rules.drop_last()[k] == rules[k]);
        }
        lemma_unmatched_topic_is_dropped(rules.drop_last(), topic, payload);
    }
}

/// Where one rule alone is for a topic, the entry `at` of the table, that rule
/// decides: the message goes where the rule says, or nowhere.
pub proof fn lemma_single_rule_decides(
    rules: Seq<RoutingRule>,
    at: int,
    topic: Seq<char>,
    payload: Seq<u8>,
)
    requires
        0 <= at < rules.len(),
        forall|k: int| 0 <= k < rules.len() ==> ((#[trigger] rules[k]).topic@ == topic <==> k == at),
    ensures
        inbound_routes(rules, topic, payload) == match route_of(rules[at].target, payload) {
            Some(route) => seq![route],
            None => Seq::<(OutboundTarget, Seq<u8>)>::empty(),
        },
    decreases rules.len(),
{
    let shorter = rules.drop_last();
    if at == rules.len() - 1 {
        assert(!has_rule(shorter, topic)) by {
            if has_rule(shorter, topic) {
                let k = choose|k: int| 0 <= k < shorter.len() && (#[trigger] shorter[k]).topic@ == topic;
                assert(shorter[k] == rules[k]);
            }
        }
        lemma_unmatched_topic_is_dropped(shorter, topic, payload);
        let before = inbound_routes(shorter, topic, payload);
        assert(before =~= Seq::<(OutboundTarget, Seq<u8>)>::empty());
        match route_of(rules[at].target, payload) {
            Some(route) => {
                assert(before.push(route) =~= seq![route]);
            },
            None => {},
        }
    } else {
        assert forall|k: int| 0 <= k < shorter.len() implies ((#[trigger] shorter[k]).topic@
            == topic <==> k == at) by {
            assert(shorter[k] == rules[k]);
        }
        lemma_single_rule_decides(shorter, at, topic, payload);
        assert(shorter[at] == rules[at]);
    }
}

/// Chat for a fixed channel is routed whatever it says: a payload that reads
/// as an envelope for another channel goes to the channel of the rule all the
/// same, framed as the text that it is.
pub proof fn lemma_fixed_channel_ignores_content(channel_id: u64, payload: Seq<u8>)
    requires
        valid_utf8(payload),
    ensures
        route_of(RuleTarget::Channel(channel_id), payload) == Some(
            (
                OutboundTarget::Channel(channel_id),
                envelope_text(EnvelopeView::Message { channel_id, content: decode_utf8(payload) }),
            ),
        ),
{
}

/// An envelope is passed through as it came: the frame is the payload, so
/// whoever decodes the frame reads the envelope that the payload was, and a
/// message goes to the channel that it names.
pub proof fn lemma_envelope_passes_through(payload: Seq<u8>, e: EnvelopeView)
    requires
        parse_envelope(payload) == Some(e),
    ensures
        route_of(RuleTarget::FromEnvelope, payload) == Some((target_of(e), payload)),
        parse_envelope(route_of(RuleTarget::FromEnvelope, payload).unwrap().1) == Some(e),
        e matches EnvelopeView::Message { channel_id, content } ==> route_of(
            RuleTarget::FromEnvelope,
            payload,
        ).unwrap().0 == OutboundTarget::Channel(channel_id),
{
}

} // verus!
