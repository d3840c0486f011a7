//! What the relay is set up with at startup: the topic names, the channel
//! numbers, the routing rules and the alias table. Nothing in it changes
//! afterwards.

use vstd::prelude::*;
use vstd::string::StringExecFns;
use crate::router::{
    lemma_aliased_channel_has_two_topics, lemma_unaliased_channel_has_one_topic, outbound_topics,
};
use crate::sample::Sample;

verus! {

/// Where a routing rule takes the channel from.
#[derive(Debug, Clone, Copy, PartialEq, Eq, Structural)]
pub enum RuleTarget {
    /// The payload is text for this channel, whatever it says.
    Channel(u64),
    /// The payload is an envelope, and names the channel itself.
    FromEnvelope,
}

/// One entry of the routing table: what to do with a message of the broker on
/// `topic`.
#[derive(Debug, Clone, PartialEq, Eq)]
pub struct RoutingRule {
    pub topic: String,
    pub target: RuleTarget,
}

/// A channel that is mirrored onto a well-known topic besides its own.
#[derive(Debug, Clone, PartialEq, Eq)]
pub struct Alias {
    pub channel_id: u64,
    pub topic: String,
}

/// The relay's configuration.
#[derive(Debug, Clone, PartialEq, Eq)]
pub struct Config {
    /// The prefix of every per-channel topic: channel `n` is mirrored onto
    /// `<namespace>/<n>`.
    pub namespace: String,
    /// The alias table.
    pub aliases: Vec<Alias>,
    /// The routing table for messages of the broker.
    pub rules: Vec<RoutingRule>,
    /// The channel that telemetry alerts go to.
    pub alert_channel: u64,
    /// The topic that carries the telemetry readings.
    pub sample_topic: String,
    /// The topic that replaces the threshold.
    pub threshold_topic: String,
    /// The threshold at startup.
    pub default_threshold: Sample,
}

/// The bit pattern of 10.3, the threshold at startup unless configured.
pub const DEFAULT_THRESHOLD_BITS: u32 = 0x4124_cccd;

impl Config {
    /// The configuration with the well-known topic names, for the given
    /// channels.
    ///
    /// Chat on `discord/send/general` goes to the default channel, and
    /// `discord/send` carries envelopes. The default channel is aliased to
    /// `discord/receive/general`, the alert channel to
    /// `discord/receive/hopper`. Every channel has one alias at most: where
    /// the alert channel is the default channel, it keeps the alias of the
    /// default channel and gets no second one.
    pub fn standard(default_channel: u64, alert_channel: u64) -> (config: Config)
        ensures
            config.namespace@ == "discord/receive"@,
            config.aliases@.len() == (if alert_channel == default_channel {
                1int
            } else {
                2int
            }),
            config.aliases@[0].channel_id == default_channel,
            config.aliases@[0].topic@ == "discord/receive/general"@,
            alert_channel != default_channel ==> config.aliases@[1].channel_id == alert_channel
                && config.aliases@[1].topic@ == "discord/receive/hopper"@,
            config.rules@.len() == 2,
            config.rules@[0].topic@ == "discord/send/general"@,
            config.rules@[0].target == RuleTarget::Channel(default_channel),
            config.rules@[1].topic@ == "discord/send"@,
            config.rules@[1].target == RuleTarget::FromEnvelope,
            config.rules@[0].topic@ != config.rules@[1].topic@,
            forall|channel_id: u64|
                1 <= (#[trigger] outbound_topics(&config, channel_id)).len() <= 2,
            config.alert_channel == alert_channel,
            config.sample_topic@ == "hopper/telemetry/voltage"@,
            config.threshold_topic@ == "hopper/telemetry/warning_voltage"@,
            config.default_threshold.bits == DEFAULT_THRESHOLD_BITS,
    {
        let mut aliases: Vec<Alias> = Vec::new();
        aliases.push(
            Alias { channel_id: default_channel, topic: String::from_str("discord/receive/general") },
        );
        if alert_channel != default_channel {
            aliases.push(
                Alias {
                    channel_id: alert_channel,
                    topic: String::from_str("discord/receive/hopper"),
                },
            );
        }
        let mut rules: Vec<RoutingRule> = Vec::new();
        rules.push(
            RoutingRule {
                topic: String::from_str("discord/send/general"),
                target: RuleTarget::Channel(default_channel),
            },
        );
        rules.push(
            RoutingRule { topic: String::from_str("discord/send"), target: RuleTarget::FromEnvelope },
        );
        let config = Config {
            namespace: String::from_str("discord/receive"),
            aliases,
            rules,
            alert_channel,
            sample_topic: String::from_str("hopper/telemetry/voltage"),
            threshold_topic: String::from_str("hopper/telemetry/warning_voltage"),
            default_threshold: Sample { bits: DEFAULT_THRESHOLD_BITS },
        };
        proof {
            reveal_strlit("discord/send/general");
            reveal_strlit("discord/send");
            assert("discord/send/general"@.len() == 20);
            assert("discord/send"@.len() == 12);
            assert(config.rules@[0].topic@.len() != config.rules@[1].topic@.len());
            assert forall|channel_id: u64|
                1 <= (#[trigger] outbound_topics(&config, channel_id)).len() <= 2 by {
                if channel_id == default_channel {
                    lemma_aliased_channel_has_two_topics(&config, channel_id, 0);
                } else if channel_id == alert_channel {
                    lemma_aliased_channel_has_two_topics(&config, channel_id, 1);
                } else {
                    lemma_unaliased_channel_has_one_topic(&config, channel_id);
                }
            }
        }
        config
    }
}

} // verus!
