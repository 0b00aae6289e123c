//! The relay engine: for each inbound message it decides, from the shared
//! immutable configuration, whether the message is suppressed, where it is
//! routed, what normalized text is sent, and which issue references are to
//! be looked up. The result is a plan; performing the sends and lookups is
//! plain I/O and happens outside this crate.

use vstd::prelude::*;

verus! {

use crate::issue::spec_references;
use crate::message::{spec_discord_message, spec_irc_messages, DiscordMsg, IrcMsg};
use crate::routing::{spec_discord_targets, spec_irc_targets, Mapping};
use crate::util::spec_has_bad_word;

/// The filter and enrichment configuration: banned words, the characters
/// that silence a message when they start it, and the repository whose
/// issues are referenced.
pub struct Misc {
    pub badwords: Vec<String>,
    pub repository: String,
    pub filterchars: String,
}

/// Everything the relay decisions depend on, built once at startup and
/// never mutated.
pub struct RelayConfig {
    pub mapping: Mapping,
    pub misc: Misc,
}

/// Whether a message is suppressed: its first character is one of the
/// configured filter characters, or some whitespace-delimited token of it
/// equals a banned word.
pub open spec fn spec_suppressed(misc: Misc, content: Seq<char>) -> bool {
    (content.len() > 0 && misc.filterchars@.contains(content[0])) || spec_has_bad_word(
        content,
        misc.badwords@.map_values(|w: String| w@),
    )
}

/// Decides whether `content` is suppressed by the configured filters.
pub fn should_suppress(misc: &Misc, content: &str) -> (r: bool)
    ensures
        r == spec_suppressed(*misc, content@),
{
    let cc = crate::text::string_to_chars(content);
    if cc.len() > 0 {
        let first = cc[0];
        let fc = crate::text::string_to_chars(misc.filterchars.as_str());
        let mut i: usize = 0;
        while i < fc.len()
            invariant
                fc@ == misc.filterchars@,
                content@.len() > 0,
                first == content@[0],
                i <= fc@.len(),
                forall|k: int| 0 <= k < i ==> fc@[k] != first,
            decreases fc@.len() - i,
        {
            if fc[i] == first {
                proof {
                    assert(misc.filterchars@[i as int] == first);
                    assert(misc.filterchars@.contains(first));
                    assert(content@[0] == first);
                }
                return true;
            }
            i += 1;
        }
        proof {
            assert(!misc.filterchars@.contains(content@[0]));
        }
    }
    crate::util::contains_bad_words(content, misc.badwords.as_slice())
}

/// The plan for one inbound text-protocol message: the rich-protocol
/// channels to send to, the normalized line, the issue references of the
/// raw text, and the channel the enrichment is reflected back to.
pub struct IrcPlan {
    pub targets: Vec<u64>,
    pub message: String,
    pub references: Vec<String>,
    pub origin: String,
}

/// The plan for one inbound rich-protocol message: the text-protocol
/// channels to send to, the normalized lines, the issue references of the
/// raw text, and the channel id the enrichment is reflected back to.
pub struct DiscordPlan {
    pub targets: Vec<String>,
    pub messages: Vec<String>,
    pub references: Vec<String>,
    pub origin: u64,
}

/// What the relay does with a text-protocol message: nothing when the
/// message is suppressed or no routing entry matches; otherwise the first
/// matching entry's targets, the normalized line, and the references.
pub open spec fn spec_handle_irc(config: RelayConfig, msg: IrcMsg) -> Option<
    (Seq<u64>, Seq<char>, Seq<Seq<char>>),
> {
    if spec_suppressed(config.misc, msg.content@) {
        None
    } else {
        match spec_discord_targets(config.mapping.irc@, msg.target@, msg.user@) {
            None => None,
            Some(ts) => Some(
                (ts, spec_discord_message(msg), spec_references(msg.content@)),
            ),
        }
    }
}

/// What the relay does with a rich-protocol message, likewise.
pub open spec fn spec_handle_discord(config: RelayConfig, msg: DiscordMsg) -> Option<
    (Seq<Seq<char>>, Seq<Seq<char>>, Seq<Seq<char>>),
> {
    if spec_suppressed(config.misc, msg.content@) {
        None
    } else {
        match spec_irc_targets(config.mapping.discord@, msg.channel_id, msg.author@) {
            None => None,
            Some(ts) => Some((ts, spec_irc_messages(msg), spec_references(msg.content@))),
        }
    }
}

/// Handles one inbound text-protocol message: the filter gate, then
/// first-match routing, then normalization and reference extraction.
/// Returns no plan exactly when the message is suppressed or unrouted.
pub fn handle_irc_msg(config: &RelayConfig, msg: &IrcMsg) -> (r: Option<IrcPlan>)
    ensures
        r is Some <==> spec_handle_irc(*config, *msg) is Some,
        r is Some ==> {
            let p = spec_handle_irc(*config, *msg)->0;
            &&& r->0.targets@ == p.0
            &&& r->0.message@ == p.1
            &&& r->0.references@.map_values(|x: String| x@) == p.2
            &&& r->0.origin@ == msg.target@
        },
{
    if should_suppress(&config.misc, msg.content.as_str()) {
        return None;
    }
    match crate::routing::get_discord_targets(config.mapping.irc.as_slice(), msg) {
        None => None,
        Some(targets) => {
            let message = crate::message::get_discord_message(msg);
            let references = crate::issue::extract_references(msg.content.as_str());
            let origin = msg.target.clone();
            Some(IrcPlan { targets, message, references, origin })
        },
    }
}

/// Handles one inbound rich-protocol message, likewise; every physical
/// line of the normalized text is its own outbound unit.
pub fn handle_discord_msg(config: &RelayConfig, msg: &DiscordMsg) -> (r: Option<DiscordPlan>)
    ensures
        r is Some <==> spec_handle_discord(*config, *msg) is Some,
        r is Some ==> {
            let p = spec_handle_discord(*config, *msg)->0;
            &&& r->0.targets@.map_values(|x: String| x@) == p.0
            &&& r->0.messages@.map_values(|x: String| x@) == p.1
            &&& r->0.references@.map_values(|x: String| x@) == p.2
            &&& r->0.origin == msg.channel_id
        },
{
    if should_suppress(&config.misc, msg.content.as_str()) {
        return None;
    }
    match crate::routing::get_irc_target(config.mapping.discord.as_slice(), msg) {
        None => None,
        Some(targets) => {
            let messages = crate::message::get_irc_messages(msg);
            let references = crate::issue::extract_references(msg.content.as_str());
            Some(DiscordPlan { targets, messages, references, origin: msg.channel_id })
        },
    }
}

/// A text-protocol message whose first character is a configured filter
/// character is never relayed: no plan, so no outbound sends.
pub proof fn lemma_filter_char_drops_irc(config: RelayConfig, msg: IrcMsg)
    requires
        msg.content@.len() > 0,
        config.misc.filterchars@.contains(msg.content@[0]),
    ensures
        spec_handle_irc(config, msg) is None,
{
}

/// A rich-protocol message whose first character is a configured filter
/// character is never relayed: no plan, so no outbound sends.
pub proof fn lemma_filter_char_drops_discord(config: RelayConfig, msg: DiscordMsg)
    requires
        msg.content@.len() > 0,
        config.misc.filterchars@.contains(msg.content@[0]),
    ensures
        spec_handle_discord(config, msg) is None,
{
}

/// A text-protocol message containing a whitespace-delimited token equal to
/// a banned word is never relayed: no plan, so no outbound sends.
pub proof fn lemma_bad_word_drops_irc(config: RelayConfig, msg: IrcMsg)
    requires
        spec_has_bad_word(msg.content@, config.misc.badwords@.map_values(|w: String| w@)),
    ensures
        spec_handle_irc(config, msg) is None,
{
}

/// A rich-protocol message containing a whitespace-delimited token equal to
/// a banned word is never relayed: no plan, so no outbound sends.
pub proof fn lemma_bad_word_drops_discord(config: RelayConfig, msg: DiscordMsg)
    requires
        spec_has_bad_word(msg.content@, config.misc.badwords@.map_values(|w: String| w@)),
    ensures
        spec_handle_discord(config, msg) is None,
{
}

/// First-match routing end to end, text direction: when a message is not
/// suppressed, entry `i` of the table matches it, and no earlier entry
/// does, the plan sends to exactly entry `i`'s target list, in its order;
/// and a message no entry matches produces no plan at all.
pub proof fn lemma_routing_decides_irc(config: RelayConfig, msg: IrcMsg, i: int)
    requires
        !spec_suppressed(config.misc, msg.content@),
        0 <= i < config.mapping.irc@.len(),
        crate::routing::spec_irc_entry_matches(config.mapping.irc@[i], msg.target@, msg.user@),
        forall|j: int|
            0 <= j < i ==> !crate::routing::spec_irc_entry_matches(
                config.mapping.irc@[j],
                msg.target@,
                msg.user@,
            ),
    ensures
        spec_handle_irc(config, msg) is Some,
        (spec_handle_irc(config, msg)->0).0 == config.mapping.irc@[i].to@,
{
    crate::routing::lemma_first_match_irc(config.mapping.irc@, msg.target@, msg.user@, i);
}

/// A text-protocol message from a source no routing entry matches produces
/// no plan: zero sends.
pub proof fn lemma_unrouted_drops_irc(config: RelayConfig, msg: IrcMsg)
    requires
        forall|j: int|
            0 <= j < config.mapping.irc@.len() ==> !crate::routing::spec_irc_entry_matches(
                config.mapping.irc@[j],
                msg.target@,
                msg.user@,
            ),
    ensures
        spec_handle_irc(config, msg) is None,
{
    crate::routing::lemma_unmapped_irc(config.mapping.irc@, msg.target@, msg.user@);
}

/// First-match routing end to end, rich direction.
pub proof fn lemma_routing_decides_discord(config: RelayConfig, msg: DiscordMsg, i: int)
    requires
        !spec_suppressed(config.misc, msg.content@),
        0 <= i < config.mapping.discord@.len(),
        crate::routing::spec_discord_entry_matches(
            config.mapping.discord@[i],
            msg.channel_id,
            msg.author@,
        ),
        forall|j: int|
            0 <= j < i ==> !crate::routing::spec_discord_entry_matches(
                config.mapping.discord@[j],
                msg.channel_id,
                msg.author@,
            ),
    ensures
        spec_handle_discord(config, msg) is Some,
        (spec_handle_discord(config, msg)->0).0 == config.mapping.discord@[i].to@.map_values(
            |t: String| t@,
        ),
{
    crate::routing::lemma_first_match_discord(
        config.mapping.discord@,
        msg.channel_id,
        msg.author@,
        i,
    );
}

/// A rich-protocol message from a channel no routing entry matches produces
/// no plan: zero sends.
pub proof fn lemma_unrouted_drops_discord(config: RelayConfig, msg: DiscordMsg)
    requires
        forall|j: int|
            0 <= j < config.mapping.discord@.len() ==> !crate::routing::spec_discord_entry_matches(
                config.mapping.discord@[j],
                msg.channel_id,
                msg.author@,
            ),
    ensures
        spec_handle_discord(config, msg) is None,
{
    crate::routing::lemma_unmapped_discord(config.mapping.discord@, msg.channel_id, msg.author@);
}

} // verus!
