//! The routing table: per-direction lists of entries, resolved with
//! first-match semantics. An entry matches a message when its source
//! identity equals the message's source and its optional user restriction
//! is absent or equals the message's author.

use vstd::prelude::*;

verus! {

/// A routing entry for the text-to-rich direction: messages seen in channel
/// `from` (optionally only those written by `user`) go to the rich-protocol
/// channels `to`, in order.
pub struct IrcSource {
    pub from: String,
    pub user: Option<String>,
    pub to: Vec<u64>,
}

/// A routing entry for the rich-to-text direction: messages seen in channel
/// id `from` (optionally only those written by `user`) go to the
/// text-protocol channels `to`, in order.
pub struct DiscordSource {
    pub from: u64,
    pub user: Option<String>,
    pub to: Vec<String>,
}

/// Both halves of the routing table, built once at startup.
pub struct Mapping {
    pub irc: Vec<IrcSource>,
    pub discord: Vec<DiscordSource>,
}

/// Whether a text-protocol message from `author` in channel `target`
/// matches this entry.
pub open spec fn spec_irc_entry_matches(s: IrcSource, target: Seq<char>, author: Seq<char>) -> bool {
    s.from@ == target && (s.user is None || s.user->0@ == author)
}

/// Whether a rich-protocol message from `author` in channel id `channel`
/// matches this entry.
pub open spec fn spec_discord_entry_matches(s: DiscordSource, channel: u64, author: Seq<char>) -> bool {
    s.from == channel && (s.user is None || s.user->0@ == author)
}

/// The target list of the first matching text-direction entry, or none.
pub open spec fn spec_discord_targets(
    entries: Seq<IrcSource>,
    target: Seq<char>,
    author: Seq<char>,
) -> Option<Seq<u64>>
    decreases entries.len(),
{
    if entries.len() == 0 {
        None
    } else if spec_irc_entry_matches(entries[0], target, author) {
        Some(entries[0].to@)
    } else {
        spec_discord_targets(entries.drop_first(), target, author)
    }
}

/// The target list of the first matching rich-direction entry, or none.
pub open spec fn spec_irc_targets(
    entries: Seq<DiscordSource>,
    channel: u64,
    author: Seq<char>,
) -> Option<Seq<Seq<char>>>
    decreases entries.len(),
{
    if entries.len() == 0 {
        None
    } else if spec_discord_entry_matches(entries[0], channel, author) {
        Some(entries[0].to@.map_values(|t: String| t@))
    } else {
        spec_irc_targets(entries.drop_first(), channel, author)
    }
}

/// A copy of a target-id vector.
fn copy_u64s(v: &Vec<u64>) -> (r: Vec<u64>)
    ensures
        r@ == v@,
{
    let mut r: Vec<u64> = Vec::new();
    let mut i: usize = 0;
    while i < v.len()
        invariant
            i <= v@.len(),
            r@ == v@.take(i as int),
        decreases v@.len() - i,
    {
        r.push(v[i]);
        proof {
            assert(v@.take(i + 1 as int) =~= v@.take(i as int).push(v@[i as int]));
        }
        i += 1;
    }
    proof {
        assert(v@.take(v@.len() as int) =~= v@);
    }
    r
}

/// A copy of a target-name vector, equal view for view.
fn copy_strings(v: &Vec<String>) -> (r: Vec<String>)
    ensures
        r@.map_values(|t: String| t@) == v@.map_values(|t: String| t@),
{
    let mut r: Vec<String> = Vec::new();
    let mut i: usize = 0;
    proof {
        assert(r@.map_values(|t: String| t@) =~= v@.map_values(|t: String| t@).take(0));
    }
    while i < v.len()
        invariant
            i <= v@.len(),
            r@.map_values(|t: String| t@) == v@.map_values(|t: String| t@).take(i as int),
        decreases v@.len() - i,
    {
        let s = v[i].clone();
        let ghost old_r = r@;
        r.push(s);
        proof {
            assert(r@.map_values(|t: String| t@) =~= old_r.map_values(|t: String| t@).push(s@));
            assert(v@.map_values(|t: String| t@).take(i + 1 as int) =~= v@.map_values(
                |t: String| t@,
            ).take(i as int).push(v@[i as int]@));
        }
        i += 1;
    }
    proof {
        assert(v@.map_values(|t: String| t@).take(v@.len() as int) =~= v@.map_values(
            |t: String| t@,
        ));
    }
    r
}

/// Resolves a text-protocol message to the rich-protocol targets of the
/// first matching entry, scanning in declaration order; none means the
/// message is silently dropped.
pub fn get_discord_targets(sources: &[IrcSource], msg: &crate::message::IrcMsg) -> (r: Option<
    Vec<u64>,
>)
    ensures
        match r {
            Some(ts) => spec_discord_targets(sources@, msg.target@, msg.user@) == Some(ts@),
            None => spec_discord_targets(sources@, msg.target@, msg.user@) is None,
        },
{
    let mut i: usize = 0;
    proof {
        assert(sources@.skip(0) =~= sources@);
    }
    while i < sources.len()
        invariant
            i <= sources@.len(),
            spec_discord_targets(sources@, msg.target@, msg.user@) == spec_discord_targets(
                sources@.skip(i as int),
                msg.target@,
                msg.user@,
            ),
        decreases sources@.len() - i,
    {
        let s = &sources[i];
        let user_ok = match &s.user {
            None => true,
            Some(u) => *u == msg.user,
        };
        proof {
            assert(sources@.skip(i as int)[0] == sources@[i as int]);
        }
        if s.from == msg.target && user_ok {
            return Some(copy_u64s(&s.to));
        }
        proof {
            assert(sources@.skip(i as int).drop_first() =~= sources@.skip(i + 1));
        }
        i += 1;
    }
    proof {
        assert(sources@.skip(sources@.len() as int) =~= Seq::<IrcSource>::empty());
    }
    None
}

/// Resolves a rich-protocol message to the text-protocol targets of the
/// first matching entry, scanning in declaration order; none means the
/// message is silently dropped.
pub fn get_irc_target(sources: &[DiscordSource], msg: &crate::message::DiscordMsg) -> (r: Option<
    Vec<String>,
>)
    ensures
        match r {
            Some(ts) => spec_irc_targets(sources@, msg.channel_id, msg.author@) == Some(
                ts@.map_values(|t: String| t@),
            ),
            None => spec_irc_targets(sources@, msg.channel_id, msg.author@) is None,
        },
{
    let mut i: usize = 0;
    proof {
        assert(sources@.skip(0) =~= sources@);
    }
    while i < sources.len()
        invariant
            i <= sources@.len(),
            spec_irc_targets(sources@, msg.channel_id, msg.author@) == spec_irc_targets(
                sources@.skip(i as int),
                msg.channel_id,
                msg.author@,
            ),
        decreases sources@.len() - i,
    {
        let s = &sources[i];
        let user_ok = match &s.user {
            None => true,
            Some(u) => *u == msg.author,
        };
        proof {
            assert(sources@.skip(i as int)[0] == sources@[i as int]);
        }
        if s.from == msg.channel_id && user_ok {
            return Some(copy_strings(&s.to));
        }
        proof {
            assert(sources@.skip(i as int).drop_first() =~= sources@.skip(i + 1));
        }
        i += 1;
    }
    proof {
        assert(sources@.skip(sources@.len() as int) =~= Seq::<DiscordSource>::empty());
    }
    None
}

/// First-match routing, text direction: when entry `i` matches and no
/// earlier entry does, resolution returns exactly entry `i`'s target list.
pub proof fn lemma_first_match_irc(
    entries: Seq<IrcSource>,
    target: Seq<char>,
    author: Seq<char>,
    i: int,
)
    requires
        0 <= i < entries.len(),
        spec_irc_entry_matches(entries[i], target, author),
        forall|j: int| 0 <= j < i ==> !spec_irc_entry_matches(entries[j], target, author),
    ensures
        spec_discord_targets(entries, target, author) == Some(entries[i].to@),
    decreases i,
{
    if i > 0 {
        assert forall|j: int| 0 <= j < i - 1 implies !spec_irc_entry_matches(
            entries.drop_first()[j],
            target,
            author,
        ) by {
            assert(entries.drop_first()[j] == entries[j + 1]);
        }
        assert(entries.drop_first()[i - 1] == entries[i as int]);
        lemma_first_match_irc(entries.drop_first(), target, author, i - 1);
    }
}

/// First-match routing, rich direction: when entry `i` matches and no
/// earlier entry does, resolution returns exactly entry `i`'s target list.
pub proof fn lemma_first_match_discord(
    entries: Seq<DiscordSource>,
    channel: u64,
    author: Seq<char>,
    i: int,
)
    requires
        0 <= i < entries.len(),
        spec_discord_entry_matches(entries[i], channel, author),
        forall|j: int| 0 <= j < i ==> !spec_discord_entry_matches(entries[j], channel, author),
    ensures
        spec_irc_targets(entries, channel, author) == Some(
            entries[i].to@.map_values(|t: String| t@),
        ),
    decreases i,
{
    if i > 0 {
        assert forall|j: int| 0 <= j < i - 1 implies !spec_discord_entry_matches(
            entries.drop_first()[j],
            channel,
            author,
        ) by {
            assert(entries.drop_first()[j] == entries[j + 1]);
        }
        assert(entries.drop_first()[i - 1] == entries[i as int]);
        lemma_first_match_discord(entries.drop_first(), channel, author, i - 1);
    }
}

/// A message from a source no entry matches resolves to nothing.
pub proof fn lemma_unmapped_irc(entries: Seq<IrcSource>, target: Seq<char>, author: Seq<char>)
    requires
        forall|j: int| 0 <= j < entries.len() ==> !spec_irc_entry_matches(entries[j], target, author),
    ensures
        spec_discord_targets(entries, target, author) is None,
    decreases entries.len(),
{
    if entries.len() > 0 {
        assert forall|j: int| 0 <= j < entries.drop_first().len() implies !spec_irc_entry_matches(
            entries.drop_first()[j],
            target,
            author,
        ) by {
            assert(entries.drop_first()[j] == entries[j + 1]);
        }
        lemma_unmapped_irc(entries.drop_first(), target, author);
    }
}

/// A message from a source no entry matches resolves to nothing.
pub proof fn lemma_unmapped_discord(entries: Seq<DiscordSource>, channel: u64, author: Seq<char>)
    requires
        forall|j: int|
            0 <= j < entries.len() ==> !spec_discord_entry_matches(entries[j], channel, author),
    ensures
        spec_irc_targets(entries, channel, author) is None,
    decreases entries.len(),
{
    if entries.len() > 0 {
        assert forall|j: int|
            0 <= j < entries.drop_first().len() implies !spec_discord_entry_matches(
            entries.drop_first()[j],
            channel,
            author,
        ) by {
            assert(entries.drop_first()[j] == entries[j + 1]);
        }
        lemma_unmapped_discord(entries.drop_first(), channel, author);
    }
}

} // verus!
