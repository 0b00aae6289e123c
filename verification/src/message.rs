//! Message normalization between the two protocols: turning a rich-protocol
//! message into colorized single-line text units, and a text-protocol
//! message into one formatting-free line.

use vstd::prelude::*;

verus! {

use crate::text::{
    spec_replace_all,
    spec_split_lines,
    spec_u64_digits,
    string_to_chars,
    append_chars,
    replace_all,
    split_lines,
    u64_to_chars,
    push_u64_digits,
    chars_to_string,
};
use crate::util::{spec_colorize, spec_remove_formatting, colorize, remove_formatting};
use vstd::string::StringExecFns;

/// One user mentioned in a rich-protocol message: the numeric id the raw
/// text carries and the display name that replaces it.
pub struct Mention {
    pub id: u64,
    pub name: String,
}

/// One file attached to a rich-protocol message.
pub struct Attachment {
    pub filename: String,
    pub url: String,
}

/// The fields of an inbound rich-protocol message that the relay reads.
pub struct DiscordMsg {
    pub author: String,
    pub channel_id: u64,
    pub content: String,
    pub mentions: Vec<Mention>,
    pub attachments: Vec<Attachment>,
}

/// The fields of an inbound text-protocol message that the relay reads.
pub struct IrcMsg {
    pub user: String,
    pub target: String,
    pub content: String,
}

/// The raw token form `<@!id>` of a mention.
pub open spec fn spec_mention_pat_bang(id: u64) -> Seq<char> {
    "<@!"@ + spec_u64_digits(id as int) + ">"@
}

/// The raw token form `<@id>` of a mention.
pub open spec fn spec_mention_pat_plain(id: u64) -> Seq<char> {
    "<@"@ + spec_u64_digits(id as int) + ">"@
}

/// The readable form `@name` that replaces a mention token.
pub open spec fn spec_at_name(name: Seq<char>) -> Seq<char> {
    "@"@ + name
}

/// `s` with both raw token forms of one mention replaced by its name.
pub open spec fn spec_subst_one(s: Seq<char>, m: Mention) -> Seq<char> {
    spec_replace_all(
        spec_replace_all(s, spec_mention_pat_bang(m.id), spec_at_name(m.name@)),
        spec_mention_pat_plain(m.id),
        spec_at_name(m.name@),
    )
}

/// `s` with every mention of `ms` substituted, in list order.
pub open spec fn spec_subst_mentions(s: Seq<char>, ms: Seq<Mention>) -> Seq<char>
    decreases ms.len(),
{
    if ms.len() == 0 {
        s
    } else {
        spec_subst_mentions(spec_subst_one(s, ms[0]), ms.drop_first())
    }
}

/// The line describing one attachment.
pub open spec fn spec_attachment_line(a: Attachment) -> Seq<char> {
    "[Attachment: "@ + a.filename@ + " ("@ + a.url@ + ")]"@
}

/// The attachment lines joined by newlines.
pub open spec fn spec_attachment_block(atts: Seq<Attachment>) -> Seq<char>
    decreases atts.len(),
{
    if atts.len() == 0 {
        Seq::empty()
    } else if atts.len() == 1 {
        spec_attachment_line(atts[0])
    } else {
        spec_attachment_block(atts.drop_last()) + seq!['\n'] + spec_attachment_line(atts.last())
    }
}

/// The full text of a rich-protocol message after mention substitution,
/// with the attachment block appended on a new line if there is one.
pub open spec fn spec_combined_text(msg: DiscordMsg) -> Seq<char> {
    let c = spec_subst_mentions(msg.content@, msg.mentions@);
    if msg.attachments@.len() == 0 {
        c
    } else if c.len() == 0 {
        spec_attachment_block(msg.attachments@)
    } else {
        c + seq!['\n'] + spec_attachment_block(msg.attachments@)
    }
}

/// One outbound text-protocol line: the author name wrapped in the color
/// control syntax for the author's color slot, then the line content.
pub open spec fn spec_irc_line(author: Seq<char>, line: Seq<char>) -> Seq<char> {
    seq!['<', '\u{3}'] + spec_u64_digits(spec_colorize(author) as int) + author + seq![
        '\u{3}',
        '>',
        ' ',
    ] + line
}

/// All outbound text-protocol lines of a rich-protocol message: the combined
/// text, split into physical lines, each prefixed with the colorized author.
pub open spec fn spec_irc_messages(msg: DiscordMsg) -> Seq<Seq<char>> {
    spec_split_lines(spec_combined_text(msg)).map_values(
        |l: Seq<char>| spec_irc_line(msg.author@, l),
    )
}

/// Normalizes a rich-protocol message into the text lines relayed to the
/// text protocol: mention tokens become `@name`, attachments append one
/// descriptive line each, and every physical line is prefixed with the
/// colorized author tag.
pub fn get_irc_messages(msg: &DiscordMsg) -> (r: Vec<String>)
    ensures
        r@.map_values(|x: String| x@) == spec_irc_messages(*msg),
{
    let mut cur = string_to_chars(msg.content.as_str());
    let mut mi: usize = 0;
    proof {
        assert(msg.mentions@.skip(0) =~= msg.mentions@);
    }
    while mi < msg.mentions.len()
        invariant
            mi <= msg.mentions@.len(),
            spec_subst_mentions(msg.content@, msg.mentions@) == spec_subst_mentions(
                cur@,
                msg.mentions@.skip(mi as int),
            ),
        decreases msg.mentions@.len() - mi,
    {
        let m = &msg.mentions[mi];
        let idc = u64_to_chars(m.id);
        let mut rep: Vec<char> = Vec::new();
        rep.push('@');
        let namec = string_to_chars(m.name.as_str());
        append_chars(&mut rep, &namec);
        proof {
            assert(rep@ =~= spec_at_name(m.name@)) by {
                reveal_strlit("@");
            }
        }
        let mut pat1: Vec<char> = Vec::new();
        pat1.push('<');
        pat1.push('@');
        pat1.push('!');
        push_u64_digits(m.id, &mut pat1);
        pat1.push('>');
        proof {
            assert(pat1@ =~= spec_mention_pat_bang(m.id)) by {
                reveal_strlit("<@!");
                reveal_strlit(">");
            }
        }
        let s1 = replace_all(&cur, &pat1, &rep);
        let mut pat2: Vec<char> = Vec::new();
        pat2.push('<');
        pat2.push('@');
        push_u64_digits(m.id, &mut pat2);
        pat2.push('>');
        proof {
            assert(pat2@ =~= spec_mention_pat_plain(m.id)) by {
                reveal_strlit("<@");
                reveal_strlit(">");
            }
        }
        let s2 = replace_all(&s1, &pat2, &rep);
        proof {
            assert(msg.mentions@.skip(mi as int)[0] == msg.mentions@[mi as int]);
            assert(msg.mentions@.skip(mi as int).drop_first() =~= msg.mentions@.skip(mi + 1));
            assert(s2@ == spec_subst_one(cur@, msg.mentions@.skip(mi as int)[0]));
        }
        cur = s2;
        mi += 1;
    }
    proof {
        assert(msg.mentions@.skip(msg.mentions@.len() as int)
            =~= Seq::<Mention>::empty());
        assert(cur@ == spec_subst_mentions(msg.content@, msg.mentions@));
    }
    if msg.attachments.len() > 0 {
        let mut block: Vec<char> = Vec::new();
        let mut ai: usize = 0;
        proof {
            assert(msg.attachments@.take(0) =~= Seq::<Attachment>::empty());
        }
        while ai < msg.attachments.len()
            invariant
                ai <= msg.attachments@.len(),
                block@ == spec_attachment_block(msg.attachments@.take(ai as int)),
            decreases msg.attachments@.len() - ai,
        {
            let a = &msg.attachments[ai];
            let mut line = String::from_str("[Attachment: ");
            line.append(a.filename.as_str());
            line.append(" (");
            line.append(a.url.as_str());
            line.append(")]");
            proof {
                assert(line@ == spec_attachment_line(msg.attachments@[ai as int]));
            }
            let linec = string_to_chars(line.as_str());
            let ghost prev = block@;
            if ai > 0 {
                block.push('\n');
            }
            append_chars(&mut block, &linec);
            proof {
                let t = msg.attachments@.take(ai + 1 as int);
                assert(t.drop_last() =~= msg.attachments@.take(ai as int));
                assert(t.last() == msg.attachments@[ai as int]);
                if ai == 0 {
                    assert(t.len() == 1);
                    assert(t[0] == msg.attachments@[0]);
                    assert(block@ =~= spec_attachment_block(t));
                } else {
                    assert(block@ =~= prev + seq!['\n'] + linec@);
                }
            }
            ai += 1;
        }
        proof {
            assert(msg.attachments@.take(msg.attachments@.len() as int) =~= msg.attachments@);
        }
        let ghost subst = cur@;
        if cur.len() > 0 {
            cur.push('\n');
        }
        append_chars(&mut cur, &block);
        proof {
            if subst.len() == 0 {
                assert(cur@ =~= spec_combined_text(*msg));
            } else {
                assert(cur@ =~= subst + seq!['\n'] + spec_attachment_block(msg.attachments@));
            }
        }
    }
    proof {
        assert(cur@ == spec_combined_text(*msg));
    }
    let lines = split_lines(&cur);
    let color = colorize(msg.author.as_str());
    let authorc = string_to_chars(msg.author.as_str());
    let mut r: Vec<String> = Vec::new();
    let mut li: usize = 0;
    proof {
        assert(r@.map_values(|x: String| x@) =~= spec_irc_messages(*msg).take(0));
    }
    while li < lines.len()
        invariant
            li <= lines@.len(),
            lines@.map_values(|l: Vec<char>| l@) == spec_split_lines(spec_combined_text(*msg)),
            color == spec_colorize(msg.author@),
            authorc@ == msg.author@,
            r@.map_values(|x: String| x@) == spec_irc_messages(*msg).take(li as int),
        decreases lines@.len() - li,
    {
        let mut lc: Vec<char> = Vec::new();
        lc.push('<');
        lc.push('\u{3}');
        push_u64_digits(color, &mut lc);
        append_chars(&mut lc, &authorc);
        lc.push('\u{3}');
        lc.push('>');
        lc.push(' ');
        append_chars(&mut lc, &lines[li]);
        proof {
            assert(lines@[li as int]@ == lines@.map_values(|l: Vec<char>| l@)[li as int]);
            assert(lc@ =~= spec_irc_line(msg.author@, lines@[li as int]@));
        }
        let lstr = chars_to_string(&lc);
        let ghost old_r = r@;
        r.push(lstr);
        proof {
            assert(spec_irc_messages(*msg)[li as int] == spec_irc_line(
                msg.author@,
                spec_split_lines(spec_combined_text(*msg))[li as int],
            ));
            assert(r@.map_values(|x: String| x@) =~= old_r.map_values(|x: String| x@).push(lc@));
            assert(spec_irc_messages(*msg).take(li + 1 as int) =~= spec_irc_messages(
                *msg,
            ).take(li as int).push(spec_irc_messages(*msg)[li as int]));
        }
        li += 1;
    }
    proof {
        assert(spec_irc_messages(*msg).len() == lines@.len());
        assert(spec_irc_messages(*msg).take(lines@.len() as int) =~= spec_irc_messages(*msg));
    }
    r
}

/// The single line relayed to the rich protocol for a text-protocol
/// message: the author in angle brackets, then the content with all
/// formatting control sequences removed.
pub open spec fn spec_discord_message(msg: IrcMsg) -> Seq<char> {
    "<"@ + msg.user@ + "> "@ + spec_remove_formatting(msg.content@)
}

/// Normalizes a text-protocol message into the rich protocol's text form.
pub fn get_discord_message(msg: &IrcMsg) -> (r: String)
    ensures
        r@ == spec_discord_message(*msg),
{
    let mut r = String::from_str("<");
    r.append(msg.user.as_str());
    r.append("> ");
    let stripped = remove_formatting(msg.content.as_str());
    r.append(stripped.as_str());
    proof {
        assert(r@ =~= spec_discord_message(*msg));
    }
    r
}

} // verus!
