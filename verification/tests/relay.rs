use etlbot::issue::{
    enrichment_lines, extract_references, issue_line, issue_url, parse_issue_id,
    GithubIssueMinimal,
};
use etlbot::message::{Attachment, DiscordMsg, IrcMsg, Mention};
use etlbot::relay::{handle_discord_msg, handle_irc_msg, should_suppress, Misc, RelayConfig};
use etlbot::routing::{DiscordSource, IrcSource, Mapping};
use etlbot::util::{colorize, contains_bad_words, hash, remove_formatting};

fn misc(badwords: Vec<&str>, filterchars: &str) -> Misc {
    Misc {
        badwords: badwords.into_iter().map(|s| s.to_string()).collect(),
        repository: "org/repo".to_string(),
        filterchars: filterchars.to_string(),
    }
}

fn config(irc: Vec<IrcSource>, discord: Vec<DiscordSource>, m: Misc) -> RelayConfig {
    RelayConfig {
        mapping: Mapping { irc, discord },
        misc: m,
    }
}

fn irc_entry(from: &str, user: Option<&str>, to: Vec<u64>) -> IrcSource {
    IrcSource {
        from: from.to_string(),
        user: user.map(|u| u.to_string()),
        to,
    }
}

fn discord_entry(from: u64, user: Option<&str>, to: Vec<&str>) -> DiscordSource {
    DiscordSource {
        from,
        user: user.map(|u| u.to_string()),
        to: to.into_iter().map(|s| s.to_string()).collect(),
    }
}

fn irc_msg(user: &str, target: &str, content: &str) -> IrcMsg {
    IrcMsg {
        user: user.to_string(),
        target: target.to_string(),
        content: content.to_string(),
    }
}

fn discord_msg(author: &str, channel_id: u64, content: &str) -> DiscordMsg {
    DiscordMsg {
        author: author.to_string(),
        channel_id,
        content: content.to_string(),
        mentions: vec![],
        attachments: vec![],
    }
}

#[test]
fn filter_char_suppresses_irc_message() {
    let cfg = config(vec![irc_entry("room1", None, vec![1])], vec![], misc(vec![], "!."));
    assert!(handle_irc_msg(&cfg, &irc_msg("bob", "room1", "!command arg")).is_none());
    assert!(handle_irc_msg(&cfg, &irc_msg("bob", "room1", ".seen bob")).is_none());
}

#[test]
fn filter_char_suppresses_discord_message() {
    let cfg = config(vec![], vec![discord_entry(7, None, vec!["room1"])], misc(vec![], "!"));
    assert!(handle_discord_msg(&cfg, &discord_msg("bob", 7, "!help")).is_none());
}

#[test]
fn filter_char_only_matches_first_character() {
    let m = misc(vec![], "!");
    assert!(!should_suppress(&m, "say ! loud"));
    assert!(should_suppress(&m, "!x"));
    assert!(!should_suppress(&m, ""));
}

#[test]
fn banned_word_suppresses_whole_token_only() {
    let m = misc(vec!["heck"], "");
    assert!(should_suppress(&m, "what the heck is this"));
    assert!(should_suppress(&m, "heck"));
    assert!(should_suppress(&m, "a\theck\nb"));
    assert!(!should_suppress(&m, "heckler speaks"));
    assert!(!should_suppress(&m, "oh hecking no"));
    assert!(!should_suppress(&m, "Heck no"));
}

#[test]
fn banned_word_suppresses_relay_both_ways() {
    let cfg = config(
        vec![irc_entry("room1", None, vec![1])],
        vec![discord_entry(1, None, vec!["room1"])],
        misc(vec!["spam"], ""),
    );
    assert!(handle_irc_msg(&cfg, &irc_msg("bob", "room1", "buy spam today")).is_none());
    assert!(handle_discord_msg(&cfg, &discord_msg("bob", 1, "buy spam today")).is_none());
}

#[test]
fn contains_bad_words_exact_match() {
    let words = vec!["bad".to_string(), "worse".to_string()];
    assert!(contains_bad_words("this is bad", &words));
    assert!(contains_bad_words("worse", &words));
    assert!(!contains_bad_words("badly done", &words));
    assert!(!contains_bad_words("", &words));
    assert!(!contains_bad_words("fine text", &[]));
}

#[test]
fn routing_first_match_sends_to_all_targets_in_order() {
    let cfg = config(
        vec![irc_entry("room1", None, vec![11, 22])],
        vec![],
        misc(vec![], ""),
    );
    let plan = handle_irc_msg(&cfg, &irc_msg("bob", "room1", "hi")).unwrap();
    assert_eq!(plan.targets, vec![11, 22]);
    assert_eq!(plan.origin, "room1");
    let none = handle_irc_msg(&cfg, &irc_msg("bob", "unmapped", "hi"));
    assert!(none.is_none());
}

#[test]
fn routing_duplicate_targets_kept() {
    let cfg = config(vec![irc_entry("room1", None, vec![5, 5])], vec![], misc(vec![], ""));
    let plan = handle_irc_msg(&cfg, &irc_msg("bob", "room1", "hi")).unwrap();
    assert_eq!(plan.targets, vec![5, 5]);
}

#[test]
fn routing_entry_order_matters() {
    // a wildcard entry placed first shadows a later user-specific entry
    let cfg = config(
        vec![
            irc_entry("room1", None, vec![1]),
            irc_entry("room1", Some("alice"), vec![2]),
        ],
        vec![],
        misc(vec![], ""),
    );
    let plan = handle_irc_msg(&cfg, &irc_msg("alice", "room1", "hi")).unwrap();
    assert_eq!(plan.targets, vec![1]);
}

#[test]
fn routing_user_restriction_respected() {
    let cfg = config(
        vec![
            irc_entry("room1", Some("alice"), vec![2]),
            irc_entry("room1", None, vec![1]),
        ],
        vec![],
        misc(vec![], ""),
    );
    let alice = handle_irc_msg(&cfg, &irc_msg("alice", "room1", "hi")).unwrap();
    assert_eq!(alice.targets, vec![2]);
    let bob = handle_irc_msg(&cfg, &irc_msg("bob", "room1", "hi")).unwrap();
    assert_eq!(bob.targets, vec![1]);
}

#[test]
fn routing_discord_direction() {
    let cfg = config(
        vec![],
        vec![
            discord_entry(42, None, vec!["room1", "room2"]),
            discord_entry(43, None, vec!["other"]),
        ],
        misc(vec![], ""),
    );
    let plan = handle_discord_msg(&cfg, &discord_msg("bob", 42, "hi")).unwrap();
    assert_eq!(plan.targets, vec!["room1".to_string(), "room2".to_string()]);
    assert_eq!(plan.origin, 42);
    assert!(handle_discord_msg(&cfg, &discord_msg("bob", 99, "hi")).is_none());
}

#[test]
fn mention_substitution_replaces_both_forms() {
    let msg = DiscordMsg {
        author: "bob".to_string(),
        channel_id: 1,
        content: "hello <@!42> and <@42>".to_string(),
        mentions: vec![Mention { id: 42, name: "alice".to_string() }],
        attachments: vec![],
    };
    let lines = etlbot::message::get_irc_messages(&msg);
    let expected = format!("<\u{3}{}bob\u{3}> hello @alice and @alice", colorize("bob"));
    assert_eq!(lines, vec![expected]);
}

#[test]
fn attachment_formatting() {
    let msg = DiscordMsg {
        author: "bob".to_string(),
        channel_id: 1,
        content: "".to_string(),
        mentions: vec![],
        attachments: vec![Attachment {
            filename: "a.png".to_string(),
            url: "http://x/a.png".to_string(),
        }],
    };
    let lines = etlbot::message::get_irc_messages(&msg);
    let expected = format!(
        "<\u{3}{}bob\u{3}> [Attachment: a.png (http://x/a.png)]",
        colorize("bob")
    );
    assert_eq!(lines, vec![expected]);
}

#[test]
fn attachments_follow_text_one_line_each() {
    let msg = DiscordMsg {
        author: "bob".to_string(),
        channel_id: 1,
        content: "look".to_string(),
        mentions: vec![],
        attachments: vec![
            Attachment { filename: "a".to_string(), url: "u1".to_string() },
            Attachment { filename: "b".to_string(), url: "u2".to_string() },
        ],
    };
    let lines = etlbot::message::get_irc_messages(&msg);
    let c = colorize("bob");
    assert_eq!(
        lines,
        vec![
            format!("<\u{3}{}bob\u{3}> look", c),
            format!("<\u{3}{}bob\u{3}> [Attachment: a (u1)]", c),
            format!("<\u{3}{}bob\u{3}> [Attachment: b (u2)]", c),
        ]
    );
}

#[test]
fn multiline_content_becomes_one_unit_per_line() {
    let msg = discord_msg("bob", 1, "one\ntwo\r\nthree");
    let lines = etlbot::message::get_irc_messages(&msg);
    let c = colorize("bob");
    assert_eq!(
        lines,
        vec![
            format!("<\u{3}{}bob\u{3}> one", c),
            format!("<\u{3}{}bob\u{3}> two", c),
            format!("<\u{3}{}bob\u{3}> three", c),
        ]
    );
}

#[test]
fn empty_message_without_attachments_produces_no_units() {
    let msg = discord_msg("bob", 1, "");
    assert!(etlbot::message::get_irc_messages(&msg).is_empty());
}

#[test]
fn colorize_is_stable_and_in_range() {
    let a = colorize("bob");
    let b = colorize("bob");
    assert_eq!(a, b);
    assert!(a < 16);
    assert_eq!(hash("bob"), hash("bob"));
    for name in ["", "alice", "x", "Someone Long Enough"] {
        assert!(colorize(name) < 16);
    }
}

#[test]
fn formatting_strip() {
    assert_eq!(remove_formatting("\u{2}\u{3}04,01hi"), "hi");
    assert_eq!(remove_formatting("\u{2}bold\u{2}"), "bold");
    assert_eq!(remove_formatting("\u{1f}u\u{f}p\u{16}r"), "upr");
    assert_eq!(remove_formatting("\u{3}4red"), "red");
    assert_eq!(remove_formatting("\u{3}123"), "3");
    assert_eq!(remove_formatting("\u{3}12,345"), "5");
    assert_eq!(remove_formatting("\u{3},1"), ",1");
    assert_eq!(remove_formatting("\u{3}"), "");
    assert_eq!(remove_formatting("\u{3}1,x"), ",x"); // lone comma is not a color suffix
    assert_eq!(remove_formatting("plain 12,34 text"), "plain 12,34 text");
    assert_eq!(remove_formatting(""), "");
}

#[test]
fn discord_message_normalization() {
    let msg = irc_msg("bob", "room1", "\u{3}04hello");
    let s = etlbot::message::get_discord_message(&msg);
    assert_eq!(s, "<bob> hello");
}

#[test]
fn reference_extraction() {
    let refs = extract_references("see #12 and #7, not x#9");
    assert_eq!(refs, vec!["12".to_string(), "7".to_string()]);
    let ids: Vec<u64> = refs.iter().map(|r| parse_issue_id(r).unwrap()).collect();
    assert_eq!(ids, vec![12, 7]);
}

#[test]
fn reference_extraction_edges() {
    assert_eq!(extract_references("#1 at start"), vec!["1".to_string()]);
    assert_eq!(extract_references("tab\t#2"), vec!["2".to_string()]);
    assert!(extract_references("none here").is_empty());
    assert!(extract_references("x#9 url#3 a#").is_empty());
    assert!(extract_references("# 5").is_empty());
    assert_eq!(
        extract_references("#1 #1 #2"),
        vec!["1".to_string(), "1".to_string(), "2".to_string()]
    );
    assert!(extract_references("").is_empty());
}

#[test]
fn parse_issue_id_bounds() {
    assert_eq!(parse_issue_id("0"), Some(0));
    assert_eq!(parse_issue_id("18446744073709551615"), Some(u64::MAX));
    assert_eq!(parse_issue_id("18446744073709551616"), None);
    assert_eq!(parse_issue_id("99999999999999999999999"), None);
    assert_eq!(parse_issue_id(""), None);
    assert_eq!(parse_issue_id("12a"), None);
}

#[test]
fn issue_url_shape() {
    assert_eq!(
        issue_url("org/repo", "5"),
        "https://api.github.com/repos/org/repo/issues/5"
    );
}

#[test]
fn issue_line_shape() {
    let iss = GithubIssueMinimal {
        html_url: "http://t/5".to_string(),
        title: "Fix bug".to_string(),
    };
    assert_eq!(issue_line(&iss), "Fix bug | http://t/5");
}

#[test]
fn end_to_end_plan_with_enrichment() {
    let cfg = config(vec![irc_entry("room1", None, vec![111])], vec![], misc(vec![], ""));
    let msg = irc_msg("bob", "room1", "#chan hi #5");
    let plan = handle_irc_msg(&cfg, &msg).unwrap();
    assert_eq!(plan.targets, vec![111]);
    assert_eq!(plan.message, "<bob> #chan hi #5");
    assert_eq!(plan.references, vec!["5".to_string()]);
    assert_eq!(plan.origin, "room1");
    assert_eq!(
        issue_url(&cfg.misc.repository, &plan.references[0]),
        "https://api.github.com/repos/org/repo/issues/5"
    );
    // the lookup succeeds; target 111 receives the content line above first,
    // then this enrichment line
    let fetched = vec![Some(GithubIssueMinimal {
        html_url: "http://t/5".to_string(),
        title: "Fix bug".to_string(),
    })];
    let lines = enrichment_lines(&fetched);
    assert_eq!(lines, vec!["Fix bug | http://t/5".to_string()]);
}

#[test]
fn unicode_whitespace_delimits_tokens() {
    let m = misc(vec!["heck"], "");
    assert!(should_suppress(&m, "a\u{a0}heck\u{2003}b"));
    assert!(!should_suppress(&m, "a\u{a0}heckx"));
}

#[test]
fn discord_routing_user_restriction_respected() {
    let cfg = config(
        vec![],
        vec![
            discord_entry(9, Some("alice"), vec!["special"]),
            discord_entry(9, None, vec!["general"]),
        ],
        misc(vec![], ""),
    );
    let alice = handle_discord_msg(&cfg, &discord_msg("alice", 9, "hi")).unwrap();
    assert_eq!(alice.targets, vec!["special".to_string()]);
    let bob = handle_discord_msg(&cfg, &discord_msg("bob", 9, "hi")).unwrap();
    assert_eq!(bob.targets, vec!["general".to_string()]);
}

#[test]
fn discord_plan_carries_lines_and_references() {
    let cfg = config(
        vec![],
        vec![discord_entry(9, None, vec!["room1"])],
        misc(vec![], ""),
    );
    let msg = discord_msg("bob", 9, "fix #3 please\nand #4");
    let plan = handle_discord_msg(&cfg, &msg).unwrap();
    let c = colorize("bob");
    assert_eq!(
        plan.messages,
        vec![
            format!("<\u{3}{}bob\u{3}> fix #3 please", c),
            format!("<\u{3}{}bob\u{3}> and #4", c),
        ]
    );
    assert_eq!(plan.references, vec!["3".to_string(), "4".to_string()]);
    assert_eq!(plan.origin, 9);
}

#[test]
fn failed_lookup_skipped_others_proceed() {
    let a = GithubIssueMinimal { html_url: "u1".to_string(), title: "t1".to_string() };
    let b = GithubIssueMinimal { html_url: "u2".to_string(), title: "t2".to_string() };
    let lines = enrichment_lines(&vec![Some(a), None, Some(b)]);
    assert_eq!(lines, vec!["t1 | u1".to_string(), "t2 | u2".to_string()]);
    assert!(enrichment_lines(&vec![None, None]).is_empty());
}
