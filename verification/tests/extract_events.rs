use urlharvest::channels::ChannelMap;
use urlharvest::clock::ClockState;
use urlharvest::extract::{handle_ircmsg, harvest_line, is_blacklisted, nick_or_unknown, LinePatterns};
use urlharvest::mem_store::MemStorage;
use urlharvest::writer::db_last_change;
use urlharvest::replay::replay_file;

const RE_NICK: &str = r#"^[:\d]+\s+[<\*][%@\~\&\+\s]*([^>\s]+)>?\s+"#;
const RE_URL: &str = r#"(https?://[\w/',":;!%@=\-\.\~\?\#\[\]\{\}\$\&\(\)\*\+]+[^\s'"\)\]\}])"#;
const RE_LOG: &str = r#"^(#\S*)\.log$"#;

fn patterns() -> LinePatterns {
    LinePatterns::new(RE_NICK, RE_URL).expect("patterns compile")
}

#[test]
fn scenario_two_urls_one_line() {
    let pats = patterns();
    let clock0 = ClockState { year: 2024, month: 1, day: 2, hour: 0, min: 0, sec: 0 };
    let lines = vec!["13:37 <@alice> check http://example.com/x and http://example.com/y"
        .to_string()];
    let chan = "#test".to_string();
    let blacklist: Vec<String> = Vec::new();
    let (events, clock) = replay_file(clock0, &lines, &pats, &chan, &blacklist);

    assert_eq!(clock, ClockState { year: 2024, month: 1, day: 2, hour: 13, min: 37, sec: 0 });
    assert_eq!(events.len(), 2);
    assert_eq!(events[0].ts, 1_704_202_620);
    assert_eq!(events[0].chan, "#test");
    assert_eq!(events[0].nick, "alice");
    assert_eq!(events[0].url, "http://example.com/x");
    assert_eq!(events[1].ts, 1_704_202_620);
    assert_eq!(events[1].chan, "#test");
    assert_eq!(events[1].nick, "alice");
    assert_eq!(events[1].url, "http://example.com/y");
}

#[test]
fn scenario_blacklisted_url_yields_no_event() {
    let pats = patterns();
    let chan = "#test".to_string();
    let blacklist = vec!["http://spam.test".to_string()];
    let events = harvest_line(&pats, 0, &chan, "13:37 <@bob> http://spam.test/a", &blacklist);
    assert_eq!(events.len(), 0);
}

#[test]
fn blacklist_is_a_prefix_match() {
    let blacklist = vec!["http://spam.test".to_string()];
    assert!(is_blacklisted(&"http://spam.test/a".to_string(), &blacklist));
    assert!(is_blacklisted(&"http://spam.test".to_string(), &blacklist));
    assert!(!is_blacklisted(&"http://example.com/".to_string(), &blacklist));
    assert!(!is_blacklisted(&"https://spam.test/a".to_string(), &blacklist));
}

#[test]
fn line_without_nick_uses_unknown_sentinel() {
    let pats = patterns();
    let chan = "#test".to_string();
    let blacklist: Vec<String> = Vec::new();
    let events = harvest_line(&pats, 5, &chan, "see http://example.com/z", &blacklist);
    assert_eq!(events.len(), 1);
    assert_eq!(events[0].nick, "UNKNOWN");
    assert_eq!(events[0].url, "http://example.com/z");
}

#[test]
fn nick_or_unknown_sentinel() {
    assert_eq!(nick_or_unknown(Some("carol".to_string())), "carol");
    assert_eq!(nick_or_unknown(None), "UNKNOWN");
}

#[test]
fn line_without_url_yields_no_event() {
    let pats = patterns();
    let chan = "#test".to_string();
    let blacklist: Vec<String> = Vec::new();
    let events = harvest_line(&pats, 5, &chan, "13:37 <@alice> nothing here", &blacklist);
    assert_eq!(events.len(), 0);
}

#[test]
fn invalid_pattern_is_a_startup_error() {
    assert!(LinePatterns::new("(unclosed", RE_URL).is_none());
    assert!(LinePatterns::new(RE_NICK, "(unclosed").is_none());
}

#[test]
fn channel_scan_keeps_only_matching_files() {
    let re_log = regex::Regex::new(RE_LOG).unwrap();
    let names = vec![
        "#rust.log".to_string(),
        "notes.txt".to_string(),
        "#general.log".to_string(),
    ];
    let map = ChannelMap::scan(&re_log, &names);
    assert_eq!(map.pairs.len(), 2);
    assert_eq!(map.pairs[0].0, "#rust.log");
    assert_eq!(map.pairs[0].1, "#rust");
    assert_eq!(map.pairs[1].0, "#general.log");
    assert_eq!(map.pairs[1].1, "#general");

    let files = map.file_names();
    assert_eq!(files, vec!["#rust.log".to_string(), "#general.log".to_string()]);

    assert_eq!(map.channel_of(&"#rust.log".to_string()), "#rust");
    assert_eq!(map.channel_of(&"#general.log".to_string()), "#general");
    assert_eq!(map.channel_of(&"notes.txt".to_string()), "UNKNOWN");
}

#[test]
fn channel_map_build_keeps_matched_entries_in_order() {
    let entries = vec![
        ("a.log".to_string(), Some("#a".to_string())),
        ("skip.me".to_string(), None),
        ("b.log".to_string(), Some("#b".to_string())),
    ];
    let map = ChannelMap::build(entries);
    assert_eq!(map.pairs.len(), 2);
    assert_eq!(map.pairs[0], ("a.log".to_string(), "#a".to_string()));
    assert_eq!(map.pairs[1], ("b.log".to_string(), "#b".to_string()));
}

#[test]
fn replay_infers_timestamps_across_lines() {
    let pats = patterns();
    let clock0 = ClockState { year: 2024, month: 6, day: 1, hour: 12, min: 0, sec: 0 };
    let lines = vec![
        "--- Log opened Sun Aug 08 10:00:05 2021".to_string(),
        "10:30 <@alice> http://one.example/".to_string(),
        "chatter without any marker http://two.example/".to_string(),
        "--- Day changed Mon Aug 09 2021".to_string(),
        "00:15 <@bob> http://three.example/".to_string(),
    ];
    let chan = "#test".to_string();
    let blacklist: Vec<String> = Vec::new();
    let (events, clock) = replay_file(clock0, &lines, &pats, &chan, &blacklist);

    assert_eq!(clock, ClockState { year: 2021, month: 8, day: 9, hour: 0, min: 15, sec: 0 });
    assert_eq!(events.len(), 3);
    // 2021-08-08 10:30:00
    assert_eq!(events[0].ts, 1_628_418_600);
    // the unmatched line keeps the previous inferred time
    assert_eq!(events[1].ts, 1_628_418_600);
    assert_eq!(events[1].nick, "UNKNOWN");
    // 2021-08-09 00:15:00
    assert_eq!(events[2].ts, 1_628_468_100);
}

#[test]
fn live_line_commits_singleton_batches_and_marks_change() {
    let pats = patterns();
    let mut db = MemStorage::new();
    let chan = "#test".to_string();
    let blacklist: Vec<String> = Vec::new();
    let n = handle_ircmsg(
        &mut db,
        &pats,
        &blacklist,
        42,
        &chan,
        "13:37 <@alice> http://a.example/ and http://b.example/",
        3,
        true,
        777,
    );
    assert_eq!(n, 2);
    assert_eq!(db_last_change(&db), 777);
    let batches = db.committed_batches();
    assert_eq!(batches.len(), 2);
    assert_eq!(batches[0].len(), 1);
    assert_eq!(batches[0][0].url, "http://a.example/");
    assert_eq!(batches[1].len(), 1);
    assert_eq!(batches[1][0].url, "http://b.example/");

    // A line without any URL leaves the store and the marker untouched.
    let quiet = handle_ircmsg(
        &mut db,
        &pats,
        &blacklist,
        43,
        &chan,
        "13:38 <@alice> nothing to see",
        3,
        true,
        888,
    );
    assert_eq!(quiet, 0);
    assert_eq!(db.committed_batches().len(), 2);
    assert_eq!(db_last_change(&db), 777);
}
