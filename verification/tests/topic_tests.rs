//! Topic-filter parsing and matching.

use rsmqtt_core::topic::{TopicFilter, valid_topic};

fn parse(s: &str) -> Option<TopicFilter> {
    TopicFilter::parse(s.as_bytes())
}

#[test]
fn wildcard_filter_matches() {
    let f = parse("a/+/#").unwrap();
    assert!(f.matches(b"a/x"));
    assert!(f.matches(b"a/x/y/z"));
    assert!(!f.matches(b"a"));
    assert!(!f.matches(b"$SYS/x"));
    assert!(!f.matches(b"b/x"));
}

#[test]
fn hash_alone_matches_everything_but_system_topics() {
    let f = parse("#").unwrap();
    assert!(f.matches(b"a"));
    assert!(f.matches(b"a/b/c"));
    assert!(!f.matches(b"$SYS/x"));
}

#[test]
fn plus_matches_exactly_one_level() {
    let f = parse("sport/+").unwrap();
    assert!(f.matches(b"sport/tennis"));
    assert!(!f.matches(b"sport"));
    assert!(!f.matches(b"sport/tennis/player1"));
}

#[test]
fn hash_matches_parent_level() {
    let f = parse("sport/#").unwrap();
    assert!(f.matches(b"sport"));
    assert!(f.matches(b"sport/tennis"));
}

#[test]
fn hash_not_last_is_rejected() {
    assert!(parse("a/#/b").is_none());
    assert!(parse("a#").is_none());
    assert!(parse("#/a").is_none());
}

#[test]
fn plus_must_stand_alone_in_its_level() {
    assert!(parse("a+/b").is_none());
    assert!(parse("a/+b").is_none());
    assert!(parse("+/tennis/#").is_some());
}

#[test]
fn empty_filter_is_rejected() {
    assert!(parse("").is_none());
}

#[test]
fn filter_with_nul_is_rejected() {
    assert!(TopicFilter::parse(b"a/\0b").is_none());
}

#[test]
fn shared_filter_parses() {
    let f = parse("$share/workers/jobs/+").unwrap();
    assert_eq!(f.share_name().unwrap().as_slice(), b"workers");
    assert_eq!(f.path().as_slice(), b"jobs/+");
    assert!(f.matches(b"jobs/42"));
}

#[test]
fn malformed_share_prefixes_are_rejected() {
    assert!(parse("$share/").is_none());
    assert!(parse("$share/g").is_none());
    assert!(parse("$share//jobs").is_none());
    assert!(parse("$share/g+/jobs").is_none());
}

#[test]
fn topic_names_reject_wildcards_and_nul() {
    assert!(valid_topic(b"a/b/c"));
    assert!(!valid_topic(b""));
    assert!(!valid_topic(b"a/+/c"));
    assert!(!valid_topic(b"a/#"));
    assert!(!valid_topic(b"a/\0"));
}

#[test]
fn empty_levels_match_literally() {
    let f = parse("a//b").unwrap();
    assert!(f.matches(b"a//b"));
    assert!(!f.matches(b"a/b"));
}
