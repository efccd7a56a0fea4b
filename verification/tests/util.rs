use urlharvest::actions::{RemoveParam, SearchParam};
use urlharvest::config::{LogLevel, OptsCommon};
use urlharvest::lookup::get_wild;
use urlharvest::text::{chars_to_string, starts_with_chars, to_char_vec};
use urlharvest::web_util::is_text_content_type;

#[test]
fn char_vector_round_trip() {
    let s = "13:37 <@alice> héllo";
    let v = to_char_vec(s);
    assert_eq!(v.len(), s.chars().count());
    assert_eq!(chars_to_string(&v), s);
}

#[test]
fn prefix_check_on_char_vectors() {
    let s = to_char_vec("--- Day changed Fri");
    assert!(starts_with_chars(&s, &to_char_vec("--- Day changed ")));
    assert!(starts_with_chars(&s, &to_char_vec("")));
    assert!(!starts_with_chars(&s, &to_char_vec("--- Log opened ")));
    assert!(!starts_with_chars(&to_char_vec("ab"), &to_char_vec("abc")));
}

#[test]
fn wildcard_lookup_prefers_the_exact_key() {
    let map = vec![("east".to_string(), 1), ("*".to_string(), 9)];
    assert_eq!(get_wild(&map, &"east".to_string()), Some(&1));
    assert_eq!(get_wild(&map, &"west".to_string()), Some(&9));

    let no_wild = vec![("east".to_string(), 1)];
    assert_eq!(get_wild(&no_wild, &"west".to_string()), None);
}

fn opts(verbose: bool, debug: bool, trace: bool) -> OptsCommon {
    OptsCommon {
        verbose,
        debug,
        trace,
        config_file: String::new(),
        read_history: false,
        meta_backlog: false,
    }
}

#[test]
fn loudest_flag_wins() {
    assert_eq!(opts(false, false, false).get_loglevel(), LogLevel::Error);
    assert_eq!(opts(true, false, false).get_loglevel(), LogLevel::Info);
    assert_eq!(opts(true, true, false).get_loglevel(), LogLevel::Debug);
    assert_eq!(opts(true, true, true).get_loglevel(), LogLevel::Trace);
}

#[test]
fn remove_param_reads_plain_ids() {
    let id = |s: &str| RemoveParam { id: s.to_string() }.row_id();
    assert_eq!(id("42"), 42);
    assert_eq!(id("+42"), 42);
    assert_eq!(id("-42"), -42);
    assert_eq!(id("0"), 0);
    assert_eq!(id(""), 0);
    assert_eq!(id("x42"), 0);
    assert_eq!(id("42x"), 0);
    assert_eq!(id("-"), 0);
    assert_eq!(id("2147483647"), i32::MAX);
    assert_eq!(id("2147483648"), 0);
    assert_eq!(id("-2147483648"), i32::MIN);
    assert_eq!(id("-2147483649"), 0);
    assert_eq!(id("99999999999999999999999999"), 0);
}

#[test]
fn search_params_are_validated_per_field() {
    let re = regex::Regex::new(r"^[-_\.:;/0-9a-zA-Z\?\*\(\)\[\]\{\}\|\\ ]*$").unwrap();
    let ok = SearchParam {
        chan: "rust".to_string(),
        nick: "alice".to_string(),
        url: "example.com/x".to_string(),
        title: "a title".to_string(),
    };
    assert!(ok.validate(&re));
    let bad = SearchParam { nick: "al'ce".to_string(), ..ok };
    assert!(!bad.validate(&re));
}

#[test]
fn textual_content_types_are_recognised() {
    assert!(is_text_content_type("text/html; charset=utf-8"));
    assert!(is_text_content_type("text/plain"));
    assert!(!is_text_content_type("application/json"));
    assert!(!is_text_content_type(""));
}
