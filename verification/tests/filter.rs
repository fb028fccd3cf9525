use cgroup_metrics::config::CgroupsConfig;
use cgroup_metrics::filter::{matches_any, matches_pattern, FilterList, Pattern};

fn chars(s: &str) -> Vec<char> {
    s.chars().collect()
}

fn patterns(list: &[&str]) -> Vec<Pattern> {
    list.iter().map(|p| Pattern::new(p)).collect()
}

fn wild(pattern: &str, name: &str) -> bool {
    matches_pattern(&chars(pattern), &chars(name))
}

#[test]
fn literal_patterns_match_themselves_only() {
    assert!(wild("user.slice", "user.slice"));
    assert!(!wild("user.slice", "user.slic"));
    assert!(!wild("user.slice", "user.slices"));
    assert!(!wild("user.slice", "userxslice"));
    assert!(wild("", ""));
    assert!(!wild("", "a"));
    assert!(!wild("a", ""));
}

#[test]
fn star_matches_any_run() {
    assert!(wild("*", ""));
    assert!(wild("*", "anything/at/all"));
    assert!(wild("user*", "user.slice"));
    assert!(wild("user*", "user"));
    assert!(!wild("user*", "use"));
    assert!(wild("*.slice", "system.slice"));
    assert!(!wild("*.slice", "system.scope"));
    assert!(wild("a*b*c", "a--b--c"));
    assert!(wild("a*b*c", "abc"));
    assert!(wild("a*b*c", "abbc"));
    assert!(!wild("a*b*c", "acb"));
    assert!(wild("**", "x"));
    assert!(wild("*a*a*a*a*b", "aaaaaaaaaaaaaaaaaaaaaaaaaaaaaaab"));
    assert!(!wild("*a*a*a*a*b", "aaaaaaaaaaaaaaaaaaaaaaaaaaaaaaaa"));
}

#[test]
fn question_mark_matches_one_character() {
    assert!(wild("?", "a"));
    assert!(!wild("?", ""));
    assert!(!wild("?", "ab"));
    assert!(wild("user-?.slice", "user-1.slice"));
    assert!(!wild("user-?.slice", "user-10.slice"));
    assert!(wild("?*", "a"));
    assert!(!wild("?*", ""));
    assert!(wild("é?", "éü"));
}

#[test]
fn pattern_keeps_its_text() {
    let pattern = Pattern::new("a*c");
    assert_eq!(pattern.chars, chars("a*c"));
    assert!(pattern.matches(&chars("abc")));
    assert!(!pattern.matches(&chars("abd")));
}

#[test]
fn any_of_the_patterns_may_match() {
    let list = patterns(&["a", "b*"]);
    assert!(matches_any(&list, &chars("a")));
    assert!(matches_any(&list, &chars("bcd")));
    assert!(!matches_any(&list, &chars("c")));
    assert!(!matches_any(&Vec::new(), &chars("a")));
}

#[test]
fn default_list_lets_everything_through() {
    let list = FilterList::default();
    assert!(list.contains_path("user.slice"));
    assert!(list.contains_path(""));
    assert!(list.contains_path("/"));
}

#[test]
fn includes_and_excludes_decide() {
    let only = FilterList { includes: Some(patterns(&["user*"])), excludes: None };
    assert!(only.contains_path("user.slice"));
    assert!(!only.contains_path("system.slice"));

    let without = FilterList { includes: None, excludes: Some(patterns(&["system.slice"])) };
    assert!(without.contains_path("user.slice"));
    assert!(!without.contains_path("system.slice"));
    assert!(without.contains_path("system.slice/cron.service"));

    let both = FilterList {
        includes: Some(patterns(&["user*", "init.scope"])),
        excludes: Some(patterns(&["*/session-*"])),
    };
    assert!(both.contains_path("init.scope"));
    assert!(both.contains_path("user.slice/user-1000.slice"));
    assert!(!both.contains_path("user.slice/session-2.scope"));
    assert!(!both.contains_path("machine.slice"));

    let nothing = FilterList { includes: Some(Vec::new()), excludes: None };
    assert!(!nothing.contains_path("user.slice"));
    let everything = FilterList { includes: None, excludes: Some(Vec::new()) };
    assert!(everything.contains_path("user.slice"));
}

#[test]
fn config_defaults() {
    let config = CgroupsConfig::default();
    assert_eq!(config.levels(), 3);
    assert!(config.base().is_none());
    assert!(config.groups().includes.is_none());
    assert!(config.groups().excludes.is_none());
}

#[test]
fn config_needs_a_level() {
    assert!(CgroupsConfig::new(0, None, FilterList::default()).is_none());
    let config = CgroupsConfig::new(1, Some(String::from("user.slice")), FilterList::default()).unwrap();
    assert_eq!(config.levels(), 1);
    assert_eq!(config.base().as_deref(), Some("user.slice"));
    let deep = CgroupsConfig::new(usize::MAX, None, FilterList::default()).unwrap();
    assert_eq!(deep.levels(), usize::MAX);
}
