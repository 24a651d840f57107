use gitlab_member_manager::error::GitLabError;
use gitlab_member_manager::gitlab::GitLabConfig;
use gitlab_member_manager::order::text_before;
use gitlab_member_manager::profile::{
    get_gitlab_config, require_cfg, set_gitlab_config, validated_config,
};
use gitlab_member_manager::storage::database_url;
use gitlab_member_manager::text::{
    blank, contains_ignore_ascii_case, is_whitespace_char, split_before_last, to_chars,
    to_lower_ascii, trim, trim_end_matches,
};

#[test]
fn trim_agrees_with_the_standard_library() {
    let samples = [
        "", " ", "a", " a", "a ", "  a b  ", "\t\n x \r\n", "\u{a0}x\u{3000}", "\u{2003}\u{2028}",
        "x\u{200b}", "\u{85}y\u{1680}", "\u{feff}z", "  多 字 节  ", "\u{b}\u{c}q\u{202f}\u{205f}",
    ];
    for s in samples {
        assert_eq!(trim(s), s.trim(), "{:?}", s);
        assert_eq!(blank(s), s.trim().is_empty(), "{:?}", s);
    }
}

#[test]
fn whitespace_agrees_with_the_standard_library() {
    for u in 0..0x11000u32 {
        if let Some(c) = char::from_u32(u) {
            assert_eq!(is_whitespace_char(c), c.is_whitespace(), "{:x}", u);
        }
    }
}

#[test]
fn lower_case_agrees_with_the_standard_library() {
    for u in 0..0x3000u32 {
        if let Some(c) = char::from_u32(u) {
            assert_eq!(to_lower_ascii(c), c.to_ascii_lowercase(), "{:x}", u);
        }
    }
}

#[test]
fn trim_end_matches_takes_the_whole_run() {
    assert_eq!(trim_end_matches("a//", '/'), "a");
    assert_eq!(trim_end_matches("a/b", '/'), "a/b");
    assert_eq!(trim_end_matches("//", '/'), "");
    assert_eq!(trim_end_matches("", '/'), "");
    assert_eq!(trim_end_matches("/a/ /", '/'), "/a/ ");
}

#[test]
fn split_before_last_finds_the_last_separator() {
    assert_eq!(split_before_last("a/b/c", '/'), Some("a/b"));
    assert_eq!(split_before_last("abc", '/'), None);
    assert_eq!(split_before_last("", '/'), None);
    assert_eq!(split_before_last("/", '/'), Some(""));
    assert_eq!(split_before_last("a/", '/'), Some("a"));
    assert_eq!(split_before_last("组/件", '/'), Some("组"));
}

#[test]
fn to_chars_gives_the_characters_in_order() {
    assert_eq!(to_chars("héllo"), vec!['h', 'é', 'l', 'l', 'o']);
    assert!(to_chars("").is_empty());
}

#[test]
fn containment_ignores_ascii_case() {
    let has = |hay: &str, needle: &str| contains_ignore_ascii_case(&to_chars(hay), &to_chars(needle));
    assert!(has("Alice", "ali"));
    assert!(has("alice", "ALI"));
    assert!(has("x-ALI", "ali"));
    assert!(has("anything", ""));
    assert!(has("", ""));
    assert!(!has("", "a"));
    assert!(!has("al", "ali"));
    assert!(!has("a l i", "ali"));
    assert!(has("aali", "ali"));
    assert!(!has("Émile", "émile"));
    assert!(has("a%b", "%"));
    assert!(!has("abc", "a_c"));
}

#[test]
fn texts_are_ordered_as_strings_are() {
    let samples = ["", "a", "A", "ab", "b", "é", "z", "2026-01-02", "2026-01-10", "日本", "a\u{10000}", "a\u{ffff}"];
    for x in samples {
        for y in samples {
            assert_eq!(text_before(x, y), x < y, "{:?} {:?}", x, y);
        }
    }
}

#[test]
fn database_url_writes_slashes() {
    assert_eq!(database_url("C:\\Users\\me\\app\\db.sqlite3"), "sqlite://C:/Users/me/app/db.sqlite3");
    assert_eq!(database_url("/home/me/db.sqlite3"), "sqlite:///home/me/db.sqlite3");
    assert_eq!(database_url(""), "sqlite://");
}

#[test]
fn profile_is_trimmed_when_it_is_set() {
    let mut holder: Option<GitLabConfig> = None;
    assert!(set_gitlab_config(&mut holder, " https://gitlab.example.com/ ", "\ttoken\n").is_ok());
    let cfg = holder.as_ref().unwrap();
    assert_eq!(cfg.base_url, "https://gitlab.example.com/");
    assert_eq!(cfg.token, "token");
    assert_eq!(
        get_gitlab_config(&holder),
        Some(("https://gitlab.example.com/".to_string(), "token".to_string()))
    );
}

#[test]
fn blank_profile_is_refused_and_the_old_one_stays() {
    let mut holder: Option<GitLabConfig> = None;
    set_gitlab_config(&mut holder, "https://a", "t").unwrap();
    match set_gitlab_config(&mut holder, "   ", "t2") {
        Err(GitLabError::Validation { message }) => assert_eq!(message, "baseUrl is empty"),
        other => panic!("unexpected {:?}", other),
    }
    match set_gitlab_config(&mut holder, "https://b", "") {
        Err(GitLabError::Validation { message }) => assert_eq!(message, "token is empty"),
        other => panic!("unexpected {:?}", other),
    }
    match set_gitlab_config(&mut holder, "", "") {
        Err(GitLabError::Validation { message }) => assert_eq!(message, "baseUrl is empty"),
        other => panic!("unexpected {:?}", other),
    }
    let cfg = holder.unwrap();
    assert_eq!(cfg.base_url, "https://a");
    assert_eq!(cfg.token, "t");
    assert!(validated_config("x", "y").is_ok());
}

#[test]
fn operations_need_a_profile() {
    let none: Option<GitLabConfig> = None;
    assert_eq!(get_gitlab_config(&none), None);
    match require_cfg(&none) {
        Err(e) => assert_eq!(
            e.message(),
            "GitLab config not set. Please go to 设置页保存 Base URL 和 Token"
        ),
        Ok(_) => panic!("no profile was set"),
    }
    let some = Some(GitLabConfig { base_url: "u".to_string(), token: "t".to_string() });
    let cfg = require_cfg(&some).unwrap();
    assert_eq!(cfg.base_url, "u");
    assert_eq!(cfg.token, "t");
}
