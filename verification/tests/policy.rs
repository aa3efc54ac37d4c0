use pipehub::policy::apply_block_list;
use pipehub::policy::captcha;
use pipehub::policy::PolicyError;

#[test]
fn block_list_blocks_contained_word() {
    assert_eq!(apply_block_list("hello world", "world, foo"), Err(PolicyError::Blocked));
}

#[test]
fn block_list_empty_list_passes() {
    assert_eq!(apply_block_list("hello", ""), Ok("hello".to_string()));
}

#[test]
fn block_list_trims_entries() {
    assert_eq!(apply_block_list("hello world", "  world  "), Err(PolicyError::Blocked));
    assert_eq!(apply_block_list("hello world", "\tworld\n,"), Err(PolicyError::Blocked));
}

#[test]
fn block_list_ignores_empty_entries() {
    // entries that trim to nothing block nothing, even the empty substring
    assert_eq!(apply_block_list("anything", ", ,  ,"), Ok("anything".to_string()));
}

#[test]
fn block_list_is_case_sensitive() {
    assert_eq!(apply_block_list("Hello", "hello"), Ok("Hello".to_string()));
}

#[test]
fn block_list_substring_match() {
    // a block word matches anywhere inside the message
    assert_eq!(apply_block_list("xxfooyy", "foo"), Err(PolicyError::Blocked));
    assert_eq!(apply_block_list("xxfoyy", "foo"), Ok("xxfoyy".to_string()));
}

#[test]
fn block_list_inner_space_kept() {
    // trimming strips the ends only; inner spaces stay part of the word
    assert_eq!(apply_block_list("a b c", " a b "), Err(PolicyError::Blocked));
    assert_eq!(apply_block_list("ab c", " a b "), Ok("ab c".to_string()));
}

#[test]
fn captcha_extracts_code_and_sender() {
    let input = "【Acme】your code is AB12CD";
    let out = captcha(input);
    assert!(out.starts_with("AB12CD - Acme"));
    assert!(out.contains(input));
    assert_eq!(out, "AB12CD - Acme\n【Acme】your code is AB12CD");
}

#[test]
fn captcha_takes_last_qualifying_run() {
    // several runs of length 4 or more: the last one is the code
    assert_eq!(captcha("【S】abcd then efgh"), "efgh - S\n【S】abcd then efgh");
}

#[test]
fn captcha_caps_code_at_eight() {
    assert_eq!(captcha("【S】verylongcode99"), "verylong - S\n【S】verylongcode99");
}

#[test]
fn captcha_accepts_hyphen_in_code() {
    assert_eq!(captcha("【S】xx ab-9"), "ab-9 - S\n【S】xx ab-9");
}

#[test]
fn captcha_without_pattern_returns_input() {
    for input in [
        "hello",
        "",
        "no brackets 1234",
        "【】1234",        // empty sender
        "【A】abc",         // code run too short
        "【open 1234",      // bracket never closed
        "【A】\ncode 1234", // code only after the line ends
        "【A\nB】 1234",    // sender spans two lines
    ] {
        assert_eq!(captcha(input), input, "transformed {:?}", input);
    }
}

#[test]
fn captcha_code_before_newline_only() {
    // a code on the bracket's line is found even when more lines follow
    assert_eq!(captcha("【S】go 1234\n5678"), "1234 - S\n【S】go 1234\n5678");
}
