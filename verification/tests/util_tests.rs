use cond::util::{
    default_branch, default_branch_start, is_confirmation, probe_args, slug_fits, slugify, try_slugify, BranchProbe,
    BranchStep,
};

// --- slugify ---

#[test]
fn slugify_simple() {
    assert_eq!(slugify("Hello World"), "hello-world");
}

#[test]
fn slugify_special_chars() {
    assert_eq!(slugify("Fix bug #123!"), "fix-bug-123");
}

#[test]
fn slugify_consecutive_separators() {
    assert_eq!(slugify("foo---bar   baz"), "foo-bar-baz");
}

#[test]
fn slugify_leading_trailing_separators() {
    assert_eq!(slugify("  -hello- "), "hello");
}

#[test]
fn slugify_empty() {
    assert_eq!(slugify(""), "");
}

#[test]
fn slugify_truncates_long_strings() {
    let long = "a".repeat(60);
    let result = slugify(&long);
    assert!(result.len() <= 40);
    assert_eq!(result, "a".repeat(40));
}

#[test]
fn slugify_truncation_strips_trailing_hyphens() {
    // 39 a's + space + more = slug will be "aaa...a-bbb" and truncated at 40
    let input = format!("{} {}", "a".repeat(39), "bbbbb");
    let result = slugify(&input);
    assert!(result.len() <= 40);
    assert!(!result.ends_with('-'));
}

#[test]
fn slugify_unicode() {
    // is_alphanumeric() treats accented chars as alphanumeric
    assert_eq!(slugify("café résumé"), "café-résumé");
}

#[test]
fn slugify_only_special_chars() {
    assert_eq!(slugify("!!!@@@###"), "");
}

#[test]
fn slugify_mixed_case() {
    assert_eq!(slugify("MyTaskName"), "mytaskname");
}

#[test]
fn slugify_numbers_only() {
    assert_eq!(slugify("123"), "123");
}

#[test]
fn slugify_of_a_slug_is_the_slug() {
    let long = format!("{} {}", "a".repeat(39), "bbbbb");
    for text in ["Hello World", "Fix bug #123!", "  -hello- ", "café résumé", "", "!!!@@@###", long.as_str()] {
        let slug = slugify(text);
        assert_eq!(slugify(&slug), slug);
    }
}

#[test]
fn slugify_truncation_exact_value() {
    let input = format!("{} {}", "a".repeat(39), "bbbbb");
    assert_eq!(slugify(&input), "a".repeat(39));
}

#[test]
fn slugify_cut_inside_multibyte_char_is_refused() {
    // 39 ASCII bytes then two 2-byte characters: byte 40 falls inside a character.
    let input = format!("{}éé", "a".repeat(39));
    assert!(!slug_fits(&input));
    assert_eq!(try_slugify(&input), None);
}

#[test]
fn slugify_cut_on_multibyte_boundary() {
    // 38 ASCII bytes then two-byte characters: byte 40 ends the first one.
    let input = format!("{}ééé", "a".repeat(38));
    assert!(slug_fits(&input));
    assert_eq!(try_slugify(&input), Some(format!("{}é", "a".repeat(38))));
}

#[test]
fn slugify_lowercases_non_ascii() {
    assert_eq!(slugify("ÉCOLE"), "école");
}

#[test]
fn slugify_shape_holds_on_sample() {
    let s = slugify("--Add   OAuth2 login (v2)!!");
    assert_eq!(s, "add-oauth2-login-v2");
    assert!(!s.starts_with('-') && !s.ends_with('-') && !s.contains("--"));
}

// --- default branch detection ---

#[test]
fn default_branch_from_origin_head() {
    assert!(matches!(default_branch_start(), BranchStep::Probe(BranchProbe::OriginHead)));
    match default_branch(BranchProbe::OriginHead, Some("refs/remotes/origin/develop")) {
        BranchStep::Found(b) => assert_eq!(b, "develop"),
        other => panic!("unexpected {:?}", other),
    }
}

#[test]
fn default_branch_falls_back_to_main_then_master() {
    assert!(matches!(default_branch(BranchProbe::OriginHead, None), BranchStep::Probe(BranchProbe::LocalMain)));
    assert!(matches!(
        default_branch(BranchProbe::OriginHead, Some("refs/remotes/origin/")),
        BranchStep::Probe(BranchProbe::LocalMain)
    ));
    match default_branch(BranchProbe::LocalMain, Some("abc123")) {
        BranchStep::Found(b) => assert_eq!(b, "main"),
        other => panic!("unexpected {:?}", other),
    }
    assert!(matches!(default_branch(BranchProbe::LocalMain, None), BranchStep::Probe(BranchProbe::LocalMaster)));
    match default_branch(BranchProbe::LocalMaster, Some("abc123")) {
        BranchStep::Found(b) => assert_eq!(b, "master"),
        other => panic!("unexpected {:?}", other),
    }
    assert!(matches!(default_branch(BranchProbe::LocalMaster, None), BranchStep::Undetected));
}

#[test]
fn default_branch_probe_arguments() {
    assert_eq!(probe_args(BranchProbe::OriginHead), vec!["symbolic-ref", "refs/remotes/origin/HEAD"]);
    assert_eq!(probe_args(BranchProbe::LocalMain), vec!["rev-parse", "--verify", "main"]);
    assert_eq!(probe_args(BranchProbe::LocalMaster), vec!["rev-parse", "--verify", "master"]);
}

// --- confirm ---

#[test]
fn confirmation_accepts_y_and_yes_in_any_case() {
    assert!(is_confirmation("y\n"));
    assert!(is_confirmation("  YES  "));
    assert!(is_confirmation("Yes"));
    assert!(!is_confirmation("no"));
    assert!(!is_confirmation("yess"));
    assert!(!is_confirmation(""));
}

#[test]
fn default_branch_keeps_slashes_in_branch_name() {
    match default_branch(BranchProbe::OriginHead, Some("refs/remotes/origin/release/1.0")) {
        BranchStep::Found(b) => assert_eq!(b, "release/1.0"),
        other => panic!("unexpected {:?}", other),
    }
    match default_branch(BranchProbe::OriginHead, Some("refs/remotes/origin/main")) {
        BranchStep::Found(b) => assert_eq!(b, "main"),
        other => panic!("unexpected {:?}", other),
    }
}
