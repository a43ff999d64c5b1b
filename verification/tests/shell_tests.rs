use std::path::PathBuf;

use cond::shell::{eq_ignore_ascii_case, is_yes_answer, rc_has_setup_line, rc_path_inner, SHELL_FUNCTION};

#[test]
fn shell_function_contains_cond_shell_export() {
    assert!(SHELL_FUNCTION.contains("export COND_SHELL=1"));
}

#[test]
fn shell_function_defines_cond_function() {
    assert!(SHELL_FUNCTION.contains("cond()"));
}

#[test]
fn shell_function_handles_directory_cd() {
    // The shell function should cd when output is a directory
    assert!(SHELL_FUNCTION.contains("cd \"$out\""));
}

#[test]
fn rc_path_returns_zshrc_for_zsh() {
    let path = rc_path_inner("/tmp/test-home", "/bin/zsh", false).unwrap();
    assert_eq!(PathBuf::from(path), PathBuf::from("/tmp/test-home/.zshrc"));
}

#[test]
fn rc_path_returns_bashrc_for_bash() {
    let path = rc_path_inner("/tmp/test-home", "/bin/bash", false).unwrap();
    assert_eq!(PathBuf::from(path), PathBuf::from("/tmp/test-home").join(".bashrc"));
}

#[test]
fn rc_path_prefers_bash_profile_when_exists() {
    let path = rc_path_inner("/tmp/test-home", "/bin/bash", true).unwrap();
    assert_eq!(PathBuf::from(path), PathBuf::from("/tmp/test-home").join(".bash_profile"));
}

#[test]
fn rc_path_rejects_unsupported_shell() {
    assert!(rc_path_inner("/tmp", "/bin/fish", false).is_err());
}

#[test]
fn rc_path_unsupported_shell_message() {
    let err = rc_path_inner("/tmp", "/bin/fish", false).unwrap_err();
    assert_eq!(
        err.to_string(),
        "unsupported shell: /bin/fish — add `eval \"$(cond shell-setup)\"` to your shell rc manually"
    );
}

#[test]
fn rc_setup_line_detection() {
    assert!(rc_has_setup_line("export PATH=x\neval \"$(cond shell-setup)\"\n"));
    assert!(!rc_has_setup_line("export PATH=x\n"));
}

#[test]
fn yes_answer_is_y_in_either_case() {
    assert!(is_yes_answer("y\n"));
    assert!(is_yes_answer("  Y "));
    assert!(!is_yes_answer("yes"));
    assert!(!is_yes_answer("n"));
    assert!(eq_ignore_ascii_case("Hello", "hELLO"));
    assert!(!eq_ignore_ascii_case("Hello", "Hell"));
}
