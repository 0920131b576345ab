//! Formatting and shell-environment derivations on concrete values.

use ramws::shell::{
    join_with_spaces, next_shell_level, parse_level, prompt_value, shell_invocation, ShellOptions,
};
use ramws::util::{dec_string, format_bytes, fs_status, hex_string, is_tmpfs};

#[test]
fn byte_formatting_exact() {
    assert_eq!(format_bytes(0), "0.00 B");
    assert_eq!(format_bytes(1023), "1023.00 B");
    assert_eq!(format_bytes(1024), "1.00 KiB");
    assert_eq!(format_bytes(1536), "1.50 KiB");
    assert_eq!(format_bytes(1024 * 1024), "1.00 MiB");
    assert_eq!(format_bytes(5 * 1024 * 1024 * 1024), "5.00 GiB");
    assert_eq!(format_bytes(1024u64 * 1024 * 1024 * 1024), "1.00 TiB");
    // rounded to two places, half up
    assert_eq!(format_bytes(1024 + 512), "1.50 KiB");
    assert_eq!(format_bytes(1029), "1.00 KiB");
    assert_eq!(format_bytes(1034), "1.01 KiB");
    // the largest representable count
    assert_eq!(format_bytes(u64::MAX), "16777216.00 TiB");
}

#[test]
fn number_rendering() {
    assert_eq!(dec_string(0), "0");
    assert_eq!(dec_string(7), "7");
    assert_eq!(dec_string(9876543210), "9876543210");
    assert_eq!(dec_string(u64::MAX), "18446744073709551615");
    assert_eq!(hex_string(0), "0");
    assert_eq!(hex_string(0xef53), "ef53");
    assert_eq!(hex_string(0x01021994), "1021994");
}

#[test]
fn filesystem_status_derivation() {
    let st = fs_status(4096, 1000, 400, 300, 0x01021994);
    assert_eq!(st.total, 4096 * 1000);
    assert_eq!(st.available, 4096 * 300);
    assert_eq!(st.used, 4096 * 600);
    assert_eq!(st.fs_type, "tmpfs");
    let other = fs_status(4096, 1000, 400, 300, 0xef53);
    assert_eq!(other.fs_type, "0xef53");
    assert!(is_tmpfs(0x01021994));
    assert!(!is_tmpfs(0xef53));
}

#[test]
fn shell_invocation_shape() {
    let interactive = ShellOptions {
        shell: None,
        no_prompt: false,
        noninteractive: false,
        command: vec![],
    };
    let inv = shell_invocation(&interactive, Some("/bin/zsh"));
    assert_eq!(inv.program, "/bin/zsh");
    assert_eq!(inv.args, vec!["-i".to_string()]);

    let one_shot = ShellOptions {
        shell: Some("/bin/sh".to_string()),
        no_prompt: true,
        noninteractive: true,
        command: vec!["echo".to_string(), "hi there".to_string()],
    };
    let inv2 = shell_invocation(&one_shot, None);
    assert_eq!(inv2.program, "/bin/sh");
    assert_eq!(inv2.args, vec!["-lc".to_string(), "echo hi there".to_string()]);

    let fallback = shell_invocation(&interactive, None);
    assert_eq!(fallback.program, "/bin/bash");
}

#[test]
fn words_joined_with_spaces() {
    assert_eq!(join_with_spaces(&vec![]), "");
    assert_eq!(join_with_spaces(&vec!["a".to_string()]), "a");
    assert_eq!(
        join_with_spaces(&vec!["a".to_string(), "b".to_string(), "c".to_string()]),
        "a b c"
    );
}

#[test]
fn nesting_level_derivation() {
    assert_eq!(next_shell_level(None), "1");
    assert_eq!(next_shell_level(Some("3")), "4");
    assert_eq!(next_shell_level(Some("0")), "1");
    // an unreadable level counts as zero
    assert_eq!(next_shell_level(Some("abc")), "1");
    assert_eq!(next_shell_level(Some("")), "1");
    assert_eq!(parse_level("42"), Some(42));
    assert_eq!(parse_level("4294967295"), Some(u32::MAX));
    assert_eq!(parse_level("4294967296"), None);
    assert_eq!(parse_level("4x"), None);
    assert_eq!(parse_level(""), None);
}

#[test]
fn prompt_derivation() {
    assert_eq!(prompt_value(Some("\\h$ ")), "(ramws) \\h$ ");
    assert_eq!(prompt_value(None), "(ramws) \\u$ ");
}
