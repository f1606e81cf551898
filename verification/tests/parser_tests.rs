use shell_core::parser::is_redirect;
use shell_core::parser::parse_args;
use shell_core::parser::strip_line_ending;
use shell_core::parser::ParseError;

#[test]
fn plain_tokens_split_on_spaces() {
    let (argv, redirs) = parse_args("a b  c".to_string()).unwrap();
    assert_eq!(argv, vec!["a".to_string(), "b".to_string(), "c".to_string()]);
    assert_eq!(redirs.len(), 0);
}

#[test]
fn empty_line_yields_nothing() {
    let (argv, redirs) = parse_args("".to_string()).unwrap();
    assert!(argv.is_empty());
    assert!(redirs.is_empty());
}

#[test]
fn only_spaces_yield_nothing() {
    let (argv, redirs) = parse_args("   ".to_string()).unwrap();
    assert!(argv.is_empty());
    assert!(redirs.is_empty());
}

#[test]
fn single_quotes_round_trip() {
    let (argv, redirs) = parse_args("'hello  world'".to_string()).unwrap();
    assert_eq!(argv, vec!["hello  world".to_string()]);
    assert!(redirs.is_empty());
}

#[test]
fn double_quote_escape_table() {
    let (argv, redirs) = parse_args("\"a\\$b\\\"c\\\\d\\ne\"".to_string()).unwrap();
    assert_eq!(argv, vec!["a$b\"c\\d\\ne".to_string()]);
    assert!(redirs.is_empty());
}

#[test]
fn quotes_concatenate_within_one_token() {
    let (argv, _) = parse_args("a\"b\"c a'b'c".to_string()).unwrap();
    assert_eq!(argv, vec!["abc".to_string(), "abc".to_string()]);
}

#[test]
fn unquoted_backslash_escapes_space() {
    let (argv, _) = parse_args("a\\ b".to_string()).unwrap();
    assert_eq!(argv, vec!["a b".to_string()]);
}

#[test]
fn tab_is_not_a_delimiter() {
    let (argv, _) = parse_args("a\tb".to_string()).unwrap();
    assert_eq!(argv, vec!["a\tb".to_string()]);
}

#[test]
fn trailing_backslash_is_dropped() {
    let (argv, _) = parse_args("ab\\".to_string()).unwrap();
    assert_eq!(argv, vec!["ab".to_string()]);
}

#[test]
fn redirect_pairing_stdout_truncate() {
    let (argv, redirs) = parse_args("echo hi > out.txt".to_string()).unwrap();
    assert_eq!(argv, vec!["echo".to_string(), "hi".to_string()]);
    assert_eq!(redirs.len(), 1);
    assert!(!redirs[0].is_stderr);
    assert!(!redirs[0].is_append);
    assert_eq!(redirs[0].path, "out.txt".to_string());
}

#[test]
fn redirect_stderr_append() {
    let (argv, redirs) = parse_args("cmd 2>> err.log".to_string()).unwrap();
    assert_eq!(argv, vec!["cmd".to_string()]);
    assert_eq!(redirs.len(), 1);
    assert!(redirs[0].is_stderr);
    assert!(redirs[0].is_append);
    assert_eq!(redirs[0].path, "err.log".to_string());
}

#[test]
fn redirect_stdout_append_numbered() {
    let (argv, redirs) = parse_args("cmd 1>> both.log 2> err".to_string()).unwrap();
    assert_eq!(argv, vec!["cmd".to_string()]);
    assert_eq!(redirs.len(), 2);
    assert!(!redirs[0].is_stderr);
    assert!(redirs[0].is_append);
    assert_eq!(redirs[0].path, "both.log".to_string());
    assert!(redirs[1].is_stderr);
    assert!(!redirs[1].is_append);
    assert_eq!(redirs[1].path, "err".to_string());
}

#[test]
fn redirect_target_may_be_quoted() {
    let (argv, redirs) = parse_args("echo > 'my file'".to_string()).unwrap();
    assert_eq!(argv, vec!["echo".to_string()]);
    assert_eq!(redirs.len(), 1);
    assert_eq!(redirs[0].path, "my file".to_string());
}

#[test]
fn trailing_operator_emits_empty_target() {
    let (argv, redirs) = parse_args("echo >".to_string()).unwrap();
    assert_eq!(argv, vec!["echo".to_string()]);
    assert_eq!(redirs.len(), 1);
    assert!(!redirs[0].is_stderr);
    assert!(!redirs[0].is_append);
    assert_eq!(redirs[0].path, "".to_string());
}

#[test]
fn unclosed_single_quote_fails() {
    let r = parse_args("echo 'unterminated".to_string());
    assert_eq!(r.err().unwrap(), ParseError::UnclosedQuote);
}

#[test]
fn unclosed_double_quote_fails() {
    let r = parse_args("echo \"unterminated".to_string());
    assert_eq!(r.err().unwrap(), ParseError::UnclosedQuote);
}

#[test]
fn parse_error_message_text() {
    assert_eq!(ParseError::UnclosedQuote.message(), "unclosed quotes".to_string());
}

#[test]
fn parsing_is_deterministic() {
    let line = "echo 'a b' > out.txt";
    let first = parse_args(line.to_string()).unwrap();
    let second = parse_args(line.to_string()).unwrap();
    assert_eq!(first.0, second.0);
    assert_eq!(first.1.len(), second.1.len());
    assert_eq!(first.1[0].path, second.1[0].path);
}

#[test]
fn is_redirect_recognizes_all_six() {
    for (tok, stderr, append) in [
        (">", false, false),
        ("1>", false, false),
        (">>", false, true),
        ("1>>", false, true),
        ("2>", true, false),
        ("2>>", true, true),
    ] {
        let opt = is_redirect(tok).unwrap();
        assert_eq!(opt.is_stderr, stderr);
        assert_eq!(opt.is_append, append);
        assert_eq!(opt.path, "".to_string());
    }
}

#[test]
fn is_redirect_rejects_other_tokens() {
    assert!(is_redirect("abc").is_none());
    assert!(is_redirect(">>>").is_none());
    assert!(is_redirect("3>").is_none());
    assert!(is_redirect("").is_none());
    assert!(is_redirect("2").is_none());
}

#[test]
fn strip_line_ending_variants() {
    assert_eq!(strip_line_ending("abc\n"), "abc".to_string());
    assert_eq!(strip_line_ending("abc\r\n"), "abc".to_string());
    assert_eq!(strip_line_ending("abc"), "abc".to_string());
    assert_eq!(strip_line_ending("\n"), "".to_string());
    assert_eq!(strip_line_ending("abc\r"), "abc\r".to_string());
    assert_eq!(strip_line_ending(""), "".to_string());
}
