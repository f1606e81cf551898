use shell_core::builtins::candidate_path;
use shell_core::builtins::cd_error_message;
use shell_core::builtins::cd_target;
use shell_core::builtins::exit_status;
use shell_core::builtins::handle_echo;
use shell_core::builtins::handle_type;
use shell_core::builtins::parse_i32;
use shell_core::builtins::split_paths;
use shell_core::builtins::CdTarget;
use shell_core::builtins::ExecLookup;
use shell_core::dispatch::dispatch;
use shell_core::dispatch::init_map;
use shell_core::dispatch::Builtin;
use shell_core::dispatch::DispatchMap;
use shell_core::dispatch::DispatchOutcome;

#[test]
fn echo_joins_with_spaces_and_newline() {
    let args = vec!["hello".to_string(), "big".to_string(), "world".to_string()];
    assert_eq!(handle_echo(&args).unwrap(), "hello big world\n".to_string());
}

#[test]
fn echo_single_argument() {
    let args = vec!["hi".to_string()];
    assert_eq!(handle_echo(&args).unwrap(), "hi\n".to_string());
}

#[test]
fn echo_no_arguments_prints_nothing() {
    let args: Vec<String> = vec![];
    assert_eq!(handle_echo(&args).unwrap(), "".to_string());
}

#[test]
fn type_reports_builtin_executable_and_missing() {
    let map = init_map();
    let args = vec!["echo".to_string(), "ls".to_string(), "nosuch".to_string()];
    let lookups = vec![
        ExecLookup { found: false, path: "".to_string() },
        ExecLookup { found: true, path: "/bin/ls".to_string() },
        ExecLookup { found: false, path: "".to_string() },
    ];
    let out = handle_type(&map, &args, &lookups).unwrap();
    assert_eq!(out, "echo is shell builtin\nls is /bin/ls\nnosuch: not found\n".to_string());
}

#[test]
fn type_with_no_arguments_prints_nothing() {
    let map = init_map();
    let args: Vec<String> = vec![];
    let lookups: Vec<ExecLookup> = vec![];
    assert_eq!(handle_type(&map, &args, &lookups).unwrap(), "".to_string());
}

#[test]
fn exit_status_values() {
    let none: Vec<String> = vec![];
    assert_eq!(exit_status(&none), 0);
    assert_eq!(exit_status(&vec!["42".to_string()]), 42);
    assert_eq!(exit_status(&vec!["-5".to_string()]), -5);
    assert_eq!(exit_status(&vec!["+7".to_string()]), 7);
    assert_eq!(exit_status(&vec!["abc".to_string()]), 0);
    assert_eq!(exit_status(&vec!["4x".to_string()]), 0);
    assert_eq!(exit_status(&vec!["".to_string()]), 0);
    assert_eq!(exit_status(&vec!["2147483647".to_string()]), 2147483647);
    assert_eq!(exit_status(&vec!["2147483648".to_string()]), 0);
    assert_eq!(exit_status(&vec!["-2147483648".to_string()]), -2147483648);
    assert_eq!(exit_status(&vec!["-2147483649".to_string()]), 0);
}

#[test]
fn parse_i32_matches_standard_reading() {
    for s in ["0", "42", "-5", "+7", "2147483647", "-2147483648", "007"] {
        assert_eq!(parse_i32(s), s.parse::<i32>().ok());
    }
    for s in ["", "-", "+", "abc", "4x", " 1", "2147483648", "-2147483649", "99999999999999999999"] {
        assert_eq!(parse_i32(s), None);
        assert_eq!(s.parse::<i32>().ok(), None);
    }
}

#[test]
fn cd_target_decisions() {
    let none: Vec<String> = vec![];
    assert!(matches!(cd_target(&none), CdTarget::Stay));
    let two = vec!["a".to_string(), "b".to_string()];
    assert!(matches!(cd_target(&two), CdTarget::TooManyArgs));
    let home = vec!["~".to_string()];
    assert!(matches!(cd_target(&home), CdTarget::Home));
    let path = vec!["/tmp".to_string()];
    match cd_target(&path) {
        CdTarget::Path(p) => assert_eq!(p, "/tmp".to_string()),
        _ => panic!("expected a path target"),
    }
}

#[test]
fn cd_error_message_text() {
    assert_eq!(cd_error_message(), "cd: too many arguments".to_string());
}

#[test]
fn split_paths_keeps_empty_pieces() {
    let pieces = split_paths("a:b::c", ':');
    assert_eq!(
        pieces,
        vec!["a".to_string(), "b".to_string(), "".to_string(), "c".to_string()]
    );
    assert_eq!(split_paths("", ':'), vec!["".to_string()]);
    assert_eq!(split_paths("solo", ':'), vec!["solo".to_string()]);
}

#[test]
fn candidate_path_layout() {
    assert_eq!(candidate_path("/usr/bin", "ls", ""), "/usr/bin/ls".to_string());
    assert_eq!(candidate_path("C:/w", "cmd", ".exe"), "C:/w/cmd.exe".to_string());
}

#[test]
fn init_map_binds_the_five_builtins() {
    let map = init_map();
    assert_eq!(map.lookup(&"exit".to_string()), Some(Builtin::Exit));
    assert_eq!(map.lookup(&"echo".to_string()), Some(Builtin::Echo));
    assert_eq!(map.lookup(&"type".to_string()), Some(Builtin::Type));
    assert_eq!(map.lookup(&"cd".to_string()), Some(Builtin::Cd));
    assert_eq!(map.lookup(&"pwd".to_string()), Some(Builtin::Pwd));
    assert_eq!(map.lookup(&"ls".to_string()), None);
    assert!(map.contains(&"pwd".to_string()));
    assert!(!map.contains(&"frobnicate".to_string()));
}

#[test]
fn dispatch_unknown_command_yields_not_found_message() {
    let map = DispatchMap::new();
    let argv = vec!["frobnicate".to_string()];
    match dispatch(&map, &argv) {
        DispatchOutcome::NotFound(msg) => {
            assert_eq!(msg, "frobnicate: command not found".to_string())
        },
        _ => panic!("expected the not-found outcome"),
    }
}

#[test]
fn dispatch_finds_builtins_and_skips_empty_lines() {
    let map = init_map();
    let argv = vec!["echo".to_string(), "hi".to_string()];
    assert!(matches!(dispatch(&map, &argv), DispatchOutcome::Found(Builtin::Echo)));
    let empty: Vec<String> = vec![];
    assert!(matches!(dispatch(&map, &empty), DispatchOutcome::EmptyLine));
}
