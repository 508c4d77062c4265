use evalbotlib::{
    eval, resolve_timeout, timeout_ms, Backend, Eval, ExecBackend, Language, NetworkBackend,
    Target, UnixSocketBackend,
};

fn exec_lang(cmdline: Vec<&str>, prefix: Option<&str>, timeout: Option<u32>) -> Language {
    Language {
        name: "x".to_string(),
        code_before: None,
        code_after: None,
        timeout,
        backend: Backend::Exec(ExecBackend {
            cmdline: cmdline.into_iter().map(|s| s.to_string()).collect(),
            timeout_prefix: prefix.map(|s| s.to_string()),
        }),
    }
}

#[test]
fn resolves_timeouts_exactly() {
    assert_eq!(resolve_timeout(Some(0), Some(7)), None);
    assert_eq!(resolve_timeout(Some(3), Some(7)), Some(3));
    assert_eq!(resolve_timeout(None, Some(7)), Some(7));
    assert_eq!(resolve_timeout(None, None), None);
}

#[test]
fn converts_seconds_to_milliseconds() {
    assert_eq!(timeout_ms(Some(5)), 5000);
    assert_eq!(timeout_ms(Some(0)), 0);
    assert_eq!(timeout_ms(None), 0);
}

#[test]
fn substitutes_timeout_token() {
    let lang = exec_lang(vec!["sleep", "{TIMEOUT}"], None, Some(5));
    match eval(&lang, "", None, None).unwrap() {
        Eval::Exec { program, args, stdin } => {
            assert_eq!(program, "sleep");
            assert_eq!(args, vec!["5".to_string()]);
            assert_eq!(stdin, "");
        }
        other => panic!("wrong plan: {:?}", other),
    }
}

#[test]
fn substitutes_timeout_token_with_prefix() {
    let lang = exec_lang(
        vec!["run", "--keep", "{TIMEOUT}", "{TIMEOUT}x"],
        Some("--timeout="),
        Some(10),
    );
    match eval(&lang, "code", Some(3), None).unwrap() {
        Eval::Exec { args, .. } => {
            assert_eq!(
                args,
                vec![
                    "--keep".to_string(),
                    "--timeout=3".to_string(),
                    "{TIMEOUT}x".to_string()
                ]
            );
        }
        other => panic!("wrong plan: {:?}", other),
    }
}

#[test]
fn wraps_code_around_snippet() {
    let lang = Language {
        name: "rs".to_string(),
        code_before: Some("fn main() {".to_string()),
        code_after: Some("}".to_string()),
        timeout: Some(1),
        backend: Backend::Exec(ExecBackend { cmdline: vec!["rustc".to_string()], timeout_prefix: None }),
    };
    assert_eq!(lang.wrap_code("let x = 1;"), "fn main() {let x = 1;}");
    match eval(&lang, "let x = 1;", None, None).unwrap() {
        Eval::Exec { stdin, .. } => assert_eq!(stdin, "fn main() {let x = 1;}"),
        other => panic!("wrong plan: {:?}", other),
    }
}

#[test]
fn empty_cmdline_is_an_error() {
    let lang = exec_lang(vec![], None, None);
    assert_eq!(eval(&lang, "x", None, None), Err("empty cmdline".to_string()));
}

#[test]
fn unix_socket_plan_carries_frame_and_deadline() {
    let lang = Language {
        name: "lua".to_string(),
        code_before: None,
        code_after: None,
        timeout: Some(9),
        backend: Backend::UnixSocket(UnixSocketBackend {
            socket_addr: "/run/eval.sock".to_string(),
            timeout_cmdline: Some(vec!["/bin/true".to_string()]),
        }),
    };
    match eval(&lang, "hi", Some(5), Some("abc")).unwrap() {
        Eval::Persistent { target, req, deadline, kill_cmdline } => {
            assert_eq!(target, Target::Unix("/run/eval.sock".to_string()));
            assert_eq!(req.timeout_ms, 5000);
            assert_eq!(req.context, b"abc".to_vec());
            assert_eq!(req.code, b"hi".to_vec());
            assert_eq!(deadline, Some(5));
            assert_eq!(kill_cmdline, Some(vec!["/bin/true".to_string()]));
        }
        other => panic!("wrong plan: {:?}", other),
    }
}

#[test]
fn zero_timeout_disables_deadline() {
    let lang = Language {
        name: "lua".to_string(),
        code_before: None,
        code_after: None,
        timeout: Some(9),
        backend: Backend::Network(NetworkBackend {
            network_addr: "127.0.0.1:9000".to_string(),
            timeout_cmdline: None,
        }),
    };
    match eval(&lang, "hi", Some(0), None).unwrap() {
        Eval::Persistent { target, req, deadline, kill_cmdline } => {
            assert_eq!(target, Target::Tcp("127.0.0.1:9000".to_string()));
            assert_eq!(req.timeout_ms, 0);
            assert_eq!(req.context, Vec::<u8>::new());
            assert_eq!(deadline, None);
            assert_eq!(kill_cmdline, None);
        }
        other => panic!("wrong plan: {:?}", other),
    }
}
