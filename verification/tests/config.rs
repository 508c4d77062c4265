use evalbotlib::{Backend, EvalService, EvalServiceCfg, ExecBackend, LangCfg, UnixSocketBackend};
use evalbotlib::textcfg::print_config;

#[test]
fn test_decode() {
    let toml = r#"
timeout = 20

[languages.rs]
cmdline = ["rustc", "-O"]

[languages.'rs!']
timeout = 0
cmdline = ["rustc", "-O"]
"#;
    println!("{:#?}", EvalService::from_toml(toml).unwrap());
}

#[test]
fn parses_languages_and_defaults_timeouts() {
    let toml = r#"
timeout = 20

[languages.rs]
cmdline = ["rustc", "-O"]

[languages.'rs!']
timeout = 0
cmdline = ["rustc", "-O"]
"#;
    let svc = EvalService::from_toml(toml).unwrap();
    let rs = svc.get("rs").unwrap();
    assert_eq!(rs.name, "rs");
    assert_eq!(rs.timeout, Some(20));
    match &rs.backend {
        Backend::Exec(b) => {
            assert_eq!(b.cmdline, vec!["rustc".to_string(), "-O".to_string()]);
            assert_eq!(b.timeout_prefix, None);
        }
        other => panic!("wrong backend: {:?}", other),
    }
    let raw = svc.get("rs!").unwrap();
    assert_eq!(raw.timeout, Some(0));
    assert!(svc.get("py").is_none());
    assert_eq!(svc.langs().len(), 2);
}

#[test]
fn parses_socket_backend_with_wrappers() {
    let toml = "timeout = 10\n\n[languages.hs]\ncode_before = \"pre\\n\"\ncode_after = \"\\npost\"\nsocket_addr = \"/run/eval.sock\"\ntimeout_cmdline = [\"/bin/kill-helper\", \"-9\"]\n";
    let svc = EvalService::from_toml(toml).unwrap();
    let hs = svc.get("hs").unwrap();
    assert_eq!(hs.code_before.as_deref(), Some("pre\n"));
    assert_eq!(hs.code_after.as_deref(), Some("\npost"));
    assert_eq!(hs.timeout, Some(10));
    match &hs.backend {
        Backend::UnixSocket(b) => {
            assert_eq!(b.socket_addr, "/run/eval.sock");
            assert_eq!(
                b.timeout_cmdline,
                Some(vec!["/bin/kill-helper".to_string(), "-9".to_string()])
            );
        }
        other => panic!("wrong backend: {:?}", other),
    }
}

#[test]
fn accepts_literal_quoted_values_and_escapes() {
    let toml = "timeout = 1\n\n[languages.x]\ncode_before = 'raw $x'\ncode_after = \"tab\\there\\nnl\"\ncmdline = [\"a\"]\n";
    let svc = EvalService::from_toml(toml).unwrap();
    let x = svc.get("x").unwrap();
    assert_eq!(x.code_before.as_deref(), Some("raw $x"));
    assert_eq!(x.code_after.as_deref(), Some("tab\there\nnl"));
}

#[test]
fn parses_network_backend() {
    let toml = "timeout = 2\n\n[languages.n]\nnetwork_addr = \"127.0.0.1:7777\"\n";
    let svc = EvalService::from_toml(toml).unwrap();
    match &svc.get("n").unwrap().backend {
        Backend::Network(b) => {
            assert_eq!(b.network_addr, "127.0.0.1:7777");
            assert_eq!(b.timeout_cmdline, None);
        }
        other => panic!("wrong backend: {:?}", other),
    }
}

#[test]
fn rejects_missing_timeout() {
    assert!(EvalService::from_toml("[languages.rs]\ncmdline = [\"rustc\"]\n").is_err());
}

#[test]
fn parse_errors_name_the_line() {
    let err = EvalService::from_toml("???\n").unwrap_err();
    assert_eq!(err, "could not parse TOML: error at line 1");
    let err = EvalService::from_toml("timeout = 1\n\n[languages.x]\ncmdline = [5]\n").unwrap_err();
    assert_eq!(err, "could not parse TOML: error at line 4");
    let err = EvalService::from_toml("").unwrap_err();
    assert!(err.starts_with("could not parse TOML:"));
}

#[test]
fn accepts_end_of_line_comments() {
    let toml = "timeout = 5 # seconds\n\n[languages.x] # shell\ncmdline = [\"a\"] # argv\n";
    let svc = EvalService::from_toml(toml).unwrap();
    assert_eq!(svc.get("x").unwrap().timeout, Some(5));
}

#[test]
fn rejects_ambiguous_backend() {
    let toml = "timeout = 5\n\n[languages.x]\ncmdline = [\"a\"]\nsocket_addr = \"/s\"\n";
    assert!(EvalService::from_toml(toml).is_err());
}

#[test]
fn rejects_missing_backend() {
    let toml = "timeout = 5\n\n[languages.x]\ntimeout = 3\n";
    assert!(EvalService::from_toml(toml).is_err());
}

#[test]
fn rejects_duplicate_language() {
    let toml = "timeout = 5\n\n[languages.x]\ncmdline = [\"a\"]\n\n[languages.x]\ncmdline = [\"b\"]\n";
    assert!(EvalService::from_toml(toml).is_err());
}

#[test]
fn rejects_unknown_key() {
    let toml = "timeout = 5\n\n[languages.x]\ncmdline = [\"a\"]\nnonsense = \"y\"\n";
    assert!(EvalService::from_toml(toml).is_err());
}

#[test]
fn accepts_comments_and_crlf() {
    let toml = "# broker config\r\ntimeout = 5\r\n\r\n[languages.x]\r\ncmdline = [\"a\"]\r\n";
    let svc = EvalService::from_toml(toml).unwrap();
    assert!(svc.get("x").is_some());
}

fn sample_cfg() -> EvalServiceCfg {
    EvalServiceCfg {
        timeout: 20,
        languages: vec![
            (
                "rs!".to_string(),
                LangCfg {
                    code_before: Some("fn main() {\n".to_string()),
                    code_after: Some("\n}".to_string()),
                    timeout: Some(0),
                    backend: Backend::Exec(ExecBackend {
                        cmdline: vec!["rustc".to_string(), "{TIMEOUT}".to_string()],
                        timeout_prefix: Some("--time=".to_string()),
                    }),
                },
            ),
            (
                "lua".to_string(),
                LangCfg {
                    code_before: None,
                    code_after: None,
                    timeout: None,
                    backend: Backend::UnixSocket(UnixSocketBackend {
                        socket_addr: "/run/\"odd\"/eval.sock".to_string(),
                        timeout_cmdline: Some(vec!["/bin/true".to_string()]),
                    }),
                },
            ),
        ],
    }
}

#[test]
fn print_then_parse_round_trips() {
    let cfg = sample_cfg();
    let text = print_config(&cfg);
    let svc = EvalService::from_toml(&text).unwrap();
    let rs = svc.get("rs!").unwrap();
    assert_eq!(rs.code_before.as_deref(), Some("fn main() {\n"));
    assert_eq!(rs.code_after.as_deref(), Some("\n}"));
    assert_eq!(rs.timeout, Some(0));
    match &rs.backend {
        Backend::Exec(b) => {
            assert_eq!(b.cmdline, vec!["rustc".to_string(), "{TIMEOUT}".to_string()]);
            assert_eq!(b.timeout_prefix.as_deref(), Some("--time="));
        }
        other => panic!("wrong backend: {:?}", other),
    }
    let lua = svc.get("lua").unwrap();
    assert_eq!(lua.timeout, Some(20));
    match &lua.backend {
        Backend::UnixSocket(b) => {
            assert_eq!(b.socket_addr, "/run/\"odd\"/eval.sock");
            assert_eq!(b.timeout_cmdline, Some(vec!["/bin/true".to_string()]));
        }
        other => panic!("wrong backend: {:?}", other),
    }
}

#[test]
fn printed_form_is_canonical() {
    let cfg = EvalServiceCfg {
        timeout: 7,
        languages: vec![(
            "sh".to_string(),
            LangCfg {
                code_before: None,
                code_after: None,
                timeout: None,
                backend: Backend::Exec(ExecBackend {
                    cmdline: vec!["/bin/sh".to_string(), "-c".to_string()],
                    timeout_prefix: None,
                }),
            },
        )],
    };
    let text = print_config(&cfg);
    assert_eq!(
        text,
        "timeout = 7\n\n[languages.sh]\ncmdline = [\"/bin/sh\", \"-c\"]\n"
    );
}
