use kero::boundary::bubblewrap::{self, BubblewrapError, CommandSpec};
use kero::boundary::git_push::{self, GitPushError, PushSpec};
use kero::boundary::https_service::{self, HttpsError, HttpsSpec};
use kero::boundary::output::{accept_output, decimal_text, ChildEnd, Timeout};
use kero::result::Capability;

fn s(x: &str) -> String {
    x.to_string()
}

fn command() -> CommandSpec {
    CommandSpec {
        argv: vec![s("/bin/echo"), s("fixture")],
        working_directory: s("/"),
        environment: Vec::new(),
        timeout: Timeout { secs: 1, nanos: 0 },
        output_limit: 64,
    }
}

#[test]
fn absent_bubblewrap_is_a_capability_failure() {
    assert!(matches!(bubblewrap::prepare(&command(), false), Err(BubblewrapError::Unavailable)));
}

#[test]
fn credential_environment_and_non_absolute_workdir_are_rejected() {
    let mut unsafe_environment = command();
    unsafe_environment.environment.push((s("API_TOKEN"), s("secret")));
    assert!(matches!(bubblewrap::prepare(&unsafe_environment, false), Err(BubblewrapError::Invalid)));
    let mut unsafe_directory = command();
    unsafe_directory.working_directory = s("relative");
    assert!(matches!(bubblewrap::prepare(&unsafe_directory, false), Err(BubblewrapError::Invalid)));
}

#[test]
fn rejects_unsafe_or_unbounded_specs() {
    let spec = CommandSpec {
        argv: vec![s("/bin/echo")],
        working_directory: s("/"),
        environment: vec![(s("API_TOKEN"), s("x"))],
        timeout: Timeout { secs: 1, nanos: 0 },
        output_limit: 64,
    };
    assert!(matches!(bubblewrap::prepare(&spec, false), Err(BubblewrapError::Invalid)));
    let mut empty = command();
    empty.argv.clear();
    assert!(bubblewrap::validate(&empty).is_err());
    let mut zero = command();
    zero.timeout = Timeout { secs: 0, nanos: 0 };
    assert!(bubblewrap::validate(&zero).is_err());
    let mut unlimited = command();
    unlimited.output_limit = 0;
    assert!(bubblewrap::validate(&unlimited).is_err());
    let mut nul = command();
    nul.argv.push(s("a\0b"));
    assert!(bubblewrap::validate(&nul).is_err());
    let mut password = command();
    password.environment.push((s("DB_PASSWORD"), s("x")));
    assert!(bubblewrap::validate(&password).is_err());
}

#[test]
fn sandbox_arguments_isolate_the_command() {
    let mut spec = command();
    spec.environment.push((s("LANG"), s("C")));
    let args = bubblewrap::prepare(&spec, true).unwrap();
    assert_eq!(
        args,
        vec![
            "--die-with-parent", "--new-session", "--unshare-all", "--unshare-net", "--ro-bind", "/", "/",
            "--tmpfs", "/tmp", "--clearenv", "--chdir", "/", "--setenv", "LANG", "C", "/bin/echo", "fixture",
        ]
    );
    assert_eq!(bubblewrap::capability(true), Capability::Can);
    assert_eq!(bubblewrap::capability(false), Capability::Cannot);
}

#[test]
fn finished_sandbox_runs_report_output_overflow_and_timeout() {
    assert_eq!(bubblewrap::finish(ChildEnd::Exited { success: false }, b"out".to_vec(), false).unwrap(), b"out");
    assert!(matches!(
        bubblewrap::finish(ChildEnd::Exited { success: true }, Vec::new(), true),
        Err(BubblewrapError::Overflow)
    ));
    assert!(matches!(bubblewrap::finish(ChildEnd::TimedOut, Vec::new(), false), Err(BubblewrapError::Timeout)));
    assert_eq!(BubblewrapError::Overflow.message(), "sandbox.output-overflow");
}

fn push(worktree_is_dir: bool, refspec: &str) -> (PushSpec, bool) {
    (
        PushSpec {
            worktree: s("/repo"),
            remote: s("origin"),
            refspec: s(refspec),
            timeout: Timeout { secs: 1, nanos: 0 },
        },
        worktree_is_dir,
    )
}

#[test]
fn unavailable_git_is_a_capability_result_not_a_push_attempt() {
    let (spec, dir) = push(true, "refs/heads/main");
    assert!(matches!(git_push::prepare(&spec, dir, false), Err(GitPushError::Unavailable)));
}

#[test]
fn unsafe_refspecs_and_missing_worktrees_fail_closed() {
    for refspec in ["+refs/heads/main", "refs/heads/*", "refs/heads/main:other"] {
        let (spec, dir) = push(true, refspec);
        assert!(matches!(git_push::prepare(&spec, dir, false), Err(GitPushError::Invalid)));
    }
    let (spec, dir) = push(false, "refs/heads/main");
    assert!(matches!(git_push::prepare(&spec, dir, false), Err(GitPushError::Invalid)));
}

#[test]
fn rejects_force_deletion_and_wildcard_refspecs() {
    let base = PushSpec {
        worktree: s("/repo"),
        remote: s("https://example.invalid/repo.git"),
        refspec: s("refs/heads/main"),
        timeout: Timeout { secs: 1, nanos: 0 },
    };
    git_push::validate(&base, true).unwrap();
    for refspec in ["+refs/heads/main", "refs/heads/*", "refs/heads/main:refs/heads/main", "refs/heads/delete"] {
        assert!(
            git_push::validate(&PushSpec { refspec: s(refspec), ..base.clone() }, true).is_err(),
            "accepted {refspec}"
        );
    }
}

#[test]
fn push_command_disables_ambient_helpers() {
    let (spec, dir) = push(true, "refs/heads/main");
    let (env, args) = git_push::prepare(&spec, dir, true).unwrap();
    assert_eq!(
        env,
        vec![
            (s("GIT_CONFIG_NOSYSTEM"), s("1")),
            (s("GIT_TERMINAL_PROMPT"), s("0")),
            (s("GIT_ASKPASS"), s("/bin/false")),
        ]
    );
    assert_eq!(
        args,
        vec!["-c", "core.hooksPath=/dev/null", "-c", "credential.helper=", "push", "origin", "refs/heads/main"]
    );
    assert!(git_push::finish(ChildEnd::Exited { success: true }).is_ok());
    assert!(matches!(git_push::finish(ChildEnd::Exited { success: false }), Err(GitPushError::Nonzero)));
    assert!(matches!(git_push::finish(ChildEnd::TimedOut), Err(GitPushError::Timeout)));
    assert_eq!(GitPushError::Invalid.message(), "git.push-invalid");
}

fn https_base() -> HttpsSpec {
    let body = b"fixture".to_vec();
    HttpsSpec {
        url: s("https://service.example/v1"),
        method: s("POST"),
        headers: vec![s("content-type: text/plain")],
        body_digest: kero::crypto::sha256(&body),
        body,
        hostname: s("service.example"),
        address: s("127.0.0.1"),
        timeout: Timeout { secs: 1, nanos: 0 },
        response_limit: 1024,
        ca_file: s("/ca.pem"),
    }
}

#[test]
fn https_service_rejects_non_https_userinfo_fragments_and_body_tamper() {
    let base = https_base();
    https_service::validate(&base, true).unwrap();
    for url in [
        "http://service.example/v1",
        "https://user@service.example/v1",
        "https://service.example/v1#fragment",
        "https://service.example.attacker/v1",
        "https://service.example:8443/v1",
    ] {
        assert!(https_service::validate(&HttpsSpec { url: s(url), ..base.clone() }, true).is_err(), "accepted {url}");
    }
    assert!(https_service::validate(&HttpsSpec { body_digest: s("sha256:wrong"), ..base }, true).is_err());
}

#[test]
fn proxy_redirect_and_ambiguous_url_inputs_fail_closed() {
    let base = https_base();
    for header in ["Proxy-Authorization: x", "x-a: b\r\nHost: evil", "x: y\n"] {
        assert!(matches!(
            https_service::prepare(&HttpsSpec { headers: vec![s(header)], ..base.clone() }, true, true),
            Err(HttpsError::Invalid)
        ));
    }
    assert!(matches!(
        https_service::prepare(&HttpsSpec { url: s("https://service.example/v1?q=1"), ..base.clone() }, true, true),
        Err(HttpsError::Invalid)
    ));
    assert!(matches!(https_service::prepare(&base, false, true), Err(HttpsError::Invalid)));
}

#[test]
fn unavailable_curl_is_a_capability_failure() {
    assert!(matches!(https_service::prepare(&https_base(), true, false), Err(HttpsError::Unavailable)));
}

#[test]
fn curl_arguments_pin_the_destination() {
    let args = https_service::prepare(&https_base(), true, true).unwrap();
    assert_eq!(
        args,
        vec![
            "-q", "--fail-with-body", "--silent", "--show-error", "--noproxy", "*", "--no-netrc", "--proxy", "",
            "--max-redirs", "0", "--proto", "=https", "--connect-timeout", "1", "--max-time", "1", "--cacert",
            "/ca.pem", "--resolve", "service.example:443:127.0.0.1", "-X", "POST", "-H",
            "content-type: text/plain", "--data-binary", "@-", "https://service.example/v1",
        ]
    );
}

#[test]
fn finished_requests_report_status_overflow_and_timeout() {
    assert_eq!(https_service::finish(ChildEnd::Exited { success: true }, b"ok".to_vec(), false).unwrap(), b"ok");
    assert!(matches!(
        https_service::finish(ChildEnd::Exited { success: false }, Vec::new(), false),
        Err(HttpsError::Nonzero)
    ));
    assert!(matches!(
        https_service::finish(ChildEnd::Exited { success: true }, Vec::new(), true),
        Err(HttpsError::Overflow)
    ));
    assert!(matches!(https_service::finish(ChildEnd::TimedOut, Vec::new(), false), Err(HttpsError::Timeout)));
}

#[test]
fn output_is_held_to_its_limit() {
    let mut out = Vec::new();
    assert!(!accept_output(&mut out, b"abc", 5));
    assert!(accept_output(&mut out, b"defg", 5));
    assert_eq!(out, b"abcde");
    assert!(accept_output(&mut out, b"x", 5));
    assert_eq!(out, b"abcde");
    assert_eq!(decimal_text(0), "0");
    assert_eq!(decimal_text(30), "30");
    assert_eq!(decimal_text(u64::MAX), u64::MAX.to_string());
}

fn https_get(timeout: Timeout) -> HttpsSpec {
    let body = Vec::new();
    HttpsSpec {
        url: s("https://service.example/"),
        method: s("GET"),
        headers: Vec::new(),
        body_digest: kero::crypto::sha256(&body),
        body,
        hostname: s("service.example"),
        address: s("127.0.0.1"),
        timeout,
        response_limit: 1024,
        ca_file: s("/ca.pem"),
    }
}

#[test]
fn nonzero_curl_exit_is_reported_as_a_boundary_failure() {
    let spec = https_get(Timeout { secs: 1, nanos: 0 });
    assert!(https_service::prepare(&spec, true, true).is_ok());
    assert!(matches!(
        https_service::finish(ChildEnd::Exited { success: false }, Vec::new(), false),
        Err(HttpsError::Nonzero)
    ));
}

#[test]
fn broker_enforces_timeout_when_curl_ignores_its_flags() {
    let spec = https_get(Timeout { secs: 0, nanos: 20_000_000 });
    assert!(https_service::prepare(&spec, true, true).is_ok());
    assert!(matches!(https_service::finish(ChildEnd::TimedOut, Vec::new(), false), Err(HttpsError::Timeout)));
}
