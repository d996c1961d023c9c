use base64::Engine;
use hmac::{KeyInit, Mac};
use oxifuzz::config::HttpMethod;
use oxifuzz::errors::Error;
use oxifuzz::jwt::{Jwt, Signature};
use oxifuzz::rng::Rand;
use oxifuzz::runner::{CommandRunner, CommandRunnerKind, RunStep, RunnerAction, RunnerEvent};
use oxifuzz::transform::Context;

fn plain_ctx(words: Vec<Vec<u8>>, dry_run: bool) -> Context {
    Context {
        words,
        target: Default::default(),
        expect: vec![],
        runner: None,
        dry_run,
    }
}

#[test]
fn http_dry_run_renders_url_headers_and_payload() {
    let runner = CommandRunner {
        kind: CommandRunnerKind::Http {
            url: b"http://x/a".to_vec(),
            headers: vec![b"H:V".to_vec()],
            method: HttpMethod::Get,
            no_headers: false,
            timeout: 30,
            cmd_arg_target: b"OXIFUZZ".to_vec(),
        },
    };
    let ctx = plain_ctx(vec![], true);
    let mut rand = Rand::from_seed(1);
    match runner.run(&ctx, &b"P".to_vec(), &mut rand).unwrap() {
        RunStep::Done { exit_code, out } => {
            assert_eq!(exit_code, None);
            assert_eq!(out, b"http://x/a\n\nH:V\n\n\nP".to_vec());
        }
        RunStep::Pending(_) => panic!("dry run must complete in place"),
    }
}

#[test]
fn http_live_prepares_request_with_user_agent() {
    let runner = CommandRunner {
        kind: CommandRunnerKind::Http {
            url: b"http://x/a".to_vec(),
            headers: vec![b"H:V".to_vec(), b"NoColon".to_vec()],
            method: HttpMethod::Post,
            no_headers: false,
            timeout: 77,
            cmd_arg_target: b"OXIFUZZ".to_vec(),
        },
    };
    let ctx = plain_ctx(vec![], false);
    let mut rand = Rand::from_seed(1);
    match runner.run(&ctx, &b"BODY".to_vec(), &mut rand).unwrap() {
        RunStep::Pending(RunnerAction::Http {
            url,
            method,
            headers,
            timeout,
            body,
        }) => {
            assert_eq!(url, b"http://x/a".to_vec());
            assert_eq!(method, HttpMethod::Post);
            assert_eq!(timeout, 77);
            assert_eq!(body, b"BODY".to_vec());
            assert_eq!(headers.len(), 3);
            assert_eq!(headers[0], (b"User-Agent".to_vec(), b"oxifuzz/0.1".to_vec()));
            assert_eq!(headers[1], (b"H".to_vec(), b"V".to_vec()));
            assert_eq!(headers[2], (b"NoColon".to_vec(), b"".to_vec()));
        }
        _ => panic!("a live HTTP run must hand out the prepared request"),
    }
}

#[test]
fn http_response_is_assembled_with_headers() {
    let runner = CommandRunner {
        kind: CommandRunnerKind::Http {
            url: b"http://x/a".to_vec(),
            headers: vec![],
            method: HttpMethod::Get,
            no_headers: false,
            timeout: 30,
            cmd_arg_target: b"OXIFUZZ".to_vec(),
        },
    };
    let ctx = plain_ctx(vec![], false);
    let res = runner
        .resume_and_expect(
            &ctx,
            RunnerEvent::Http {
                status: 200,
                headers: vec![(b"a".to_vec(), b"b".to_vec())],
                body: b"BODY".to_vec(),
            },
        )
        .unwrap();
    assert_eq!(res.out, b"200\na:b\n\n\nBODY".to_vec());
    assert_eq!(res.exit_code, oxifuzz::transform::ExitCodes::RunnerFailed);

    let no_headers_runner = CommandRunner {
        kind: CommandRunnerKind::Http {
            url: b"http://x/a".to_vec(),
            headers: vec![],
            method: HttpMethod::Get,
            no_headers: true,
            timeout: 30,
            cmd_arg_target: b"OXIFUZZ".to_vec(),
        },
    };
    let res = no_headers_runner
        .resume_and_expect(
            &ctx,
            RunnerEvent::Http {
                status: 200,
                headers: vec![(b"a".to_vec(), b"b".to_vec())],
                body: b"BODY".to_vec(),
            },
        )
        .unwrap();
    assert_eq!(res.out, b"BODY".to_vec());
}

#[test]
fn shell_dry_run_renders_fuzzed_command_line() {
    let runner = CommandRunner {
        kind: CommandRunnerKind::Shell {
            cmd: b"echo".to_vec(),
            cmd_args: vec![b"X-OXIFUZZ".to_vec()],
            cmd_arg_target: b"OXIFUZZ".to_vec(),
            no_stdin: false,
        },
    };
    let ctx = plain_ctx(vec![b"W".to_vec()], true);
    let mut rand = Rand::from_seed(1);
    match runner.run(&ctx, &b"DATA".to_vec(), &mut rand).unwrap() {
        RunStep::Done { exit_code, out } => {
            assert_eq!(exit_code, None);
            assert_eq!(out, b"echo X-WDATA".to_vec());
        }
        RunStep::Pending(_) => panic!("dry run must complete in place"),
    }
}

#[test]
fn shell_live_prepares_invocation() {
    let runner = CommandRunner {
        kind: CommandRunnerKind::Shell {
            cmd: b"cat".to_vec(),
            cmd_args: vec![b"-A".to_vec()],
            cmd_arg_target: b"OXIFUZZ".to_vec(),
            no_stdin: false,
        },
    };
    let ctx = plain_ctx(vec![], false);
    let mut rand = Rand::from_seed(1);
    match runner.run(&ctx, &b"stdin data".to_vec(), &mut rand).unwrap() {
        RunStep::Pending(RunnerAction::Shell { cmd, args, stdin }) => {
            assert_eq!(cmd, b"cat".to_vec());
            assert_eq!(args, vec![b"-A".to_vec()]);
            assert_eq!(stdin, Some(b"stdin data".to_vec()));
        }
        _ => panic!("a live shell run must hand out the prepared invocation"),
    }
}

#[test]
fn shell_stdout_is_trimmed() {
    let runner = CommandRunner {
        kind: CommandRunnerKind::Shell {
            cmd: b"echo".to_vec(),
            cmd_args: vec![],
            cmd_arg_target: b"OXIFUZZ".to_vec(),
            no_stdin: false,
        },
    };
    let ctx = plain_ctx(vec![], false);
    let res = runner
        .resume_and_expect(
            &ctx,
            RunnerEvent::Shell {
                exit_code: Some(0),
                stdout: String::from("out\n"),
            },
        )
        .unwrap();
    assert_eq!(res.out, b"out".to_vec());
    assert_eq!(res.exit_code, oxifuzz::transform::ExitCodes::Success);

    // Only one trailing newline is removed: trailing spaces stay, and a
    // second newline stays.
    let res = runner
        .resume_and_expect(
            &ctx,
            RunnerEvent::Shell {
                exit_code: Some(0),
                stdout: String::from("out \n"),
            },
        )
        .unwrap();
    assert_eq!(res.out, b"out ".to_vec());
    let res = runner
        .resume_and_expect(
            &ctx,
            RunnerEvent::Shell {
                exit_code: Some(0),
                stdout: String::from("out\n\n"),
            },
        )
        .unwrap();
    assert_eq!(res.out, b"out\n".to_vec());
}

#[test]
fn non_utf8_pool_word_is_substituted_lossily() {
    // Auxiliary substitution inserts the lossy decoding of the word: an
    // invalid byte becomes the replacement character.
    let runner = CommandRunner {
        kind: CommandRunnerKind::Shell {
            cmd: b"c".to_vec(),
            cmd_args: vec![b"OXIFUZZ".to_vec()],
            cmd_arg_target: b"OXIFUZZ".to_vec(),
            no_stdin: true,
        },
    };
    let ctx = plain_ctx(vec![vec![0xFF]], true);
    let mut rand = Rand::from_seed(1);
    match runner.run(&ctx, &b"".to_vec(), &mut rand).unwrap() {
        RunStep::Done { out, .. } => {
            assert_eq!(out, b"c \xEF\xBF\xBD".to_vec());
        }
        RunStep::Pending(_) => panic!("dry run must complete in place"),
    }
}

#[test]
fn jwt_hmac_token_matches_manual_construction() {
    let header = b"{\"alg\":\"HS256\"}".to_vec();
    let runner = CommandRunner {
        kind: CommandRunnerKind::Jwt(Jwt {
            header: header.clone(),
            signature: Signature::HmacSha256 {
                secret: b"k".to_vec(),
            },
            cmd_arg_target: b"OXIFUZZ".to_vec(),
        }),
    };
    let ctx = plain_ctx(vec![], false);
    let mut rand = Rand::from_seed(1);
    let out = match runner.run(&ctx, &b"{}".to_vec(), &mut rand).unwrap() {
        RunStep::Done { exit_code, out } => {
            assert_eq!(exit_code, None);
            out
        }
        RunStep::Pending(_) => panic!("the JWT runner completes in place"),
    };

    let engine = base64::engine::general_purpose::URL_SAFE_NO_PAD;
    let eh = engine.encode(&header);
    let ep = engine.encode(b"{}");
    let signing_input = format!("{eh}.{ep}");
    let mut mac = hmac::Hmac::<sha2::Sha256>::new_from_slice(b"k").unwrap();
    mac.update(signing_input.as_bytes());
    let sig = engine.encode(mac.finalize().into_bytes());
    let expected = format!("{signing_input}.{sig}");
    assert_eq!(out, expected.into_bytes());

    let text = String::from_utf8(out).unwrap();
    assert_eq!(text.split('.').count(), 3);
}

#[test]
fn jwt_unsigned_token_has_two_segments() {
    let runner = CommandRunner {
        kind: CommandRunnerKind::Jwt(Jwt {
            header: b"{}".to_vec(),
            signature: Signature::Unsigned,
            cmd_arg_target: b"OXIFUZZ".to_vec(),
        }),
    };
    let ctx = plain_ctx(vec![], false);
    let mut rand = Rand::from_seed(1);
    let out = match runner.run(&ctx, &b"payload".to_vec(), &mut rand).unwrap() {
        RunStep::Done { out, .. } => out,
        RunStep::Pending(_) => panic!("the JWT runner completes in place"),
    };
    let text = String::from_utf8(out).unwrap();
    assert_eq!(text.split('.').count(), 2);
    assert!(!text.ends_with('.'));
}

#[test]
fn jwt_segments_agree_with_base64_for_every_tail_length() {
    // Payloads of every length modulo three exercise the one- and
    // two-byte tails of the unpadded encoding.
    let engine = base64::engine::general_purpose::URL_SAFE_NO_PAD;
    for payload in [&b"a"[..], &b"ab"[..], &b"abc"[..], &b"abcd"[..]] {
        let runner = CommandRunner {
            kind: CommandRunnerKind::Jwt(Jwt {
                header: b"h".to_vec(),
                signature: Signature::Unsigned,
                cmd_arg_target: b"OXIFUZZ".to_vec(),
            }),
        };
        let ctx = plain_ctx(vec![], false);
        let mut rand = Rand::from_seed(1);
        let out = match runner.run(&ctx, &payload.to_vec(), &mut rand).unwrap() {
            RunStep::Done { out, .. } => out,
            RunStep::Pending(_) => panic!("the JWT runner completes in place"),
        };
        let expected = format!("{}.{}", engine.encode(b"h"), engine.encode(payload));
        assert_eq!(out, expected.into_bytes());
    }
}

#[test]
fn runner_reports_whether_it_draws_from_the_pool() {
    let kind = CommandRunnerKind::Shell {
        cmd: b"c".to_vec(),
        cmd_args: vec![b"plain".to_vec(), b"X-OXIFUZZ".to_vec()],
        cmd_arg_target: b"OXIFUZZ".to_vec(),
        no_stdin: false,
    };
    assert!(kind.needs_pool_words());
    let kind = CommandRunnerKind::Http {
        url: b"http://x".to_vec(),
        headers: vec![b"H:V".to_vec()],
        method: HttpMethod::Get,
        no_headers: false,
        timeout: 30,
        cmd_arg_target: b"OXIFUZZ".to_vec(),
    };
    assert!(!kind.needs_pool_words());
    assert!(!CommandRunnerKind::Output.needs_pool_words());
}

#[test]
fn jwt_rs256_signing_is_deterministic_for_rsa_keys() {
    let rsa = openssl::rsa::Rsa::generate(2048).unwrap();
    let pem = rsa.private_key_to_pem().unwrap();
    let run_once = || {
        let runner = CommandRunner {
            kind: CommandRunnerKind::Jwt(Jwt {
                header: b"{}".to_vec(),
                signature: Signature::Rs256 {
                    key_pair: pem.clone(),
                },
                cmd_arg_target: b"OXIFUZZ".to_vec(),
            }),
        };
        let ctx = plain_ctx(vec![], false);
        let mut rand = Rand::from_seed(1);
        match runner.run(&ctx, &b"{}".to_vec(), &mut rand).unwrap() {
            RunStep::Done { out, .. } => out,
            RunStep::Pending(_) => panic!("the JWT runner completes in place"),
        }
    };
    let first = run_once();
    let second = run_once();
    assert_eq!(first, second);
    assert_eq!(String::from_utf8(first).unwrap().split('.').count(), 3);
}

#[test]
fn jwt_rs256_rejects_a_non_rsa_key() {
    // An EC key parses as a PEM private key, but its signature scheme is
    // randomized, so the runner must reject it.
    let group =
        openssl::ec::EcGroup::from_curve_name(openssl::nid::Nid::X9_62_PRIME256V1).unwrap();
    let ec = openssl::ec::EcKey::generate(&group).unwrap();
    let pem = ec.private_key_to_pem().unwrap();
    let runner = CommandRunner {
        kind: CommandRunnerKind::Jwt(Jwt {
            header: b"{}".to_vec(),
            signature: Signature::Rs256 { key_pair: pem },
            cmd_arg_target: b"OXIFUZZ".to_vec(),
        }),
    };
    let ctx = plain_ctx(vec![], false);
    let mut rand = Rand::from_seed(1);
    let res = runner.run(&ctx, &b"{}".to_vec(), &mut rand);
    assert_eq!(res.err(), Some(Error::Crypto));
}

#[test]
fn jwt_rs256_rejects_a_bad_key() {
    let runner = CommandRunner {
        kind: CommandRunnerKind::Jwt(Jwt {
            header: b"{}".to_vec(),
            signature: Signature::Rs256 {
                key_pair: b"not a pem key".to_vec(),
            },
            cmd_arg_target: b"OXIFUZZ".to_vec(),
        }),
    };
    let ctx = plain_ctx(vec![], false);
    let mut rand = Rand::from_seed(1);
    let res = runner.run(&ctx, &b"{}".to_vec(), &mut rand);
    assert_eq!(res.err(), Some(Error::Crypto));
}

#[test]
fn wrong_runner_kind_is_rejected() {
    let ctx = plain_ctx(vec![], false);
    let mut rand = Rand::from_seed(1);
    let r = oxifuzz::runner::output_command_runner(
        &ctx,
        &CommandRunnerKind::Disabled,
        &b"x".to_vec(),
        &mut rand,
    );
    assert_eq!(r.err(), Some(Error::UnsupportedCommandRunner));
}
