use oxifuzz::config::{Config, RunnerKindConfig};
use oxifuzz::errors::Error;
use oxifuzz::expect::Expect;
use oxifuzz::rng::Rand;
use oxifuzz::runner::{CommandRunner, CommandRunnerKind};
use oxifuzz::transform::{Context, ContextIter, OutputFmt};

fn no_color_cfg(raw: bool) -> Config {
    let mut cfg = Config::new();
    cfg.raw = raw;
    cfg.no_color = true;
    cfg
}

#[test]
fn pretty_formatter_renders_expected_lines() {
    // The rendering of two classified results, colours disabled.
    let mut it = ContextIter {
        input: b"{12: OXIFUZZ}".to_vec(),
        count: 0,
        n_run: 2,
        rand: Rand::from_seed(1),
        ctx: Context {
            words: vec![b"123".to_vec(), b"45".to_vec(), b"abc".to_vec()],
            target: Default::default(),
            expect: vec![Expect::Equals(b"{12: abc}".to_vec())],
            runner: Some(CommandRunner {
                kind: CommandRunnerKind::Output,
            }),
            dry_run: false,
        },
    };
    let results = it.collect_results().unwrap();
    let cfg = no_color_cfg(false);
    let mut buffer: Vec<u8> = Vec::new();
    for res in &results {
        if let Some(mut line) = Context::output(&cfg, &res.out, &res.fmt) {
            buffer.append(&mut line);
        }
    }
    assert_eq!(buffer, b"+ {12: abc}\n- {12: 45}\n".to_vec());
}

#[test]
fn raw_mode_suppresses_non_matching_results() {
    let cfg = no_color_cfg(true);
    assert_eq!(
        Context::output(&cfg, &b"keep".to_vec(), &OutputFmt::Plain),
        Some(b"keep".to_vec())
    );
    assert_eq!(
        Context::output(&cfg, &b"keep".to_vec(), &OutputFmt::Expected),
        Some(b"keep".to_vec())
    );
    assert_eq!(
        Context::output(&cfg, &b"drop".to_vec(), &OutputFmt::NotExpected),
        None
    );
}

#[test]
fn raw_run_emits_only_matching_outputs() {
    // Three runs in raw mode; the expectation fails on one of them, and
    // that result is omitted while the others pass through as raw bytes
    // with no newline added.
    let mut it = ContextIter {
        input: b"{12: OXIFUZZ}".to_vec(),
        count: 0,
        n_run: 3,
        rand: Rand::from_seed(1),
        ctx: Context {
            words: vec![b"123".to_vec(), b"45".to_vec(), b"abc".to_vec()],
            target: Default::default(),
            expect: vec![Expect::Len(9)],
            runner: Some(CommandRunner {
                kind: CommandRunnerKind::Output,
            }),
            dry_run: false,
        },
    };
    let results = it.collect_results().unwrap();
    assert_eq!(results.len(), 3);
    assert_eq!(
        results
            .iter()
            .filter(|r| r.fmt == OutputFmt::NotExpected)
            .count(),
        1
    );
    let cfg = no_color_cfg(true);
    let mut buffer: Vec<u8> = Vec::new();
    let mut emitted: usize = 0;
    for res in &results {
        if let Some(mut line) = oxifuzz::transform::Context::output(&cfg, &res.out, &res.fmt) {
            assert_eq!(&line, &res.out);
            emitted += 1;
            buffer.append(&mut line);
        }
    }
    assert_eq!(emitted, 2);
    assert_eq!(buffer, b"{12: abc}{12: 123}".to_vec());
}

#[test]
fn plain_rendering_appends_one_newline() {
    let cfg = no_color_cfg(false);
    assert_eq!(
        Context::output(&cfg, &b"body".to_vec(), &OutputFmt::Plain),
        Some(b"body\n".to_vec())
    );
}

#[test]
fn default_config_values() {
    let cfg = Config::new();
    assert_eq!(cfg.target, b"OXIFUZZ".to_vec());
    assert_eq!(cfg.exec_target, b"OXIFUZZ".to_vec());
    assert_eq!(cfg.n_run, 1);
    assert_eq!(cfg.n_thread, 1);
    assert_eq!(cfg.word_list_term, b"\n".to_vec());
    assert_eq!(cfg.seed, None);
    assert!(!cfg.raw && !cfg.no_color && !cfg.dry_run);
}

#[test]
fn words_are_collected_in_order() {
    let mut cfg = Config::new();
    cfg.word = vec![b"w1".to_vec()];
    cfg.escaped_words = vec![b"w2".to_vec()];
    cfg.word_lists = vec![b"a\nb".to_vec(), b"c\n".to_vec()];
    cfg.word_files = vec![b"whole file".to_vec()];
    let words = cfg.words();
    assert_eq!(
        words,
        vec![
            b"w1".to_vec(),
            b"w2".to_vec(),
            b"a".to_vec(),
            b"b".to_vec(),
            b"c".to_vec(),
            b"".to_vec(),
            b"whole file".to_vec(),
        ]
    );
}

#[test]
fn word_list_with_custom_terminator() {
    let mut cfg = Config::new();
    cfg.word_list_term = b"--".to_vec();
    cfg.word_lists = vec![b"x--y--z".to_vec()];
    assert_eq!(cfg.words(), vec![b"x".to_vec(), b"y".to_vec(), b"z".to_vec()]);
}

#[test]
fn empty_terminator_splits_between_every_byte() {
    let mut cfg = Config::new();
    cfg.word_list_term = Vec::new();
    cfg.word_lists = vec![b"ab".to_vec()];
    assert_eq!(
        cfg.words(),
        vec![b"".to_vec(), b"a".to_vec(), b"b".to_vec(), b"".to_vec()]
    );
}

#[test]
fn cmd_splits_the_exec_string() {
    let mut cfg = Config::new();
    cfg.exec_cmd = Some(String::from("echo -n 'a b'"));
    assert_eq!(cfg.cmd().unwrap(), Some(b"echo".to_vec()));
    assert_eq!(
        cfg.cmd_args().unwrap(),
        Some(vec![b"-n".to_vec(), b"a b".to_vec()])
    );

    cfg.exec_cmd = None;
    assert_eq!(cfg.cmd().unwrap(), None);

    cfg.exec_cmd = Some(String::from("'unterminated"));
    assert_eq!(cfg.cmd().err(), Some(Error::ArgError));
    assert_eq!(cfg.cmd_args().err(), Some(Error::ArgError));
}

#[test]
fn rand_selection_follows_config() {
    let mut cfg = Config::new();
    cfg.seed = Some(9);
    assert!(matches!(cfg.rand(), Rand::Random(_)));
    cfg.seed = None;
    cfg.random_file = Some(String::from("/dev/urandom"));
    match cfg.rand() {
        Rand::File(reader) => assert_eq!(reader.path, String::from("/dev/urandom")),
        _ => panic!("expected the file-backed variant"),
    }
}

#[test]
fn runner_selection_and_missing_prerequisites() {
    let mut cfg = Config::new();
    // Nothing configured: the automatic choice is the pass-through runner.
    let runner = CommandRunner::from_cfg(&cfg).unwrap().unwrap();
    assert!(matches!(runner.kind, CommandRunnerKind::Output));

    // A forced shell runner without a command is a configuration error.
    cfg.runner = RunnerKindConfig::Shell;
    assert_eq!(
        CommandRunner::from_cfg(&cfg).err(),
        Some(Error::InsufficientRunnerConfiguration)
    );

    // A URL selects the HTTP runner automatically.
    cfg.runner = RunnerKindConfig::Auto;
    cfg.url = Some(b"http://x".to_vec());
    let runner = CommandRunner::from_cfg(&cfg).unwrap().unwrap();
    assert!(matches!(runner.kind, CommandRunnerKind::Http { .. }));

    // A JWT runner without a secret for its algorithm is rejected.
    cfg.url = None;
    cfg.runner = RunnerKindConfig::Jwt;
    cfg.jwt_header = Some(b"{}".to_vec());
    cfg.jwt_signature = oxifuzz::config::SignatureConfig::HmacSha256;
    assert_eq!(
        CommandRunner::from_cfg(&cfg).err(),
        Some(Error::InsufficientRunnerConfiguration)
    );
    cfg.jwt_secret = Some(b"k".to_vec());
    let runner = CommandRunner::from_cfg(&cfg).unwrap().unwrap();
    assert!(matches!(runner.kind, CommandRunnerKind::Jwt(_)));
}

#[test]
fn select_word_clamps_out_of_range_draws() {
    // The file-backed source's mask-and-add formula can leave the range;
    // the selector clamps to the last word.
    let mut rand = Rand::from_path(String::from("unused"));
    match &mut rand {
        Rand::File(reader) => reader.feed(vec![0xFF; 8]),
        _ => panic!("expected the file-backed variant"),
    }
    let ctx = Context {
        words: vec![b"a".to_vec(), b"b".to_vec()],
        target: Default::default(),
        expect: vec![],
        runner: None,
        dry_run: false,
    };
    let w = ctx.select_word(&mut rand).unwrap();
    assert_eq!(w, &b"b".to_vec());
}

#[test]
fn context_iter_from_cfg_counts_runs() {
    let mut cfg = Config::new();
    cfg.n_run = 2;
    cfg.seed = Some(1);
    cfg.word = vec![b"w".to_vec()];
    let mut it = ContextIter::from_cfg(&cfg, b"no marker".to_vec()).unwrap();
    assert!(matches!(it.rand, Rand::Random(_)));
    let results = it.collect_results().unwrap();
    assert_eq!(results.len(), 2);
    assert_eq!(results[0].out, b"no marker".to_vec());
    assert_eq!(results[1].out, b"no marker".to_vec());
}
