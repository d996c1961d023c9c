use oxifuzz::expect::Expect;
use oxifuzz::rng::Rand;
use oxifuzz::runner::{CommandRunner, CommandRunnerKind};
use oxifuzz::transform::{fold_exit_codes, Context, ContextIter, ExecRes, ExitCodes, OutputFmt, Target};

fn assert_apply(input: &str, expected: Vec<ExecRes>, n_run: u32, expect: Option<Expect>) {
    let mut ctx = ContextIter {
        input: input.bytes().collect(),
        count: 0,
        n_run,
        rand: Rand::from_seed(1),
        ctx: Context {
            words: vec![b"123".to_vec(), b"45".to_vec(), b"abc".to_vec()],
            target: Default::default(),
            expect: if let Some(expect) = expect {
                vec![expect]
            } else {
                vec![]
            },
            runner: Some(CommandRunner {
                kind: CommandRunnerKind::Output,
            }),
            dry_run: false,
        },
    };
    let res: Vec<ExecRes> = ctx.collect_results().unwrap();

    assert_eq!(expected, res);
}

#[test]
fn success() {
    assert_apply(
        "{12: OXIFUZZ}",
        vec![ExecRes {
            exit_code: ExitCodes::Success,
            out: b"{12: abc}".to_vec(),
            fmt: OutputFmt::Plain,
        }],
        1,
        None,
    );

    assert_apply(
        "{12: OXIFUZZ}",
        vec![
            ExecRes {
                exit_code: ExitCodes::Success,
                out: b"{12: abc}".to_vec(),
                fmt: OutputFmt::Expected,
            },
            ExecRes {
                exit_code: ExitCodes::Failure,
                out: b"{12: 45}".to_vec(),
                fmt: OutputFmt::NotExpected,
            },
        ],
        2,
        Some(Expect::Equals(b"{12: abc}".to_vec())),
    );
}

#[test]
fn substitution_is_deterministic_across_runs() {
    let run = || {
        let mut it = ContextIter {
            input: b"x OXIFUZZ y OXIFUZZ".to_vec(),
            count: 0,
            n_run: 4,
            rand: Rand::from_seed(99),
            ctx: Context {
                words: vec![b"a".to_vec(), b"bb".to_vec(), b"ccc".to_vec()],
                target: Default::default(),
                expect: vec![],
                runner: None,
                dry_run: false,
            },
        };
        let mut outs: Vec<Vec<u8>> = Vec::new();
        while let Some(step) = it.next_res() {
            match step.unwrap() {
                oxifuzz::runner::ApplyStep::Res(res) => outs.push(res.out),
                oxifuzz::runner::ApplyStep::Await(_) => panic!("no outside work expected"),
            }
        }
        outs
    };
    assert_eq!(run(), run());
}

#[test]
fn marker_coverage_single_word_pool() {
    // With a single-word pool every draw selects the same word, so the
    // output is pinned regardless of the seed.
    let mut it = ContextIter {
        input: b"a OXIFUZZ b OXIFUZZ c".to_vec(),
        count: 0,
        n_run: 1,
        rand: Rand::from_seed(7),
        ctx: Context {
            words: vec![b"W".to_vec()],
            target: Default::default(),
            expect: vec![],
            runner: None,
            dry_run: false,
        },
    };
    let res = it.collect_results().unwrap();
    assert_eq!(res[0].out, b"a W b W c".to_vec());
}

#[test]
fn replacement_is_not_rescanned() {
    // A pool word that contains the marker itself is emitted verbatim.
    let mut it = ContextIter {
        input: b"<OXIFUZZ>".to_vec(),
        count: 0,
        n_run: 1,
        rand: Rand::from_seed(3),
        ctx: Context {
            words: vec![b"OXIFUZZ!".to_vec()],
            target: Default::default(),
            expect: vec![],
            runner: None,
            dry_run: false,
        },
    };
    let res = it.collect_results().unwrap();
    assert_eq!(res[0].out, b"<OXIFUZZ!>".to_vec());
}

#[test]
fn partial_marker_at_end_is_not_replaced() {
    let mut it = ContextIter {
        input: b"x OXIFU".to_vec(),
        count: 0,
        n_run: 1,
        rand: Rand::from_seed(1),
        ctx: Context {
            words: vec![b"W".to_vec()],
            target: Default::default(),
            expect: vec![],
            runner: None,
            dry_run: false,
        },
    };
    let res = it.collect_results().unwrap();
    assert_eq!(res[0].out, b"x OXIFU".to_vec());
}

#[test]
fn default_target_is_oxifuzz() {
    let t: Target = Default::default();
    assert!(t.should_replace(b"OXIFUZZ tail"));
    assert!(!t.should_replace(b"OXIFUZ"));
    assert_eq!(t.len(), 7);
}

#[test]
fn exit_code_values() {
    assert_eq!(ExitCodes::Success.code(), 0);
    assert_eq!(ExitCodes::Failure.code(), 1);
    assert_eq!(ExitCodes::RunnerFailed.code(), 2);
    assert_eq!(ExitCodes::Unknown.code(), -1);
    assert!(!ExitCodes::Success.is_failure());
    assert!(ExitCodes::Failure.is_failure());
    assert!(ExitCodes::RunnerFailed.is_failure());
}

#[test]
fn exit_codes_fold_to_maximum_severity() {
    assert_eq!(fold_exit_codes(&vec![]), ExitCodes::Success);
    assert_eq!(
        fold_exit_codes(&vec![ExitCodes::Success, ExitCodes::Success]),
        ExitCodes::Success
    );
    assert_eq!(
        fold_exit_codes(&vec![
            ExitCodes::Success,
            ExitCodes::RunnerFailed,
            ExitCodes::Failure,
        ]),
        ExitCodes::RunnerFailed
    );
    assert_eq!(
        fold_exit_codes(&vec![ExitCodes::Failure, ExitCodes::Success]),
        ExitCodes::Failure
    );
}

#[test]
fn file_backed_rand_reads_little_endian_words() {
    let mut rand = Rand::from_path(String::from("unused"));
    match &mut rand {
        Rand::File(reader) => {
            reader.feed(vec![1, 2, 0, 0, 0, 0, 0, 0, 0xFF, 0, 0, 0, 0, 0, 0, 0]);
        }
        _ => panic!("expected the file-backed variant"),
    }
    assert_eq!(rand.next_gen().unwrap(), 513);
    // The documented mask-and-add formula: (u & hi) + lo, here
    // (0xFF & 8) + 5 = 13, deliberately outside [5, 8).
    assert_eq!(rand.next_range(5, 8).unwrap(), 13);
    // A short buffer is a short read.
    assert_eq!(rand.next_gen(), Err(oxifuzz::errors::Error::Io));
}

#[test]
fn seeded_rand_streams_are_equal() {
    let mut a = Rand::from_seed(42);
    let mut b = Rand::from_seed(42);
    for _ in 0..16 {
        assert_eq!(a.next_gen().unwrap(), b.next_gen().unwrap());
        assert_eq!(a.next_range(0, 10).unwrap(), b.next_range(0, 10).unwrap());
    }
}

#[test]
fn cloned_seeded_rand_continues_the_same_stream() {
    let mut a = Rand::from_seed(5);
    let _ = a.next_gen().unwrap();
    let mut b = a.clone();
    assert_eq!(a.next_gen().unwrap(), b.next_gen().unwrap());
}
