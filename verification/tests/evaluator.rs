use oxifuzz::config::Config;
use oxifuzz::errors::Error;
use oxifuzz::expect::{CompiledRegex, Expect};
use oxifuzz::rng::Rand;
use oxifuzz::runner::{default_command_expect, CommandRunner, CommandRunnerKind};
use oxifuzz::transform::{Context, ContextIter, ExitCodes, OutputFmt};

fn ctx_with(expect: Vec<Expect>) -> Context {
    Context {
        words: vec![],
        target: Default::default(),
        expect,
        runner: None,
        dry_run: false,
    }
}

#[test]
fn empty_expectation_list_keeps_runner_verdict() {
    let ctx = ctx_with(vec![]);
    let res = default_command_expect(&ctx, None, &b"out".to_vec()).unwrap();
    assert_eq!(res.exit_code, ExitCodes::Success);
    assert_eq!(res.fmt, OutputFmt::Plain);
    let res = default_command_expect(&ctx, Some(0), &b"out".to_vec()).unwrap();
    assert_eq!(res.exit_code, ExitCodes::Success);
    let res = default_command_expect(&ctx, Some(3), &b"out".to_vec()).unwrap();
    assert_eq!(res.exit_code, ExitCodes::RunnerFailed);
    assert_eq!(res.fmt, OutputFmt::Plain);
}

#[test]
fn expectation_disjunction() {
    // One failing and one matching predicate: the list matches.
    let ctx = ctx_with(vec![
        Expect::Equals(b"nope".to_vec()),
        Expect::Len(3),
    ]);
    let res = default_command_expect(&ctx, None, &b"abc".to_vec()).unwrap();
    assert_eq!(res.fmt, OutputFmt::Expected);
    assert_eq!(res.exit_code, ExitCodes::Success);

    // All predicates fail: the list does not match.
    let ctx = ctx_with(vec![
        Expect::Equals(b"nope".to_vec()),
        Expect::Len(5),
    ]);
    let res = default_command_expect(&ctx, None, &b"abc".to_vec()).unwrap();
    assert_eq!(res.fmt, OutputFmt::NotExpected);
    assert_eq!(res.exit_code, ExitCodes::Failure);
}

#[test]
fn contains_is_a_sliding_window_search() {
    let e = Expect::Contains(b"bc".to_vec());
    assert!(e.expect(&b"abcd".to_vec(), None));
    assert!(!e.expect(&b"b c".to_vec(), None));
    assert!(!e.expect(&b"c".to_vec(), None));
}

#[test]
fn exit_code_expectation_compares_both_shapes() {
    let some_two = Expect::ExitCode(Some(2));
    assert!(some_two.expect(&b"".to_vec(), Some(2)));
    assert!(!some_two.expect(&b"".to_vec(), Some(0)));
    assert!(!some_two.expect(&b"".to_vec(), None));
    let none_code = Expect::ExitCode(None);
    assert!(none_code.expect(&b"".to_vec(), None));
    assert!(!none_code.expect(&b"".to_vec(), Some(0)));
}

#[test]
fn regex_expectation_matches_lossy_text() {
    let re = CompiledRegex::new("^a+b$").unwrap();
    let e = Expect::Regex(re);
    assert!(e.expect(&b"aaab".to_vec(), None));
    assert!(!e.expect(&b"aaac".to_vec(), None));
}

#[test]
fn invalid_regex_is_rejected() {
    assert!(matches!(
        CompiledRegex::new("("),
        Err(Error::InvalidRegex)
    ));
    let mut cfg = Config::new();
    cfg.expect_regex = vec![String::from("(")];
    assert_eq!(Expect::from_cfg(&cfg).err(), Some(Error::InvalidRegex));
}

#[test]
fn expect_list_is_built_in_configured_order() {
    let mut cfg = Config::new();
    cfg.expect = vec![b"eq".to_vec()];
    cfg.expect_len = vec![4];
    cfg.expect_exit_code = vec![7];
    cfg.expect_regex = vec![String::from("x")];
    cfg.contains = vec![b"sub".to_vec()];
    let list = Expect::from_cfg(&cfg).unwrap();
    assert_eq!(list.len(), 5);
    assert!(matches!(&list[0], Expect::Equals(w) if w == &b"eq".to_vec()));
    assert!(matches!(&list[1], Expect::Len(4)));
    assert!(matches!(&list[2], Expect::ExitCode(Some(7))));
    assert!(matches!(&list[3], Expect::Regex(_)));
    assert!(matches!(&list[4], Expect::Contains(w) if w == &b"sub".to_vec()));
}

#[test]
fn per_iteration_failures_fold_into_overall_failure() {
    // Three runs, the expectation fails on one of them; the folded exit
    // kind over the per-iteration kinds is Failure.
    let mut it = ContextIter {
        input: b"{12: OXIFUZZ}".to_vec(),
        count: 0,
        n_run: 3,
        rand: Rand::from_seed(1),
        ctx: Context {
            words: vec![b"123".to_vec(), b"45".to_vec(), b"abc".to_vec()],
            target: Default::default(),
            expect: vec![Expect::Equals(b"{12: abc}".to_vec())],
            runner: Some(CommandRunner {
                kind: CommandRunnerKind::Output,
            }),
            dry_run: false,
        },
    };
    let results = it.collect_results().unwrap();
    assert_eq!(results.len(), 3);
    let kinds: Vec<ExitCodes> = results.iter().map(|r| r.exit_code).collect();
    let overall = oxifuzz::transform::fold_exit_codes(&kinds);
    assert_eq!(overall, ExitCodes::Failure);
}
