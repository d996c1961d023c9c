use vstd::prelude::*;

use crate::config::{Config, HttpMethod, RunnerKindConfig};
use crate::errors::{Error, FResult};
use crate::expect::{classify_fmt, classify_kind, Expect};
use crate::jwt::{jwt_command_runner, Jwt, Signature};
use crate::rng::{Rand, RandModel, rand_deterministic};
use crate::transform::{
    clone_word, has_target, lossy_all, push_all, subst_core, subst_out, subst_rand, Context,
    ExecRes, Word,
};

verus! {

/// The runner configuration: which backend consumes each payload, with
/// the options that backend needs.
#[derive(Clone)]
pub enum CommandRunnerKind {
    Shell { cmd: Word, cmd_args: Vec<Word>, cmd_arg_target: Word, no_stdin: bool },
    Http {
        url: Word,
        headers: Vec<Word>,
        method: HttpMethod,
        no_headers: bool,
        timeout: u32,
        cmd_arg_target: Word,
    },
    Jwt(Jwt),
    Output,
    Disabled,
}

/// One piece of outside work a live runner asks its driver to perform.
/// The fuzzer core never spawns processes or opens sockets itself: it
/// hands out the fully prepared invocation and consumes the event that
/// comes back.
pub enum RunnerAction {
    Shell { cmd: Word, args: Vec<Word>, stdin: Option<Word> },
    Http {
        url: Word,
        method: HttpMethod,
        headers: Vec<(Word, Word)>,
        timeout: u32,
        body: Word,
    },
}

/// What the driver observed when it performed a `RunnerAction`.
pub enum RunnerEvent {
    Shell { exit_code: Option<i32>, stdout: String },
    Http { status: u16, headers: Vec<(Word, Word)>, body: Word },
}

/// The outcome of dispatching one payload: either the runner finished in
/// place, or outside work is needed.
pub enum RunStep {
    Done { exit_code: Option<i32>, out: Word },
    Pending(RunnerAction),
}

/// The outcome of one whole iteration: a classified result, or outside
/// work that must be performed and fed back through `resume_and_expect`.
pub enum ApplyStep {
    Res(ExecRes),
    Await(RunnerAction),
}

/// Whether a list of texts contains the marker anywhere: only then does
/// auxiliary substitution ever draw from the pool.
pub open spec fn needs_pool(texts: Seq<Seq<u8>>, marker: Seq<u8>) -> bool {
    exists|i: int| 0 <= i < texts.len() && has_target(#[trigger] texts[i], marker)
}

/// A runner whose runtime behaviour is defined: its argument-marker is
/// non-empty, and the word pool is non-empty wherever the marker occurs
/// in the texts it fuzzes.
pub open spec fn runner_wf(kind: &CommandRunnerKind, pool_len: nat) -> bool {
    match kind {
        CommandRunnerKind::Shell { cmd_args, cmd_arg_target, .. } => cmd_arg_target@.len() > 0 && (
        needs_pool(cmd_args.deep_view(), cmd_arg_target@) ==> pool_len > 0),
        CommandRunnerKind::Http { url, headers, cmd_arg_target, .. } => cmd_arg_target@.len() > 0
            && ((has_target(url@, cmd_arg_target@) || needs_pool(
            headers.deep_view(),
            cmd_arg_target@,
        )) ==> pool_len > 0),
        CommandRunnerKind::Jwt(j) => j.cmd_arg_target@.len() > 0 && (has_target(
            j.header@,
            j.cmd_arg_target@,
        ) ==> pool_len > 0),
        CommandRunnerKind::Output => true,
        CommandRunnerKind::Disabled => true,
    }
}

/// The argument-marker of a runner kind is non-empty, as its runtime
/// behaviour requires.
pub open spec fn arg_marker_ok(kind: &CommandRunnerKind) -> bool {
    match kind {
        CommandRunnerKind::Shell { cmd_arg_target, .. } => cmd_arg_target@.len() > 0,
        CommandRunnerKind::Http { cmd_arg_target, .. } => cmd_arg_target@.len() > 0,
        CommandRunnerKind::Jwt(j) => j.cmd_arg_target@.len() > 0,
        CommandRunnerKind::Output => true,
        CommandRunnerKind::Disabled => true,
    }
}

/// Whether the marker occurs in any text of the list.
fn texts_need_pool(texts: &Vec<Word>, marker: &Word) -> (r: bool)
    requires
        marker@.len() > 0,
    ensures
        r == needs_pool(texts.deep_view(), marker@),
{
    let mut i: usize = 0;
    while i < texts.len()
        invariant
            0 <= i <= texts@.len(),
            marker@.len() > 0,
            forall|j: int| 0 <= j < i ==> !has_target(#[trigger] texts.deep_view()[j], marker@),
        decreases texts@.len() - i,
    {
        proof {
            assert(texts@[i as int]@ =~= texts.deep_view()[i as int]);
        }
        if crate::transform::word_occurs_in(texts[i].as_slice(), marker) {
            return true;
        }
        i += 1;
    }
    false
}

impl CommandRunnerKind {
    /// Whether this runner's auxiliary substitution ever draws from the
    /// pool: the argument-marker occurs in a text it fuzzes. The driver
    /// uses this to reject an empty pool before a run starts, where the
    /// source program would fail mid-run instead.
    pub fn needs_pool_words(&self) -> (r: bool)
        requires
            arg_marker_ok(self),
        ensures
            self matches CommandRunnerKind::Shell { cmd_args, cmd_arg_target, .. } ==> r
                == needs_pool(cmd_args.deep_view(), cmd_arg_target@),
            self matches CommandRunnerKind::Http { url, headers, cmd_arg_target, .. } ==> r == (
            has_target(url@, cmd_arg_target@) || needs_pool(headers.deep_view(), cmd_arg_target@)),
            self matches CommandRunnerKind::Jwt(j) ==> r == has_target(
                j.header@,
                j.cmd_arg_target@,
            ),
            self is Output ==> r == false,
            self is Disabled ==> r == false,
    {
        match self {
            CommandRunnerKind::Shell { cmd_args, cmd_arg_target, .. } => texts_need_pool(
                cmd_args,
                cmd_arg_target,
            ),
            CommandRunnerKind::Http { url, headers, cmd_arg_target, .. } => {
                if crate::transform::word_occurs_in(url.as_slice(), cmd_arg_target) {
                    true
                } else {
                    texts_need_pool(headers, cmd_arg_target)
                }
            },
            CommandRunnerKind::Jwt(j) => crate::transform::word_occurs_in(
                j.header.as_slice(),
                &j.cmd_arg_target,
            ),
            CommandRunnerKind::Output => false,
            CommandRunnerKind::Disabled => false,
        }
    }
}

/// Auxiliary fuzz substitution: replaces every occurrence of the
/// argument-marker in `x` with a freshly drawn pool word, lossily
/// decoded. Each occurrence is sampled independently; substituted bytes
/// are not re-scanned.
pub(crate) fn replace_fuzz(x: &Word, cmd_arg_target: &Word, ctx: &Context, rand: &mut Rand) -> (r:
    FResult<Word>)
    requires
        cmd_arg_target@.len() > 0,
        has_target(x@, cmd_arg_target@) ==> ctx.words@.len() > 0,
    ensures
        !(old(rand).model() is File) ==> r is Ok,
        r is Ok ==> ((old(rand).model() is File) == (final(rand).model() is File)),
        r is Ok ==> ((old(rand).model() is Entropy) == (final(rand).model() is Entropy)),
        r matches Err(e) ==> (e == Error::Io && old(rand).model() is File
            && final(rand).model() is File),
        r matches Ok(out) ==> (rand_deterministic(old(rand).model()) ==> (out@ == subst_out(
            x@,
            cmd_arg_target@,
            lossy_all(ctx.words.deep_view()),
            old(rand).model(),
        ) && final(rand).model() == subst_rand(
            x@,
            cmd_arg_target@,
            lossy_all(ctx.words.deep_view()),
            old(rand).model(),
        ))),
{
    subst_core(x.as_slice(), cmd_arg_target, &ctx.words, rand, true)
}

/// The list of texts after auxiliary fuzz substitution, in order, from a
/// deterministic random state.
pub open spec fn fuzz_list_out(
    texts: Seq<Seq<u8>>,
    marker: Seq<u8>,
    ws: Seq<Seq<u8>>,
    m: RandModel,
) -> Seq<Seq<u8>>
    decreases texts.len(),
{
    if texts.len() == 0 {
        Seq::empty()
    } else {
        seq![subst_out(texts[0], marker, lossy_all(ws), m)] + fuzz_list_out(
            texts.skip(1),
            marker,
            ws,
            subst_rand(texts[0], marker, lossy_all(ws), m),
        )
    }
}

/// The random state after a list of texts has been fuzzed.
pub open spec fn fuzz_list_rand(
    texts: Seq<Seq<u8>>,
    marker: Seq<u8>,
    ws: Seq<Seq<u8>>,
    m: RandModel,
) -> RandModel
    decreases texts.len(),
{
    if texts.len() == 0 {
        m
    } else {
        fuzz_list_rand(texts.skip(1), marker, ws, subst_rand(texts[0], marker, lossy_all(ws), m))
    }
}

/// Applies auxiliary fuzz substitution to every text of a list.
fn fuzz_list(texts: &Vec<Word>, marker: &Word, ctx: &Context, rand: &mut Rand) -> (r: FResult<
    Vec<Word>,
>)
    requires
        marker@.len() > 0,
        needs_pool(texts.deep_view(), marker@) ==> ctx.words@.len() > 0,
    ensures
        !(old(rand).model() is File) ==> r is Ok,
        r is Ok ==> ((old(rand).model() is File) == (final(rand).model() is File)),
        r is Ok ==> ((old(rand).model() is Entropy) == (final(rand).model() is Entropy)),
        r matches Err(e) ==> (e == Error::Io && old(rand).model() is File
            && final(rand).model() is File),
        r matches Ok(out) ==> (rand_deterministic(old(rand).model()) ==> (out.deep_view()
            == fuzz_list_out(
            texts.deep_view(),
            marker@,
            ctx.words.deep_view(),
            old(rand).model(),
        ) && final(rand).model() == fuzz_list_rand(
            texts.deep_view(),
            marker@,
            ctx.words.deep_view(),
            old(rand).model(),
        ))),
{
    let ghost m0 = old(rand).model();
    let ghost ts = texts.deep_view();
    let ghost ws = ctx.words.deep_view();
    let mut out: Vec<Word> = Vec::new();
    let mut i: usize = 0;
    proof {
        assert(ts.skip(0) =~= ts);
    }
    while i < texts.len()
        invariant
            0 <= i <= texts@.len(),
            marker@.len() > 0,
            ts == texts.deep_view(),
            ws == ctx.words.deep_view(),
            needs_pool(ts, marker@) ==> ctx.words@.len() > 0,
            m0 == old(rand).model(),
            (m0 is File) == (rand.model() is File),
            (m0 is Entropy) == (rand.model() is Entropy),
            rand_deterministic(m0) ==> {
                &&& rand_deterministic(rand.model())
                &&& fuzz_list_out(ts, marker@, ws, m0) == out.deep_view() + fuzz_list_out(
                    ts.skip(i as int),
                    marker@,
                    ws,
                    rand.model(),
                )
                &&& fuzz_list_rand(ts, marker@, ws, m0) == fuzz_list_rand(
                    ts.skip(i as int),
                    marker@,
                    ws,
                    rand.model(),
                )
            },
        decreases texts@.len() - i,
    {
        let ghost m_now = rand.model();
        let ghost out0 = out.deep_view();
        proof {
            assert(ts.skip(i as int)[0] == ts[i as int]);
            assert(texts@[i as int]@ =~= ts[i as int]);
            if has_target(ts[i as int], marker@) {
                assert(needs_pool(ts, marker@));
            }
        }
        let fuzzed = replace_fuzz(&texts[i], marker, ctx, rand)?;
        let ghost fv = fuzzed@;
        out.push(fuzzed);
        i += 1;
        proof {
            assert(out.deep_view() =~~= out0.push(fv));
            if rand_deterministic(m0) {
                let rest = ts.skip(i - 1);
                assert(rest.skip(1) =~= ts.skip(i as int));
                assert(fuzz_list_out(rest, marker@, ws, m_now) == seq![subst_out(
                    ts[i - 1],
                    marker@,
                    lossy_all(ws),
                    m_now,
                )] + fuzz_list_out(ts.skip(i as int), marker@, ws, rand.model()));
                assert(out0 + fuzz_list_out(rest, marker@, ws, m_now) =~~= out.deep_view()
                    + fuzz_list_out(ts.skip(i as int), marker@, ws, rand.model()));
            }
        }
    }
    proof {
        assert(ts.skip(i as int) =~= Seq::<Seq<u8>>::empty());
        if rand_deterministic(m0) {
            assert(fuzz_list_out(Seq::<Seq<u8>>::empty(), marker@, ws, rand.model())
                == Seq::<Seq<u8>>::empty());
            assert(out.deep_view() + Seq::<Seq<u8>>::empty() =~~= out.deep_view());
        }
    }
    Ok(out)
}

/// The bytes of a dry-run shell line: the command, each fuzzed argument
/// preceded by a space, then the payload.
pub open spec fn join_spaced(args: Seq<Seq<u8>>) -> Seq<u8>
    decreases args.len(),
{
    if args.len() == 0 {
        Seq::empty()
    } else {
        seq![32u8] + args[0] + join_spaced(args.skip(1))
    }
}

/// Appends each word of `args`, preceded by a space, to `out`.
fn push_spaced(out: &mut Vec<u8>, args: &Vec<Word>)
    ensures
        final(out)@ == old(out)@ + join_spaced(args.deep_view()),
{
    let ghost orig = old(out)@;
    let ghost avs = args.deep_view();
    let mut i: usize = 0;
    proof {
        assert(avs.skip(0) =~= avs);
        assert(orig + Seq::<u8>::empty() =~= orig);
    }
    while i < args.len()
        invariant
            0 <= i <= args@.len(),
            avs == args.deep_view(),
            orig + join_spaced(avs) == out@ + join_spaced(avs.skip(i as int)),
        decreases args@.len() - i,
    {
        let ghost out0 = out@;
        out.push(32u8);
        push_all(out, args[i].as_slice());
        i += 1;
        proof {
            let rest = avs.skip(i - 1);
            assert(rest.skip(1) =~= avs.skip(i as int));
            assert(rest[0] == avs[i - 1]);
            assert(args@[i - 1]@ =~= avs[i - 1]);
            assert(join_spaced(rest) == seq![32u8] + avs[i - 1] + join_spaced(avs.skip(i as int)));
            assert(out@ =~= out0 + seq![32u8] + avs[i - 1]);
            assert(out0 + join_spaced(rest) =~= out@ + join_spaced(avs.skip(i as int)));
        }
    }
    proof {
        assert(avs.skip(i as int) =~= Seq::<Seq<u8>>::empty());
        assert(join_spaced(Seq::<Seq<u8>>::empty()) == Seq::<u8>::empty());
        assert(out@ + Seq::<u8>::empty() =~= out@);
    }
}

/// The bytes of a dry-run shell invocation.
pub open spec fn dry_shell_out(cmd: Seq<u8>, fuzzed_args: Seq<Seq<u8>>, data: Seq<u8>) -> Seq<u8> {
    cmd + join_spaced(fuzzed_args) + data
}

/// The pass-through runner: returns the payload unchanged with no exit
/// code; fails with `UnsupportedCommandRunner` on any other kind tag.
pub fn output_command_runner(
    _ctx: &Context,
    runner: &CommandRunnerKind,
    data: &Word,
    _rand: &mut Rand,
) -> (r: FResult<(Option<i32>, Word)>)
    ensures
        runner is Output ==> (r matches Ok(p) && p.0 is None && p.1@ == data@),
        !(runner is Output) ==> r == Err::<(Option<i32>, Word), Error>(
            Error::UnsupportedCommandRunner,
        ),
        *final(_rand) == *old(_rand),
{
    if let CommandRunnerKind::Output = runner {
        Ok((None, clone_word(data)))
    } else {
        Err(Error::UnsupportedCommandRunner)
    }
}

/// The shell runner. In dry-run mode it renders the fuzzed command line
/// and payload instead of spawning; otherwise it asks the driver to
/// spawn the prepared invocation. Fails with `UnsupportedCommandRunner`
/// on any other kind tag.
pub fn shell_command_runner(
    ctx: &Context,
    runner: &CommandRunnerKind,
    data: &Word,
    rand: &mut Rand,
) -> (r: FResult<RunStep>)
    requires
        runner matches CommandRunnerKind::Shell { .. } ==> runner_wf(runner, ctx.words@.len() as nat),
    ensures
        !(runner matches CommandRunnerKind::Shell { .. }) ==> r == Err::<RunStep, Error>(
            Error::UnsupportedCommandRunner,
        ),
        runner matches CommandRunnerKind::Shell { cmd, cmd_args, cmd_arg_target, no_stdin } ==> {
            &&& !(old(rand).model() is File) ==> r is Ok
            &&& r is Ok ==> ((old(rand).model() is File) == (final(rand).model() is File))
            &&& r is Ok ==> ((old(rand).model() is Entropy) == (final(rand).model() is Entropy))
            &&& r matches Err(e) ==> (e == Error::Io && old(rand).model() is File)
            &&& (rand_deterministic(old(rand).model()) && r is Ok) ==> final(rand).model()
                == fuzz_list_rand(
                cmd_args.deep_view(),
                cmd_arg_target@,
                ctx.words.deep_view(),
                old(rand).model(),
            )
            &&& (rand_deterministic(old(rand).model()) && ctx.dry_run) ==> (r matches Ok(s) ==> (
            s matches RunStep::Done { exit_code, out } && exit_code is None && out@
                == dry_shell_out(
                cmd@,
                fuzz_list_out(
                    cmd_args.deep_view(),
                    cmd_arg_target@,
                    ctx.words.deep_view(),
                    old(rand).model(),
                ),
                data@,
            )))
            &&& !ctx.dry_run ==> (r matches Ok(s) ==> (s matches RunStep::Pending(a) && a matches
            RunnerAction::Shell { cmd: c, args, stdin } && c@ == cmd@ && (
            rand_deterministic(old(rand).model()) ==> args.deep_view() == fuzz_list_out(
                cmd_args.deep_view(),
                cmd_arg_target@,
                ctx.words.deep_view(),
                old(rand).model(),
            )) && (if *no_stdin {
                stdin is None
            } else {
                stdin matches Some(sd) && sd@ == data@
            })))
            &&& ctx.dry_run ==> (r matches Ok(s) ==> (s matches RunStep::Done { exit_code, out }
                && exit_code is None))
        },
{
    if let CommandRunnerKind::Shell { cmd, cmd_args, cmd_arg_target, no_stdin } = runner {
        let args = fuzz_list(cmd_args, cmd_arg_target, ctx, rand)?;
        if ctx.dry_run {
            let mut output: Word = clone_word(cmd);
            push_spaced(&mut output, &args);
            push_all(&mut output, data.as_slice());
            Ok(RunStep::Done { exit_code: None, out: output })
        } else {
            let stdin = if *no_stdin {
                None
            } else {
                Some(clone_word(data))
            };
            Ok(
                RunStep::Pending(
                    RunnerAction::Shell { cmd: clone_word(cmd), args, stdin },
                ),
            )
        }
    } else {
        Err(Error::UnsupportedCommandRunner)
    }
}

/// The bytes of a dry-run HTTP request: the fuzzed URL; a blank line and
/// the fuzzed headers, one per line, when there are any; a blank line
/// and the payload when it is non-empty.
pub open spec fn headers_block(headers: Seq<Seq<u8>>) -> Seq<u8>
    decreases headers.len(),
{
    if headers.len() == 0 {
        Seq::empty()
    } else {
        headers[0] + seq![10u8] + headers_block(headers.skip(1))
    }
}

/// See `headers_block`: the whole dry-run HTTP rendering.
pub open spec fn dry_http_out(url: Seq<u8>, headers: Seq<Seq<u8>>, data: Seq<u8>) -> Seq<u8> {
    let with_headers = if headers.len() == 0 {
        url
    } else {
        url + seq![10u8, 10u8] + headers_block(headers)
    };
    if data.len() == 0 {
        with_headers
    } else {
        with_headers + seq![10u8, 10u8] + data
    }
}

/// Appends each header followed by a newline.
fn push_headers(out: &mut Vec<u8>, headers: &Vec<Word>)
    ensures
        final(out)@ == old(out)@ + headers_block(headers.deep_view()),
{
    let ghost orig = old(out)@;
    let ghost hs = headers.deep_view();
    let mut i: usize = 0;
    proof {
        assert(hs.skip(0) =~= hs);
        assert(orig + Seq::<u8>::empty() =~= orig);
    }
    while i < headers.len()
        invariant
            0 <= i <= headers@.len(),
            hs == headers.deep_view(),
            orig + headers_block(hs) == out@ + headers_block(hs.skip(i as int)),
        decreases headers@.len() - i,
    {
        let ghost out0 = out@;
        push_all(out, headers[i].as_slice());
        out.push(10u8);
        i += 1;
        proof {
            let rest = hs.skip(i - 1);
            assert(rest.skip(1) =~= hs.skip(i as int));
            assert(rest[0] == hs[i - 1]);
            assert(headers@[i - 1]@ =~= hs[i - 1]);
            assert(headers_block(rest) == hs[i - 1] + seq![10u8] + headers_block(
                hs.skip(i as int),
            ));
            assert(out@ =~= out0 + hs[i - 1] + seq![10u8]);
            assert(out0 + headers_block(rest) =~= out@ + headers_block(hs.skip(i as int)));
        }
    }
    proof {
        assert(hs.skip(i as int) =~= Seq::<Seq<u8>>::empty());
        assert(headers_block(Seq::<Seq<u8>>::empty()) == Seq::<u8>::empty());
        assert(out@ + Seq::<u8>::empty() =~= out@);
    }
}

/// Splits a header on its first colon into name and value; a header
/// without a colon keeps its whole text as the name and an empty value.
pub open spec fn split_colon_spec(h: Seq<u8>) -> (Seq<u8>, Seq<u8>) {
    let j = crate::config::first_hit(h, seq![58u8]);
    match j {
        Some(k) => (h.take(k), h.skip(k + 1)),
        None => (h, Seq::empty()),
    }
}

/// Splits one header text on the first colon.
fn split_colon(h: &Word) -> (r: (Word, Word))
    ensures
        r.0@ == split_colon_spec(h@).0,
        r.1@ == split_colon_spec(h@).1,
{
    let ghost colon: Seq<u8> = seq![58u8];
    let mut i: usize = 0;
    while i < h.len()
        invariant
            0 <= i <= h@.len(),
            forall|j: int| 0 <= j < i ==> h@[j] != 58u8,
        decreases h@.len() - i,
    {
        if h[i] == 58u8 {
            let name = vstd::slice::slice_to_vec(
                vstd::slice::slice_subrange(h.as_slice(), 0, i),
            );
            let value = vstd::slice::slice_to_vec(
                vstd::slice::slice_subrange(h.as_slice(), i + 1, h.len()),
            );
            proof {
                assert(h@.skip(i as int).subrange(0, 1) =~= seq![58u8]);
                assert(is_prefix_of_colon(h@, i as int));
                lemma_colon_first(h@, i as int);
                assert(name@ =~= h@.take(i as int));
                assert(value@ =~= h@.skip(i + 1));
            }
            return (name, value);
        }
        i += 1;
    }
    proof {
        crate::config::lemma_first_hit(h@, colon);
        match crate::config::first_hit(h@, colon) {
            Some(k) => {
                assert(colon.len() <= h@.skip(k).len() && h@.skip(k).subrange(0, 1) == colon);
                assert(h@.skip(k)[0] == h@[k]);
                assert(h@.skip(k).subrange(0, 1)[0] == h@.skip(k)[0]);
                assert(false);
            },
            None => {},
        }
    }
    (clone_word(h), Vec::new())
}

/// The colon pattern occurs at `i` in `h`.
pub open spec fn is_prefix_of_colon(h: Seq<u8>, i: int) -> bool {
    crate::transform::is_prefix_of(seq![58u8], h.skip(i))
}

/// If no colon occurs before `i` and one occurs at `i`, the first hit of
/// the colon pattern is `i`.
proof fn lemma_colon_first(h: Seq<u8>, i: int)
    requires
        0 <= i < h.len(),
        h[i] == 58u8,
        forall|j: int| 0 <= j < i ==> h[j] != 58u8,
    ensures
        crate::config::first_hit(h, seq![58u8]) == Some(i),
    decreases i,
{
    let colon: Seq<u8> = seq![58u8];
    if i == 0 {
        assert(h.skip(0) =~= h);
        assert(h.subrange(0, 1) =~= colon);
        assert(crate::transform::is_prefix_of(colon, h));
    } else {
        assert(h.len() > 0);
        assert(!crate::transform::is_prefix_of(colon, h)) by {
            if crate::transform::is_prefix_of(colon, h) {
                assert(h.subrange(0, 1)[0] == h[0]);
            }
        }
        let h1 = h.skip(1);
        assert(h1[i - 1] == h[i]);
        assert(forall|j: int| 0 <= j < i - 1 ==> h1[j] == h[j + 1] && h1[j] != 58u8);
        lemma_colon_first(h1, i - 1);
    }
}

/// The bytes of the header name `User-Agent`.
pub open spec fn user_agent_name() -> Seq<u8> {
    seq![85u8, 115u8, 101u8, 114u8, 45u8, 65u8, 103u8, 101u8, 110u8, 116u8]
}

/// The name/value pairs a live HTTP request carries: the default
/// `User-Agent`, then each fuzzed user header split on its first colon.
pub open spec fn http_header_pairs(fuzzed: Seq<Seq<u8>>) -> Seq<(Seq<u8>, Seq<u8>)> {
    seq![(user_agent_name(), user_agent_value())] + fuzzed.map_values(
        |h: Seq<u8>| split_colon_spec(h),
    )
}

/// The bytes of the default `User-Agent` header value.
pub open spec fn user_agent_value() -> Seq<u8> {
    seq![111u8, 120u8, 105u8, 102u8, 117u8, 122u8, 122u8, 47u8, 48u8, 46u8, 49u8]
}

/// The HTTP runner. In dry-run mode it renders the fuzzed request;
/// otherwise it asks the driver to send the prepared request. Fails with
/// `UnsupportedCommandRunner` on any other kind tag.
pub fn http_command_runner(
    ctx: &Context,
    runner: &CommandRunnerKind,
    data: &Word,
    rand: &mut Rand,
) -> (r: FResult<RunStep>)
    requires
        runner matches CommandRunnerKind::Http { .. } ==> runner_wf(runner, ctx.words@.len() as nat),
    ensures
        !(runner matches CommandRunnerKind::Http { .. }) ==> r == Err::<RunStep, Error>(
            Error::UnsupportedCommandRunner,
        ),
        runner matches CommandRunnerKind::Http {
            url,
            headers,
            method,
            no_headers,
            timeout,
            cmd_arg_target,
        } ==> {
            &&& !(old(rand).model() is File) ==> r is Ok
            &&& r is Ok ==> ((old(rand).model() is File) == (final(rand).model() is File))
            &&& r is Ok ==> ((old(rand).model() is Entropy) == (final(rand).model() is Entropy))
            &&& r matches Err(e) ==> (e == Error::Io && old(rand).model() is File)
            &&& (rand_deterministic(old(rand).model()) && r is Ok) ==> final(rand).model()
                == fuzz_list_rand(
                headers.deep_view(),
                cmd_arg_target@,
                ctx.words.deep_view(),
                subst_rand(
                    url@,
                    cmd_arg_target@,
                    lossy_all(ctx.words.deep_view()),
                    old(rand).model(),
                ),
            )
            &&& (rand_deterministic(old(rand).model()) && ctx.dry_run) ==> (r matches Ok(s) ==> (
            s matches RunStep::Done { exit_code, out } && exit_code is None && out@ == dry_http_out(
                subst_out(
                    url@,
                    cmd_arg_target@,
                    lossy_all(ctx.words.deep_view()),
                    old(rand).model(),
                ),
                fuzz_list_out(
                    headers.deep_view(),
                    cmd_arg_target@,
                    ctx.words.deep_view(),
                    subst_rand(
                        url@,
                        cmd_arg_target@,
                        lossy_all(ctx.words.deep_view()),
                        old(rand).model(),
                    ),
                ),
                data@,
            )))
            &&& (rand_deterministic(old(rand).model()) && !ctx.dry_run) ==> (r matches Ok(s) ==> (
            s matches RunStep::Pending(a) && a matches RunnerAction::Http {
                url: u,
                method: mth,
                headers: hs,
                timeout: t,
                body,
            } && u@ == subst_out(
                url@,
                cmd_arg_target@,
                lossy_all(ctx.words.deep_view()),
                old(rand).model(),
            ) && mth == method && t == timeout && body@ == data@ && hs@.map_values(
                |p: (Word, Word)| (p.0@, p.1@),
            ) == http_header_pairs(
                fuzz_list_out(
                    headers.deep_view(),
                    cmd_arg_target@,
                    ctx.words.deep_view(),
                    subst_rand(
                        url@,
                        cmd_arg_target@,
                        lossy_all(ctx.words.deep_view()),
                        old(rand).model(),
                    ),
                ),
            )))
            &&& ctx.dry_run ==> (r matches Ok(s) ==> (s matches RunStep::Done { exit_code, out }
                && exit_code is None))
            &&& !ctx.dry_run ==> (r matches Ok(s) ==> s is Pending)
        },
{
    if let CommandRunnerKind::Http { url, headers, method, no_headers, timeout, cmd_arg_target } =
        runner {
        let fuzzed_url = replace_fuzz(url, cmd_arg_target, ctx, rand)?;
        let fuzzed_headers = fuzz_list(headers, cmd_arg_target, ctx, rand)?;
        if ctx.dry_run {
            let mut output: Word = fuzzed_url;
            if fuzzed_headers.len() > 0 {
                output.push(10u8);
                output.push(10u8);
                push_headers(&mut output, &fuzzed_headers);
            }
            if data.len() > 0 {
                output.push(10u8);
                output.push(10u8);
                push_all(&mut output, data.as_slice());
            }
            Ok(RunStep::Done { exit_code: None, out: output })
        } else {
            let mut pairs: Vec<(Word, Word)> = Vec::new();
            let ua_name: Word = vec![
                85u8, 115u8, 101u8, 114u8, 45u8, 65u8, 103u8, 101u8, 110u8, 116u8,
            ];
            let ua_value: Word = vec![
                111u8, 120u8, 105u8, 102u8, 117u8, 122u8, 122u8, 47u8, 48u8, 46u8, 49u8,
            ];
            pairs.push((ua_name, ua_value));
            let mut i: usize = 0;
            while i < fuzzed_headers.len()
                invariant
                    0 <= i <= fuzzed_headers@.len(),
                    pairs@.len() == i + 1,
                    pairs@.map_values(|p: (Word, Word)| (p.0@, p.1@)) == seq![
                        (user_agent_name(), user_agent_value()),
                    ] + fuzzed_headers.deep_view().subrange(0, i as int).map_values(
                        |h: Seq<u8>| split_colon_spec(h),
                    ),
                decreases fuzzed_headers@.len() - i,
            {
                let ghost prev = pairs@.map_values(|p: (Word, Word)| (p.0@, p.1@));
                let pair = split_colon(&fuzzed_headers[i]);
                pairs.push(pair);
                i += 1;
                proof {
                    assert(fuzzed_headers@[i - 1]@ =~= fuzzed_headers.deep_view()[i - 1]);
                    assert(pairs@.map_values(|p: (Word, Word)| (p.0@, p.1@)) =~= prev.push(
                        split_colon_spec(fuzzed_headers.deep_view()[i - 1]),
                    ));
                    assert(fuzzed_headers.deep_view().subrange(0, i as int).map_values(
                        |h: Seq<u8>| split_colon_spec(h),
                    ) =~= fuzzed_headers.deep_view().subrange(0, i - 1).map_values(
                        |h: Seq<u8>| split_colon_spec(h),
                    ).push(split_colon_spec(fuzzed_headers.deep_view()[i - 1])));
                }
            }
            proof {
                assert(fuzzed_headers.deep_view().subrange(
                    0,
                    fuzzed_headers.deep_view().len() as int,
                ) =~= fuzzed_headers.deep_view());
            }
            Ok(
                RunStep::Pending(
                    RunnerAction::Http {
                        url: fuzzed_url,
                        method: *method,
                        headers: pairs,
                        timeout: *timeout,
                        body: clone_word(data),
                    },
                ),
            )
        }
    } else {
        Err(Error::UnsupportedCommandRunner)
    }
}

} // verus!

verus! {

use crate::expect::expect_wf;

/// A byte sequence with one trailing newline removed, if it ends in one.
pub open spec fn trim_newline(s: Seq<u8>) -> Seq<u8> {
    if s.len() > 0 && s[s.len() - 1] == 10u8 {
        s.drop_last()
    } else {
        s
    }
}

/// Removes one trailing newline from a word, if it ends in one.
fn trim_newline_word(w: &mut Vec<u8>)
    ensures
        final(w)@ == trim_newline(old(w)@),
{
    if w.len() > 0 && w[w.len() - 1] == 10u8 {
        let _ = w.pop();
        proof {
            assert(w@ =~= trim_newline(old(w)@));
        }
    }
}

/// The decimal digits of `n`, most significant first.
pub open spec fn decimal(n: nat) -> Seq<u8>
    decreases n,
{
    if n < 10 {
        seq![(48 + n) as u8]
    } else {
        decimal(n / 10) + seq![(48 + n % 10) as u8]
    }
}

/// Appends the decimal digits of `n`.
fn push_decimal(out: &mut Vec<u8>, n: u16)
    ensures
        final(out)@ == old(out)@ + decimal(n as nat),
    decreases n,
{
    if n < 10 {
        let ghost before = out@;
        out.push(48 + n as u8);
        proof {
            assert(out@ =~= before + decimal(n as nat));
        }
    } else {
        push_decimal(out, n / 10);
        let ghost mid = out@;
        out.push(48 + (n % 10) as u8);
        proof {
            assert(out@ =~= mid.push((48 + n as nat % 10) as u8));
            assert(out@ =~= old(out)@ + decimal(n as nat));
        }
    }
}

/// One response header line: `name:value` and a newline.
pub open spec fn response_headers_block(hs: Seq<(Seq<u8>, Seq<u8>)>) -> Seq<u8>
    decreases hs.len(),
{
    if hs.len() == 0 {
        Seq::empty()
    } else {
        hs[0].0 + seq![58u8] + hs[0].1 + seq![10u8] + response_headers_block(hs.skip(1))
    }
}

/// The bytes handed back for a live HTTP response: the body alone when
/// response headers are suppressed; otherwise the status digits, a
/// newline, the header lines, a blank line when there are headers, then
/// the body.
pub open spec fn http_response_out(
    status: u16,
    hs: Seq<(Seq<u8>, Seq<u8>)>,
    body: Seq<u8>,
    no_headers: bool,
) -> Seq<u8> {
    if no_headers {
        body
    } else {
        let head = decimal(status as nat) + seq![10u8] + response_headers_block(hs);
        if hs.len() > 0 {
            head + seq![10u8, 10u8] + body
        } else {
            head + body
        }
    }
}

/// Whether a runner kind completes inside the library: the pass-through
/// and JWT runners always do, shell and HTTP only as dry runs.
pub open spec fn run_local(kind: &CommandRunnerKind, dry: bool) -> bool {
    match kind {
        CommandRunnerKind::Output => true,
        CommandRunnerKind::Jwt(_) => true,
        CommandRunnerKind::Shell { .. } => dry,
        CommandRunnerKind::Http { .. } => dry,
        CommandRunnerKind::Disabled => false,
    }
}

/// The bytes a locally completing runner hands back on `data` from the
/// deterministic random state `m`.
pub open spec fn local_out(
    kind: &CommandRunnerKind,
    ws: Seq<Seq<u8>>,
    data: Seq<u8>,
    m: RandModel,
) -> Seq<u8> {
    match kind {
        CommandRunnerKind::Output => data,
        CommandRunnerKind::Shell { cmd, cmd_args, cmd_arg_target, .. } => dry_shell_out(
            cmd@,
            fuzz_list_out(cmd_args.deep_view(), cmd_arg_target@, ws, m),
            data,
        ),
        CommandRunnerKind::Http { url, headers, cmd_arg_target, .. } => dry_http_out(
            subst_out(url@, cmd_arg_target@, lossy_all(ws), m),
            fuzz_list_out(
                headers.deep_view(),
                cmd_arg_target@,
                ws,
                subst_rand(url@, cmd_arg_target@, lossy_all(ws), m),
            ),
            data,
        ),
        CommandRunnerKind::Jwt(j) => j.token_of(ws, data, m),
        CommandRunnerKind::Disabled => data,
    }
}

/// The random state after a runner has done its auxiliary substitution.
pub open spec fn run_rand_after(kind: &CommandRunnerKind, ws: Seq<Seq<u8>>, m: RandModel) -> RandModel {
    match kind {
        CommandRunnerKind::Shell { cmd_args, cmd_arg_target, .. } => fuzz_list_rand(
            cmd_args.deep_view(),
            cmd_arg_target@,
            ws,
            m,
        ),
        CommandRunnerKind::Http { url, headers, cmd_arg_target, .. } => fuzz_list_rand(
            headers.deep_view(),
            cmd_arg_target@,
            ws,
            subst_rand(url@, cmd_arg_target@, lossy_all(ws), m),
        ),
        CommandRunnerKind::Jwt(j) => j.rand_after(ws, m),
        CommandRunnerKind::Output => m,
        CommandRunnerKind::Disabled => m,
    }
}

/// A correct outcome of dispatching `data` to a runner from the
/// deterministic random state `m`: a locally completing runner is done
/// with no exit code and its specified bytes; a live runner hands out
/// the fully prepared invocation.
pub open spec fn good_run_step(
    step: RunStep,
    kind: &CommandRunnerKind,
    ws: Seq<Seq<u8>>,
    dry: bool,
    data: Seq<u8>,
    m: RandModel,
) -> bool {
    if run_local(kind, dry) {
        step matches RunStep::Done { exit_code, out } && exit_code is None && out@ == local_out(
            kind,
            ws,
            data,
            m,
        )
    } else {
        match kind {
            CommandRunnerKind::Shell { cmd, cmd_args, cmd_arg_target, no_stdin } => {
                &&& step matches RunStep::Pending(a)
                &&& a matches RunnerAction::Shell { cmd: c, args, stdin }
                &&& c@ == cmd@
                &&& args.deep_view() == fuzz_list_out(
                    cmd_args.deep_view(),
                    cmd_arg_target@,
                    ws,
                    m,
                )
                &&& if *no_stdin {
                    stdin is None
                } else {
                    stdin matches Some(sd) && sd@ == data
                }
            },
            CommandRunnerKind::Http { url, headers, method, timeout, cmd_arg_target, .. } => {
                &&& step matches RunStep::Pending(a)
                &&& a matches RunnerAction::Http { url: u, method: mth, headers: hs, timeout: t, body }
                &&& u@ == subst_out(url@, cmd_arg_target@, lossy_all(ws), m)
                &&& mth == *method
                &&& t == *timeout
                &&& body@ == data
                &&& hs@.map_values(|p: (Word, Word)| (p.0@, p.1@)) == http_header_pairs(
                    fuzz_list_out(
                        headers.deep_view(),
                        cmd_arg_target@,
                        ws,
                        subst_rand(url@, cmd_arg_target@, lossy_all(ws), m),
                    ),
                )
            },
            _ => false,
        }
    }
}

/// A correct outcome of one whole iteration on payload `data`: a locally
/// completing runner yields the classified result of its bytes, a live
/// runner yields its prepared invocation.
pub open spec fn good_apply_step(
    step: ApplyStep,
    kind: &CommandRunnerKind,
    expect: Seq<Expect>,
    ws: Seq<Seq<u8>>,
    dry: bool,
    data: Seq<u8>,
    m: RandModel,
) -> bool {
    if run_local(kind, dry) {
        &&& step matches ApplyStep::Res(res)
        &&& res.out@ == local_out(kind, ws, data, m)
        &&& res.exit_code == classify_kind(expect, local_out(kind, ws, data, m), None)
        &&& res.fmt == classify_fmt(expect, local_out(kind, ws, data, m), None)
    } else {
        step matches ApplyStep::Await(a) && good_run_step(RunStep::Pending(a), kind, ws, dry, data, m)
    }
}

/// The default expectation evaluator: echoes the runner's bytes and
/// classifies them against the context's expectation list. An empty list
/// keeps the runner's own verdict with neutral rendering; otherwise a
/// matching predicate keeps the verdict with `Expected` rendering and a
/// miss is a `Failure` rendered `NotExpected`.
pub fn default_command_expect(ctx: &Context, exit_code: Option<i32>, data: &Word) -> (r: FResult<
    ExecRes,
>)
    requires
        forall|i: int| 0 <= i < ctx.expect@.len() ==> expect_wf(#[trigger] &ctx.expect@[i]),
    ensures
        r matches Ok(res) && res.out@ == data@ && res.exit_code == classify_kind(
            ctx.expect@,
            data@,
            exit_code,
        ) && res.fmt == classify_fmt(ctx.expect@, data@, exit_code),
{
    let success_code = match exit_code {
        None => crate::transform::ExitCodes::Success,
        Some(c) => if c == 0 {
            crate::transform::ExitCodes::Success
        } else {
            crate::transform::ExitCodes::RunnerFailed
        },
    };
    if ctx.expect.len() == 0 {
        Ok(
            ExecRes {
                exit_code: success_code,
                out: clone_word(data),
                fmt: crate::transform::OutputFmt::Plain,
            },
        )
    } else if ctx.compare_expected(data, exit_code) {
        Ok(
            ExecRes {
                exit_code: success_code,
                out: clone_word(data),
                fmt: crate::transform::OutputFmt::Expected,
            },
        )
    } else {
        Ok(
            ExecRes {
                exit_code: crate::transform::ExitCodes::Failure,
                out: clone_word(data),
                fmt: crate::transform::OutputFmt::NotExpected,
            },
        )
    }
}

/// The runner of one context: a kind tag with a uniform dispatch method.
#[derive(Clone)]
pub struct CommandRunner {
    pub kind: CommandRunnerKind,
}

impl CommandRunner {
    /// Dispatches one payload to this runner.
    pub fn run(&self, ctx: &Context, data: &Word, rand: &mut Rand) -> (r: FResult<RunStep>)
        requires
            runner_wf(&self.kind, ctx.words@.len() as nat),
        ensures
            self.kind is Disabled ==> r == Err::<RunStep, Error>(Error::UnsupportedCommandRunner),
            self.kind is Output ==> (r matches Ok(s) && s matches RunStep::Done { exit_code, out }
                && exit_code is None && out@ == data@ && *final(rand) == *old(rand)),
            r matches Err(e) ==> ((e == Error::Io && old(rand).model() is File) || (e
                == Error::Crypto && self.kind is Jwt) || (e == Error::UnsupportedCommandRunner
                && self.kind is Disabled)),
            (!(old(rand).model() is File) && !(self.kind is Jwt) && !(self.kind is Disabled))
                ==> r is Ok,
            (rand_deterministic(old(rand).model()) && !(old(rand).model() is File)) ==> (
            self.kind matches CommandRunnerKind::Jwt(j) ==> ((r is Ok) == j.token_ok(
                ctx.words.deep_view(),
                data@,
                old(rand).model(),
            ))),
            r is Ok ==> ((old(rand).model() is File) == (final(rand).model() is File)),
            r is Ok ==> ((old(rand).model() is Entropy) == (final(rand).model() is Entropy)),
            run_local(&self.kind, ctx.dry_run) ==> (r matches Ok(s) ==> (s matches RunStep::Done {
                exit_code,
                out,
            } && exit_code is None)),
            self.kind is Jwt ==> (r matches Ok(s) ==> (s matches RunStep::Done { exit_code, out }
                && crate::jwt::jwt_out_shaped(&self.kind, out@, data@))),
            rand_deterministic(old(rand).model()) ==> (r matches Ok(step) ==> (good_run_step(
                step,
                &self.kind,
                ctx.words.deep_view(),
                ctx.dry_run,
                data@,
                old(rand).model(),
            ) && final(rand).model() == run_rand_after(
                &self.kind,
                ctx.words.deep_view(),
                old(rand).model(),
            ))),
    {
        match &self.kind {
            CommandRunnerKind::Output => {
                let (code, out) = output_command_runner(ctx, &self.kind, data, rand)?;
                Ok(RunStep::Done { exit_code: code, out })
            },
            CommandRunnerKind::Shell { .. } => shell_command_runner(ctx, &self.kind, data, rand),
            CommandRunnerKind::Http { .. } => http_command_runner(ctx, &self.kind, data, rand),
            CommandRunnerKind::Jwt(_) => {
                let (code, out) = jwt_command_runner(ctx, &self.kind, data, rand)?;
                Ok(RunStep::Done { exit_code: code, out })
            },
            CommandRunnerKind::Disabled => Err(Error::UnsupportedCommandRunner),
        }
    }

    /// Classifies one runner answer against the context's expectations.
    pub fn expect(&self, ctx: &Context, exit_code: Option<i32>, data: &Word) -> (r: FResult<
        ExecRes,
    >)
        requires
            forall|i: int| 0 <= i < ctx.expect@.len() ==> expect_wf(#[trigger] &ctx.expect@[i]),
        ensures
            r matches Ok(res) && res.out@ == data@ && res.exit_code == classify_kind(
                ctx.expect@,
                data@,
                exit_code,
            ) && res.fmt == classify_fmt(ctx.expect@, data@, exit_code),
    {
        default_command_expect(ctx, exit_code, data)
    }

    /// Dispatches one payload and classifies the outcome when the runner
    /// completes in place; otherwise hands out the pending invocation.
    pub fn run_and_expect(&self, ctx: &Context, data: &Word, rand: &mut Rand) -> (r: FResult<
        ApplyStep,
    >)
        requires
            runner_wf(&self.kind, ctx.words@.len() as nat),
            forall|i: int| 0 <= i < ctx.expect@.len() ==> expect_wf(#[trigger] &ctx.expect@[i]),
        ensures
            self.kind is Disabled ==> r == Err::<ApplyStep, Error>(Error::UnsupportedCommandRunner),
            r matches Err(e) ==> ((e == Error::Io && old(rand).model() is File) || (e
                == Error::Crypto && self.kind is Jwt) || (e == Error::UnsupportedCommandRunner
                && self.kind is Disabled)),
            (!(old(rand).model() is File) && !(self.kind is Jwt) && !(self.kind is Disabled))
                ==> r is Ok,
            (rand_deterministic(old(rand).model()) && !(old(rand).model() is File)) ==> (
            self.kind matches CommandRunnerKind::Jwt(j) ==> ((r is Ok) == j.token_ok(
                ctx.words.deep_view(),
                data@,
                old(rand).model(),
            ))),
            r is Ok ==> ((old(rand).model() is File) == (final(rand).model() is File)),
            r is Ok ==> ((old(rand).model() is Entropy) == (final(rand).model() is Entropy)),
            run_local(&self.kind, ctx.dry_run) ==> (r matches Ok(s) ==> s is Res),
            self.kind is Output ==> (r matches Ok(step) && step matches ApplyStep::Res(res)
                && res.out@ == data@ && *final(rand) == *old(rand)),
            run_local(&self.kind, ctx.dry_run) ==> (r matches Ok(step) ==> (step matches
                ApplyStep::Res(res) && res.exit_code == classify_kind(ctx.expect@, res.out@, None)
                && res.fmt == classify_fmt(ctx.expect@, res.out@, None))),
            self.kind is Jwt ==> (r matches Ok(step) ==> (step matches ApplyStep::Res(res)
                && crate::jwt::jwt_out_shaped(&self.kind, res.out@, data@))),
            rand_deterministic(old(rand).model()) ==> (r matches Ok(step) ==> (good_apply_step(
                step,
                &self.kind,
                ctx.expect@,
                ctx.words.deep_view(),
                ctx.dry_run,
                data@,
                old(rand).model(),
            ) && final(rand).model() == run_rand_after(
                &self.kind,
                ctx.words.deep_view(),
                old(rand).model(),
            ))),
    {
        let step = self.run(ctx, data, rand)?;
        match step {
            RunStep::Done { exit_code, out } => {
                let res = self.expect(ctx, exit_code, &out)?;
                Ok(ApplyStep::Res(res))
            },
            RunStep::Pending(action) => Ok(ApplyStep::Await(action)),
        }
    }

    /// Consumes the event of a performed invocation and classifies it.
    /// A shell event keeps the child's exit code and its stdout with
    /// trailing whitespace trimmed; an HTTP event keeps the status as
    /// exit code and assembles status line, headers and body as
    /// configured. Fails with `UnsupportedCommandRunner` when the event
    /// does not belong to this runner kind.
    pub fn resume_and_expect(&self, ctx: &Context, event: RunnerEvent) -> (r: FResult<ExecRes>)
        requires
            forall|i: int| 0 <= i < ctx.expect@.len() ==> expect_wf(#[trigger] &ctx.expect@[i]),
        ensures
            self.kind matches CommandRunnerKind::Shell { .. } ==> (event matches
                RunnerEvent::Shell { exit_code, stdout } ==> (r matches Ok(res) && res.out@
                == trim_newline(vstd::utf8::encode_utf8(stdout@)) && res.exit_code
                == classify_kind(
                ctx.expect@,
                trim_newline(vstd::utf8::encode_utf8(stdout@)),
                exit_code,
            ) && res.fmt == classify_fmt(
                ctx.expect@,
                trim_newline(vstd::utf8::encode_utf8(stdout@)),
                exit_code,
            ))),
            self.kind matches CommandRunnerKind::Http { no_headers, .. } ==> (event matches
                RunnerEvent::Http { status, headers, body } ==> (r matches Ok(res) && res.out@
                == http_response_out(
                status,
                headers@.map_values(|p: (Word, Word)| (p.0@, p.1@)),
                body@,
                no_headers,
            ) && res.exit_code == classify_kind(
                ctx.expect@,
                http_response_out(
                    status,
                    headers@.map_values(|p: (Word, Word)| (p.0@, p.1@)),
                    body@,
                    no_headers,
                ),
                Some(status as i32),
            ) && res.fmt == classify_fmt(
                ctx.expect@,
                http_response_out(
                    status,
                    headers@.map_values(|p: (Word, Word)| (p.0@, p.1@)),
                    body@,
                    no_headers,
                ),
                Some(status as i32),
            ))),
    {
        match (&self.kind, event) {
            (CommandRunnerKind::Shell { .. }, RunnerEvent::Shell { exit_code, stdout }) => {
                let mut out = stdout.as_str().as_bytes_vec();
                trim_newline_word(&mut out);
                self.expect(ctx, exit_code, &out)
            },
            (
                CommandRunnerKind::Http { no_headers, .. },
                RunnerEvent::Http { status, headers, body },
            ) => {
                let ghost hview = headers@.map_values(|p: (Word, Word)| (p.0@, p.1@));
                let mut out: Word = Vec::new();
                if !*no_headers {
                    push_decimal(&mut out, status);
                    out.push(10u8);
                    let ghost head0 = out@;
                    let mut i: usize = 0;
                    proof {
                        assert(hview.skip(0) =~= hview);
                        assert(head0 + Seq::<u8>::empty() =~= head0);
                    }
                    while i < headers.len()
                        invariant
                            0 <= i <= headers@.len(),
                            hview == headers@.map_values(|p: (Word, Word)| (p.0@, p.1@)),
                            head0 + response_headers_block(hview) == out@ + response_headers_block(
                                hview.skip(i as int),
                            ),
                        decreases headers@.len() - i,
                    {
                        let ghost out0 = out@;
                        push_all(&mut out, headers[i].0.as_slice());
                        out.push(58u8);
                        push_all(&mut out, headers[i].1.as_slice());
                        out.push(10u8);
                        i += 1;
                        proof {
                            let rest = hview.skip(i - 1);
                            assert(rest.skip(1) =~= hview.skip(i as int));
                            assert(rest[0] == hview[i - 1]);
                            assert(hview[i - 1].0 == headers@[i - 1].0@ && hview[i - 1].1
                                == headers@[i - 1].1@);
                            assert(response_headers_block(rest) == hview[i - 1].0 + seq![58u8]
                                + hview[i - 1].1 + seq![10u8] + response_headers_block(
                                hview.skip(i as int),
                            ));
                            assert(out@ =~= out0 + hview[i - 1].0 + seq![58u8] + hview[i - 1].1
                                + seq![10u8]);
                            assert(out0 + response_headers_block(rest) =~= out@
                                + response_headers_block(hview.skip(i as int)));
                        }
                    }
                    proof {
                        assert(hview.skip(i as int) =~= Seq::<(Seq<u8>, Seq<u8>)>::empty());
                        assert(response_headers_block(Seq::<(Seq<u8>, Seq<u8>)>::empty())
                            == Seq::<u8>::empty());
                        assert(out@ + Seq::<u8>::empty() =~= out@);
                    }
                    if headers.len() > 0 {
                        out.push(10u8);
                        out.push(10u8);
                    }
                }
                push_all(&mut out, body.as_slice());
                proof {
                    assert(out@ =~= http_response_out(status, hview, body@, *no_headers));
                }
                self.expect(ctx, Some(status as i32), &out)
            },
            _ => Err(Error::UnsupportedCommandRunner),
        }
    }
}

} // verus!

verus! {

use crate::config::{encode_all, shell_split};
use vstd::utf8::encode_utf8;

/// The shell runner kind a configuration describes: the first shell word
/// of `exec` as the command (empty when `exec` splits to nothing), the
/// remaining words as arguments.
pub open spec fn shell_kind_of_cfg(kind: &CommandRunnerKind, cfg: Config) -> bool {
    &&& kind matches CommandRunnerKind::Shell { cmd, cmd_args, cmd_arg_target, no_stdin }
    &&& cfg.exec_cmd matches Some(e)
    &&& shell_split(e@) matches Some(ws)
    &&& if ws.len() > 0 {
        cmd@ == encode_utf8(ws[0]) && cmd_args.deep_view() == encode_all(ws.skip(1))
    } else {
        cmd@ == Seq::<u8>::empty() && cmd_args.deep_view() == Seq::<Seq<u8>>::empty()
    }
    &&& cmd_arg_target@ == cfg.exec_target@
    &&& no_stdin == cfg.no_stdin
}

/// The HTTP runner kind a configuration describes.
pub open spec fn http_kind_of_cfg(kind: &CommandRunnerKind, cfg: Config) -> bool {
    &&& kind matches CommandRunnerKind::Http {
        url,
        headers,
        method,
        no_headers,
        timeout,
        cmd_arg_target,
    }
    &&& cfg.url matches Some(u) && url@ == u@
    &&& headers.deep_view() == cfg.header.deep_view()
    &&& (cfg.http_method matches Some(m) ==> method == m)
    &&& (cfg.http_method is None ==> method is Get)
    &&& no_headers == cfg.no_headers
    &&& (cfg.http_timeout matches Some(t) ==> timeout == t)
    &&& (cfg.http_timeout is None ==> timeout == 30u32)
    &&& cmd_arg_target@ == cfg.exec_target@
}

/// The JWT runner kind a configuration describes.
pub open spec fn jwt_kind_of_cfg(kind: &CommandRunnerKind, cfg: Config) -> bool {
    &&& kind matches CommandRunnerKind::Jwt(j)
    &&& cfg.jwt_header matches Some(h) && j.header@ == h@
    &&& j.cmd_arg_target@ == cfg.exec_target@
    &&& match cfg.jwt_signature {
        crate::config::SignatureConfig::Unsigned => j.signature is Unsigned,
        crate::config::SignatureConfig::HmacSha256 => j.signature matches
            Signature::HmacSha256 { secret } && cfg.jwt_secret matches Some(s) && secret@ == s@,
        crate::config::SignatureConfig::Rs256 => j.signature matches Signature::Rs256 { key_pair }
            && cfg.jwt_secret matches Some(s) && key_pair@ == s@,
    }
}

/// A JWT configuration that can be built: a header is present, and a
/// secret is present whenever a signing algorithm is selected.
pub open spec fn jwt_cfg_ok(cfg: Config) -> bool {
    cfg.jwt_header is Some && (!(cfg.jwt_signature is Unsigned) ==> cfg.jwt_secret is Some)
}

/// Whether runner selection succeeds on a configuration: the forced kind
/// must have its prerequisites, and the automatic choice fails only on a
/// present but unsplittable `exec` string or an incomplete JWT setup.
pub open spec fn runner_cfg_ok(cfg: Config) -> bool {
    match cfg.runner {
        RunnerKindConfig::Output => true,
        RunnerKindConfig::Shell => cfg.exec_cmd matches Some(e) && shell_split(e@) is Some,
        RunnerKindConfig::Http => cfg.url is Some,
        RunnerKindConfig::Jwt => jwt_cfg_ok(cfg),
        RunnerKindConfig::Auto => match cfg.exec_cmd {
            Some(e) => shell_split(e@) is Some,
            None => if cfg.url is Some {
                true
            } else if cfg.jwt_header is Some {
                jwt_cfg_ok(cfg)
            } else {
                true
            },
        },
    }
}

/// The runner `from_cfg` selects, described kind by kind.
pub open spec fn runner_of_cfg(c: &CommandRunner, cfg: Config) -> bool {
    match cfg.runner {
        RunnerKindConfig::Output => c.kind is Output,
        RunnerKindConfig::Shell => shell_kind_of_cfg(&c.kind, cfg),
        RunnerKindConfig::Http => http_kind_of_cfg(&c.kind, cfg),
        RunnerKindConfig::Jwt => jwt_kind_of_cfg(&c.kind, cfg),
        RunnerKindConfig::Auto => if cfg.exec_cmd is Some {
            shell_kind_of_cfg(&c.kind, cfg)
        } else if cfg.url is Some {
            http_kind_of_cfg(&c.kind, cfg)
        } else if cfg.jwt_header is Some {
            jwt_kind_of_cfg(&c.kind, cfg)
        } else {
            c.kind is Output
        },
    }
}

impl CommandRunner {
    /// The shell runner of a configuration. Fails with
    /// `InsufficientRunnerConfiguration` when no `exec` option is set and
    /// with `ArgError` when the option cannot be shell-split.
    pub fn shell_runner(cfg: &Config) -> (r: FResult<Option<Self>>)
        ensures
            cfg.exec_cmd is None ==> r == Err::<Option<CommandRunner>, Error>(
                Error::InsufficientRunnerConfiguration,
            ),
            cfg.exec_cmd matches Some(e) ==> {
                &&& (r is Ok) == (shell_split(e@) is Some)
                &&& r matches Err(err) ==> err == Error::ArgError
                &&& r matches Ok(o) ==> (o matches Some(c) && shell_kind_of_cfg(&c.kind, *cfg))
            },
    {
        let cmd_opt = cfg.cmd()?;
        if let Some(cmd) = cmd_opt {
            let args_opt = cfg.cmd_args()?;
            let cmd_args = match args_opt {
                Some(a) => a,
                None => Vec::new(),
            };
            Ok(
                Some(
                    CommandRunner {
                        kind: CommandRunnerKind::Shell {
                            cmd,
                            cmd_args,
                            cmd_arg_target: clone_word(&cfg.exec_target),
                            no_stdin: cfg.no_stdin,
                        },
                    },
                ),
            )
        } else {
            Err(Error::InsufficientRunnerConfiguration)
        }
    }

    /// The pass-through runner; never fails.
    pub fn output_runner(_cfg: &Config) -> (r: FResult<Option<Self>>)
        ensures
            r matches Ok(o) && o matches Some(c) && c.kind is Output,
    {
        Ok(Some(CommandRunner { kind: CommandRunnerKind::Output }))
    }

    /// The HTTP runner of a configuration. Fails with
    /// `InsufficientRunnerConfiguration` exactly when no URL is set.
    pub fn http_runner(cfg: &Config) -> (r: FResult<Option<Self>>)
        ensures
            cfg.url is None ==> r == Err::<Option<CommandRunner>, Error>(
                Error::InsufficientRunnerConfiguration,
            ),
            cfg.url is Some ==> (r matches Ok(o) && o matches Some(c) && http_kind_of_cfg(
                &c.kind,
                *cfg,
            )),
    {
        if let Some(url) = &cfg.url {
            let mut headers: Vec<Word> = Vec::new();
            crate::config::extend_clones(&mut headers, &cfg.header);
            let method = match cfg.http_method {
                Some(m) => m,
                None => crate::config::HttpMethod::Get,
            };
            let timeout = match cfg.http_timeout {
                Some(t) => t,
                None => 30u32,
            };
            Ok(
                Some(
                    CommandRunner {
                        kind: CommandRunnerKind::Http {
                            url: clone_word(url),
                            headers,
                            method,
                            no_headers: cfg.no_headers,
                            timeout,
                            cmd_arg_target: clone_word(&cfg.exec_target),
                        },
                    },
                ),
            )
        } else {
            Err(Error::InsufficientRunnerConfiguration)
        }
    }

    /// The JWT runner of a configuration. Fails with
    /// `InsufficientRunnerConfiguration` exactly when no header is set or
    /// the selected signature lacks its secret.
    pub fn jwt_runner(cfg: &Config) -> (r: FResult<Option<Self>>)
        ensures
            (r is Ok) == jwt_cfg_ok(*cfg),
            r matches Err(e) ==> e == Error::InsufficientRunnerConfiguration,
            r matches Ok(o) ==> (o matches Some(c) && jwt_kind_of_cfg(&c.kind, *cfg)),
    {
        if let Some(header) = &cfg.jwt_header {
            let signature = Signature::from_config(cfg)?;
            Ok(
                Some(
                    CommandRunner {
                        kind: CommandRunnerKind::Jwt(
                            Jwt {
                                header: clone_word(header),
                                signature,
                                cmd_arg_target: clone_word(&cfg.exec_target),
                            },
                        ),
                    },
                ),
            )
        } else {
            Err(Error::InsufficientRunnerConfiguration)
        }
    }

    /// Picks a runner from the set options: `exec` wins over a URL, a URL
    /// over a JWT header; with none of them the pass-through runner runs.
    fn auto_select_runner(cfg: &Config) -> (r: FResult<Option<Self>>)
        ensures
            r matches Err(e) ==> (e == Error::InsufficientRunnerConfiguration || e
                == Error::ArgError),
            cfg.exec_cmd is Some ==> {
                &&& (r is Ok) == (shell_split(cfg.exec_cmd->Some_0@) is Some)
                &&& r matches Ok(o) ==> (o matches Some(c) && shell_kind_of_cfg(&c.kind, *cfg))
            },
            (cfg.exec_cmd is None && cfg.url is Some) ==> (r matches Ok(o) && o matches Some(c)
                && http_kind_of_cfg(&c.kind, *cfg)),
            (cfg.exec_cmd is None && cfg.url is None && cfg.jwt_header is Some) ==> {
                &&& (r is Ok) == jwt_cfg_ok(*cfg)
                &&& r matches Ok(o) ==> (o matches Some(c) && jwt_kind_of_cfg(&c.kind, *cfg))
            },
            (cfg.exec_cmd is None && cfg.url is None && cfg.jwt_header is None) ==> (r matches Ok(o)
                && o matches Some(c) && c.kind is Output),
    {
        if cfg.exec_cmd.is_some() {
            Self::shell_runner(cfg)
        } else if cfg.url.is_some() {
            Self::http_runner(cfg)
        } else if cfg.jwt_header.is_some() {
            Self::jwt_runner(cfg)
        } else {
            Self::output_runner(cfg)
        }
    }

    /// The runner a configuration selects: the forced kind when one is
    /// set, the automatic choice otherwise.
    pub fn from_cfg(cfg: &Config) -> (r: FResult<Option<Self>>)
        ensures
            (r is Ok) == runner_cfg_ok(*cfg),
            r matches Ok(o) ==> (o matches Some(c) && runner_of_cfg(&c, *cfg)),
            r matches Err(e) ==> (e == Error::InsufficientRunnerConfiguration || e
                == Error::ArgError),
            cfg.runner is Output ==> (r matches Ok(o) && o matches Some(c) && c.kind is Output),
            cfg.runner is Shell ==> {
                &&& cfg.exec_cmd is None ==> r == Err::<Option<CommandRunner>, Error>(
                    Error::InsufficientRunnerConfiguration,
                )
                &&& cfg.exec_cmd matches Some(e) ==> ((r is Ok) == (shell_split(e@) is Some) && (
                r matches Ok(o) ==> (o matches Some(c) && shell_kind_of_cfg(&c.kind, *cfg))))
            },
            cfg.runner is Http ==> {
                &&& cfg.url is None ==> r == Err::<Option<CommandRunner>, Error>(
                    Error::InsufficientRunnerConfiguration,
                )
                &&& cfg.url is Some ==> (r matches Ok(o) && o matches Some(c) && http_kind_of_cfg(
                    &c.kind,
                    *cfg,
                ))
            },
            cfg.runner is Jwt ==> {
                &&& (r is Ok) == jwt_cfg_ok(*cfg)
                &&& r matches Ok(o) ==> (o matches Some(c) && jwt_kind_of_cfg(&c.kind, *cfg))
            },
            cfg.runner is Auto ==> {
                &&& cfg.exec_cmd is Some ==> ((r is Ok) == (shell_split(
                    cfg.exec_cmd->Some_0@,
                ) is Some) && (r matches Ok(o) ==> (o matches Some(c) && shell_kind_of_cfg(
                    &c.kind,
                    *cfg,
                ))))
                &&& (cfg.exec_cmd is None && cfg.url is Some) ==> (r matches Ok(o) && o matches
                Some(c) && http_kind_of_cfg(&c.kind, *cfg))
                &&& (cfg.exec_cmd is None && cfg.url is None && cfg.jwt_header is Some) ==> ((
                r is Ok) == jwt_cfg_ok(*cfg) && (r matches Ok(o) ==> (o matches Some(c)
                    && jwt_kind_of_cfg(&c.kind, *cfg))))
                &&& (cfg.exec_cmd is None && cfg.url is None && cfg.jwt_header is None) ==> (
                r matches Ok(o) && o matches Some(c) && c.kind is Output)
            },
    {
        match cfg.runner {
            RunnerKindConfig::Shell => Self::shell_runner(cfg),
            RunnerKindConfig::Auto => Self::auto_select_runner(cfg),
            RunnerKindConfig::Output => Self::output_runner(cfg),
            RunnerKindConfig::Http => Self::http_runner(cfg),
            RunnerKindConfig::Jwt => Self::jwt_runner(cfg),
        }
    }
}

} // verus!
