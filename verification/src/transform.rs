use vstd::prelude::*;

use crate::errors::{Error, FResult};

verus! {

/// A word of the pool and the unit of all payload data: an arbitrary byte
/// sequence, not necessarily valid UTF-8.
pub type Word = Vec<u8>;

/// The byte sequence of the default target marker, `OXIFUZZ`.
pub open spec fn default_target_word() -> Seq<u8> {
    seq![79u8, 88u8, 73u8, 70u8, 85u8, 90u8, 90u8]
}

/// `p` occurs at the very start of `s`.
pub open spec fn is_prefix_of(p: Seq<u8>, s: Seq<u8>) -> bool {
    p.len() <= s.len() && s.subrange(0, p.len() as int) == p
}

/// Compares a pattern against the start of a slice.
pub(crate) fn starts_with(s: &[u8], p: &Vec<u8>) -> (r: bool)
    ensures
        r == is_prefix_of(p@, s@),
{
    if p.len() > s.len() {
        return false;
    }
    let mut i: usize = 0;
    while i < p.len()
        invariant
            i <= p@.len() <= s@.len(),
            forall|j: int| 0 <= j < i ==> p@[j] == s@[j],
        decreases p@.len() - i,
    {
        if p[i] != s[i] {
            assert(s@.subrange(0, p@.len() as int)[i as int] != p@[i as int]);
            return false;
        }
        i += 1;
    }
    assert(s@.subrange(0, p@.len() as int) =~= p@);
    true
}

/// The target marker: a payload position matches iff the marker is a
/// byte-exact prefix at that position.
#[derive(Clone)]
pub enum Target {
    Word(Word),
}

impl View for Target {
    type V = Seq<u8>;

    closed spec fn view(&self) -> Seq<u8> {
        match self {
            Target::Word(w) => w@,
        }
    }
}

impl Default for Target {
    /// The default marker is `OXIFUZZ`.
    fn default() -> (r: Self)
        ensures
            r@ == default_target_word(),
    {
        let w: Word = vec![79u8, 88u8, 73u8, 70u8, 85u8, 90u8, 90u8];
        assert(w@ =~= default_target_word());
        Target::Word(w)
    }
}

impl Target {
    /// True iff the marker is a prefix of `input`.
    pub fn should_replace(&self, input: &[u8]) -> (r: bool)
        ensures
            r == is_prefix_of(self@, input@),
    {
        match self {
            Target::Word(w) => starts_with(input, w),
        }
    }

    /// Length of the marker in bytes.
    pub fn len(&self) -> (r: usize)
        ensures
            r == self@.len(),
    {
        match self {
            Target::Word(w) => w.len(),
        }
    }
}

/// Overall verdict of a run, convertible to a process exit status.
#[derive(Copy, Clone, Eq, PartialEq, Structural, Debug)]
pub enum ExitCodes {
    Success,
    Failure,
    RunnerFailed,
    Unknown,
}

impl Default for ExitCodes {
    fn default() -> (r: Self)
        ensures
            r is Success,
    {
        ExitCodes::Success
    }
}

/// How severe an exit kind is; folding several kinds keeps the most severe.
pub open spec fn severity(c: ExitCodes) -> int {
    match c {
        ExitCodes::Success => 0,
        ExitCodes::Failure => 1,
        ExitCodes::RunnerFailed => 2,
        ExitCodes::Unknown => 3,
    }
}

/// The more severe of two exit kinds.
pub open spec fn spec_combine(a: ExitCodes, b: ExitCodes) -> ExitCodes {
    if severity(a) >= severity(b) {
        a
    } else {
        b
    }
}

/// Fold of a sequence of exit kinds, starting from `Success`.
pub open spec fn spec_fold_codes(s: Seq<ExitCodes>) -> ExitCodes
    decreases s.len(),
{
    if s.len() == 0 {
        ExitCodes::Success
    } else {
        spec_combine(spec_fold_codes(s.drop_last()), s.last())
    }
}

impl ExitCodes {
    /// Everything but `Success` counts as a failure.
    pub fn is_failure(&self) -> (r: bool)
        ensures
            r == !(self is Success),
    {
        match self {
            ExitCodes::Success => false,
            _ => true,
        }
    }

    /// The process exit status this kind maps to.
    pub fn code(&self) -> (r: i32)
        ensures
            self is Success ==> r == 0,
            self is Failure ==> r == 1,
            self is RunnerFailed ==> r == 2,
            self is Unknown ==> r == -1,
    {
        match self {
            ExitCodes::Success => 0,
            ExitCodes::Failure => 1,
            ExitCodes::RunnerFailed => 2,
            ExitCodes::Unknown => -1,
        }
    }

    /// Folds another per-iteration kind into an accumulated overall kind,
    /// keeping the more severe of the two.
    pub fn combine(self, other: ExitCodes) -> (r: ExitCodes)
        ensures
            r == spec_combine(self, other),
    {
        let sa = match self {
            ExitCodes::Success => 0u8,
            ExitCodes::Failure => 1u8,
            ExitCodes::RunnerFailed => 2u8,
            ExitCodes::Unknown => 3u8,
        };
        let sb = match other {
            ExitCodes::Success => 0u8,
            ExitCodes::Failure => 1u8,
            ExitCodes::RunnerFailed => 2u8,
            ExitCodes::Unknown => 3u8,
        };
        if sa >= sb {
            self
        } else {
            other
        }
    }
}

/// Folds the per-iteration exit kinds of a whole run into the overall kind.
pub fn fold_exit_codes(codes: &Vec<ExitCodes>) -> (r: ExitCodes)
    ensures
        r == spec_fold_codes(codes@),
{
    let mut acc = ExitCodes::Success;
    let mut i: usize = 0;
    while i < codes.len()
        invariant
            i <= codes@.len(),
            acc == spec_fold_codes(codes@.take(i as int)),
        decreases codes@.len() - i,
    {
        proof {
            assert(codes@.take(i + 1).drop_last() =~= codes@.take(i as int));
        }
        acc = acc.combine(codes[i]);
        i += 1;
    }
    proof {
        assert(codes@.take(codes@.len() as int) =~= codes@);
    }
    acc
}

/// The overall exit kind is the maximum severity over the per-iteration
/// kinds: it is at least as severe as each of them, and (for a non-empty
/// run) it is one of them.
pub proof fn lemma_fold_is_max(s: Seq<ExitCodes>)
    ensures
        forall|i: int| 0 <= i < s.len() ==> severity(spec_fold_codes(s)) >= severity(s[i]),
        s.len() > 0 ==> exists|i: int| 0 <= i < s.len() && spec_fold_codes(s) == s[i],
        s.len() == 0 ==> spec_fold_codes(s) is Success,
    decreases s.len(),
{
    if s.len() > 0 {
        lemma_fold_is_max(s.drop_last());
        assert(forall|i: int| 0 <= i < s.len() - 1 ==> s.drop_last()[i] == s[i]);
        if s.len() > 1 {
            assert(s.drop_last().len() > 0);
        }
    }
}

/// How a result line is rendered. `Plain` is the neutral rendering used
/// when no expectation was configured.
#[derive(Copy, Clone, Eq, PartialEq, Structural, Debug)]
pub enum OutputFmt {
    Plain,
    Expected,
    NotExpected,
}

impl Default for OutputFmt {
    fn default() -> (r: Self)
        ensures
            r is Plain,
    {
        OutputFmt::Plain
    }
}

/// The evaluator's verdict on one iteration: exit kind, the bytes the
/// runner produced, and how to render them.
#[derive(Clone, Debug)]
pub struct ExecRes {
    pub exit_code: ExitCodes,
    pub out: Word,
    pub fmt: OutputFmt,
}

impl Default for ExecRes {
    /// An empty, successful, neutrally rendered result.
    fn default() -> (r: Self)
        ensures
            r.exit_code is Success,
            r.out@ == Seq::<u8>::empty(),
            r.fmt is Plain,
    {
        ExecRes { exit_code: ExitCodes::Success, out: Vec::new(), fmt: OutputFmt::Plain }
    }
}

/// A copy of a word.
pub(crate) fn clone_word(w: &Word) -> (r: Word)
    ensures
        r@ == w@,
{
    vstd::slice::slice_to_vec(w.as_slice())
}

/// Byte-for-byte equality of two words.
pub(crate) fn eq_bytes(a: &Vec<u8>, b: &Vec<u8>) -> (r: bool)
    ensures
        r == (a@ == b@),
{
    if a.len() != b.len() {
        return false;
    }
    let mut i: usize = 0;
    while i < a.len()
        invariant
            i <= a@.len(),
            a@.len() == b@.len(),
            forall|j: int| 0 <= j < i ==> a@[j] == b@[j],
        decreases a@.len() - i,
    {
        if a[i] != b[i] {
            return false;
        }
        i += 1;
    }
    assert(a@ =~= b@);
    true
}

impl PartialEq for ExecRes {
    fn eq(&self, other: &Self) -> (r: bool) {
        self.exit_code == other.exit_code && eq_bytes(&self.out, &other.out)
            && self.fmt == other.fmt
    }
}

impl vstd::std_specs::cmp::PartialEqSpecImpl for ExecRes {
    open spec fn obeys_eq_spec() -> bool {
        true
    }

    open spec fn eq_spec(&self, other: &Self) -> bool {
        self.exit_code == other.exit_code && self.out@ == other.out@ && self.fmt == other.fmt
    }
}

} // verus!

verus! {

use crate::rng::{can_draw, det_range, rand_deterministic, step_range, Rand, RandModel};
use crate::expect::lossy_chars;

/// The marker occurs somewhere in `input`.
pub open spec fn has_target(input: Seq<u8>, target: Seq<u8>) -> bool {
    exists|j: int| 0 <= j <= input.len() - target.len() && is_prefix_of(target, input.skip(j))
}

/// The pool index one bounded draw selects: the drawn value, clamped into
/// the pool. The clamp defends against the file-backed source's
/// mask-and-add formula, which may fall outside the range.
pub open spec fn sel_index(m: RandModel, len: nat) -> int
    recommends
        len > 0,
{
    let v = det_range(m, 0, len as u64);
    if (v as int) < len as int - 1 {
        v as int
    } else {
        len as int - 1
    }
}

/// The UTF-8 bytes of the lossy decoding of a word: how a word looks when
/// it is substituted into text.
pub open spec fn lossy_bytes(w: Seq<u8>) -> Seq<u8> {
    vstd::utf8::encode_utf8(lossy_chars(w))
}

/// Each word of the pool as it is substituted into text.
pub open spec fn lossy_all(ws: Seq<Seq<u8>>) -> Seq<Seq<u8>> {
    ws.map_values(|w: Seq<u8>| lossy_bytes(w))
}

/// The word pool as the engine sees it: raw bytes for template
/// substitution, lossily decoded text for auxiliary substitution.
pub open spec fn subst_pool(ws: Seq<Seq<u8>>, lossy: bool) -> Seq<Seq<u8>> {
    if lossy {
        lossy_all(ws)
    } else {
        ws
    }
}

/// The output of the substitution engine on `input` for a deterministic
/// random source in state `m`: every occurrence of `target`, scanned left
/// to right without back-tracking and without re-scanning substituted
/// bytes, is replaced by the pool word the next draw selects; every other
/// byte is copied.
pub open spec fn subst_out(input: Seq<u8>, target: Seq<u8>, words: Seq<Seq<u8>>, m: RandModel) -> Seq<
    u8,
>
    decreases input.len(),
{
    if input.len() == 0 {
        Seq::empty()
    } else if target.len() > 0 && is_prefix_of(target, input) {
        words[sel_index(m, words.len())] + subst_out(
            input.skip(target.len() as int),
            target,
            words,
            step_range(m, 0, words.len() as u64),
        )
    } else {
        seq![input[0]] + subst_out(input.skip(1), target, words, m)
    }
}

/// The state of the random source after the engine has consumed `input`.
pub open spec fn subst_rand(
    input: Seq<u8>,
    target: Seq<u8>,
    words: Seq<Seq<u8>>,
    m: RandModel,
) -> RandModel
    decreases input.len(),
{
    if input.len() == 0 {
        m
    } else if target.len() > 0 && is_prefix_of(target, input) {
        subst_rand(input.skip(target.len() as int), target, words, step_range(m, 0, words.len() as u64))
    } else {
        subst_rand(input.skip(1), target, words, m)
    }
}

/// The output of the substitution engine when the pool indices drawn at
/// the successive marker sites are given explicitly by `picks`.
pub open spec fn subst_with(
    input: Seq<u8>,
    target: Seq<u8>,
    words: Seq<Seq<u8>>,
    picks: Seq<int>,
) -> Seq<u8>
    decreases input.len(),
{
    if input.len() == 0 {
        Seq::empty()
    } else if target.len() > 0 && is_prefix_of(target, input) {
        words[picks[0]] + subst_with(input.skip(target.len() as int), target, words, picks.skip(1))
    } else {
        seq![input[0]] + subst_with(input.skip(1), target, words, picks)
    }
}

/// Whether `marker` occurs anywhere in `input`.
pub fn word_occurs_in(input: &[u8], marker: &Word) -> (r: bool)
    requires
        marker@.len() > 0,
    ensures
        r == has_target(input@, marker@),
{
    if marker.len() > input.len() {
        assert(!has_target(input@, marker@));
        return false;
    }
    let mut i: usize = 0;
    let end = input.len() - marker.len();
    while i <= end
        invariant
            0 <= i <= end + 1,
            marker@.len() >= 1,
            end == input@.len() - marker@.len(),
            forall|j: int| 0 <= j < i ==> !is_prefix_of(marker@, input@.skip(j)),
        decreases end + 1 - i,
    {
        let tail = slice_subrange(input, i, input.len());
        proof {
            assert(tail@ =~= input@.skip(i as int));
        }
        if starts_with(tail, marker) {
            return true;
        }
        i += 1;
    }
    false
}

impl Target {
    /// Whether the marker occurs anywhere in `input`.
    pub fn occurs_in(&self, input: &[u8]) -> (r: bool)
        requires
            self@.len() > 0,
        ensures
            r == has_target(input@, self@),
    {
        match self {
            Target::Word(w) => word_occurs_in(input, w),
        }
    }
}

/// Substitution is deterministic: two runs over the same template, marker
/// and pool, from equal deterministic random states, produce the same
/// payload and leave the source in the same state. `Context::apply` pins
/// its payload to `subst_out` of the starting state, so this transfers to
/// whole executions: equal seeds give equal payload sequences.
pub proof fn lemma_substitution_deterministic(
    input: Seq<u8>,
    target: Seq<u8>,
    words: Seq<Seq<u8>>,
    m1: RandModel,
    m2: RandModel,
)
    requires
        rand_deterministic(m1),
        m1 == m2,
    ensures
        subst_out(input, target, words, m1) == subst_out(input, target, words, m2),
        subst_rand(input, target, words, m1) == subst_rand(input, target, words, m2),
{
}

/// Marker coverage, part one: a stretch of the template in which no marker
/// occurrence starts is copied into the output unchanged, and scanning
/// continues after it unchanged.
pub proof fn lemma_subst_copies_unmatched(
    pre: Seq<u8>,
    rest: Seq<u8>,
    target: Seq<u8>,
    words: Seq<Seq<u8>>,
    picks: Seq<int>,
)
    requires
        target.len() > 0,
        forall|j: int| 0 <= j < pre.len() ==> !is_prefix_of(target, (pre + rest).skip(j)),
    ensures
        subst_with(pre + rest, target, words, picks) == pre + subst_with(
            rest,
            target,
            words,
            picks,
        ),
    decreases pre.len(),
{
    if pre.len() == 0 {
        assert(pre + rest =~= rest);
        assert(pre + subst_with(rest, target, words, picks) =~= subst_with(
            rest,
            target,
            words,
            picks,
        ));
    } else {
        let s = pre + rest;
        assert(s.skip(0) =~= s);
        assert(!is_prefix_of(target, s));
        assert(s.len() > 0);
        let pre1 = pre.skip(1);
        assert(s.skip(1) =~= pre1 + rest);
        assert forall|j: int| 0 <= j < pre1.len() implies !is_prefix_of(
            target,
            (pre1 + rest).skip(j),
        ) by {
            assert((pre1 + rest).skip(j) =~= s.skip(j + 1));
        }
        lemma_subst_copies_unmatched(pre1, rest, target, words, picks);
        assert(subst_with(s, target, words, picks) == seq![s[0]] + (pre1 + subst_with(
            rest,
            target,
            words,
            picks,
        )));
        assert(seq![s[0]] + (pre1 + subst_with(rest, target, words, picks)) =~= pre + subst_with(
            rest,
            target,
            words,
            picks,
        ));
    }
}

/// Marker coverage for the deterministic engine: an unmatched stretch is
/// copied unchanged and consumes no draw, so the random state continues
/// into the rest untouched.
pub proof fn lemma_subst_out_copies_unmatched(
    pre: Seq<u8>,
    rest: Seq<u8>,
    target: Seq<u8>,
    words: Seq<Seq<u8>>,
    m: RandModel,
)
    requires
        target.len() > 0,
        forall|j: int| 0 <= j < pre.len() ==> !is_prefix_of(target, (pre + rest).skip(j)),
    ensures
        subst_out(pre + rest, target, words, m) == pre + subst_out(rest, target, words, m),
        subst_rand(pre + rest, target, words, m) == subst_rand(rest, target, words, m),
    decreases pre.len(),
{
    if pre.len() == 0 {
        assert(pre + rest =~= rest);
        assert(pre + subst_out(rest, target, words, m) =~= subst_out(rest, target, words, m));
    } else {
        let s = pre + rest;
        assert(s.skip(0) =~= s);
        assert(!is_prefix_of(target, s));
        let pre1 = pre.skip(1);
        assert(s.skip(1) =~= pre1 + rest);
        assert forall|j: int| 0 <= j < pre1.len() implies !is_prefix_of(
            target,
            (pre1 + rest).skip(j),
        ) by {
            assert((pre1 + rest).skip(j) =~= s.skip(j + 1));
        }
        lemma_subst_out_copies_unmatched(pre1, rest, target, words, m);
        assert(subst_out(s, target, words, m) == seq![s[0]] + (pre1 + subst_out(
            rest,
            target,
            words,
            m,
        )));
        assert(seq![s[0]] + (pre1 + subst_out(rest, target, words, m)) =~= pre + subst_out(
            rest,
            target,
            words,
            m,
        ));
    }
}

/// Marker coverage, part two: at a marker occurrence, exactly one pool
/// word is emitted in its place and scanning resumes right after the
/// marker. Together with part one this pins the whole output: the
/// template is an alternation of unmatched stretches and marker sites,
/// the stretches are preserved byte for byte, and each site becomes
/// exactly one replacement.
pub proof fn lemma_subst_replaces_marker(
    input: Seq<u8>,
    target: Seq<u8>,
    words: Seq<Seq<u8>>,
    picks: Seq<int>,
)
    requires
        target.len() > 0,
        is_prefix_of(target, input),
    ensures
        subst_with(input, target, words, picks) == words[picks[0]] + subst_with(
            input.skip(target.len() as int),
            target,
            words,
            picks.skip(1),
        ),
{
}

/// No re-scanning across substituted bytes: a replacement word is emitted
/// verbatim, even when it contains the marker itself, and the engine
/// continues with the rest of the template only. In particular a template
/// that consists of one marker site becomes exactly the selected word.
pub proof fn lemma_no_rescan(target: Seq<u8>, words: Seq<Seq<u8>>, picks: Seq<int>)
    requires
        target.len() > 0,
    ensures
        subst_with(target, target, words, picks) == words[picks[0]],
{
    assert(target.subrange(0, target.len() as int) =~= target);
    assert(is_prefix_of(target, target));
    assert(target.skip(target.len() as int) =~= Seq::<u8>::empty());
    assert(subst_with(Seq::<u8>::empty(), target, words, picks.skip(1)) == Seq::<u8>::empty());
    assert(subst_with(target, target, words, picks) == words[picks[0]] + Seq::<u8>::empty());
    assert(words[picks[0]] + Seq::<u8>::empty() =~= words[picks[0]]);
}

} // verus!

verus! {

use vstd::slice::slice_subrange;

/// Appends a byte slice to a buffer.
pub fn push_all(dst: &mut Vec<u8>, src: &[u8])
    ensures
        final(dst)@ == old(dst)@ + src@,
{
    let ghost orig = old(dst)@;
    let mut i: usize = 0;
    proof {
        assert(orig + src@.take(0) =~= orig);
    }
    while i < src.len()
        invariant
            0 <= i <= src@.len(),
            dst@ == orig + src@.take(i as int),
        decreases src@.len() - i,
    {
        let ghost prev = dst@;
        dst.push(src[i]);
        i += 1;
        proof {
            assert(dst@ =~= orig + src@.take(i as int));
        }
    }
    proof {
        assert(src@.take(src@.len() as int) =~= src@);
    }
}

/// The bytes a word contributes when substituted into text: its lossy
/// UTF-8 decoding, re-encoded.
pub(crate) fn lossy_word_bytes(w: &Word) -> (r: Word)
    ensures
        r@ == lossy_bytes(w@),
{
    let s = crate::expect::lossy_string(w);
    s.as_str().as_bytes_vec()
}

/// The substitution engine: streams `input` left to right, replaces every
/// occurrence of `marker` with a freshly drawn pool word (lossily decoded
/// when `lossy` is set, raw bytes otherwise) and copies every other byte.
/// Substituted bytes are never re-scanned.
pub(crate) fn subst_core(
    input: &[u8],
    marker: &Word,
    words: &Vec<Word>,
    rand: &mut Rand,
    lossy: bool,
) -> (r: FResult<Word>)
    requires
        marker@.len() > 0,
        has_target(input@, marker@) ==> words@.len() > 0,
    ensures
        !(old(rand).model() is File) ==> r is Ok,
        r is Ok ==> ((old(rand).model() is File) == (final(rand).model() is File)),
        r is Ok ==> ((old(rand).model() is Entropy) == (final(rand).model() is Entropy)),
        r matches Err(e) ==> (e == Error::Io && old(rand).model() is File
            && final(rand).model() is File),
        r matches Ok(out) ==> (rand_deterministic(old(rand).model()) ==> (out@ == subst_out(
            input@,
            marker@,
            subst_pool(words.deep_view(), lossy),
            old(rand).model(),
        ) && final(rand).model() == subst_rand(
            input@,
            marker@,
            subst_pool(words.deep_view(), lossy),
            old(rand).model(),
        ))),
        r matches Ok(out) ==> exists|picks: Seq<int>|
            (forall|j: int|
                0 <= j < picks.len() ==> 0 <= #[trigger] picks[j] < words.deep_view().len())
                && out@ == subst_with(
                input@,
                marker@,
                subst_pool(words.deep_view(), lossy),
                picks,
            ),
        !has_target(input@, marker@) ==> (r matches Ok(out) && out@ == input@ && *final(rand)
            == *old(rand)),
{
    let ghost m0 = old(rand).model();
    let ghost ws = subst_pool(words.deep_view(), lossy);
    let mut result: Vec<u8> = Vec::new();
    let mut i: usize = 0;
    let ghost mut picks: Seq<int> = Seq::empty();
    proof {
        assert(input@.skip(0) =~= input@);
        assert(input@.subrange(0, 0) =~= Seq::<u8>::empty());
    }
    while i < input.len()
        invariant
            0 <= i <= input@.len(),
            marker@.len() > 0,
            has_target(input@, marker@) ==> words@.len() > 0,
            ws == subst_pool(words.deep_view(), lossy),
            ws.len() == words@.len(),
            m0 == old(rand).model(),
            (m0 is File) == (rand.model() is File),
            (m0 is Entropy) == (rand.model() is Entropy),
            rand_deterministic(m0) ==> {
                &&& rand_deterministic(rand.model())
                &&& subst_out(input@, marker@, ws, m0) == result@ + subst_out(
                    input@.skip(i as int),
                    marker@,
                    ws,
                    rand.model(),
                )
                &&& subst_rand(input@, marker@, ws, m0) == subst_rand(
                    input@.skip(i as int),
                    marker@,
                    ws,
                    rand.model(),
                )
            },
            forall|j: int| 0 <= j < picks.len() ==> 0 <= #[trigger] picks[j] < ws.len(),
            forall|rest: Seq<int>|
                result@ + #[trigger] subst_with(input@.skip(i as int), marker@, ws, rest)
                    == subst_with(input@, marker@, ws, picks + rest),
            !has_target(input@, marker@) ==> (result@ == input@.subrange(0, i as int) && *rand
                == *old(rand)),
        decreases input@.len() - i,
    {
        let ghost m_now = rand.model();
        let ghost rest_i = input@.skip(i as int);
        let ghost result0 = result@;
        let ghost picks0 = picks;
        let tail = slice_subrange(input, i, input.len());
        proof {
            assert(tail@ =~= rest_i);
        }
        if starts_with(tail, marker) {
            proof {
                assert(is_prefix_of(marker@, input@.skip(i as int)));
                assert(marker@.len() <= rest_i.len());
                assert(0 <= i <= input@.len() - marker@.len());
                assert(has_target(input@, marker@));
            }
            let idx_raw = match rand.next_range(0, words.len() as u64) {
                Ok(v) => v,
                Err(e) => {
                    return Err(e);
                },
            };
            let len_minus: usize = words.len() - 1;
            let idx: usize = if idx_raw < len_minus as u64 {
                idx_raw as usize
            } else {
                len_minus
            };
            proof {
                assert(rand_deterministic(m0) ==> idx as int == sel_index(m_now, ws.len() as nat));
            }
            let chosen: Word = if lossy {
                lossy_word_bytes(&words[idx])
            } else {
                clone_word(&words[idx])
            };
            proof {
                assert(words.deep_view()[idx as int] =~= words@[idx as int]@);
                assert(chosen@ == ws[idx as int]);
            }
            push_all(&mut result, chosen.as_slice());
            i = i + marker.len();
            proof {
                picks = picks.push(idx as int);
                assert(input@.skip(i as int) =~= rest_i.skip(marker@.len() as int));
                if rand_deterministic(m0) {
                    assert(subst_out(rest_i, marker@, ws, m_now) == ws[sel_index(
                        m_now,
                        ws.len() as nat,
                    )] + subst_out(
                        rest_i.skip(marker@.len() as int),
                        marker@,
                        ws,
                        step_range(m_now, 0, ws.len() as u64),
                    ));
                    assert(result@ =~= result0 + ws[idx as int]);
                    assert(result0 + subst_out(rest_i, marker@, ws, m_now) =~= result@ + subst_out(
                        input@.skip(i as int),
                        marker@,
                        ws,
                        rand.model(),
                    ));
                }
                assert forall|rest: Seq<int>|
                    result@ + #[trigger] subst_with(input@.skip(i as int), marker@, ws, rest)
                        == subst_with(input@, marker@, ws, picks + rest) by {
                    let rest1 = seq![idx as int] + rest;
                    assert(result0 + subst_with(rest_i, marker@, ws, rest1) == subst_with(
                        input@,
                        marker@,
                        ws,
                        picks0 + rest1,
                    ));
                    assert(rest1[0] == idx as int);
                    assert(rest1.skip(1) =~= rest);
                    assert(subst_with(rest_i, marker@, ws, rest1) == ws[idx as int] + subst_with(
                        rest_i.skip(marker@.len() as int),
                        marker@,
                        ws,
                        rest,
                    ));
                    assert(picks0 + rest1 =~= picks + rest);
                    assert(result0 + (ws[idx as int] + subst_with(
                        input@.skip(i as int),
                        marker@,
                        ws,
                        rest,
                    )) =~= result@ + subst_with(input@.skip(i as int), marker@, ws, rest));
                }
            }
        } else {
            let b = input[i];
            result.push(b);
            i += 1;
            proof {
                assert(input@.skip(i as int) =~= rest_i.skip(1));
                assert(rest_i[0] == input@[i - 1]);
                assert(result@ =~= result0 + seq![rest_i[0]]);
                if !has_target(input@, marker@) {
                    assert(result@ =~= input@.subrange(0, i as int));
                }
                if rand_deterministic(m0) {
                    assert(subst_out(rest_i, marker@, ws, m_now) == seq![rest_i[0]] + subst_out(
                        rest_i.skip(1),
                        marker@,
                        ws,
                        m_now,
                    ));
                    assert(result0 + subst_out(rest_i, marker@, ws, m_now) =~= result@ + subst_out(
                        input@.skip(i as int),
                        marker@,
                        ws,
                        rand.model(),
                    ));
                }
                assert forall|rest: Seq<int>|
                    result@ + #[trigger] subst_with(input@.skip(i as int), marker@, ws, rest)
                        == subst_with(input@, marker@, ws, picks + rest) by {
                    assert(result0 + subst_with(rest_i, marker@, ws, rest) == subst_with(
                        input@,
                        marker@,
                        ws,
                        picks0 + rest,
                    ));
                    assert(subst_with(rest_i, marker@, ws, rest) == seq![rest_i[0]] + subst_with(
                        rest_i.skip(1),
                        marker@,
                        ws,
                        rest,
                    ));
                    assert(result0 + (seq![rest_i[0]] + subst_with(
                        input@.skip(i as int),
                        marker@,
                        ws,
                        rest,
                    )) =~= result@ + subst_with(input@.skip(i as int), marker@, ws, rest));
                }
            }
        }
    }
    proof {
        assert(input@.skip(i as int) =~= Seq::<u8>::empty());
        assert(input@.subrange(0, i as int) =~= input@);
        assert(subst_with(Seq::<u8>::empty(), marker@, ws, Seq::<int>::empty())
            == Seq::<u8>::empty());
        assert(result@ + subst_with(input@.skip(i as int), marker@, ws, Seq::<int>::empty())
            == subst_with(input@, marker@, ws, picks + Seq::<int>::empty()));
        assert(result@ + Seq::<u8>::empty() =~= result@);
        assert(picks + Seq::<int>::empty() =~= picks);
        assert(result@ == subst_with(input@, marker@, ws, picks));
        if rand_deterministic(m0) {
            assert(subst_out(Seq::<u8>::empty(), marker@, ws, rand.model()) == Seq::<u8>::empty());
            assert(result@ + Seq::<u8>::empty() =~= result@);
            assert(result@ == subst_out(input@, marker@, ws, m0));
        }
    }
    Ok(result)
}

} // verus!

verus! {

use crate::config::Config;
use crate::expect::{expect_wf, Expect};
use crate::runner::{
    good_apply_step, run_local, run_rand_after, runner_wf, ApplyStep, CommandRunner,
};

/// One fuzzing context: the word pool, the target marker, the
/// expectation list, an optional runner, and the dry-run flag.
pub struct Context {
    pub words: Vec<Word>,
    pub target: Target,
    pub expect: Vec<Expect>,
    pub runner: Option<CommandRunner>,
    pub dry_run: bool,
}

impl Default for Context {
    /// An empty pool, the default marker, no expectations, no runner.
    fn default() -> (r: Self)
        ensures
            r.words@.len() == 0,
            r.target@ == default_target_word(),
            r.expect@.len() == 0,
            r.runner is None,
            r.dry_run == false,
    {
        Context {
            words: Vec::new(),
            target: Target::default(),
            expect: Vec::new(),
            runner: None,
            dry_run: false,
        }
    }
}

impl Context {
    /// A context whose runtime behaviour is defined: the marker is
    /// non-empty, every expectation can be evaluated, and the runner (if
    /// any) is well formed against the pool.
    pub open spec fn wf(&self) -> bool {
        &&& self.target@.len() > 0
        &&& forall|i: int| 0 <= i < self.expect@.len() ==> expect_wf(#[trigger] &self.expect@[i])
        &&& self.runner matches Some(c) ==> runner_wf(&c.kind, self.words@.len() as nat)
    }

    /// The context a configuration describes, with its selected runner.
    pub fn from_cfg(cfg: &Config) -> (r: FResult<Self>)
        requires
            forall|i: int| 0 <= i < cfg.contains@.len() ==> #[trigger] cfg.contains@[i]@.len() > 0,
        ensures
            (r is Ok) == (crate::runner::runner_cfg_ok(*cfg) && (forall|i: int|
                0 <= i < cfg.expect_regex@.len() ==> crate::expect::regex_valid(
                    #[trigger] cfg.expect_regex@[i]@,
                ))),
            r matches Err(e) ==> (e == Error::InsufficientRunnerConfiguration || e
                == Error::ArgError || e == Error::InvalidRegex),
            r matches Ok(c) ==> {
                &&& c.words.deep_view() == crate::config::spec_words(*cfg)
                &&& c.target@ == cfg.target@
                &&& crate::expect::expect_list_of_cfg(c.expect@, *cfg)
                &&& forall|i: int|
                    0 <= i < c.expect@.len() ==> expect_wf(#[trigger] &c.expect@[i])
                &&& c.runner matches Some(cr) && crate::runner::runner_of_cfg(&cr, *cfg)
                &&& c.dry_run == cfg.dry_run
            },
    {
        let runner = CommandRunner::from_cfg(cfg)?;
        Self::from_cfg_with_runner(cfg, runner)
    }

    /// The context a configuration describes, around a given runner.
    pub fn from_cfg_with_runner(cfg: &Config, runner: Option<CommandRunner>) -> (r: FResult<Self>)
        requires
            forall|i: int| 0 <= i < cfg.contains@.len() ==> #[trigger] cfg.contains@[i]@.len() > 0,
        ensures
            (r is Ok) == (forall|i: int|
                0 <= i < cfg.expect_regex@.len() ==> crate::expect::regex_valid(
                    #[trigger] cfg.expect_regex@[i]@,
                )),
            r matches Err(e) ==> e == Error::InvalidRegex,
            r matches Ok(c) ==> {
                &&& c.words.deep_view() == crate::config::spec_words(*cfg)
                &&& c.target@ == cfg.target@
                &&& crate::expect::expect_list_of_cfg(c.expect@, *cfg)
                &&& forall|i: int|
                    0 <= i < c.expect@.len() ==> expect_wf(#[trigger] &c.expect@[i])
                &&& c.runner == runner
                &&& c.dry_run == cfg.dry_run
            },
    {
        let expect = Expect::from_cfg(cfg)?;
        Ok(
            Context {
                words: cfg.words(),
                target: Target::Word(clone_word(&cfg.target)),
                expect,
                runner,
                dry_run: cfg.dry_run,
            },
        )
    }

    /// Draws one pool index and hands back the word it selects, clamped
    /// into the pool as a defence against the file-backed source's
    /// non-uniform formula.
    pub fn select_word<'a>(&'a self, rand: &mut Rand) -> (r: FResult<&'a Word>)
        requires
            self.words@.len() > 0,
        ensures
            can_draw(old(rand).model()) ==> {
                &&& final(rand).model() == step_range(
                    old(rand).model(),
                    0,
                    self.words@.len() as u64,
                )
                &&& r matches Ok(w)
                &&& rand_deterministic(old(rand).model()) ==> w@ == self.words.deep_view()[sel_index(
                    old(rand).model(),
                    self.words@.len() as nat,
                )]
                &&& exists|k: int| 0 <= k < self.words@.len() && w@ == self.words.deep_view()[k]
            },
            !can_draw(old(rand).model()) ==> (*final(rand) == *old(rand) && (r matches Err(e)
                && e == Error::Io)),
    {
        let index = rand.next_range(0, self.words.len() as u64)?;
        let len_minus: usize = self.words.len() - 1;
        let idx: usize = if index < len_minus as u64 {
            index as usize
        } else {
            len_minus
        };
        proof {
            assert(self.words.deep_view()[idx as int] =~= self.words@[idx as int]@);
        }
        Ok(&self.words[idx])
    }

    /// Whether any expectation accepts the result.
    pub fn compare_expected(&self, data: &Word, exit_code: Option<i32>) -> (r: bool)
        requires
            forall|i: int| 0 <= i < self.expect@.len() ==> expect_wf(#[trigger] &self.expect@[i]),
        ensures
            r == crate::expect::any_match(self.expect@, data@, exit_code),
    {
        let mut i: usize = 0;
        while i < self.expect.len()
            invariant
                0 <= i <= self.expect@.len(),
                forall|j: int|
                    0 <= j < self.expect@.len() ==> expect_wf(#[trigger] &self.expect@[j]),
                forall|j: int|
                    0 <= j < i ==> !crate::expect::expect_matches(
                        #[trigger] &self.expect@[j],
                        data@,
                        exit_code,
                    ),
            decreases self.expect@.len() - i,
        {
            if self.expect[i].expect(data, exit_code) {
                return true;
            }
            i += 1;
        }
        false
    }

    /// Runs the runner on one payload, or passes the payload through
    /// unchanged when no runner is configured.
    fn maybe_exec(&self, data: &Word, rand: &mut Rand) -> (r: FResult<ApplyStep>)
        requires
            self.wf(),
        ensures
            r matches Err(e) ==> ((e == Error::Io && old(rand).model() is File) || (
            self.runner matches Some(c) && e == Error::Crypto && c.kind is Jwt) || (
            self.runner matches Some(c) && e == Error::UnsupportedCommandRunner
                && c.kind is Disabled)),
            (!(old(rand).model() is File) && (self.runner matches Some(c) ==> (!(c.kind is Jwt)
                && !(c.kind is Disabled)))) ==> r is Ok,
            r is Ok ==> ((old(rand).model() is File) == (final(rand).model() is File)),
            r is Ok ==> ((old(rand).model() is Entropy) == (final(rand).model() is Entropy)),
            (self.runner matches Some(c) ==> run_local(&c.kind, self.dry_run)) ==> (r matches Ok(s)
                ==> s is Res),
            self.runner is None ==> (r matches Ok(step) && step matches ApplyStep::Res(res)
                && res.exit_code is Success && res.out@ == data@ && res.fmt is Plain && *final(rand)
                == *old(rand)),
            (self.runner matches Some(c) && c.kind is Output) ==> (r matches Ok(step)
                && step matches ApplyStep::Res(res) && res.out@ == data@
                && *final(rand) == *old(rand)),
            (self.runner matches Some(c) && run_local(&c.kind, self.dry_run)) ==> (r matches Ok(
                step,
            ) ==> (step matches ApplyStep::Res(res) && res.exit_code == crate::expect::classify_kind(
                self.expect@,
                res.out@,
                None,
            ) && res.fmt == crate::expect::classify_fmt(self.expect@, res.out@, None))),
            self.runner matches Some(c) ==> (c.kind is Jwt ==> (r matches Ok(step) ==> (
            step matches ApplyStep::Res(res) && crate::jwt::jwt_out_shaped(
                &c.kind,
                res.out@,
                data@,
            )))),
            (rand_deterministic(old(rand).model()) && !(old(rand).model() is File)) ==> (
            self.runner matches Some(c) ==> (c.kind matches crate::runner::CommandRunnerKind::Jwt(
                j,
            ) ==> ((r is Ok) == j.token_ok(self.words.deep_view(), data@, old(rand).model())))),
            rand_deterministic(old(rand).model()) ==> (r matches Ok(step) ==> (
            self.runner matches Some(c) ==> (good_apply_step(
                step,
                &c.kind,
                self.expect@,
                self.words.deep_view(),
                self.dry_run,
                data@,
                old(rand).model(),
            ) && final(rand).model() == run_rand_after(
                &c.kind,
                self.words.deep_view(),
                old(rand).model(),
            )))),
    {
        if let Some(runner) = &self.runner {
            runner.run_and_expect(self, data, rand)
        } else {
            Ok(
                ApplyStep::Res(
                    ExecRes {
                        exit_code: ExitCodes::Success,
                        out: clone_word(data),
                        fmt: OutputFmt::Plain,
                    },
                ),
            )
        }
    }

    /// One whole iteration: substitutes every marker occurrence in the
    /// template, dispatches the payload to the runner, and classifies
    /// the outcome.
    pub fn apply(&self, input: &[u8], rand: &mut Rand) -> (r: FResult<ApplyStep>)
        requires
            self.wf(),
            has_target(input@, self.target@) ==> self.words@.len() > 0,
        ensures
            r matches Err(e) ==> ((e == Error::Io && old(rand).model() is File) || (
            self.runner matches Some(c) && e == Error::Crypto && c.kind is Jwt) || (
            self.runner matches Some(c) && e == Error::UnsupportedCommandRunner
                && c.kind is Disabled)),
            (!(old(rand).model() is File) && (self.runner matches Some(c) ==> (!(c.kind is Jwt)
                && !(c.kind is Disabled)))) ==> r is Ok,
            r is Ok ==> ((old(rand).model() is File) == (final(rand).model() is File)),
            r is Ok ==> ((old(rand).model() is Entropy) == (final(rand).model() is Entropy)),
            (self.runner matches Some(c) ==> run_local(&c.kind, self.dry_run)) ==> (r matches Ok(s)
                ==> s is Res),
            (!has_target(input@, self.target@) && (self.runner is None || (
            self.runner matches Some(c) && c.kind is Output))) ==> (r matches Ok(step) && (
            step matches ApplyStep::Res(res) && res.out@ == input@ && *final(rand) == *old(rand))),
            (self.runner is None || (self.runner matches Some(c) && c.kind is Output)) ==> (
            r matches Ok(step) ==> (step matches ApplyStep::Res(res) && exists|picks: Seq<int>|
                (forall|j: int|
                    0 <= j < picks.len() ==> 0 <= #[trigger] picks[j]
                        < self.words.deep_view().len()) && res.out@ == subst_with(
                    input@,
                    self.target@,
                    subst_pool(self.words.deep_view(), false),
                    picks,
                ))),
            (self.runner matches Some(c) && run_local(&c.kind, self.dry_run)) ==> (r matches Ok(
                step,
            ) ==> (step matches ApplyStep::Res(res) && res.exit_code == crate::expect::classify_kind(
                self.expect@,
                res.out@,
                None,
            ) && res.fmt == crate::expect::classify_fmt(self.expect@, res.out@, None))),
            self.runner matches Some(c) ==> (c.kind is Jwt ==> (r matches Ok(step) ==> (
            step matches ApplyStep::Res(res) && exists|pl: Seq<u8>|
                #[trigger] crate::jwt::jwt_out_shaped(&c.kind, res.out@, pl)))),
            (rand_deterministic(old(rand).model()) && !(old(rand).model() is File)) ==> (
            self.runner matches Some(c) ==> (c.kind matches crate::runner::CommandRunnerKind::Jwt(
                j,
            ) ==> ((r is Ok) == j.token_ok(
                self.words.deep_view(),
                subst_out(input@, self.target@, self.words.deep_view(), old(rand).model()),
                subst_rand(input@, self.target@, self.words.deep_view(), old(rand).model()),
            )))),
            rand_deterministic(old(rand).model()) ==> (r matches Ok(step) ==> {
                let ws = self.words.deep_view();
                let m0 = old(rand).model();
                let payload = subst_out(input@, self.target@, ws, m0);
                let m1 = subst_rand(input@, self.target@, ws, m0);
                &&& self.runner is None ==> (step matches ApplyStep::Res(res)
                    && res.exit_code is Success && res.out@ == payload && res.fmt is Plain && final(rand).model() == m1)
                &&& self.runner matches Some(c) ==> (good_apply_step(
                    step,
                    &c.kind,
                    self.expect@,
                    ws,
                    self.dry_run,
                    payload,
                    m1,
                ) && final(rand).model() == run_rand_after(&c.kind, ws, m1))
            }),
    {
        let marker = match &self.target {
            Target::Word(w) => w,
        };
        let data = subst_core(input, marker, &self.words, rand, false)?;
        self.maybe_exec(&data, rand)
    }
}

} // verus!

verus! {

use crate::runner::local_out;

/// The random state before iteration `k` of a run over `input` that
/// started in state `m`: each iteration advances the state through
/// template substitution and the runner's auxiliary substitution.
pub open spec fn iter_rand_model(ctx: Context, input: Seq<u8>, k: nat, m: crate::rng::RandModel) -> crate::rng::RandModel
    decreases k,
{
    if k == 0 {
        m
    } else {
        let prev = iter_rand_model(ctx, input, (k - 1) as nat, m);
        let m1 = subst_rand(input, ctx.target@, ctx.words.deep_view(), prev);
        match ctx.runner {
            Some(c) => run_rand_after(&c.kind, ctx.words.deep_view(), m1),
            None => m1,
        }
    }
}

/// The iteration state of one whole run: how many iterations were made,
/// how many are asked for, the context, the random source, and the
/// template bytes.
pub struct ContextIter {
    pub count: u32,
    pub n_run: u32,
    pub ctx: Context,
    pub rand: Rand,
    pub input: Vec<u8>,
}

impl Default for ContextIter {
    /// A zero-run iteration state over an empty template, with an
    /// entropy-seeded source.
    fn default() -> (r: Self)
        ensures
            r.count == 0,
            r.n_run == 0,
            r.input@ == Seq::<u8>::empty(),
            r.ctx.runner is None,
            r.rand.model() is Entropy,
    {
        ContextIter {
            count: 0,
            n_run: 0,
            ctx: Context::default(),
            rand: Rand::default(),
            input: Vec::new(),
        }
    }
}

impl ContextIter {
    /// The iteration state a configuration describes, over template
    /// bytes the surrounding program has already read.
    pub fn from_cfg(cfg: &Config, input: Vec<u8>) -> (r: FResult<ContextIter>)
        requires
            forall|i: int| 0 <= i < cfg.contains@.len() ==> #[trigger] cfg.contains@[i]@.len() > 0,
        ensures
            (r is Ok) == (crate::runner::runner_cfg_ok(*cfg) && (forall|i: int|
                0 <= i < cfg.expect_regex@.len() ==> crate::expect::regex_valid(
                    #[trigger] cfg.expect_regex@[i]@,
                ))),
            r matches Err(e) ==> (e == Error::InsufficientRunnerConfiguration || e
                == Error::ArgError || e == Error::InvalidRegex),
            r matches Ok(it) ==> {
                &&& it.count == 0
                &&& it.n_run == cfg.n_run
                &&& it.input@ == input@
                &&& it.ctx.runner matches Some(cr) && crate::runner::runner_of_cfg(&cr, *cfg)
                &&& forall|i: int|
                    0 <= i < it.ctx.expect@.len() ==> crate::expect::expect_wf(
                        #[trigger] &it.ctx.expect@[i],
                    )
                &&& it.ctx.words.deep_view() == crate::config::spec_words(*cfg)
                &&& it.ctx.target@ == cfg.target@
                &&& it.ctx.dry_run == cfg.dry_run
                &&& crate::expect::expect_list_of_cfg(it.ctx.expect@, *cfg)
                &&& cfg.seed matches Some(s) ==> it.rand.model() == (crate::rng::RandModel::Seeded {
                    seed: s,
                    history: Seq::<crate::rng::RngEvent>::empty(),
                })
            },
    {
        let rand = cfg.rand();
        let ctx = Context::from_cfg(cfg)?;
        Ok(ContextIter { n_run: cfg.n_run, count: 0, rand, ctx, input })
    }

    /// One iteration, or `None` when the configured number of runs is
    /// exhausted.
    pub fn next_res(&mut self) -> (r: Option<FResult<ApplyStep>>)
        requires
            old(self).ctx.wf(),
            has_target(old(self).input@, old(self).ctx.target@) ==> old(self).ctx.words@.len()
                > 0,
        ensures
            final(self).ctx == old(self).ctx,
            final(self).input == old(self).input,
            final(self).n_run == old(self).n_run,
            old(self).count >= old(self).n_run ==> (r is None && *final(self) == *old(self)),
            old(self).count < old(self).n_run ==> {
                &&& final(self).count == old(self).count + 1
                &&& r matches Some(res)
                &&& (old(self).ctx.runner matches Some(c) ==> run_local(
                    &c.kind,
                    old(self).ctx.dry_run,
                )) ==> (res matches Ok(s) ==> s is Res)
                &&& (!(old(self).rand.model() is File) && (old(self).ctx.runner matches Some(c)
                    ==> (!(c.kind is Jwt) && !(c.kind is Disabled)))) ==> res is Ok
                &&& res is Ok ==> ((old(self).rand.model() is File) == (final(self).rand.model() is File))
                &&& res is Ok ==> ((old(self).rand.model() is Entropy) == (final(self).rand.model() is Entropy))
                &&& crate::rng::rand_deterministic(old(self).rand.model()) ==> (res matches Ok(
                    step,
                ) ==> {
                    let ws = old(self).ctx.words.deep_view();
                    let m0 = old(self).rand.model();
                    let payload = subst_out(old(self).input@, old(self).ctx.target@, ws, m0);
                    let m1 = subst_rand(old(self).input@, old(self).ctx.target@, ws, m0);
                    &&& old(self).ctx.runner is None ==> (step matches ApplyStep::Res(res2)
                        && res2.exit_code is Success && res2.out@ == payload && res2.fmt is Plain
                        && final(self).rand.model() == m1)
                    &&& old(self).ctx.runner matches Some(c) ==> (good_apply_step(
                        step,
                        &c.kind,
                        old(self).ctx.expect@,
                        ws,
                        old(self).ctx.dry_run,
                        payload,
                        m1,
                    ) && final(self).rand.model() == run_rand_after(&c.kind, ws, m1))
                })
            },
    {
        if self.count < self.n_run {
            self.count = self.count + 1;
            Some(self.ctx.apply(self.input.as_slice(), &mut self.rand))
        } else {
            None
        }
    }

    /// Runs every remaining iteration of a context whose runner completes
    /// in place, collecting the classified results in order. A
    /// per-iteration error aborts and is returned.
    pub fn collect_results(&mut self) -> (r: FResult<Vec<ExecRes>>)
        requires
            old(self).ctx.wf(),
            has_target(old(self).input@, old(self).ctx.target@) ==> old(self).ctx.words@.len()
                > 0,
            old(self).ctx.runner matches Some(c) ==> run_local(&c.kind, old(self).ctx.dry_run),
        ensures
            final(self).ctx == old(self).ctx,
            final(self).input == old(self).input,
            final(self).n_run == old(self).n_run,
            (!(old(self).rand.model() is File) && (old(self).ctx.runner matches Some(c) ==> !(
            c.kind is Jwt))) ==> r is Ok,
            r matches Ok(v) ==> v@.len() == (if old(self).count < old(self).n_run {
                old(self).n_run - old(self).count
            } else {
                0int
            }),
            (crate::rng::rand_deterministic(old(self).rand.model()) && old(self).count == 0) ==> (
            r matches Ok(v) ==> {
                let ws = old(self).ctx.words.deep_view();
                let m0 = old(self).rand.model();
                &&& final(self).rand.model() == iter_rand_model(
                    old(self).ctx,
                    old(self).input@,
                    v@.len() as nat,
                    m0,
                )
                &&& forall|k: int|
                    0 <= k < v@.len() ==> {
                        let mk = iter_rand_model(old(self).ctx, old(self).input@, k as nat, m0);
                        let payload = subst_out(old(self).input@, old(self).ctx.target@, ws, mk);
                        let m1 = subst_rand(old(self).input@, old(self).ctx.target@, ws, mk);
                        &&& old(self).ctx.runner is None ==> ((#[trigger] v@[k]).exit_code
                            is Success && v@[k].out@ == payload && v@[k].fmt is Plain)
                        &&& old(self).ctx.runner matches Some(c) ==> (v@[k].out@ == local_out(
                            &c.kind,
                            ws,
                            payload,
                            m1,
                        ) && v@[k].exit_code == crate::expect::classify_kind(
                            old(self).ctx.expect@,
                            local_out(&c.kind, ws, payload, m1),
                            None,
                        ) && v@[k].fmt == crate::expect::classify_fmt(
                            old(self).ctx.expect@,
                            local_out(&c.kind, ws, payload, m1),
                            None,
                        ))
                    }
            }),
    {
        let ghost m0 = old(self).rand.model();
        let mut results: Vec<ExecRes> = Vec::new();
        if self.count >= self.n_run {
            return Ok(results);
        }
        while self.count < self.n_run
            invariant
                self.ctx == old(self).ctx,
                self.input == old(self).input,
                self.n_run == old(self).n_run,
                old(self).ctx.wf(),
                has_target(old(self).input@, old(self).ctx.target@) ==> old(
                    self,
                ).ctx.words@.len() > 0,
                old(self).ctx.runner matches Some(c) ==> run_local(&c.kind, old(self).ctx.dry_run),
                m0 == old(self).rand.model(),
                old(self).count < old(self).n_run,
                old(self).count <= self.count <= self.n_run,
                results@.len() == self.count - old(self).count,
                (m0 is File) == (self.rand.model() is File),
                (m0 is Entropy) == (self.rand.model() is Entropy),
                (crate::rng::rand_deterministic(m0) && old(self).count == 0) ==> {
                    let ws = old(self).ctx.words.deep_view();
                    &&& self.rand.model() == iter_rand_model(
                        old(self).ctx,
                        old(self).input@,
                        results@.len() as nat,
                        m0,
                    )
                    &&& forall|k: int|
                        0 <= k < results@.len() ==> {
                            let mk = iter_rand_model(
                                old(self).ctx,
                                old(self).input@,
                                k as nat,
                                m0,
                            );
                            let payload = subst_out(
                                old(self).input@,
                                old(self).ctx.target@,
                                ws,
                                mk,
                            );
                            let m1 = subst_rand(old(self).input@, old(self).ctx.target@, ws, mk);
                            &&& old(self).ctx.runner is None ==> ((#[trigger] results@[k]).exit_code
                                is Success && results@[k].out@ == payload && results@[k].fmt
                                is Plain)
                            &&& old(self).ctx.runner matches Some(c) ==> (results@[k].out@
                                == local_out(&c.kind, ws, payload, m1) && results@[k].exit_code
                                == crate::expect::classify_kind(
                                old(self).ctx.expect@,
                                local_out(&c.kind, ws, payload, m1),
                                None,
                            ) && results@[k].fmt == crate::expect::classify_fmt(
                                old(self).ctx.expect@,
                                local_out(&c.kind, ws, payload, m1),
                                None,
                            ))
                        }
                },
            decreases self.n_run - self.count,
        {
            let ghost n_done = results@.len();
            let ghost m_before = self.rand.model();
            let step_opt = self.next_res();
            let step = match step_opt {
                Some(s) => s,
                None => {
                    proof {
                        assert(false);
                    }
                    return Err(Error::Unknown);
                },
            };
            let step = match step {
                Ok(s) => s,
                Err(e) => {
                    return Err(e);
                },
            };
            match step {
                ApplyStep::Res(res) => {
                    results.push(res);
                    proof {
                        if crate::rng::rand_deterministic(m0) && old(self).count == 0 {
                            assert(iter_rand_model(
                                old(self).ctx,
                                old(self).input@,
                                (n_done + 1) as nat,
                                m0,
                            ) == self.rand.model());
                            assert(forall|k: int|
                                0 <= k < n_done ==> results@[k] == results@.subrange(
                                    0,
                                    n_done as int,
                                )[k]);
                        }
                    }
                },
                ApplyStep::Await(_) => {
                    proof {
                        assert(false);
                    }
                    return Err(Error::Unknown);
                },
            }
        }
        Ok(results)
    }
}

} // verus!
