use vstd::prelude::*;

use crate::errors::{Error, FResult};
use crate::transform::{eq_bytes, is_prefix_of, starts_with, Word};
use vstd::slice::slice_subrange;

verus! {

/// `needle` occurs somewhere in `hay` (byte-exact, any position).
pub open spec fn contains_sub(hay: Seq<u8>, needle: Seq<u8>) -> bool {
    exists|i: int| 0 <= i <= hay.len() - needle.len() && is_prefix_of(needle, hay.skip(i))
}

/// Sliding-window byte search.
fn contains_word(hay: &Word, needle: &Word) -> (r: bool)
    requires
        needle@.len() > 0,
    ensures
        r == contains_sub(hay@, needle@),
{
    if needle.len() > hay.len() {
        assert(!contains_sub(hay@, needle@));
        return false;
    }
    let mut i: usize = 0;
    let end = hay.len() - needle.len();
    while i <= end
        invariant
            0 <= i <= end + 1,
            needle@.len() >= 1,
            end == hay@.len() - needle@.len(),
            forall|j: int| 0 <= j < i ==> !is_prefix_of(needle@, hay@.skip(j)),
        decreases end + 1 - i,
    {
        let tail = slice_subrange(hay.as_slice(), i, hay.len());
        if starts_with(tail, needle) {
            assert(tail@ =~= hay@.skip(i as int));
            return true;
        }
        assert(tail@ =~= hay@.skip(i as int));
        i += 1;
    }
    false
}

#[verifier::external_type_specification]
#[verifier::external_body]
pub struct ExRegex(regex::Regex);

/// Whether `regex::Regex::new` accepts `pattern`.
pub uninterp spec fn regex_valid(pattern: Seq<char>) -> bool;

/// Whether the regular expression compiled from `pattern` matches `text`,
/// as decided by `regex::Regex::is_match`.
pub uninterp spec fn regex_match(pattern: Seq<char>, text: Seq<char>) -> bool;

/// A compiled regular expression together with the pattern it was
/// compiled from. The constructor below is the only place that builds one,
/// which keeps the recorded pattern in step with the compiled program.
pub struct CompiledRegex {
    re: regex::Regex,
    pattern: Ghost<Seq<char>>,
}

/// Relies on `regex::Regex::new`: it succeeds exactly on the patterns the
/// crate documents as valid, and the compiled program depends on the
/// pattern alone.
#[verifier::external_body]
fn regex_compile(pattern: &str) -> (r: FResult<regex::Regex>)
    ensures
        (r is Ok) == regex_valid(pattern@),
    {
    regex::Regex::new(pattern).map_err(|_| Error::InvalidRegex)
}

impl CompiledRegex {
    /// The pattern this expression was compiled from.
    pub closed spec fn pattern_of(&self) -> Seq<char> {
        self.pattern@
    }

    /// Compiles `pattern`; fails with `InvalidRegex` exactly on invalid
    /// patterns.
    pub fn new(pattern: &str) -> (r: FResult<CompiledRegex>)
        ensures
            (r is Ok) == regex_valid(pattern@),
            r matches Ok(c) ==> c.pattern_of() == pattern@,
            r is Err ==> r == Err::<CompiledRegex, Error>(Error::InvalidRegex),
    {
        match regex_compile(pattern) {
            Ok(re) => Ok(CompiledRegex { re, pattern: Ghost(pattern@) }),
            Err(_) => Err(Error::InvalidRegex),
        }
    }

    /// Relies on `regex::Regex::is_match`: the answer is a function of the
    /// compiled pattern and the text alone.
    #[verifier::external_body]
    pub(crate) fn is_match(&self, text: &str) -> (r: bool)
        ensures
            r == regex_match(self.pattern_of(), text@),
    {
        self.re.is_match(text)
    }
}

/// The view of `String::from_utf8_lossy(bytes)` as a character sequence;
/// a function of the bytes alone.
pub uninterp spec fn lossy_chars(bytes: Seq<u8>) -> Seq<char>;

/// Relies on `String::from_utf8_lossy`: the decoding is a function of the
/// bytes alone, and bytes that already are valid UTF-8 — in particular
/// plain ASCII — decode to themselves.
#[verifier::external_body]
pub(crate) fn lossy_string(data: &Word) -> (r: String)
    ensures
        r@ == lossy_chars(data@),
        (forall|i: int| 0 <= i < data@.len() ==> data@[i] < 128) ==> r@ == data@.map_values(
            |b: u8| b as char,
        ),
{
    String::from_utf8_lossy(data).into_owned()
}

/// One expectation predicate over a result `(body, exit code)` pair.
pub enum Expect {
    Contains(Word),
    Regex(CompiledRegex),
    Equals(Word),
    ExitCode(Option<i32>),
    Len(usize),
}

/// What it means for one predicate to accept a result.
pub open spec fn expect_matches(e: &Expect, data: Seq<u8>, exit_code: Option<i32>) -> bool {
    match e {
        Expect::Contains(c) => contains_sub(data, c@),
        Expect::Regex(re) => regex_match(re.pattern_of(), lossy_chars(data)),
        Expect::Equals(w) => data == w@,
        Expect::ExitCode(c) => exit_code == *c,
        Expect::Len(n) => data.len() == *n,
    }
}

/// A predicate whose runtime evaluation cannot panic: a `Contains` pattern
/// must not be empty.
pub open spec fn expect_wf(e: &Expect) -> bool {
    e matches Expect::Contains(c) ==> c@.len() > 0
}

impl Expect {
    /// Evaluates this predicate on a result.
    pub fn expect(&self, data: &Word, exit_code: Option<i32>) -> (r: bool)
        requires
            expect_wf(self),
        ensures
            r == expect_matches(self, data@, exit_code),
    {
        match self {
            Expect::Contains(c) => contains_word(data, c),
            Expect::Regex(re) => {
                let text = lossy_string(data);
                re.is_match(text.as_str())
            },
            Expect::Equals(w) => eq_bytes(data, w),
            Expect::ExitCode(c) => match (exit_code, c) {
                (Some(a), Some(b)) => a == *b,
                (None, None) => true,
                _ => false,
            },
            Expect::Len(n) => data.len() == *n,
        }
    }
}

} // verus!

verus! {

use crate::config::Config;
use crate::transform::clone_word;

/// Whether any predicate of the list accepts the result: the expectation
/// list is satisfied iff at least one predicate matches (disjunctive
/// semantics).
pub open spec fn any_match(list: Seq<Expect>, data: Seq<u8>, exit_code: Option<i32>) -> bool {
    exists|i: int| 0 <= i < list.len() && expect_matches(#[trigger] &list[i], data, exit_code)
}

/// The exit kind a runner answer alone maps to: success for no exit code
/// or exit code zero, a runner failure otherwise.
pub open spec fn success_kind(exit_code: Option<i32>) -> crate::transform::ExitCodes {
    if exit_code is None || exit_code == Some(0i32) {
        crate::transform::ExitCodes::Success
    } else {
        crate::transform::ExitCodes::RunnerFailed
    }
}

/// The exit kind the evaluator assigns: with no expectations, the runner
/// answer decides; with expectations, a match keeps the runner answer and
/// a miss is a failure.
pub open spec fn classify_kind(
    list: Seq<Expect>,
    data: Seq<u8>,
    exit_code: Option<i32>,
) -> crate::transform::ExitCodes {
    if list.len() == 0 {
        success_kind(exit_code)
    } else if any_match(list, data, exit_code) {
        success_kind(exit_code)
    } else {
        crate::transform::ExitCodes::Failure
    }
}

/// The rendering the evaluator assigns: neutral with no expectations,
/// `Expected` on a match, `NotExpected` on a miss.
pub open spec fn classify_fmt(
    list: Seq<Expect>,
    data: Seq<u8>,
    exit_code: Option<i32>,
) -> crate::transform::OutputFmt {
    if list.len() == 0 {
        crate::transform::OutputFmt::Plain
    } else if any_match(list, data, exit_code) {
        crate::transform::OutputFmt::Expected
    } else {
        crate::transform::OutputFmt::NotExpected
    }
}

/// The expectation list `v` realizes exactly what the configuration
/// describes, in the fixed order: equalities, lengths, exit codes,
/// regular expressions, containment patterns.
pub open spec fn expect_list_of_cfg(v: Seq<Expect>, cfg: Config) -> bool {
    let ne = cfg.expect@.len() as int;
    let nl = cfg.expect_len@.len() as int;
    let nx = cfg.expect_exit_code@.len() as int;
    let nr = cfg.expect_regex@.len() as int;
    let nc = cfg.contains@.len() as int;
    &&& v.len() == ne + nl + nx + nr + nc
    &&& forall|i: int|
        0 <= i < ne ==> (#[trigger] v[i] matches Expect::Equals(w) && w@ == cfg.expect@[i]@)
    &&& forall|i: int|
        0 <= i < nl ==> (#[trigger] v[ne + i] matches Expect::Len(n) && n == cfg.expect_len@[i])
    &&& forall|i: int|
        0 <= i < nx ==> (#[trigger] v[ne + nl + i] matches Expect::ExitCode(c) && c == Some(
            cfg.expect_exit_code@[i],
        ))
    &&& forall|i: int|
        0 <= i < nr ==> (#[trigger] v[ne + nl + nx + i] matches Expect::Regex(re)
            && re.pattern_of() == cfg.expect_regex@[i]@)
    &&& forall|i: int|
        0 <= i < nc ==> (#[trigger] v[ne + nl + nx + nr + i] matches Expect::Contains(w) && w@
            == cfg.contains@[i]@)
}

impl Expect {
    /// The expectation list a configuration describes. Fails with
    /// `InvalidRegex` exactly when some regex option does not compile.
    pub fn from_cfg(cfg: &Config) -> (r: FResult<Vec<Expect>>)
        requires
            forall|i: int| 0 <= i < cfg.contains@.len() ==> #[trigger] cfg.contains@[i]@.len() > 0,
        ensures
            (r is Ok) == (forall|i: int|
                0 <= i < cfg.expect_regex@.len() ==> regex_valid(#[trigger] cfg.expect_regex@[i]@)),
            r matches Err(e) ==> e == Error::InvalidRegex,
            r matches Ok(v) ==> expect_list_of_cfg(v@, *cfg),
            r matches Ok(v) ==> forall|i: int| 0 <= i < v@.len() ==> expect_wf(#[trigger] &v@[i]),
    {
        let ghost ne = cfg.expect@.len() as int;
        let ghost nl = cfg.expect_len@.len() as int;
        let ghost nx = cfg.expect_exit_code@.len() as int;
        let ghost nr = cfg.expect_regex@.len() as int;
        let ghost nc = cfg.contains@.len() as int;
        let mut expects: Vec<Expect> = Vec::new();
        let mut i: usize = 0;
        while i < cfg.expect.len()
            invariant
                0 <= i <= cfg.expect@.len(),
                expects@.len() == i,
                forall|j: int|
                    0 <= j < i ==> (#[trigger] expects@[j] matches Expect::Equals(w) && w@
                        == cfg.expect@[j]@),
            decreases cfg.expect@.len() - i,
        {
            expects.push(Expect::Equals(clone_word(&cfg.expect[i])));
            i += 1;
        }
        let mut i: usize = 0;
        while i < cfg.expect_len.len()
            invariant
                0 <= i <= cfg.expect_len@.len(),
                ne == cfg.expect@.len() as int,
                expects@.len() == ne + i,
                forall|j: int|
                    0 <= j < ne ==> (#[trigger] expects@[j] matches Expect::Equals(w) && w@
                        == cfg.expect@[j]@),
                forall|j: int|
                    0 <= j < i ==> (#[trigger] expects@[ne + j] matches Expect::Len(n) && n
                        == cfg.expect_len@[j]),
            decreases cfg.expect_len@.len() - i,
        {
            expects.push(Expect::Len(cfg.expect_len[i]));
            i += 1;
        }
        let mut i: usize = 0;
        while i < cfg.expect_exit_code.len()
            invariant
                0 <= i <= cfg.expect_exit_code@.len(),
                ne == cfg.expect@.len() as int,
                nl == cfg.expect_len@.len() as int,
                expects@.len() == ne + nl + i,
                forall|j: int|
                    0 <= j < ne ==> (#[trigger] expects@[j] matches Expect::Equals(w) && w@
                        == cfg.expect@[j]@),
                forall|j: int|
                    0 <= j < nl ==> (#[trigger] expects@[ne + j] matches Expect::Len(n) && n
                        == cfg.expect_len@[j]),
                forall|j: int|
                    0 <= j < i ==> (#[trigger] expects@[ne + nl + j] matches Expect::ExitCode(c)
                        && c == Some(cfg.expect_exit_code@[j])),
            decreases cfg.expect_exit_code@.len() - i,
        {
            expects.push(Expect::ExitCode(Some(cfg.expect_exit_code[i])));
            i += 1;
        }
        let mut i: usize = 0;
        while i < cfg.expect_regex.len()
            invariant
                0 <= i <= cfg.expect_regex@.len(),
                ne == cfg.expect@.len() as int,
                nl == cfg.expect_len@.len() as int,
                nx == cfg.expect_exit_code@.len() as int,
                expects@.len() == ne + nl + nx + i,
                forall|j: int|
                    0 <= j < ne ==> (#[trigger] expects@[j] matches Expect::Equals(w) && w@
                        == cfg.expect@[j]@),
                forall|j: int|
                    0 <= j < nl ==> (#[trigger] expects@[ne + j] matches Expect::Len(n) && n
                        == cfg.expect_len@[j]),
                forall|j: int|
                    0 <= j < nx ==> (#[trigger] expects@[ne + nl + j] matches Expect::ExitCode(c)
                        && c == Some(cfg.expect_exit_code@[j])),
                forall|j: int|
                    0 <= j < i ==> regex_valid(#[trigger] cfg.expect_regex@[j]@),
                forall|j: int|
                    0 <= j < i ==> (#[trigger] expects@[ne + nl + nx + j] matches Expect::Regex(re)
                        && re.pattern_of() == cfg.expect_regex@[j]@),
            decreases cfg.expect_regex@.len() - i,
        {
            let re = match CompiledRegex::new(cfg.expect_regex[i].as_str()) {
                Ok(re) => re,
                Err(_) => {
                    return Err(Error::InvalidRegex);
                },
            };
            expects.push(Expect::Regex(re));
            i += 1;
        }
        let mut i: usize = 0;
        while i < cfg.contains.len()
            invariant
                0 <= i <= cfg.contains@.len(),
                ne == cfg.expect@.len() as int,
                nl == cfg.expect_len@.len() as int,
                nx == cfg.expect_exit_code@.len() as int,
                nr == cfg.expect_regex@.len() as int,
                expects@.len() == ne + nl + nx + nr + i,
                forall|j: int|
                    0 <= j < ne ==> (#[trigger] expects@[j] matches Expect::Equals(w) && w@
                        == cfg.expect@[j]@),
                forall|j: int|
                    0 <= j < nl ==> (#[trigger] expects@[ne + j] matches Expect::Len(n) && n
                        == cfg.expect_len@[j]),
                forall|j: int|
                    0 <= j < nx ==> (#[trigger] expects@[ne + nl + j] matches Expect::ExitCode(c)
                        && c == Some(cfg.expect_exit_code@[j])),
                forall|j: int|
                    0 <= j < nr ==> (#[trigger] expects@[ne + nl + nx + j] matches Expect::Regex(
                        re,
                    ) && re.pattern_of() == cfg.expect_regex@[j]@),
                forall|j: int|
                    0 <= j < i ==> (#[trigger] expects@[ne + nl + nx + nr + j] matches
                        Expect::Contains(w) && w@ == cfg.contains@[j]@),
            decreases cfg.contains@.len() - i,
        {
            expects.push(Expect::Contains(clone_word(&cfg.contains[i])));
            i += 1;
        }
        proof {
            assert forall|k: int| 0 <= k < expects@.len() implies expect_wf(
                #[trigger] &expects@[k],
            ) by {
                if k < ne {
                    assert(expects@[k] matches Expect::Equals(w) && w@ == cfg.expect@[k]@);
                } else if k < ne + nl {
                    assert(expects@[ne + (k - ne)] matches Expect::Len(n) && n
                        == cfg.expect_len@[k - ne]);
                } else if k < ne + nl + nx {
                    assert(expects@[ne + nl + (k - ne - nl)] matches Expect::ExitCode(c) && c
                        == Some(cfg.expect_exit_code@[k - ne - nl]));
                } else if k < ne + nl + nx + nr {
                    assert(expects@[ne + nl + nx + (k - ne - nl - nx)] matches Expect::Regex(re)
                        && re.pattern_of() == cfg.expect_regex@[k - ne - nl - nx]@);
                } else {
                    assert(expects@[ne + nl + nx + nr + (k - ne - nl - nx - nr)] matches
                        Expect::Contains(w) && w@ == cfg.contains@[k - ne - nl - nx - nr]@);
                    assert(cfg.contains@[k - ne - nl - nx - nr]@.len() > 0);
                }
            }
        }
        Ok(expects)
    }
}

} // verus!
