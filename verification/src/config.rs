use vstd::prelude::*;

use crate::errors::{Error, FResult};
use crate::rng::{Rand, RandModel, RngEvent};
use crate::transform::{clone_word, default_target_word, is_prefix_of, starts_with, Word};
use vstd::slice::slice_subrange;

verus! {

/// Which runner the user asked for; `Auto` picks one from the other
/// options.
#[derive(Copy, Clone, PartialEq, Eq, Structural, Debug)]
pub enum RunnerKindConfig {
    Shell,
    Output,
    Http,
    Jwt,
    Auto,
}

impl Default for RunnerKindConfig {
    fn default() -> (r: Self)
        ensures
            r is Auto,
    {
        RunnerKindConfig::Auto
    }
}

/// Which signature algorithm a JWT runner uses.
#[derive(Copy, Clone, PartialEq, Eq, Structural, Debug)]
pub enum SignatureConfig {
    HmacSha256,
    Rs256,
    Unsigned,
}

impl Default for SignatureConfig {
    fn default() -> (r: Self)
        ensures
            r is Unsigned,
    {
        SignatureConfig::Unsigned
    }
}

/// The HTTP request method.
#[derive(Copy, Clone, PartialEq, Eq, Structural, Debug)]
pub enum HttpMethod {
    Get,
    Head,
    Post,
    Put,
    Delete,
}

impl Default for HttpMethod {
    fn default() -> (r: Self)
        ensures
            r is Get,
    {
        HttpMethod::Get
    }
}

/// The fully resolved configuration of one fuzzing run.
///
/// Everything the core needs is held as plain values: whoever builds a
/// `Config` (a command line front end, a test) has already read word-list
/// files, word files, the JWT header file and the JWT secret file, and
/// stores their contents here. `input`, `output` and `random_file` are
/// paths that only the surrounding program opens.
pub struct Config {
    pub input: Option<String>,
    pub output: Option<String>,
    pub escaped_words: Vec<Word>,
    pub exec_cmd: Option<String>,
    pub expect: Vec<Word>,
    pub contains: Vec<Word>,
    pub expect_regex: Vec<String>,
    pub expect_len: Vec<usize>,
    pub expect_exit_code: Vec<i32>,
    pub exec_target: Word,
    pub url: Option<Word>,
    pub header: Vec<Word>,
    pub no_headers: bool,
    pub http_method: Option<HttpMethod>,
    pub http_timeout: Option<u32>,
    pub jwt_secret: Option<Word>,
    pub jwt_header: Option<Word>,
    pub jwt_signature: SignatureConfig,
    pub target: Word,
    pub word_lists: Vec<Word>,
    pub word_files: Vec<Word>,
    pub word: Vec<Word>,
    pub n_run: u32,
    pub n_thread: u32,
    pub delay: u64,
    pub word_list_term: Word,
    pub random_file: Option<String>,
    pub seed: Option<u64>,
    pub verbose: u8,
    pub raw: bool,
    pub no_color: bool,
    pub no_fail_on_err: bool,
    pub no_stdin: bool,
    pub runner: RunnerKindConfig,
    pub dry_run: bool,
}

/// The smallest position in `content` where `term` occurs, if any.
pub open spec fn first_hit(content: Seq<u8>, term: Seq<u8>) -> Option<int>
    decreases content.len(),
{
    if is_prefix_of(term, content) {
        Some(0)
    } else if content.len() == 0 {
        None
    } else {
        match first_hit(content.skip(1), term) {
            Some(j) => Some(j + 1),
            None => None,
        }
    }
}

/// A `Some` answer of `first_hit` is a real occurrence and lies in bounds;
/// a `None` answer means no position matches.
pub proof fn lemma_first_hit(content: Seq<u8>, term: Seq<u8>)
    requires
        term.len() > 0,
    ensures
        first_hit(content, term) matches Some(j) ==> (0 <= j && j + term.len() <= content.len()
            && is_prefix_of(term, content.skip(j))),
        first_hit(content, term) is None ==> forall|k: int|
            0 <= k < content.len() ==> !is_prefix_of(term, content.skip(k)),
    decreases content.len(),
{
    if is_prefix_of(term, content) {
        assert(content.skip(0) =~= content);
    } else if content.len() == 0 {
    } else {
        lemma_first_hit(content.skip(1), term);
        match first_hit(content.skip(1), term) {
            Some(j) => {
                assert(content.skip(1).skip(j) =~= content.skip(j + 1));
            },
            None => {
                assert forall|k: int| 0 <= k < content.len() implies !is_prefix_of(
                    term,
                    content.skip(k),
                ) by {
                    if k > 0 {
                        assert(content.skip(1).skip(k - 1) =~= content.skip(k));
                    } else {
                        assert(content.skip(0) =~= content);
                    }
                }
            },
        }
    }
}

/// The pieces of `content` between the non-overlapping, leftmost-first
/// occurrences of the terminator `term`. An empty terminator matches
/// between any two bytes and at both ends, so it splits `content` into an
/// empty piece, one piece per byte, and an empty piece.
pub open spec fn split_seq(content: Seq<u8>, term: Seq<u8>) -> Seq<Seq<u8>>
    decreases content.len(),
{
    if term.len() == 0 {
        seq![Seq::<u8>::empty()] + content.map_values(|b: u8| seq![b]) + seq![Seq::<u8>::empty()]
    } else {
        match first_hit(content, term) {
            Some(j) => if 0 <= j && j + term.len() <= content.len() {
                seq![content.take(j)] + split_seq(content.skip(j + term.len()), term)
            } else {
                seq![content]
            },
            None => seq![content],
        }
    }
}

/// A split has at least one piece.
pub proof fn lemma_split_len(content: Seq<u8>, term: Seq<u8>)
    ensures
        split_seq(content, term).len() >= 1,
{
}

/// Splitting a sequence that starts with the terminator yields an empty
/// first piece.
pub proof fn lemma_split_hit(s: Seq<u8>, term: Seq<u8>)
    requires
        term.len() > 0,
        is_prefix_of(term, s),
    ensures
        split_seq(s, term) == seq![Seq::<u8>::empty()] + split_seq(s.skip(term.len() as int), term),
{
    assert(s.take(0) =~= Seq::<u8>::empty());
    assert(split_seq(s, term) =~= seq![Seq::<u8>::empty()] + split_seq(
        s.skip(term.len() as int),
        term,
    ));
}

/// Splitting a sequence that does not start with the terminator prepends
/// its first byte to the first piece of the tail's split.
pub proof fn lemma_split_step(s: Seq<u8>, term: Seq<u8>)
    requires
        term.len() > 0,
        s.len() > 0,
        !is_prefix_of(term, s),
    ensures
        split_seq(s, term)[0] == seq![s[0]] + split_seq(s.skip(1), term)[0],
        split_seq(s, term).skip(1) == split_seq(s.skip(1), term).skip(1),
{
    lemma_first_hit(s, term);
    lemma_first_hit(s.skip(1), term);
    match first_hit(s.skip(1), term) {
        Some(j) => {
            assert(first_hit(s, term) == Some(j + 1));
            assert(s.take(j + 1) =~= seq![s[0]] + s.skip(1).take(j));
            assert(s.skip(1).skip(j + term.len() as int) =~= s.skip(j + 1 + term.len() as int));
            assert(split_seq(s, term).skip(1) =~= split_seq(
                s.skip(j + 1 + term.len() as int),
                term,
            ));
            assert(split_seq(s.skip(1), term).skip(1) =~= split_seq(
                s.skip(1).skip(j + term.len() as int),
                term,
            ));
        },
        None => {
            assert(first_hit(s, term) is None);
            assert(s =~= seq![s[0]] + s.skip(1));
            assert(split_seq(s, term).skip(1) =~= Seq::<Seq<u8>>::empty());
            assert(split_seq(s.skip(1), term).skip(1) =~= Seq::<Seq<u8>>::empty());
        },
    }
}

/// The first piece of a split, merged onto an accumulator of bytes already
/// scanned.
pub open spec fn merge_head(acc: Seq<u8>, s: Seq<Seq<u8>>) -> Seq<Seq<u8>>
    recommends
        s.len() >= 1,
{
    seq![acc + s[0]] + s.skip(1)
}

/// Splits a word on every occurrence of the terminator, leftmost first.
pub(crate) fn split_word(content: &Word, term: &Word) -> (r: Vec<Word>)
    ensures
        r.deep_view() == split_seq(content@, term@),
{
    if term.len() == 0 {
        let mut words: Vec<Word> = Vec::new();
        words.push(Vec::new());
        let mut i: usize = 0;
        proof {
            assert(words.deep_view() =~~= seq![Seq::<u8>::empty()] + content@.subrange(
                0,
                0,
            ).map_values(|b: u8| seq![b]));
        }
        while i < content.len()
            invariant
                0 <= i <= content@.len(),
                words.deep_view() == seq![Seq::<u8>::empty()] + content@.subrange(
                    0,
                    i as int,
                ).map_values(|b: u8| seq![b]),
            decreases content@.len() - i,
        {
            let ghost prev = words.deep_view();
            let mut piece: Word = Vec::new();
            piece.push(content[i]);
            words.push(piece);
            i += 1;
            proof {
                assert(words.deep_view() =~~= prev.push(seq![content@[i - 1]]));
                assert(words.deep_view() =~~= seq![Seq::<u8>::empty()] + content@.subrange(
                    0,
                    i as int,
                ).map_values(|b: u8| seq![b]));
            }
        }
        let ghost prev = words.deep_view();
        words.push(Vec::new());
        proof {
            assert(content@.subrange(0, content@.len() as int) =~= content@);
            assert(words.deep_view() =~~= prev.push(Seq::<u8>::empty()));
            assert(words.deep_view() =~~= split_seq(content@, term@));
        }
        return words;
    }
    let mut words: Vec<Word> = Vec::new();
    let mut acc: Word = Vec::new();
    let mut i: usize = 0;
    proof {
        assert(content@.skip(0) =~= content@);
        lemma_split_len(content@, term@);
        assert(words.deep_view() + merge_head(acc@, split_seq(content@, term@)) =~~= split_seq(
            content@,
            term@,
        ));
    }
    while i < content.len()
        invariant
            0 <= i <= content@.len(),
            term@.len() > 0,
            split_seq(content@, term@) == words.deep_view() + merge_head(
                acc@,
                split_seq(content@.skip(i as int), term@),
            ),
        decreases content@.len() - i,
    {
        let ghost prev_words = words.deep_view();
        let ghost prev_acc = acc@;
        let ghost rest = content@.skip(i as int);
        proof {
            lemma_split_len(rest, term@);
        }
        let tail = slice_subrange(content.as_slice(), i, content.len());
        proof {
            assert(tail@ =~= rest);
        }
        if starts_with(tail, term) {
            proof {
                lemma_split_hit(rest, term@);
            }
            words.push(acc);
            acc = Vec::new();
            i = i + term.len();
            proof {
                assert(content@.skip(i as int) =~= rest.skip(term@.len() as int));
                lemma_split_len(content@.skip(i as int), term@);
                assert(merge_head(prev_acc, split_seq(rest, term@)) =~~= seq![prev_acc]
                    + merge_head(acc@, split_seq(content@.skip(i as int), term@)));
                assert(words.deep_view() =~~= prev_words.push(prev_acc));
                assert(split_seq(content@, term@) =~~= words.deep_view() + merge_head(
                    acc@,
                    split_seq(content@.skip(i as int), term@),
                ));
            }
        } else {
            let b = content[i];
            acc.push(b);
            i = i + 1;
            proof {
                lemma_split_step(rest, term@);
                assert(content@.skip(i as int) =~= rest.skip(1));
                lemma_split_len(content@.skip(i as int), term@);
                assert(acc@ + split_seq(rest.skip(1), term@)[0] =~~= prev_acc + split_seq(
                    rest,
                    term@,
                )[0]);
                assert(merge_head(acc@, split_seq(content@.skip(i as int), term@)) =~~= merge_head(
                    prev_acc,
                    split_seq(rest, term@),
                ));
                assert(words.deep_view() =~~= prev_words);
            }
        }
    }
    proof {
        assert(content@.skip(i as int) =~= Seq::<u8>::empty());
        assert(split_seq(Seq::<u8>::empty(), term@) =~~= seq![Seq::<u8>::empty()]);
        assert(merge_head(acc@, seq![Seq::<u8>::empty()]) =~~= seq![acc@]);
    }
    let ghost prev_words = words.deep_view();
    let ghost last = acc@;
    words.push(acc);
    proof {
        assert(words.deep_view() =~~= prev_words.push(last));
        assert(prev_words + seq![last] =~~= prev_words.push(last));
        assert(last + Seq::<u8>::empty() =~= last);
        assert(words.deep_view() =~~= split_seq(content@, term@));
    }
    words
}

/// The words contributed by a sequence of list-file contents, in order.
pub open spec fn split_all(lists: Seq<Seq<u8>>, term: Seq<u8>) -> Seq<Seq<u8>>
    decreases lists.len(),
{
    if lists.len() == 0 {
        Seq::empty()
    } else {
        split_seq(lists[0], term) + split_all(lists.skip(1), term)
    }
}

/// Splitting one more list appends its pieces.
pub proof fn lemma_split_all_snoc(lists: Seq<Seq<u8>>, term: Seq<u8>)
    requires
        lists.len() > 0,
    ensures
        split_all(lists, term) == split_all(lists.drop_last(), term) + split_seq(
            lists.last(),
            term,
        ),
    decreases lists.len(),
{
    if lists.len() == 1 {
        assert(lists.skip(1) =~= Seq::<Seq<u8>>::empty());
        assert(lists.drop_last() =~= Seq::<Seq<u8>>::empty());
        assert(lists[0] == lists.last());
        assert(split_all(lists, term) =~= split_all(lists.drop_last(), term) + split_seq(
            lists.last(),
            term,
        ));
    } else {
        lemma_split_all_snoc(lists.skip(1), term);
        assert(lists.skip(1).drop_last() =~= lists.drop_last().skip(1));
        assert(lists.skip(1).last() == lists.last());
        assert(lists.drop_last()[0] == lists[0]);
        assert(split_all(lists, term) =~= split_all(lists.drop_last(), term) + split_seq(
            lists.last(),
            term,
        ));
    }
}

/// The full word pool a configuration describes: literal words, escaped
/// words, every piece of every word list, then each word file whole.
pub open spec fn spec_words(cfg: Config) -> Seq<Seq<u8>> {
    cfg.word.deep_view() + cfg.escaped_words.deep_view() + split_all(
        cfg.word_lists.deep_view(),
        cfg.word_list_term@,
    ) + cfg.word_files.deep_view()
}

/// Appends copies of all of `src` to `dst`.
pub(crate) fn extend_clones(dst: &mut Vec<Word>, src: &Vec<Word>)
    ensures
        final(dst).deep_view() == old(dst).deep_view() + src.deep_view(),
{
    let mut i: usize = 0;
    proof {
        assert(dst.deep_view() =~~= old(dst).deep_view() + src.deep_view().take(0));
    }
    while i < src.len()
        invariant
            0 <= i <= src@.len(),
            dst.deep_view() == old(dst).deep_view() + src.deep_view().take(i as int),
        decreases src@.len() - i,
    {
        let ghost prev = dst.deep_view();
        let w = clone_word(&src[i]);
        dst.push(w);
        i += 1;
        proof {
            assert(dst.deep_view() =~~= prev.push(src.deep_view()[i - 1]));
            assert(dst.deep_view() =~~= old(dst).deep_view() + src.deep_view().take(i as int));
        }
    }
    proof {
        assert(src.deep_view().take(src@.len() as int) =~~= src.deep_view());
    }
}

impl Config {
    /// A configuration with every option at its documented default: the
    /// marker and argument-marker are `OXIFUZZ`, one run, one thread,
    /// newline list terminator, no runner options, no expectations.
    pub fn new() -> (r: Self)
        ensures
            r.input is None,
            r.output is None,
            r.escaped_words@.len() == 0,
            r.exec_cmd is None,
            r.expect@.len() == 0,
            r.contains@.len() == 0,
            r.expect_regex@.len() == 0,
            r.expect_len@.len() == 0,
            r.expect_exit_code@.len() == 0,
            r.exec_target@ == default_target_word(),
            r.url is None,
            r.header@.len() == 0,
            r.no_headers == false,
            r.http_method is None,
            r.http_timeout is None,
            r.jwt_secret is None,
            r.jwt_header is None,
            r.jwt_signature is Unsigned,
            r.target@ == default_target_word(),
            r.word_lists@.len() == 0,
            r.word_files@.len() == 0,
            r.word@.len() == 0,
            r.n_run == 1,
            r.n_thread == 1,
            r.delay == 0,
            r.word_list_term@ == seq![10u8],
            r.random_file is None,
            r.seed is None,
            r.verbose == 0,
            r.raw == false,
            r.no_color == false,
            r.no_fail_on_err == false,
            r.no_stdin == false,
            r.runner is Auto,
            r.dry_run == false,
    {
        let target: Word = vec![79u8, 88u8, 73u8, 70u8, 85u8, 90u8, 90u8];
        let exec_target: Word = vec![79u8, 88u8, 73u8, 70u8, 85u8, 90u8, 90u8];
        let term: Word = vec![10u8];
        proof {
            assert(target@ =~= default_target_word());
            assert(exec_target@ =~= default_target_word());
            assert(term@ =~= seq![10u8]);
        }
        Config {
            input: None,
            output: None,
            escaped_words: Vec::new(),
            exec_cmd: None,
            expect: Vec::new(),
            contains: Vec::new(),
            expect_regex: Vec::new(),
            expect_len: Vec::new(),
            expect_exit_code: Vec::new(),
            exec_target,
            url: None,
            header: Vec::new(),
            no_headers: false,
            http_method: None,
            http_timeout: None,
            jwt_secret: None,
            jwt_header: None,
            jwt_signature: SignatureConfig::Unsigned,
            target,
            word_lists: Vec::new(),
            word_files: Vec::new(),
            word: Vec::new(),
            n_run: 1,
            n_thread: 1,
            delay: 0,
            word_list_term: term,
            random_file: None,
            seed: None,
            verbose: 0,
            raw: false,
            no_color: false,
            no_fail_on_err: false,
            no_stdin: false,
            runner: RunnerKindConfig::Auto,
            dry_run: false,
        }
    }

    /// The random source this configuration asks for: seeded when a seed
    /// is given, file-backed when a random file is given, OS entropy
    /// otherwise.
    pub fn rand(&self) -> (r: Rand)
        ensures
            self.seed matches Some(s) ==> r.model() == (RandModel::Seeded {
                seed: s,
                history: Seq::<RngEvent>::empty(),
            }),
            self.seed is None ==> (self.random_file matches Some(p) ==> {
                &&& r.model() == (RandModel::File { data: Seq::<u8>::empty(), pos: 0 })
                &&& r matches Rand::File(f) && f.path@ == p@
            }),
            self.seed is None && self.random_file is None ==> r.model() is Entropy,
    {
        if let Some(seed) = self.seed {
            Rand::from_seed(seed)
        } else if let Some(path) = &self.random_file {
            Rand::from_path(path.clone())
        } else {
            Rand::default()
        }
    }

    /// The word pool: literal words, escaped words, the pieces of each
    /// word list split on the terminator, then each word file whole.
    pub fn words(&self) -> (r: Vec<Word>)
        ensures
            r.deep_view() == spec_words(*self),
    {
        let mut res: Vec<Word> = Vec::new();
        extend_clones(&mut res, &self.word);
        extend_clones(&mut res, &self.escaped_words);
        let ghost base = self.word.deep_view() + self.escaped_words.deep_view();
        proof {
            assert(res.deep_view() =~~= base);
            assert(self.word_lists.deep_view().take(0) =~= Seq::<Seq<u8>>::empty());
        }
        let mut i: usize = 0;
        while i < self.word_lists.len()
            invariant
                0 <= i <= self.word_lists@.len(),
                res.deep_view() == base + split_all(
                    self.word_lists.deep_view().take(i as int),
                    self.word_list_term@,
                ),
            decreases self.word_lists@.len() - i,
        {
            let ghost prev = res.deep_view();
            let mut parts = split_word(&self.word_lists[i], &self.word_list_term);
            let ghost parts_view = parts.deep_view();
            res.append(&mut parts);
            i += 1;
            proof {
                assert(res.deep_view() =~~= prev + parts_view);
                let lists = self.word_lists.deep_view();
                assert(self.word_lists@[i - 1]@ =~= lists[i - 1]);
                assert(lists.take(i as int).drop_last() =~~= lists.take(i - 1));
                assert(lists.take(i as int).last() == lists[i - 1]);
                lemma_split_all_snoc(lists.take(i as int), self.word_list_term@);
                assert(res.deep_view() =~~= base + split_all(
                    lists.take(i as int),
                    self.word_list_term@,
                ));
            }
        }
        proof {
            assert(self.word_lists.deep_view().take(self.word_lists@.len() as int)
                =~~= self.word_lists.deep_view());
        }
        extend_clones(&mut res, &self.word_files);
        proof {
            assert(res.deep_view() =~~= spec_words(*self));
        }
        res
    }
}

/// What `shell_words::split` answers on a command string: `None` when the
/// string cannot be parsed (mismatched quoting), the split words
/// otherwise. A function of the string alone.
pub uninterp spec fn shell_split(s: Seq<char>) -> Option<Seq<Seq<char>>>;

/// Relies on `shell_words::split`: the parse is a function of the string
/// alone and fails exactly on strings with mismatched quoting.
#[verifier::external_body]
fn shell_split_words(s: &str) -> (r: FResult<Vec<String>>)
    ensures
        (r is Ok) == (shell_split(s@) is Some),
        r matches Err(e) ==> e == Error::ArgError,
        r is Ok ==> (r->Ok_0).deep_view() == shell_split(s@)->Some_0,
{
    shell_words::split(s).map_err(|_| Error::ArgError)
}

/// The UTF-8 bytes of each split word.
pub open spec fn encode_all(ws: Seq<Seq<char>>) -> Seq<Seq<u8>> {
    ws.map_values(|w: Seq<char>| vstd::utf8::encode_utf8(w))
}

impl Config {
    /// The command name of the `exec` option: the first shell word, or an
    /// empty word when the option is an empty string. `None` when no
    /// `exec` option is set; `ArgError` exactly when shell-splitting
    /// fails.
    pub fn cmd(&self) -> (r: FResult<Option<Word>>)
        ensures
            self.exec_cmd is None ==> r == Ok::<Option<Word>, Error>(None),
            self.exec_cmd matches Some(e) ==> {
                &&& (r is Ok) == (shell_split(e@) is Some)
                &&& r is Err ==> r == Err::<Option<Word>, Error>(Error::ArgError)
                &&& shell_split(e@) matches Some(ws) ==> (r matches Ok(c) && c matches Some(w) && (
                if ws.len() > 0 {
                    w@ == vstd::utf8::encode_utf8(ws[0])
                } else {
                    w@ == Seq::<u8>::empty()
                }))
            },
    {
        if let Some(exec) = &self.exec_cmd {
            let split = shell_split_words(exec.as_str())?;
            if split.len() > 0 {
                let w = split[0].as_str().as_bytes_vec();
                Ok(Some(w))
            } else {
                let w: Word = Vec::new();
                Ok(Some(w))
            }
        } else {
            Ok(None)
        }
    }

    /// The argument words of the `exec` option: every shell word after the
    /// first. `None` when no `exec` option is set; `ArgError` exactly when
    /// shell-splitting fails.
    pub fn cmd_args(&self) -> (r: FResult<Option<Vec<Word>>>)
        ensures
            self.exec_cmd is None ==> (r matches Ok(o) && o is None),
            self.exec_cmd matches Some(e) ==> {
                &&& (r is Ok) == (shell_split(e@) is Some)
                &&& r is Err ==> r == Err::<Option<Vec<Word>>, Error>(Error::ArgError)
                &&& shell_split(e@) matches Some(ws) ==> (r matches Ok(c) && c matches Some(args)
                && (if ws.len() > 0 {
                    args.deep_view() == encode_all(ws.skip(1))
                } else {
                    args.deep_view() == Seq::<Seq<u8>>::empty()
                }))
            },
    {
        if let Some(exec) = &self.exec_cmd {
            let split = shell_split_words(exec.as_str())?;
            let ghost ws = shell_split(exec@)->Some_0;
            let mut args: Vec<Word> = Vec::new();
            let mut i: usize = 1;
            if split.len() == 0 {
                return Ok(Some(args));
            }
            while i < split.len()
                invariant
                    1 <= i <= split@.len(),
                    split.deep_view() == ws,
                    args.deep_view() == encode_all(ws.subrange(1, i as int)),
                decreases split@.len() - i,
            {
                let ghost prev = args.deep_view();
                let w = split[i].as_str().as_bytes_vec();
                args.push(w);
                i += 1;
                proof {
                    assert(args.deep_view() =~~= prev.push(vstd::utf8::encode_utf8(ws[i - 1])));
                    assert(ws.subrange(1, i as int) =~~= ws.subrange(1, i - 1).push(ws[i - 1]));
                    assert(encode_all(ws.subrange(1, i as int)) =~~= encode_all(
                        ws.subrange(1, i - 1),
                    ).push(vstd::utf8::encode_utf8(ws[i - 1])));
                }
            }
            proof {
                assert(ws.subrange(1, ws.len() as int) =~~= ws.skip(1));
            }
            Ok(Some(args))
        } else {
            Ok(None)
        }
    }
}

} // verus!
