use vstd::prelude::*;

use crate::config::Config;
use crate::expect::{lossy_chars, lossy_string};
use crate::transform::{clone_word, push_all, Context, OutputFmt, Word};

verus! {

/// Relies on console's `style(..).white()` rendering: the displayed text
/// is the input with some (possibly empty) escape sequences around it,
/// depending on whether colours are enabled in the environment.
#[verifier::external_body]
fn paint_white(s: &str) -> (r: String)
    ensures
        exists|pre: Seq<char>, post: Seq<char>| r@ == pre + s@ + post,
{
    console::style(s).white().to_string()
}

/// Relies on console's `style(..).green()` rendering; see `paint_white`.
#[verifier::external_body]
fn paint_green(s: &str) -> (r: String)
    ensures
        exists|pre: Seq<char>, post: Seq<char>| r@ == pre + s@ + post,
{
    console::style(s).green().to_string()
}

/// Relies on console's `style(..).red()` rendering; see `paint_white`.
#[verifier::external_body]
fn paint_red(s: &str) -> (r: String)
    ensures
        exists|pre: Seq<char>, post: Seq<char>| r@ == pre + s@ + post,
{
    console::style(s).red().to_string()
}

/// Relies on console's `colors_enabled`: whether the environment renders
/// colours; nothing is assumed of the answer.
#[verifier::external_body]
fn console_colors_enabled() -> bool {
    console::colors_enabled()
}

/// Relies on console's `set_colors_enabled`: overrides the environment's
/// colour switch.
#[verifier::external_body]
fn console_set_colors_enabled(value: bool) {
    console::set_colors_enabled(value)
}

/// The uncoloured pretty rendering of one result line: an optional
/// `+ `/`- ` prefix, the lossy decoding of the bytes, and a newline.
pub open spec fn pretty_plain_line(data: Seq<u8>, fmt: OutputFmt) -> Seq<u8> {
    let body = vstd::utf8::encode_utf8(lossy_chars(data));
    match fmt {
        OutputFmt::Plain => body + seq![10u8],
        OutputFmt::Expected => seq![43u8, 32u8] + body + seq![10u8],
        OutputFmt::NotExpected => seq![45u8, 32u8] + body + seq![10u8],
    }
}

impl Context {
    /// Renders one result for the output stream: `None` when the line is
    /// suppressed (raw mode drops non-matching results), otherwise the
    /// bytes to write. Raw mode passes the bytes through unchanged;
    /// pretty mode emits one line per result, coloured through console
    /// unless colours are off.
    pub fn output(cfg: &Config, data: &Word, fmt: &OutputFmt) -> (r: Option<Word>)
        ensures
            cfg.raw ==> {
                &&& fmt is NotExpected ==> r is None
                &&& !(fmt is NotExpected) ==> (r matches Some(w) && w@ == data@)
            },
            !cfg.raw ==> (r matches Some(w) && w@.len() > 0 && w@[w@.len() - 1] == 10u8),
            (!cfg.raw && cfg.no_color) ==> (r matches Some(w) && w@ == pretty_plain_line(
                data@,
                *fmt,
            )),
            (!cfg.raw && !cfg.no_color && fmt is Plain) ==> (r matches Some(w) && exists|
                p: Seq<char>,
                q: Seq<char>,
            |
                w@ == #[trigger] vstd::utf8::encode_utf8(p + lossy_chars(data@) + q) + seq![10u8]),
            (!cfg.raw && !cfg.no_color && fmt is Expected) ==> (r matches Some(w) && exists|
                p1: Seq<char>,
                q1: Seq<char>,
                p2: Seq<char>,
                q2: Seq<char>,
            |
                #![trigger vstd::utf8::encode_utf8(p1 + seq!['+'] + q1), vstd::utf8::encode_utf8(
                    p2 + lossy_chars(data@) + q2,
                )]
                w@ == vstd::utf8::encode_utf8(p1 + seq!['+'] + q1) + seq![32u8]
                    + vstd::utf8::encode_utf8(p2 + lossy_chars(data@) + q2) + seq![10u8]),
            (!cfg.raw && !cfg.no_color && fmt is NotExpected) ==> (r matches Some(w) && exists|
                p1: Seq<char>,
                q1: Seq<char>,
                p2: Seq<char>,
                q2: Seq<char>,
            |
                #![trigger vstd::utf8::encode_utf8(p1 + seq!['-'] + q1), vstd::utf8::encode_utf8(
                    p2 + lossy_chars(data@) + q2,
                )]
                w@ == vstd::utf8::encode_utf8(p1 + seq!['-'] + q1) + seq![32u8]
                    + vstd::utf8::encode_utf8(p2 + lossy_chars(data@) + q2) + seq![10u8]),
    {
        if cfg.raw {
            match fmt {
                OutputFmt::NotExpected => None,
                _ => Some(clone_word(data)),
            }
        } else {
            if console_colors_enabled() {
                console_set_colors_enabled(!cfg.no_color);
            }
            let text = lossy_string(data);
            if cfg.no_color {
                let mut line: Word = Vec::new();
                match fmt {
                    OutputFmt::Plain => {},
                    OutputFmt::Expected => {
                        line.push(43u8);
                        line.push(32u8);
                    },
                    OutputFmt::NotExpected => {
                        line.push(45u8);
                        line.push(32u8);
                    },
                }
                let body = text.as_str().as_bytes_vec();
                push_all(&mut line, body.as_slice());
                line.push(10u8);
                proof {
                    assert(line@ =~= pretty_plain_line(data@, *fmt));
                }
                Some(line)
            } else {
                let mut line: Word = Vec::new();
                match fmt {
                    OutputFmt::Plain => {
                        let styled = paint_white(text.as_str());
                        let body = styled.as_str().as_bytes_vec();
                        push_all(&mut line, body.as_slice());
                        line.push(10u8);
                        proof {
                            let (p, q) = choose|p: Seq<char>, q: Seq<char>| styled@ == p + text@
                                + q;
                            assert(line@ =~= vstd::utf8::encode_utf8(p + lossy_chars(data@) + q)
                                + seq![10u8]);
                        }
                    },
                    OutputFmt::Expected => {
                        let sign = paint_green("+");
                        let sbytes = sign.as_str().as_bytes_vec();
                        push_all(&mut line, sbytes.as_slice());
                        line.push(32u8);
                        let styled = paint_green(text.as_str());
                        let body = styled.as_str().as_bytes_vec();
                        push_all(&mut line, body.as_slice());
                        line.push(10u8);
                        proof {
                            reveal_strlit("+");
                            assert("+"@ =~= seq!['+']);
                            let (p1, q1) = choose|p1: Seq<char>, q1: Seq<char>| sign@ == p1 + "+"@
                                + q1;
                            let (p2, q2) = choose|p2: Seq<char>, q2: Seq<char>| styled@ == p2
                                + text@ + q2;
                            assert(p1 + "+"@ + q1 =~= p1 + seq!['+'] + q1);
                            assert(line@ =~= vstd::utf8::encode_utf8(p1 + seq!['+'] + q1) + seq![
                                32u8,
                            ] + vstd::utf8::encode_utf8(p2 + lossy_chars(data@) + q2) + seq![
                                10u8,
                            ]);
                        }
                    },
                    OutputFmt::NotExpected => {
                        let sign = paint_red("-");
                        let sbytes = sign.as_str().as_bytes_vec();
                        push_all(&mut line, sbytes.as_slice());
                        line.push(32u8);
                        let styled = paint_red(text.as_str());
                        let body = styled.as_str().as_bytes_vec();
                        push_all(&mut line, body.as_slice());
                        line.push(10u8);
                        proof {
                            reveal_strlit("-");
                            assert("-"@ =~= seq!['-']);
                            let (p1, q1) = choose|p1: Seq<char>, q1: Seq<char>| sign@ == p1 + "-"@
                                + q1;
                            let (p2, q2) = choose|p2: Seq<char>, q2: Seq<char>| styled@ == p2
                                + text@ + q2;
                            assert(p1 + "-"@ + q1 =~= p1 + seq!['-'] + q1);
                            assert(line@ =~= vstd::utf8::encode_utf8(p1 + seq!['-'] + q1) + seq![
                                32u8,
                            ] + vstd::utf8::encode_utf8(p2 + lossy_chars(data@) + q2) + seq![
                                10u8,
                            ]);
                        }
                    },
                }
                Some(line)
            }
        }
    }
}

} // verus!
