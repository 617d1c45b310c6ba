//! The executable tokenizer, verified against the model in [`crate::model`].

use vstd::prelude::*;

use crate::model::is_whitespace_char;
use crate::model::scan;
use crate::model::skip_leading_spaces;
use crate::model::tokens_of;
use crate::model::QuoteMode;

verus! {

/// Relies on `String::push`: appends the given character to the end of the
/// string.
pub assume_specification[ String::push ](s: &mut String, c: char)
    ensures
        final(s)@ == old(s)@.push(c),
;

/// The character sequences of a list of tokens.
pub open spec fn views(ts: Seq<String>) -> Seq<Seq<char>> {
    Seq::new(ts.len(), |k: int| ts[k]@)
}

/// Pushing a token onto the token list appends its character sequence to the
/// views of the list.
proof fn lemma_views_push(ts: Seq<String>, t: String)
    ensures
        views(ts.push(t)) == views(ts).push(t@),
{
    assert(views(ts.push(t)) =~= views(ts).push(t@));
}

/// Whether `c` is a Unicode white-space character.
fn is_whitespace(c: char) -> (b: bool)
    ensures
        b == is_whitespace_char(c),
{
    let u: u32 = c as u32;
    (0x09 <= u && u <= 0x0d) || u == 0x20 || u == 0x85 || u == 0xa0 || u == 0x1680 || (0x2000 <= u
        && u <= 0x200a) || u == 0x2028 || u == 0x2029 || u == 0x202f || u == 0x205f || u == 0x3000
}

/// The outcome of tokenizing one line: either the ordered tokens of a complete
/// line, or the report that the line ended inside an open quote span, so that
/// the caller can reject the line or ask for more input.
#[derive(Debug, PartialEq, Eq)]
pub enum Tokenization {
    Complete(Vec<String>),
    Incomplete,
}

/// Splits one line of input into word tokens.
///
/// Leading spaces are discarded; runs of unquoted spaces separate words;
/// single- and double-quoted spans keep their content (spaces included)
/// verbatim and merge with adjacent text into one token; a backslash escapes
/// the character after it, either as a literal (the backslash is dropped) or,
/// for a whitespace character, as a standalone one-character token. A line
/// that ends inside an open quote span is reported as `Incomplete`.
pub fn tokenize(input: &str) -> (out: Tokenization)
    ensures
        (match out {
            Tokenization::Complete(toks) => tokens_of(input@) == Some(views(toks@)),
            Tokenization::Incomplete => tokens_of(input@) is None,
        }),
{
    let ghost s = input@;
    let n: usize = input.unicode_len();
    let mut i: usize = 0;
    while i < n && input.get_char(i) == ' '
        invariant
            s == input@,
            n == s.len(),
            i <= n,
            skip_leading_spaces(s, 0) == skip_leading_spaces(s, i as nat),
        decreases n - i,
    {
        i += 1;
    }
    assert(skip_leading_spaces(s, 0) == i as nat);

    let mut q = QuoteMode::Unquoted;
    let mut acc = String::new();
    let mut toks: Vec<String> = Vec::new();
    proof {
        assert(acc@ =~= Seq::<char>::empty());
        assert(views(toks@) =~= Seq::<Seq<char>>::empty());
    }

    while i < n
        invariant
            s == input@,
            n == s.len(),
            i <= n,
            scan(s, i as nat, q, acc@, views(toks@)) == tokens_of(s),
        decreases n - i,
    {
        let ghost acc0 = acc@;
        let ghost toks0 = views(toks@);
        let c = input.get_char(i);
        let last = i + 1 == n;
        if c == '\\' && !last {
            let e = input.get_char(i + 1);
            if is_whitespace(e) {
                if !acc.as_str().is_empty() {
                    proof {
                        lemma_views_push(toks@, acc);
                    }
                    toks.push(acc);
                    acc = String::new();
                }
                let mut sep = String::new();
                sep.push(e);
                proof {
                    assert(sep@ =~= seq![e]);
                    lemma_views_push(toks@, sep);
                }
                toks.push(sep);
                proof {
                    assert(acc@ == Seq::<char>::empty());
                    assert(views(toks@) == (if acc0.len() > 0 {
                        toks0.push(acc0)
                    } else {
                        toks0
                    }).push(seq![e]));
                }
            } else {
                acc.push(e);
                proof {
                    assert(acc@ == acc0.push(e));
                    assert(views(toks@) == toks0);
                }
            }
            if i + 2 == n {
                proof {
                    lemma_views_push(toks@, acc);
                }
                toks.push(acc);
                proof {
                    assert(scan(s, i as nat, q, acc0, toks0) == Some(views(toks@)));
                }
                return Tokenization::Complete(toks);
            }
            i += 2;
            assert(scan(s, i as nat, q, acc@, views(toks@)) == tokens_of(s));
        } else if c == '\\' {
            // A trailing lone backslash escapes nothing and is dropped; the
            // accumulated word, if any, is flushed as at any end of input.
            if q == QuoteMode::Unquoted {
                if !acc.as_str().is_empty() {
                    proof {
                        lemma_views_push(toks@, acc);
                    }
                    toks.push(acc);
                }
                return Tokenization::Complete(toks);
            }
            return Tokenization::Incomplete;
        } else if q == QuoteMode::Unquoted && c == ' ' && !last && input.get_char(i + 1) == ' ' {
            i += 1;
            assert(scan(s, i as nat, q, acc@, views(toks@)) == tokens_of(s));
        } else if q == QuoteMode::Unquoted && (c == '\'' || c == '"') {
            q = if c == '\'' {
                QuoteMode::Single
            } else {
                QuoteMode::Double
            };
            i += 1;
            assert(scan(s, i as nat, q, acc@, views(toks@)) == tokens_of(s));
        } else if (q == QuoteMode::Single && c == '\'') || (q == QuoteMode::Double && c == '"') {
            if last {
                proof {
                    lemma_views_push(toks@, acc);
                }
                toks.push(acc);
                proof {
                    assert(scan(s, i as nat, q, acc0, toks0) == Some(views(toks@)));
                }
                return Tokenization::Complete(toks);
            }
            q = QuoteMode::Unquoted;
            i += 1;
            assert(scan(s, i as nat, q, acc@, views(toks@)) == tokens_of(s));
        } else if q != QuoteMode::Unquoted {
            acc.push(c);
            i += 1;
            assert(scan(s, i as nat, q, acc@, views(toks@)) == tokens_of(s));
        } else if c == ' ' {
            if last {
                proof {
                    lemma_views_push(toks@, acc);
                }
                toks.push(acc);
                proof {
                    assert(scan(s, i as nat, q, acc0, toks0) == Some(views(toks@)));
                }
                return Tokenization::Complete(toks);
            }
            if !acc.as_str().is_empty() {
                proof {
                    lemma_views_push(toks@, acc);
                }
                toks.push(acc);
                acc = String::new();
            }
            i += 1;
            assert(scan(s, i as nat, q, acc@, views(toks@)) == tokens_of(s));
        } else {
            acc.push(c);
            if last {
                proof {
                    lemma_views_push(toks@, acc);
                }
                toks.push(acc);
                proof {
                    assert(scan(s, i as nat, q, acc0, toks0) == Some(views(toks@)));
                }
                return Tokenization::Complete(toks);
            }
            i += 1;
            assert(scan(s, i as nat, q, acc@, views(toks@)) == tokens_of(s));
        }
    }
    match q {
        QuoteMode::Unquoted => Tokenization::Complete(toks),
        _ => Tokenization::Incomplete,
    }
}

/// Splits one complete line of input into word tokens.
///
/// The input must not end inside an open quote span; a caller that cannot
/// rule that out calls [`tokenize`] instead, which reports such a line as
/// [`Tokenization::Incomplete`].
pub fn parse_input(input: &str) -> (tokens: Vec<String>)
    requires
        tokens_of(input@) is Some,
    ensures
        tokens_of(input@) == Some(views(tokens@)),
{
    match tokenize(input) {
        Tokenization::Complete(tokens) => tokens,
        Tokenization::Incomplete => vstd::pervasive::unreached(),
    }
}

} // verus!
