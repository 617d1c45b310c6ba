//! The mathematical model of the tokenizer: a recursive scan over the input
//! characters that either yields the token sequence or reports that the line
//! ended inside an open quote span.

use vstd::prelude::*;

verus! {

/// The Unicode white-space code points, as the backslash-escape rule sees
/// them. Word separation itself is done by the plain space character only.
pub open spec fn is_whitespace_char(c: char) -> bool {
    (0x09 <= c as u32 && c as u32 <= 0x0d) || c as u32 == 0x20 || c as u32 == 0x85 || c as u32
        == 0xa0 || c as u32 == 0x1680 || (0x2000 <= c as u32 && c as u32 <= 0x200a) || c as u32
        == 0x2028 || c as u32 == 0x2029 || c as u32 == 0x202f || c as u32 == 0x205f || c as u32
        == 0x3000
}

/// Whether the scanner currently stands inside a quote span, and which quote
/// character opened it. At most one span is open at a time; only the matching
/// quote character closes it.
#[derive(Clone, Copy, PartialEq, Eq, Structural)]
pub enum QuoteMode {
    Unquoted,
    Single,
    Double,
}

/// The quote character `c` closes the currently open span `q`.
pub open spec fn closes(q: QuoteMode, c: char) -> bool {
    (q == QuoteMode::Single && c == '\'') || (q == QuoteMode::Double && c == '"')
}

/// One left-to-right scan starting at position `i` with quote mode `q`, the
/// word accumulated so far `acc`, and the tokens already emitted `toks`.
/// `None` means the line ended while a quote span was still open.
///
/// The rules, in precedence order at each character `c` with one lookahead:
/// a backslash followed by a whitespace character flushes the accumulator and
/// emits that whitespace character as a standalone token, while a backslash
/// followed by any other character appends that character verbatim (in either
/// case, if nothing follows the pair, the accumulator is flushed and the scan
/// stops); a trailing lone backslash is dropped; runs of unquoted spaces
/// collapse into one boundary; a quote character opens, closes, or (when it
/// does not match the open span) is taken literally; inside a span every
/// character is appended verbatim; unquoted spaces flush a non-empty
/// accumulator; anything else is appended to the accumulator. At the last
/// character, whatever the accumulator holds becomes the final token.
pub open spec fn scan(
    s: Seq<char>,
    i: nat,
    q: QuoteMode,
    acc: Seq<char>,
    toks: Seq<Seq<char>>,
) -> Option<Seq<Seq<char>>>
    decreases s.len() - i,
{
    if i >= s.len() {
        if q == QuoteMode::Unquoted {
            Some(toks)
        } else {
            None
        }
    } else {
        let c = s[i as int];
        let last = i + 1 == s.len();
        if c == '\\' && !last {
            let e = s[i + 1 as int];
            let acc2 = if is_whitespace_char(e) {
                Seq::<char>::empty()
            } else {
                acc.push(e)
            };
            let toks2 = if is_whitespace_char(e) {
                (if acc.len() > 0 {
                    toks.push(acc)
                } else {
                    toks
                }).push(seq![e])
            } else {
                toks
            };
            if i + 2 == s.len() {
                Some(toks2.push(acc2))
            } else {
                scan(s, i + 2, q, acc2, toks2)
            }
        } else if c == '\\' {
            // A backslash as the very last character escapes nothing: it is
            // dropped, and the accumulator is flushed as at any end of input.
            if q != QuoteMode::Unquoted {
                None
            } else if acc.len() > 0 {
                Some(toks.push(acc))
            } else {
                Some(toks)
            }
        } else if q == QuoteMode::Unquoted && c == ' ' && !last && s[i + 1 as int] == ' ' {
            // Collapse a run of separator spaces into one boundary.
            scan(s, i + 1, q, acc, toks)
        } else if q == QuoteMode::Unquoted && (c == '\'' || c == '"') {
            let q2 = if c == '\'' {
                QuoteMode::Single
            } else {
                QuoteMode::Double
            };
            scan(s, i + 1, q2, acc, toks)
        } else if closes(q, c) {
            if last {
                Some(toks.push(acc))
            } else {
                scan(s, i + 1, QuoteMode::Unquoted, acc, toks)
            }
        } else if q != QuoteMode::Unquoted {
            // Inside a span every character is kept verbatim, a non-matching
            // quote character included.
            scan(s, i + 1, q, acc.push(c), toks)
        } else if c == ' ' {
            if last {
                Some(toks.push(acc))
            } else if acc.len() == 0 {
                scan(s, i + 1, q, acc, toks)
            } else {
                scan(s, i + 1, q, Seq::<char>::empty(), toks.push(acc))
            }
        } else {
            if last {
                Some(toks.push(acc.push(c)))
            } else {
                scan(s, i + 1, q, acc.push(c), toks)
            }
        }
    }
}

/// The position of the first character that is not a leading space.
pub open spec fn skip_leading_spaces(s: Seq<char>, i: nat) -> nat
    decreases s.len() - i,
{
    if i < s.len() && s[i as int] == ' ' {
        skip_leading_spaces(s, i + 1)
    } else {
        i
    }
}

/// The tokens of one input line: leading spaces are discarded, then the line
/// is scanned from a fresh state. `None` means the line ended while a quote
/// span was still open (an incomplete line, not a token sequence).
pub open spec fn tokens_of(s: Seq<char>) -> Option<Seq<Seq<char>>> {
    scan(s, skip_leading_spaces(s, 0), QuoteMode::Unquoted, Seq::empty(), Seq::empty())
}

} // verus!
