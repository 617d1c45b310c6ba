//! Proved laws of the tokenizer model.

use vstd::prelude::*;

use crate::model::closes;
use crate::model::is_whitespace_char;
use crate::model::scan;
use crate::model::skip_leading_spaces;
use crate::model::tokens_of;
use crate::model::QuoteMode;

verus! {

/// A character that is not whitespace, not a quote, and not a backslash: a
/// plain word character, taken verbatim by every scanning rule.
pub open spec fn word_char(c: char) -> bool {
    !is_whitespace_char(c) && c != '\'' && c != '"' && c != '\\'
}

/// Every character of `s` is a plain word character.
pub open spec fn all_word_chars(s: Seq<char>) -> bool {
    forall|k: int| 0 <= k < s.len() ==> word_char(s[k])
}

/// A run of `n` spaces.
pub open spec fn spaces(n: nat) -> Seq<char> {
    Seq::new(n, |k: int| ' ')
}

/// A word character is not the space character.
proof fn lemma_word_char_not_space(c: char)
    requires
        word_char(c),
    ensures
        c != ' ',
{
    assert(' ' as u32 == 0x20);
}

/// Spaces before the first other character are all skipped.
proof fn lemma_skip_all_spaces(s: Seq<char>, i: nat)
    requires
        i <= s.len(),
        forall|k: int| i <= k < s.len() ==> s[k] == ' ',
    ensures
        skip_leading_spaces(s, i) == s.len(),
    decreases s.len() - i,
{
    if i < s.len() {
        lemma_skip_all_spaces(s, i + 1);
    }
}

/// Law: an input consisting only of spaces, the empty input included, yields
/// the empty token sequence.
pub proof fn lemma_spaces_only(s: Seq<char>)
    requires
        forall|k: int| 0 <= k < s.len() ==> s[k] == ' ',
    ensures
        tokens_of(s) == Some(Seq::<Seq<char>>::empty()),
{
    lemma_skip_all_spaces(s, 0);
}

/// Outside any quote span, a stretch of word characters that does not reach
/// the end of the input is appended to the accumulator, one by one.
proof fn lemma_scan_word_segment(
    s: Seq<char>,
    i: nat,
    j: nat,
    acc: Seq<char>,
    toks: Seq<Seq<char>>,
)
    requires
        i <= j < s.len(),
        forall|k: int| i <= k < j ==> word_char(s[k]),
    ensures
        scan(s, i, QuoteMode::Unquoted, acc, toks) == scan(
            s,
            j,
            QuoteMode::Unquoted,
            acc + s.subrange(i as int, j as int),
            toks,
        ),
    decreases j - i,
{
    if i == j {
        assert(acc + s.subrange(i as int, j as int) =~= acc);
    } else {
        let c = s[i as int];
        lemma_word_char_not_space(c);
        assert(scan(s, i, QuoteMode::Unquoted, acc, toks) == scan(
            s,
            i + 1,
            QuoteMode::Unquoted,
            acc.push(c),
            toks,
        ));
        lemma_scan_word_segment(s, i + 1, j, acc.push(c), toks);
        assert(acc.push(c) + s.subrange(i as int + 1, j as int) =~= acc + s.subrange(
            i as int,
            j as int,
        ));
    }
}

/// Outside any quote span, word characters that run to the end of the input
/// are flushed, together with the accumulator, as the final token.
proof fn lemma_scan_word_to_end(s: Seq<char>, i: nat, acc: Seq<char>, toks: Seq<Seq<char>>)
    requires
        i < s.len(),
        forall|k: int| i <= k < s.len() ==> word_char(s[k]),
    ensures
        scan(s, i, QuoteMode::Unquoted, acc, toks) == Some(
            toks.push(acc + s.subrange(i as int, s.len() as int)),
        ),
{
    let j = (s.len() - 1) as nat;
    lemma_scan_word_segment(s, i, j, acc, toks);
    let acc2 = acc + s.subrange(i as int, j as int);
    let c = s[j as int];
    lemma_word_char_not_space(c);
    assert(scan(s, j, QuoteMode::Unquoted, acc2, toks) == Some(toks.push(acc2.push(c))));
    assert(acc2.push(c) =~= acc + s.subrange(i as int, s.len() as int));
}

/// Inside an open quote span, every character that neither escapes nor closes
/// the span is appended verbatim, whitespace and the other quote included.
proof fn lemma_scan_span_segment(
    s: Seq<char>,
    i: nat,
    j: nat,
    q: QuoteMode,
    acc: Seq<char>,
    toks: Seq<Seq<char>>,
)
    requires
        q != QuoteMode::Unquoted,
        i <= j <= s.len(),
        forall|k: int| i <= k < j ==> s[k] != '\\' && !closes(q, s[k]),
    ensures
        scan(s, i, q, acc, toks) == scan(
            s,
            j,
            q,
            acc + s.subrange(i as int, j as int),
            toks,
        ),
    decreases j - i,
{
    if i == j {
        assert(acc + s.subrange(i as int, j as int) =~= acc);
    } else {
        let c = s[i as int];
        assert(scan(s, i, q, acc, toks) == scan(s, i + 1, q, acc.push(c), toks));
        lemma_scan_span_segment(s, i + 1, j, q, acc.push(c), toks);
        assert(acc.push(c) + s.subrange(i as int + 1, j as int) =~= acc + s.subrange(
            i as int,
            j as int,
        ));
    }
}

/// Law: quote transparency. A single-quoted span standing alone is one token
/// holding exactly the quoted characters, for any content free of single
/// quotes and backslashes — spaces, double quotes and control characters
/// included. (A backslash would escape the character after it even inside the
/// span, so content holding one is out.)
pub proof fn lemma_quote_transparency(x: Seq<char>)
    requires
        forall|k: int| 0 <= k < x.len() ==> x[k] != '\'' && x[k] != '\\',
    ensures
        tokens_of(seq!['\''] + x + seq!['\'']) == Some(seq![x]),
{
    let s = seq!['\''] + x + seq!['\''];
    assert(s.len() == x.len() + 2);
    assert(s[0] == '\'');
    assert(s[s.len() - 1] == '\'');
    assert forall|k: int| 1 <= k < s.len() - 1 implies s[k] == x[k - 1] by {
        assert((seq!['\''] + x)[k] == x[k - 1]);
    }
    assert(skip_leading_spaces(s, 0) == 0);
    let none = Seq::<Seq<char>>::empty();
    assert(scan(s, 0, QuoteMode::Unquoted, Seq::empty(), none) == scan(
        s,
        1,
        QuoteMode::Single,
        Seq::empty(),
        none,
    ));
    lemma_scan_span_segment(s, 1, (s.len() - 1) as nat, QuoteMode::Single, Seq::empty(), none);
    assert(Seq::<char>::empty() + s.subrange(1, s.len() - 1) =~= x);
    assert(scan(s, (s.len() - 1) as nat, QuoteMode::Single, x, none) == Some(none.push(x)));
    assert(none.push(x) =~= seq![x]);
}

/// Law: concatenation across quote boundaries. Two adjacent single-quoted
/// spans of word characters tokenize exactly as their contents written
/// plainly, side by side: one merged token.
pub proof fn lemma_quoted_concat(a: Seq<char>, b: Seq<char>)
    requires
        a.len() + b.len() > 0,
        all_word_chars(a),
        all_word_chars(b),
    ensures
        tokens_of(seq!['\''] + a + seq!['\'', '\''] + b + seq!['\'']) == tokens_of(a + b),
        tokens_of(a + b) == Some(seq![a + b]),
{
    let none = Seq::<Seq<char>>::empty();
    // The plain side: one unbroken run of word characters.
    let s2 = a + b;
    assert(forall|k: int| 0 <= k < s2.len() ==> word_char(s2[k]));
    lemma_word_char_not_space(s2[0]);
    assert(skip_leading_spaces(s2, 0) == 0);
    lemma_scan_word_to_end(s2, 0, Seq::empty(), none);
    assert(Seq::<char>::empty() + s2.subrange(0, s2.len() as int) =~= a + b);
    assert(none.push(a + b) =~= seq![a + b]);

    // The quoted side.
    let p1 = seq!['\''] + a;
    let p2 = p1 + seq!['\'', '\''];
    let p3 = p2 + b;
    let s1 = p3 + seq!['\''];
    assert(s1 == seq!['\''] + a + seq!['\'', '\''] + b + seq!['\'']);
    let la = a.len() as int;
    let lb = b.len() as int;
    assert(s1.len() == la + lb + 4);
    assert(s1[0] == '\'');
    assert forall|k: int| 1 <= k < 1 + la implies s1[k] == a[k - 1] by {
        assert(p1[k] == a[k - 1]);
        assert(p2[k] == p1[k]);
        assert(p3[k] == p2[k]);
    }
    assert(p2[1 + la] == '\'');
    assert(p2[2 + la] == '\'');
    assert(s1[1 + la] == '\'');
    assert(s1[2 + la] == '\'');
    assert forall|k: int| 3 + la <= k < 3 + la + lb implies s1[k] == b[k - 3 - la] by {
        assert(p3[k] == b[k - 3 - la]);
    }
    assert(s1[3 + la + lb] == '\'');

    assert(skip_leading_spaces(s1, 0) == 0);
    // The first quote opens a span; the span holds `a`.
    assert(scan(s1, 0, QuoteMode::Unquoted, Seq::empty(), none) == scan(
        s1,
        1,
        QuoteMode::Single,
        Seq::empty(),
        none,
    ));
    lemma_scan_span_segment(s1, 1, (1 + la) as nat, QuoteMode::Single, Seq::empty(), none);
    assert(Seq::<char>::empty() + s1.subrange(1, 1 + la) =~= a);
    // The second quote closes the span; the third reopens one at once.
    assert(scan(s1, (1 + la) as nat, QuoteMode::Single, a, none) == scan(
        s1,
        (2 + la) as nat,
        QuoteMode::Unquoted,
        a,
        none,
    ));
    assert(scan(s1, (2 + la) as nat, QuoteMode::Unquoted, a, none) == scan(
        s1,
        (3 + la) as nat,
        QuoteMode::Single,
        a,
        none,
    ));
    // The reopened span holds `b`; the accumulator has never been flushed.
    lemma_scan_span_segment(s1, (3 + la) as nat, (3 + la + lb) as nat, QuoteMode::Single, a, none);
    assert(a + s1.subrange(3 + la, 3 + la + lb) =~= a + b);
    // The final quote closes the span at the last character and flushes the
    // one merged token.
    assert(scan(s1, (3 + la + lb) as nat, QuoteMode::Single, a + b, none) == Some(
        none.push(a + b),
    ));
}

/// A run of unquoted spaces, walked from its first space to its last, changes
/// nothing: each space but the last is skipped outright.
proof fn lemma_scan_space_run(s: Seq<char>, i: nat, j: nat, acc: Seq<char>, toks: Seq<Seq<char>>)
    requires
        i <= j < s.len(),
        forall|k: int| i <= k <= j ==> s[k] == ' ',
    ensures
        scan(s, i, QuoteMode::Unquoted, acc, toks) == scan(s, j, QuoteMode::Unquoted, acc, toks),
    decreases j - i,
{
    if i < j {
        assert(scan(s, i, QuoteMode::Unquoted, acc, toks) == scan(
            s,
            i + 1,
            QuoteMode::Unquoted,
            acc,
            toks,
        ));
        lemma_scan_space_run(s, i + 1, j, acc, toks);
    }
}

/// Two words separated by `n` spaces tokenize as exactly those two words.
proof fn lemma_two_words(w1: Seq<char>, n: nat, w2: Seq<char>)
    requires
        n >= 1,
        w1.len() > 0,
        w2.len() > 0,
        all_word_chars(w1),
        all_word_chars(w2),
    ensures
        tokens_of(w1 + spaces(n) + w2) == Some(seq![w1, w2]),
{
    let none = Seq::<Seq<char>>::empty();
    let p1 = w1 + spaces(n);
    let s = p1 + w2;
    let l1 = w1.len() as int;
    let l2 = w2.len() as int;
    let ln = n as int;
    assert(s.len() == l1 + ln + l2);
    assert forall|k: int| 0 <= k < l1 implies s[k] == w1[k] by {
        assert(p1[k] == w1[k]);
    }
    assert forall|k: int| l1 <= k < l1 + ln implies s[k] == ' ' by {
        assert(p1[k] == spaces(n)[k - l1]);
    }
    assert(forall|k: int| l1 + ln <= k < s.len() ==> s[k] == w2[k - l1 - ln]);

    lemma_word_char_not_space(s[0]);
    assert(skip_leading_spaces(s, 0) == 0);
    lemma_scan_word_segment(s, 0, w1.len(), Seq::empty(), none);
    assert(Seq::<char>::empty() + s.subrange(0, l1) =~= w1);
    // Walk the space run up to its last space.
    lemma_scan_space_run(s, w1.len(), (l1 + ln - 1) as nat, w1, none);
    // The last space of the run flushes the first word: the character after
    // it is the first character of the second word, not a space.
    lemma_word_char_not_space(s[l1 + ln]);
    assert(scan(s, (l1 + ln - 1) as nat, QuoteMode::Unquoted, w1, none) == scan(
        s,
        (l1 + ln) as nat,
        QuoteMode::Unquoted,
        Seq::<char>::empty(),
        none.push(w1),
    ));
    lemma_scan_word_to_end(s, (l1 + ln) as nat, Seq::empty(), none.push(w1));
    assert(Seq::<char>::empty() + s.subrange(l1 + ln, s.len() as int) =~= w2);
    assert(none.push(w1).push(w2) =~= seq![w1, w2]);
}

/// Law: collapsing. Between two words, a run of two or more unquoted spaces
/// is equivalent to exactly one space: both tokenize as the two words alone.
pub proof fn lemma_space_collapsing(w1: Seq<char>, n: nat, w2: Seq<char>)
    requires
        n >= 1,
        w1.len() > 0,
        w2.len() > 0,
        all_word_chars(w1),
        all_word_chars(w2),
    ensures
        tokens_of(w1 + spaces(n) + w2) == tokens_of(w1 + spaces(1) + w2),
        tokens_of(w1 + spaces(n) + w2) == Some(seq![w1, w2]),
{
    lemma_two_words(w1, n, w2);
    lemma_two_words(w1, 1, w2);
}

/// Law: escape-whitespace splitting. A backslash-escaped space both ends the
/// word before it and becomes a standalone one-character token.
pub proof fn lemma_escaped_space_splits(x: Seq<char>, y: Seq<char>)
    requires
        x.len() > 0,
        all_word_chars(x),
        all_word_chars(y),
    ensures
        tokens_of(x + seq!['\\', ' '] + y) == Some(seq![x, seq![' '], y]),
{
    let none = Seq::<Seq<char>>::empty();
    let p1 = x + seq!['\\', ' '];
    let s = p1 + y;
    let lx = x.len() as int;
    let ly = y.len() as int;
    assert(s.len() == lx + 2 + ly);
    assert forall|k: int| 0 <= k < lx implies s[k] == x[k] by {
        assert(p1[k] == x[k]);
    }
    assert(p1[lx] == '\\');
    assert(p1[lx + 1] == ' ');
    assert(s[lx] == '\\');
    assert(s[lx + 1] == ' ');
    assert(forall|k: int| lx + 2 <= k < s.len() ==> s[k] == y[k - lx - 2]);

    lemma_word_char_not_space(s[0]);
    assert(skip_leading_spaces(s, 0) == 0);
    lemma_scan_word_segment(s, 0, x.len(), Seq::empty(), none);
    assert(Seq::<char>::empty() + s.subrange(0, lx) =~= x);
    assert(' ' as u32 == 0x20);
    assert(is_whitespace_char(' '));
    let flushed = none.push(x).push(seq![' ']);
    if y.len() == 0 {
        assert(scan(s, x.len(), QuoteMode::Unquoted, x, none) == Some(
            flushed.push(Seq::<char>::empty()),
        ));
        assert(y =~= Seq::<char>::empty());
        assert(flushed.push(Seq::<char>::empty()) =~= seq![x, seq![' '], y]);
    } else {
        assert(scan(s, x.len(), QuoteMode::Unquoted, x, none) == scan(
            s,
            (lx + 2) as nat,
            QuoteMode::Unquoted,
            Seq::<char>::empty(),
            flushed,
        ));
        lemma_scan_word_to_end(s, (lx + 2) as nat, Seq::empty(), flushed);
        assert(Seq::<char>::empty() + s.subrange(lx + 2, s.len() as int) =~= y);
        assert(flushed.push(y) =~= seq![x, seq![' '], y]);
    }
}

/// Law: escape-literal. A backslash before any non-whitespace character is
/// dropped, and that character is inserted literally into the surrounding
/// word — a quote or a second backslash included, with no special meaning for
/// letters such as `n` or `t`.
pub proof fn lemma_escaped_literal(x: Seq<char>, c: char, y: Seq<char>)
    requires
        !is_whitespace_char(c),
        all_word_chars(x),
        all_word_chars(y),
    ensures
        tokens_of(x + seq!['\\', c] + y) == Some(seq![x + seq![c] + y]),
{
    let none = Seq::<Seq<char>>::empty();
    let p1 = x + seq!['\\', c];
    let s = p1 + y;
    let lx = x.len() as int;
    let ly = y.len() as int;
    assert(s.len() == lx + 2 + ly);
    assert forall|k: int| 0 <= k < lx implies s[k] == x[k] by {
        assert(p1[k] == x[k]);
    }
    assert(p1[lx] == '\\');
    assert(p1[lx + 1] == c);
    assert(s[lx] == '\\');
    assert(s[lx + 1] == c);
    assert(forall|k: int| lx + 2 <= k < s.len() ==> s[k] == y[k - lx - 2]);

    if x.len() > 0 {
        lemma_word_char_not_space(s[0]);
    }
    assert(skip_leading_spaces(s, 0) == 0);
    lemma_scan_word_segment(s, 0, x.len(), Seq::empty(), none);
    assert(Seq::<char>::empty() + s.subrange(0, lx) =~= x);
    if y.len() == 0 {
        assert(scan(s, x.len(), QuoteMode::Unquoted, x, none) == Some(none.push(x.push(c))));
        assert(x.push(c) =~= x + seq![c] + y);
        assert(none.push(x.push(c)) =~= seq![x + seq![c] + y]);
    } else {
        assert(scan(s, x.len(), QuoteMode::Unquoted, x, none) == scan(
            s,
            (lx + 2) as nat,
            QuoteMode::Unquoted,
            x.push(c),
            none,
        ));
        lemma_scan_word_to_end(s, (lx + 2) as nat, x.push(c), none);
        assert(x.push(c) + s.subrange(lx + 2, s.len() as int) =~= x + seq![c] + y);
        assert(none.push(x + seq![c] + y) =~= seq![x + seq![c] + y]);
    }
}

} // verus!
