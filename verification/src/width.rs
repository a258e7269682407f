//! Display width of characters, as the terminal lays them out.

use unicode_width::UnicodeWidthChar;
use vstd::prelude::*;

verus! {

/// The column count that `unicode-width` assigns to a character (`None`
/// for control characters).
pub uninterp spec fn unicode_char_width(c: char) -> Option<usize>;

/// The glyphs the renderer and the launcher draw themselves: the rule
/// `─`, the gutter `│`, the bullet `•`, the ellipsis `…` and the image
/// mark `▣`.
pub open spec fn own_glyph(c: char) -> bool {
    c == '\u{2500}' || c == '\u{2502}' || c == '\u{2022}' || c == '\u{2026}' || c == '\u{25A3}'
}

/// Calls `UnicodeWidthChar::width` of the `unicode-width` crate on a `char`.
/// Its result is named by `unicode_char_width`; the crate's source also shows
/// that printable ASCII is one column, that C0/C1 control characters have no
/// width, that no character is wider than three columns (the lookup table
/// stores two-bit widths and the special cases return at most three), and
/// its lookup tables give `─ │ • … ▣` one column each.
#[verifier::external_body]
fn char_width(c: char) -> (r: Option<usize>)
    ensures
        r == unicode_char_width(c),
        ('\u{20}' <= c && c < '\u{7F}') ==> r == Some(1usize),
        own_glyph(c) ==> r == Some(1usize),
        (c < '\u{20}' || ('\u{7F}' <= c && c < '\u{A0}')) ==> r is None,
        r matches Some(w) ==> w <= 3,
{
    c.width()
}

/// Columns occupied by a character: tabs count as one column, printable
/// ASCII and the launcher's own glyphs are one column and no character more
/// than three (as `unicode-width` gives them), characters without a width (control characters) count as
/// one.
pub open spec fn cols_of(c: char) -> nat {
    if c == '\t' {
        1
    } else if ('\u{20}' <= c && c < '\u{7F}') || own_glyph(c) {
        1
    } else {
        match unicode_char_width(c) {
            Some(w) => if w <= 3 {
                w as nat
            } else {
                3
            },
            None => 1,
        }
    }
}

/// Columns occupied by a sequence of characters.
pub open spec fn seq_cols(s: Seq<char>) -> nat
    decreases s.len(),
{
    if s.len() == 0 {
        0
    } else {
        seq_cols(s.drop_last()) + cols_of(s.last())
    }
}

/// Display columns occupied by a character (tabs as one column).
pub fn char_cols(c: char) -> (r: usize)
    ensures
        r == cols_of(c),
        r <= 3,
        ('\u{20}' <= c && c < '\u{7F}') ==> r == 1,
{
    if c == '\t' {
        1
    } else {
        match char_width(c) {
            Some(w) => w,
            None => 1,
        }
    }
}

/// How many leading characters of `s` fit in `max` columns, stopping at the
/// first one that does not fit.
pub open spec fn fit_len(s: Seq<char>, max: int) -> nat
    decreases s.len(),
{
    if s.len() == 0 || cols_of(s[0]) > max {
        0
    } else {
        1 + fit_len(s.drop_first(), max - cols_of(s[0]))
    }
}

/// `text` cut down to at most `max` display columns.
pub open spec fn truncated(text: Seq<char>, max: nat) -> Seq<char> {
    if max == 0 {
        Seq::empty()
    } else {
        text.take(fit_len(text, max as int) as int)
    }
}

pub proof fn lemma_seq_cols_prepend(c: char, s: Seq<char>)
    ensures
        seq_cols(seq![c] + s) == cols_of(c) + seq_cols(s),
    decreases s.len(),
{
    if s.len() > 0 {
        lemma_seq_cols_prepend(c, s.drop_last());
        assert((seq![c] + s).drop_last() =~= seq![c] + s.drop_last());
        assert((seq![c] + s).last() == s.last());
    } else {
        assert(seq![c] + s =~= seq![c]);
        assert(seq![c].drop_last() =~= Seq::<char>::empty());
        assert(seq_cols(Seq::<char>::empty()) == 0);
        assert(seq_cols(s) == 0);
        assert(seq_cols(seq![c]) == seq_cols(seq![c].drop_last()) + cols_of(seq![c].last()));
    }
}

pub proof fn lemma_seq_cols_concat(a: Seq<char>, b: Seq<char>)
    ensures
        seq_cols(a + b) == seq_cols(a) + seq_cols(b),
    decreases b.len(),
{
    if b.len() == 0 {
        assert(a + b =~= a);
    } else {
        lemma_seq_cols_concat(a, b.drop_last());
        assert((a + b).drop_last() =~= a + b.drop_last());
    }
}

/// Relation between `fit_len` and prefix widths.
pub proof fn lemma_fit_len(s: Seq<char>, max: int)
    ensures
        fit_len(s, max) <= s.len(),
        seq_cols(s.take(fit_len(s, max) as int)) <= max || fit_len(s, max) == 0,
    decreases s.len(),
{
    if s.len() > 0 && cols_of(s[0]) <= max {
        let t = s.drop_first();
        let m = max - cols_of(s[0]);
        lemma_fit_len(t, m);
        let k = fit_len(t, m);
        assert(s.take(k as int + 1) =~= seq![s[0]] + t.take(k as int));
        lemma_seq_cols_prepend(s[0], t.take(k as int));
        if k == 0 {
            assert(t.take(0) =~= Seq::<char>::empty());
        }
    }
}

/// A cut-down text takes at most the allowed columns.
pub proof fn lemma_truncated_cols(t: Seq<char>, max: nat)
    ensures
        seq_cols(truncated(t, max)) <= max,
        truncated(t, max).len() <= t.len(),
        truncated(t, max) == t.take(truncated(t, max).len() as int),
{
    if max == 0 {
        assert(seq_cols(Seq::<char>::empty()) == 0);
        assert(t.take(0) =~= Seq::<char>::empty());
    } else {
        lemma_fit_len(t, max as int);
        assert(t.take(0) =~= Seq::<char>::empty());
        assert(seq_cols(Seq::<char>::empty()) == 0);
    }
}

/// A text is kept whole by cutting exactly when it fits.
pub proof fn lemma_fit_all(s: Seq<char>, max: int)
    requires
        max >= 0,
    ensures
        (fit_len(s, max) == s.len()) == (seq_cols(s) <= max),
        fit_len(s, max) <= s.len(),
    decreases s.len(),
{
    if s.len() > 0 {
        let t = s.drop_first();
        lemma_seq_cols_prepend(s[0], t);
        assert(seq![s[0]] + t =~= s);
        if cols_of(s[0]) <= max {
            lemma_fit_all(t, max - cols_of(s[0]));
        }
    } else {
        assert(seq_cols(s) == 0);
    }
}

/// Truncate `text` to `max` display columns.
pub fn truncate_cols(text: &[char], max: usize) -> (r: Vec<char>)
    ensures
        r@ == truncated(text@, max as nat),
{
    truncate_counted(text, max).0
}

/// Truncate `text` to `max` display columns, with the columns kept.
pub fn truncate_counted(text: &[char], max: usize) -> (r: (Vec<char>, usize))
    ensures
        r.0@ == truncated(text@, max as nat),
        r.1 == seq_cols(r.0@),
        r.1 <= max,
{
    if max == 0 {
        return (Vec::new(), 0);
    }
    let mut out: Vec<char> = Vec::new();
    let mut cols: usize = 0;
    let mut i: usize = 0;
    assert(text@.skip(0) =~= text@);
    while i < text.len()
        invariant_except_break
            0 <= i <= text@.len(),
            cols <= max,
            cols == seq_cols(out@),
            out@ == text@.take(i as int),
            fit_len(text@, max as int) == i + fit_len(text@.skip(i as int), max - cols),
        ensures
            cols <= max,
            cols == seq_cols(out@),
            out@ == text@.take(fit_len(text@, max as int) as int),
        decreases text@.len() - i,
    {
        let w = char_cols(text[i]);
        let ghost t = text@.skip(i as int);
        assert(t[0] == text@[i as int]);
        if w > max - cols {
            assert(fit_len(t, max - cols) == 0);
            break;
        }
        assert(t.drop_first() =~= text@.skip(i + 1));
        let ghost before = out@;
        out.push(text[i]);
        assert(out@.drop_last() =~= before);
        cols = cols + w;
        i = i + 1;
        assert(out@ =~= text@.take(i as int));
    }
    proof {
        if i == text@.len() {
            assert(text@.skip(i as int).len() == 0);
        }
    }
    (out, cols)
}

} // verus!
