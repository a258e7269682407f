//! Word wrapping of styled text to a column budget.

use vstd::prelude::*;

use super::inline::{flatten, frag_items, Frag};
use super::{empty_line, lines_view, span_line, Item, LineV, MdLine, MdSpan, MdStyle, SpanV};
use crate::text::string_from_chars;
use crate::width::{char_cols, cols_of, seq_cols};

verus! {

// ---------------------------------------------------------------------------
// Widths of styled text
// ---------------------------------------------------------------------------

/// Columns occupied by styled characters.
pub open spec fn item_cols(s: Seq<Item>) -> nat
    decreases s.len(),
{
    if s.len() == 0 {
        0
    } else {
        item_cols(s.drop_last()) + cols_of(s.last().0)
    }
}

/// The characters of styled text.
pub open spec fn item_text(s: Seq<Item>) -> Seq<char> {
    s.map_values(|it: Item| it.0)
}

pub proof fn lemma_item_cols_push(s: Seq<Item>, it: Item)
    ensures
        item_cols(s.push(it)) == item_cols(s) + cols_of(it.0),
{
    assert(s.push(it).drop_last() =~= s);
}

pub proof fn lemma_item_cols_concat(a: Seq<Item>, b: Seq<Item>)
    ensures
        item_cols(a + b) == item_cols(a) + item_cols(b),
    decreases b.len(),
{
    if b.len() == 0 {
        assert(a + b =~= a);
    } else {
        lemma_item_cols_concat(a, b.drop_last());
        assert((a + b).drop_last() =~= a + b.drop_last());
    }
}

pub proof fn lemma_item_cols_text(s: Seq<Item>)
    ensures
        item_cols(s) == seq_cols(item_text(s)),
    decreases s.len(),
{
    if s.len() > 0 {
        lemma_item_cols_text(s.drop_last());
        assert(item_text(s).drop_last() =~= item_text(s.drop_last()));
    }
}

/// Columns of styled text, with the bound that each character is at most
/// three columns wide.
fn items_cols(s: &Vec<Item>) -> (r: u128)
    ensures
        r == item_cols(s@),
        r <= 3 * s@.len(),
{
    let mut r: u128 = 0;
    let mut k: usize = 0;
    while k < s.len()
        invariant
            0 <= k <= s@.len(),
            r == item_cols(s@.take(k as int)),
            r <= 3 * k,
        decreases s@.len() - k,
    {
        let w = char_cols(s[k].0);
        proof {
            lemma_item_cols_push(s@.take(k as int), s@[k as int]);
            assert(s@.take(k + 1) =~= s@.take(k as int).push(s@[k as int]));
        }
        r = r + w as u128;
        k = k + 1;
    }
    assert(s@.take(s@.len() as int) =~= s@);
    r
}

// ---------------------------------------------------------------------------
// Words
// ---------------------------------------------------------------------------

/// The space-separated words of `s[i..]`, given the partial word `cur`.
pub open spec fn words_from(s: Seq<Item>, i: int, cur: Seq<Item>) -> Seq<Seq<Item>>
    decreases s.len() - i,
{
    if i < 0 || i >= s.len() {
        if cur.len() > 0 {
            seq![cur]
        } else {
            Seq::empty()
        }
    } else if s[i].0 == ' ' {
        (if cur.len() > 0 {
            seq![cur]
        } else {
            Seq::empty()
        }) + words_from(s, i + 1, Seq::empty())
    } else {
        words_from(s, i + 1, cur.push(s[i]))
    }
}

/// The words of styled text, split at spaces.
pub open spec fn words(s: Seq<Item>) -> Seq<Seq<Item>> {
    words_from(s, 0, Seq::empty())
}

/// The views of a sequence of item vectors.
pub open spec fn vv(v: Seq<Vec<Item>>) -> Seq<Seq<Item>> {
    v.map_values(|x: Vec<Item>| x@)
}

fn split_items(s: &Vec<Item>) -> (r: Vec<Vec<Item>>)
    ensures
        vv(r@) == words(s@),
{
    let mut r: Vec<Vec<Item>> = Vec::new();
    let mut cur: Vec<Item> = Vec::new();
    let mut i: usize = 0;
    assert(vv(r@) + words_from(s@, 0, cur@) =~= words(s@));
    while i < s.len()
        invariant
            0 <= i <= s@.len(),
            vv(r@) + words_from(s@, i as int, cur@) == words(s@),
        decreases s@.len() - i,
    {
        let ghost before = vv(r@);
        let ghost cur0 = cur@;
        let ghost rest = words_from(s@, i + 1, Seq::empty());
        if s[i].0 == ' ' {
            if cur.len() > 0 {
                r.push(cur);
                assert(vv(r@) =~= before.push(cur0));
                assert(before + (seq![cur0] + rest) =~= before.push(cur0) + rest);
            } else {
                assert(Seq::<Seq<Item>>::empty() + rest =~= rest);
            }
            cur = Vec::new();
            assert(cur@ =~= Seq::<Item>::empty());
        } else {
            cur.push(s[i]);
        }
        i = i + 1;
    }
    let ghost before = vv(r@);
    if cur.len() > 0 {
        let ghost c = cur@;
        r.push(cur);
        assert(vv(r@) =~= before.push(c));
        assert(before + seq![c] =~= before.push(c));
    } else {
        assert(before + Seq::<Seq<Item>>::empty() =~= before);
    }
    r
}

// ---------------------------------------------------------------------------
// Greedy line filling
// ---------------------------------------------------------------------------

/// Finished lines and the line being filled.
pub type WrapState = (Seq<Seq<Item>>, Seq<Item>);

/// Close the current line if it holds anything.
pub open spec fn flush(st: WrapState) -> WrapState {
    if st.1.len() > 0 {
        (st.0.push(st.1), Seq::empty())
    } else {
        st
    }
}

/// Place the characters of an over-long word one by one, breaking the line
/// whenever the next character would overflow it.
pub open spec fn chunk_from(word: Seq<Item>, k: int, st: WrapState, width: nat) -> WrapState
    decreases word.len() - k,
{
    if k < 0 || k >= word.len() {
        st
    } else if item_cols(st.1) > 0 && item_cols(st.1) + cols_of(word[k].0) > width {
        chunk_from(word, k + 1, (st.0.push(st.1), seq![word[k]]), width)
    } else {
        chunk_from(word, k + 1, (st.0, st.1.push(word[k])), width)
    }
}

/// Place one word: split it when it is wider than the line, append it after
/// a space when it fits, or start a new line with it.
pub open spec fn place_word(word: Seq<Item>, st: WrapState, width: nat) -> WrapState {
    if item_cols(word) > width {
        flush(chunk_from(word, 0, flush(st), width))
    } else if st.1.len() > 0 && item_cols(st.1) + 1 + item_cols(word) <= width {
        (st.0, st.1.push((' ', st.1.last().1)) + word)
    } else {
        let f = flush(st);
        (f.0, f.1 + word)
    }
}

/// Place the words `ws[k..]`.
pub open spec fn place_words(ws: Seq<Seq<Item>>, k: int, st: WrapState, width: nat) -> WrapState
    decreases ws.len() - k,
{
    if k < 0 || k >= ws.len() {
        st
    } else {
        place_words(ws, k + 1, place_word(ws[k], st, width), width)
    }
}

/// The wrapped lines of non-empty styled text, as styled characters.
pub open spec fn wrapped_items(stream: Seq<Item>, width: nat) -> Seq<Seq<Item>> {
    let st = flush(place_words(words(stream), 0, (Seq::empty(), Seq::empty()), width));
    if st.0.len() == 0 {
        seq![Seq::empty()]
    } else {
        st.0
    }
}

// ---------------------------------------------------------------------------
// Style runs
// ---------------------------------------------------------------------------

/// Spans of `s[k..]` given the current style and the pending run of text.
pub open spec fn runs_from(s: Seq<Item>, k: int, style: MdStyle, run: Seq<char>) -> LineV
    decreases s.len() - k,
{
    if k < 0 || k >= s.len() {
        if run.len() > 0 {
            seq![(run, style)]
        } else {
            Seq::empty()
        }
    } else if s[k].1 != style {
        (if run.len() > 0 {
            seq![(run, style)]
        } else {
            Seq::empty()
        }) + runs_from(s, k + 1, s[k].1, seq![s[k].0])
    } else {
        runs_from(s, k + 1, style, run.push(s[k].0))
    }
}

/// Styled characters grouped into spans of equal style; the first run is
/// compared against `style`.
pub open spec fn runs(s: Seq<Item>, style: MdStyle) -> LineV {
    runs_from(s, 0, style, Seq::empty())
}

/// The text of a line: its spans' text, concatenated.
pub open spec fn line_text(l: LineV) -> Seq<char>
    decreases l.len(),
{
    if l.len() == 0 {
        Seq::empty()
    } else {
        line_text(l.drop_last()) + l.last().0
    }
}

/// What word wrapping produces for styled text: one empty line for a zero
/// width, one empty span for empty text, else the greedily filled lines.
pub open spec fn wrap_spec(stream: Seq<Item>, width: nat, line_style: MdStyle) -> Seq<LineV> {
    if width == 0 {
        seq![Seq::<SpanV>::empty()]
    } else if stream.len() == 0 {
        seq![seq![(Seq::<char>::empty(), line_style)]]
    } else {
        wrapped_items(stream, width).map_values(|l: Seq<Item>| runs(l, line_style))
    }
}

/// A line of text fits `width` columns, or everything before its last
/// character takes no room (a single glyph wider than the line).
pub open spec fn fits(t: Seq<char>, width: nat) -> bool {
    seq_cols(t) <= width || (t.len() > 0 && seq_cols(t.drop_last()) == 0)
}

/// Styled-character version of [`fits`].
pub open spec fn item_fits(s: Seq<Item>, width: nat) -> bool {
    item_cols(s) <= width || (s.len() > 0 && item_cols(s.drop_last()) == 0)
}

pub open spec fn state_fits(st: WrapState, width: nat) -> bool {
    &&& forall|i: int| 0 <= i < st.0.len() ==> item_fits(#[trigger] st.0[i], width)
    &&& item_fits(st.1, width)
}

proof fn lemma_flush_fits(st: WrapState, width: nat)
    requires
        state_fits(st, width),
    ensures
        state_fits(flush(st), width),
        flush(st).1.len() == 0,
{
    let f = flush(st);
    if st.1.len() > 0 {
        assert forall|i: int| 0 <= i < f.0.len() implies item_fits(#[trigger] f.0[i], width) by {
            if i < st.0.len() {
                assert(f.0[i] == st.0[i]);
            }
        }
    }
    assert(item_cols(Seq::<Item>::empty()) == 0);
}

proof fn lemma_chunk_fits(word: Seq<Item>, k: int, st: WrapState, width: nat)
    requires
        0 <= k,
        state_fits(st, width),
    ensures
        state_fits(chunk_from(word, k, st, width), width),
    decreases word.len() - k,
{
    if k < word.len() {
        let c = word[k];
        if item_cols(st.1) > 0 && item_cols(st.1) + cols_of(c.0) > width {
            let nst = (st.0.push(st.1), seq![c]);
            assert forall|i: int| 0 <= i < nst.0.len() implies item_fits(#[trigger] nst.0[i], width)
                by {
                if i < st.0.len() {
                    assert(nst.0[i] == st.0[i]);
                }
            }
            assert(seq![c].drop_last() =~= Seq::<Item>::empty());
            assert(item_cols(Seq::<Item>::empty()) == 0);
            lemma_chunk_fits(word, k + 1, nst, width);
        } else {
            let nst = (st.0, st.1.push(c));
            lemma_item_cols_push(st.1, c);
            assert(st.1.push(c).drop_last() =~= st.1);
            lemma_chunk_fits(word, k + 1, nst, width);
        }
    }
}

proof fn lemma_place_word_fits(word: Seq<Item>, st: WrapState, width: nat)
    requires
        state_fits(st, width),
        cols_of(' ') == 1,
    ensures
        state_fits(place_word(word, st, width), width),
{
    if item_cols(word) > width {
        lemma_flush_fits(st, width);
        lemma_chunk_fits(word, 0, flush(st), width);
        lemma_flush_fits(chunk_from(word, 0, flush(st), width), width);
    } else if st.1.len() > 0 && item_cols(st.1) + 1 + item_cols(word) <= width {
        let sp = (' ', st.1.last().1);
        lemma_item_cols_push(st.1, sp);
        lemma_item_cols_concat(st.1.push(sp), word);
    } else {
        lemma_flush_fits(st, width);
        let f = flush(st);
        assert(f.1 + word =~= word);
    }
}

proof fn lemma_place_words_fits(ws: Seq<Seq<Item>>, k: int, st: WrapState, width: nat)
    requires
        0 <= k,
        state_fits(st, width),
        cols_of(' ') == 1,
    ensures
        state_fits(place_words(ws, k, st, width), width),
    decreases ws.len() - k,
{
    if k < ws.len() {
        lemma_place_word_fits(ws[k], st, width);
        lemma_place_words_fits(ws, k + 1, place_word(ws[k], st, width), width);
    }
}

/// Every line of wrapped styled text fits the width.
proof fn lemma_wrapped_fits(stream: Seq<Item>, width: nat)
    requires
        cols_of(' ') == 1,
    ensures
        forall|i: int|
            0 <= i < wrapped_items(stream, width).len() ==> item_fits(
                #[trigger] wrapped_items(stream, width)[i],
                width,
            ),
{
    let st0: WrapState = (Seq::empty(), Seq::empty());
    assert(item_cols(Seq::<Item>::empty()) == 0);
    lemma_place_words_fits(words(stream), 0, st0, width);
    lemma_flush_fits(place_words(words(stream), 0, st0, width), width);
}

/// Every line of wrapped text fits the width: its columns stay within the
/// width, unless the line is one glyph wider than the width.
pub proof fn lemma_wrap_spec_fits(stream: Seq<Item>, width: nat, line_style: MdStyle)
    ensures
        forall|k: int|
            0 <= k < wrap_spec(stream, width, line_style).len() ==> fits(
                line_text(#[trigger] wrap_spec(stream, width, line_style)[k]),
                width,
            ),
{
    let ws = wrap_spec(stream, width, line_style);
    if width == 0 {
        assert(line_text(Seq::<SpanV>::empty()) == Seq::<char>::empty());
        assert(seq_cols(Seq::<char>::empty()) == 0);
    } else if stream.len() == 0 {
        lemma_line_text_single(Seq::<char>::empty(), line_style);
        assert(seq_cols(Seq::<char>::empty()) == 0);
    } else {
        let items = wrapped_items(stream, width);
        lemma_wrapped_fits(stream, width);
        assert forall|k: int| 0 <= k < ws.len() implies fits(line_text(#[trigger] ws[k]), width) by {
            let li = items[k];
            assert(ws[k] == runs(li, line_style));
            lemma_runs_text(li, 0, line_style, Seq::empty());
            assert(li.skip(0) =~= li);
            assert(Seq::<char>::empty() + item_text(li) =~= item_text(li));
            lemma_item_cols_text(li);
            if li.len() > 0 {
                lemma_item_cols_text(li.drop_last());
                assert(item_text(li).drop_last() =~= item_text(li.drop_last()));
            }
            assert(item_fits(items[k], width));
        }
    }
}

// ---------------------------------------------------------------------------
// Spans from styled characters
// ---------------------------------------------------------------------------

/// The views of a sequence of spans.
pub open spec fn spans_view(v: Seq<MdSpan>) -> LineV {
    v.map_values(|s: MdSpan| s@)
}

pub proof fn lemma_line_text_concat(a: LineV, b: LineV)
    ensures
        line_text(a + b) == line_text(a) + line_text(b),
    decreases b.len(),
{
    if b.len() == 0 {
        assert(a + b =~= a);
        assert(line_text(a) + line_text(b) =~= line_text(a));
    } else {
        lemma_line_text_concat(a, b.drop_last());
        assert((a + b).drop_last() =~= a + b.drop_last());
        assert(line_text(a + b) =~= line_text(a) + line_text(b));
    }
}

pub proof fn lemma_line_text_single(t: Seq<char>, st: MdStyle)
    ensures
        line_text(seq![(t, st)]) == t,
{
    assert(seq![(t, st)].drop_last() =~= Seq::<SpanV>::empty());
    assert(line_text(Seq::<SpanV>::empty()) == Seq::<char>::empty());
    assert(Seq::<char>::empty() + t =~= t);
}

/// The text of the spans is the text of the characters.
proof fn lemma_runs_text(s: Seq<Item>, k: int, style: MdStyle, run: Seq<char>)
    requires
        0 <= k <= s.len(),
    ensures
        line_text(runs_from(s, k, style, run)) == run + item_text(s.skip(k)),
    decreases s.len() - k,
{
    if k == s.len() {
        assert(item_text(s.skip(k)) =~= Seq::<char>::empty());
        if run.len() > 0 {
            lemma_line_text_single(run, style);
        }
        assert(run + item_text(s.skip(k)) =~= run);
    } else {
        assert(item_text(s.skip(k)) =~= seq![s[k].0] + item_text(s.skip(k + 1)));
        if s[k].1 != style {
            lemma_runs_text(s, k + 1, s[k].1, seq![s[k].0]);
            let head: LineV = if run.len() > 0 {
                seq![(run, style)]
            } else {
                Seq::empty()
            };
            lemma_line_text_concat(head, runs_from(s, k + 1, s[k].1, seq![s[k].0]));
            if run.len() > 0 {
                lemma_line_text_single(run, style);
            } else {
                assert(line_text(head) =~= run);
            }
            assert(run + item_text(s.skip(k)) =~= run + (seq![s[k].0] + item_text(s.skip(k + 1))));
        } else {
            lemma_runs_text(s, k + 1, style, run.push(s[k].0));
            assert(run.push(s[k].0) + item_text(s.skip(k + 1)) =~= run + item_text(s.skip(k)));
        }
    }
}

/// A line whose spans are the style runs of `chars`.
fn line_from_items(chars: &Vec<Item>, line_style: MdStyle) -> (r: MdLine)
    ensures
        r@ == runs(chars@, line_style),
{
    let mut spans: Vec<MdSpan> = Vec::new();
    let mut style = line_style;
    let mut run: Vec<char> = Vec::new();
    let mut k: usize = 0;
    while k < chars.len()
        invariant
            0 <= k <= chars@.len(),
            spans_view(spans@) + runs_from(chars@, k as int, style, run@) == runs(
                chars@,
                line_style,
            ),
        decreases chars@.len() - k,
    {
        let (c, st) = chars[k];
        let ghost before = spans_view(spans@);
        let ghost run0 = run@;
        let ghost style0 = style;
        if st != style {
            let ghost rest = runs_from(chars@, k + 1, st, seq![c]);
            if run.len() > 0 {
                let text = string_from_chars(run.as_slice());
                spans.push(MdSpan { text, style });
                assert(spans_view(spans@) =~= before.push((run0, style0)));
                assert(before + (seq![(run0, style0)] + rest) =~= before.push((run0, style0)) + rest);
            } else {
                assert(Seq::<SpanV>::empty() + rest =~= rest);
            }
            run = Vec::new();
            style = st;
            run.push(c);
            assert(run@ =~= seq![c]);
        } else {
            run.push(c);
        }
        k = k + 1;
    }
    let ghost before = spans_view(spans@);
    if run.len() > 0 {
        let ghost run0 = run@;
        let text = string_from_chars(run.as_slice());
        spans.push(MdSpan { text, style });
        assert(spans_view(spans@) =~= before.push((run0, style)));
        assert(before + seq![(run0, style)] =~= before.push((run0, style)));
    } else {
        assert(before + Seq::<SpanV>::empty() =~= before);
    }
    MdLine { spans }
}

// ---------------------------------------------------------------------------
// Wrapping
// ---------------------------------------------------------------------------

/// Move the current line onto the finished lines.
fn flush_line(lines: &mut Vec<Vec<Item>>, line: &mut Vec<Item>, cols: &mut u128)
    ensures
        (vv(final(lines)@), final(line)@) == flush((vv(old(lines)@), old(line)@)),
        final(line)@.len() == 0,
        *old(cols) == item_cols(old(line)@) ==> *final(cols) == item_cols(final(line)@),
        *final(cols) <= 3 * final(line)@.len(),
{
    if line.len() > 0 {
        let mut l: Vec<Item> = Vec::new();
        std::mem::swap(&mut l, line);
        lines.push(l);
        assert(vv(lines@) =~= vv(old(lines)@).push(old(line)@));
        *cols = 0;
    } else {
        *cols = 0;
        assert(item_cols(line@) == 0);
    }
    assert(line@ =~= Seq::<Item>::empty());
}

/// Wrap inline fragments to `width` columns using word wrapping. Returns
/// styled lines, each at most `width` display columns unless it holds a
/// single glyph wider than the line.
pub fn wrap_inline(frags: Vec<Frag>, width: usize, line_style: MdStyle) -> (r: Vec<MdLine>)
    ensures
        lines_view(r@) == wrap_spec(flatten(frags@), width as nat, line_style),
        forall|k: int| 0 <= k < r@.len() ==> fits(line_text(#[trigger] r@[k]@), width as nat),
{
    if width == 0 {
        let mut out: Vec<MdLine> = Vec::new();
        out.push(empty_line());
        assert(lines_view(out@) =~= seq![Seq::<SpanV>::empty()]);
        assert(line_text(Seq::<SpanV>::empty()) == Seq::<char>::empty());
        assert(seq_cols(Seq::<char>::empty()) == 0);
        return out;
    }
    let stream = frag_items(&frags);
    if stream.len() == 0 {
        let mut out: Vec<MdLine> = Vec::new();
        out.push(span_line(String::new(), line_style));
        assert(lines_view(out@) =~= seq![seq![(Seq::<char>::empty(), line_style)]]);
        proof {
            lemma_line_text_single(Seq::<char>::empty(), line_style);
        }
        assert(seq_cols(Seq::<char>::empty()) == 0);
        return out;
    }
    let space_cols = char_cols(' ');
    let ws = split_items(&stream);
    let ghost words_v = vv(ws@);
    let ghost goal = place_words(words_v, 0, (Seq::empty(), Seq::empty()), width as nat);
    let mut lines: Vec<Vec<Item>> = Vec::new();
    let mut line: Vec<Item> = Vec::new();
    let mut cols: u128 = 0;
    let mut k: usize = 0;
    assert(vv(lines@) =~= Seq::<Seq<Item>>::empty());
    assert(line@ =~= Seq::<Item>::empty());
    while k < ws.len()
        invariant
            0 <= k <= ws@.len(),
            words_v == vv(ws@),
            space_cols == 1,
            cols_of(' ') == 1,
            width > 0,
            place_words(words_v, k as int, (vv(lines@), line@), width as nat) == goal,
            cols == item_cols(line@),
            cols <= 3 * line@.len(),
        decreases ws@.len() - k,
    {
        let ghost st0: WrapState = (vv(lines@), line@);
        let w = items_cols(&ws[k]);
        let ghost word = ws@[k as int]@;
        assert(words_v[k as int] == word);
        if w > width as u128 {
            flush_line(&mut lines, &mut line, &mut cols);
            let ghost st1: WrapState = (vv(lines@), line@);
            assert(st1 == flush(st0));
            let ghost cgoal = chunk_from(word, 0, st1, width as nat);
            let mut m: usize = 0;
            while m < ws[k].len()
                invariant
                    0 <= k < ws@.len(),
                    word == ws@[k as int]@,
                    0 <= m <= word.len(),
                    chunk_from(word, m as int, (vv(lines@), line@), width as nat) == cgoal,
                    cols == item_cols(line@),
                    cols <= 3 * line@.len(),
                decreases word.len() - m,
            {
                let item = ws[k][m];
                let cw = char_cols(item.0) as u128;
                let ll = line.len();
                if cols > 0 && cols + cw > width as u128 {
                    let ghost lines0 = vv(lines@);
                    let ghost lv = line@;
                    lines.push(line);
                    line = Vec::new();
                    assert(vv(lines@) =~= lines0.push(lv));
                    cols = 0;
                    assert(item_cols(line@) == 0);
                }
                proof {
                    lemma_item_cols_push(line@, item);
                }
                line.push(item);
                cols = cols + cw;
                m = m + 1;
            }
            flush_line(&mut lines, &mut line, &mut cols);
            assert((vv(lines@), line@) == place_word(word, st0, width as nat));
        } else {
            if line.len() > 0 {
                if cols + 1 + w <= width as u128 {
                    let st = line[line.len() - 1].1;
                    proof {
                        lemma_item_cols_push(line@, (' ', st));
                    }
                    line.push((' ', st));
                    cols = cols + 1;
                } else {
                    flush_line(&mut lines, &mut line, &mut cols);
                }
            }
            let ghost before = line@;
            let mut m: usize = 0;
            while m < ws[k].len()
                invariant
                    0 <= k < ws@.len(),
                    word == ws@[k as int]@,
                    0 <= m <= word.len(),
                    line@ == before + word.take(m as int),
                    cols == item_cols(line@),
                    cols <= 3 * line@.len(),
                decreases word.len() - m,
            {
                let item = ws[k][m];
                let cw = char_cols(item.0) as u128;
                let ll = line.len();
                proof {
                    lemma_item_cols_push(line@, item);
                }
                line.push(item);
                cols = cols + cw;
                m = m + 1;
                assert(line@ =~= before + word.take(m as int));
            }
            assert(word.take(word.len() as int) =~= word);
            assert((vv(lines@), line@) == place_word(word, st0, width as nat));
        }
        k = k + 1;
    }
    flush_line(&mut lines, &mut line, &mut cols);
    if lines.len() == 0 {
        lines.push(Vec::new());
        assert(vv(lines@) =~= seq![Seq::<Item>::empty()]);
    }
    let ghost items = vv(lines@);
    assert(items == wrapped_items(stream@, width as nat));
    proof {
        lemma_wrapped_fits(stream@, width as nat);
    }
    let mut out: Vec<MdLine> = Vec::new();
    let mut j: usize = 0;
    while j < lines.len()
        invariant
            0 <= j <= lines@.len(),
            items == vv(lines@),
            lines_view(out@) == items.take(j as int).map_values(|l: Seq<Item>| runs(l, line_style)),
            forall|q: int| 0 <= q < j ==> fits(line_text(#[trigger] out@[q]@), width as nat),
            forall|q: int| 0 <= q < items.len() ==> item_fits(#[trigger] items[q], width as nat),
        decreases lines@.len() - j,
    {
        let l = line_from_items(&lines[j], line_style);
        let ghost prev = lines_view(out@);
        proof {
            let li = items[j as int];
            assert(li == lines@[j as int]@);
            lemma_runs_text(li, 0, line_style, Seq::empty());
            assert(li.skip(0) =~= li);
            assert(Seq::<char>::empty() + item_text(li) =~= item_text(li));
            lemma_item_cols_text(li);
            if li.len() > 0 {
                lemma_item_cols_text(li.drop_last());
                assert(item_text(li).drop_last() =~= item_text(li.drop_last()));
            }
        }
        out.push(l);
        j = j + 1;
        assert(lines_view(out@) =~= prev.push(runs(items[j - 1], line_style)));
        assert(items.take(j as int).map_values(|l: Seq<Item>| runs(l, line_style)) =~= items.take(
            j - 1,
        ).map_values(|l: Seq<Item>| runs(l, line_style)).push(runs(items[j - 1], line_style)));
        assert(lines_view(out@) =~= items.take(j as int).map_values(
            |l: Seq<Item>| runs(l, line_style),
        ));
    }
    assert(items.take(items.len() as int) =~= items);
    out
}

} // verus!
