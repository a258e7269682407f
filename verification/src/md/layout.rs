//! How wide rendered markdown gets: every rendered line fits the width the
//! document was rendered for, and nothing is cut off when the document's
//! blocks have room.

use vstd::prelude::*;

use super::blocks::{
    cells, code_block_spec, list_indent, list_spec, list_spec_lines, list_wrap_w, marker_text,
    prefixed, quote_spec, rep,
    row_spans, sep_line, table_cell_w, table_cols, table_lines, table_spec,
};
use super::inline::parse_inline_spec;
use super::render::{
    block_lines, blocks_from, classify, lemma_next_line, md_source, next_blank, next_line, pre,
    render_md_spec, strip_trailing, BlockKind, clip_line, lemma_clip_line, md_layout_spec,
};
use super::wrap::{
    fits, lemma_line_text_concat, lemma_line_text_single, lemma_wrap_spec_fits, line_text,
    wrap_spec,
};
use super::{plain, Item, LineV, MdStyle, MdTone, SpanV};
use crate::text::{all_digits, decimal, lemma_decimal, trim, trim_end};
use crate::width::{cols_of, lemma_seq_cols_concat, lemma_truncated_cols, seq_cols, truncated};

verus! {

// ---------------------------------------------------------------------------
// What the law assumes and excludes
// ---------------------------------------------------------------------------

/// Wrapped lines `wrap_spec(stream, inner, st)` fit beside a prefix of
/// `first` columns on the first line and `rest` columns on the others.
pub open spec fn wrapped_room(stream: Seq<Item>, inner: nat, st: MdStyle, first: nat, rest: nat, w: nat) -> bool {
    let ws = wrap_spec(stream, inner, st);
    forall|k: int|
        0 <= k < ws.len() ==> (if k == 0 {
            first
        } else {
            rest
        }) + seq_cols(line_text(#[trigger] ws[k])) <= w
}

/// The text width left beside the quote gutter.
pub open spec fn quote_inner(w: nat) -> nat {
    if w >= 3 {
        (w - 2) as nat
    } else {
        1
    }
}

/// A quoted line, wrapped inside the gutter, fits beside it.
pub open spec fn quote_line_room(q: Seq<char>, w: nat) -> bool {
    wrapped_room(parse_inline_spec(q, plain(MdTone::Quote)), quote_inner(w), plain(MdTone::Quote), 2, 2, w)
}

/// List item `idx`, wrapped beside its indent, fits beside its marker and
/// its indent.
pub open spec fn item_room(item: Seq<char>, idx: nat, ordered: bool, w: nat) -> bool {
    wrapped_room(
        parse_inline_spec(item, plain(MdTone::Body)),
        list_wrap_w(list_indent(ordered, idx), w),
        plain(MdTone::Body),
        seq_cols(marker_text(ordered, idx)),
        list_indent(ordered, idx),
        w,
    )
}

/// A table leaves each cell at least three columns, or has a header row
/// only and that row fits.
pub open spec fn table_has_room(rows: Seq<Seq<char>>, w: nat) -> bool {
    let cs = rows.map_values(|r: Seq<char>| cells(r));
    let cols = table_cols(cs);
    if cs.len() == 1 {
        seq_cols(line_text(row_spans(cs[0], cols, table_cell_w(cols, w), true, cols))) <= w
    } else {
        2 * (cols - 1) <= w && (w - 2 * (cols - 1)) / (cols as int) >= 3
    }
}

/// The block starting at line `i` has room in `w` columns: each quoted
/// line fits beside the gutter, each list item beside its marker, and each
/// table cell keeps three columns. Other blocks always have room.
pub open spec fn block_has_room(ls: Seq<Seq<char>>, i: int, w: nat) -> bool {
    let t = trim(ls[i]);
    let j = next_line(ls, i);
    match classify(ls, i) {
        BlockKind::Quote => {
            let body = ls.subrange(i, j).map_values(|l: Seq<char>| super::render::quote_body(l));
            forall|q: int| 0 <= q < body.len() ==> #[trigger] quote_line_room(body[q], w)
        },
        BlockKind::List => {
            let m = list_spec(t)->0;
            let items = ls.subrange(i, j).map_values(|l: Seq<char>| super::render::skipn(trim(l), m.1));
            forall|x: int| 0 <= x < items.len() ==> #[trigger] item_room(items[x], x as nat, m.0, w)
        },
        BlockKind::Table => table_has_room(
            seq![t] + ls.subrange(i + 2, j).map_values(|l: Seq<char>| trim(l)),
            w,
        ),
        _ => true,
    }
}

/// Every block from line `i` on has room in `w` columns.
pub open spec fn layout_ok(ls: Seq<Seq<char>>, i: int, w: nat) -> bool
    decreases ls.len() - i,
{
    if i < 0 || i >= ls.len() {
        true
    } else {
        let j = next_line(ls, i);
        if i < j <= ls.len() {
            block_has_room(ls, i, w) && layout_ok(ls, j, w)
        } else {
            true
        }
    }
}

/// Every line fits `w` columns.
pub open spec fn all_fit(ls: Seq<LineV>, w: nat) -> bool {
    forall|k: int| 0 <= k < ls.len() ==> fits(line_text(#[trigger] ls[k]), w)
}

// ---------------------------------------------------------------------------
// Column counts
// ---------------------------------------------------------------------------

proof fn lemma_all_fit_concat(a: Seq<LineV>, b: Seq<LineV>, w: nat)
    requires
        all_fit(a, w),
        all_fit(b, w),
    ensures
        all_fit(a + b, w),
{
    assert forall|k: int| 0 <= k < (a + b).len() implies fits(line_text(#[trigger] (a + b)[k]), w) by {
        if k < a.len() {
            assert((a + b)[k] == a[k]);
        } else {
            assert((a + b)[k] == b[k - a.len()]);
        }
    }
}

proof fn lemma_seq_cols_one(a: char)
    ensures
        seq_cols(seq![a]) == cols_of(a),
{
    assert(seq![a].drop_last() =~= Seq::<char>::empty());
    assert(seq_cols(Seq::<char>::empty()) == 0);
}

proof fn lemma_seq_cols_two(a: char, b: char)
    ensures
        seq_cols(seq![a, b]) == cols_of(a) + cols_of(b),
{
    lemma_seq_cols_one(a);
    lemma_seq_cols_one(b);
    assert(seq![a, b] =~= seq![a] + seq![b]);
    lemma_seq_cols_concat(seq![a], seq![b]);
}

proof fn lemma_seq_cols_rep(c: char, n: nat)
    ensures
        seq_cols(rep(c, n)) == n * cols_of(c),
    decreases n,
{
    if n == 0 {
        assert(rep(c, 0) =~= Seq::<char>::empty());
    } else {
        lemma_seq_cols_rep(c, (n - 1) as nat);
        assert(rep(c, n).drop_last() =~= rep(c, (n - 1) as nat));
        assert(n * cols_of(c) == (n - 1) * cols_of(c) + cols_of(c)) by (nonlinear_arith);
    }
}

proof fn lemma_single_span_fits(t: Seq<char>, st: MdStyle, w: nat)
    requires
        seq_cols(t) <= w,
    ensures
        fits(line_text(seq![(t, st)]), w),
{
    lemma_line_text_single(t, st);
}

proof fn lemma_prefixed_text(ws: Seq<LineV>, first: SpanV, rest: SpanV, k: int)
    requires
        0 <= k < ws.len(),
    ensures
        prefixed(ws, first, rest).len() == ws.len(),
        line_text(prefixed(ws, first, rest)[k]) == (if k == 0 {
            first.0
        } else {
            rest.0
        }) + line_text(ws[k]),
{
    let p = if k == 0 {
        first
    } else {
        rest
    };
    lemma_line_text_concat(seq![p], ws[k]);
    lemma_line_text_single(p.0, p.1);
}

/// Prefixing wrapped lines with `first` / `rest` keeps them within `w` when
/// each line fits beside its prefix.
proof fn lemma_prefixed_fits(stream: Seq<Item>, inner: nat, st: MdStyle, first: SpanV, rest: SpanV, w: nat)
    requires
        wrapped_room(stream, inner, st, seq_cols(first.0), seq_cols(rest.0), w),
    ensures
        all_fit(prefixed(wrap_spec(stream, inner, st), first, rest), w),
{
    let ws = wrap_spec(stream, inner, st);
    let p = prefixed(ws, first, rest);
    assert forall|k: int| 0 <= k < p.len() implies fits(line_text(#[trigger] p[k]), w) by {
        lemma_prefixed_text(ws, first, rest, k);
        let pre_t = if k == 0 {
            first.0
        } else {
            rest.0
        };
        lemma_seq_cols_concat(pre_t, line_text(ws[k]));
        assert((if k == 0 {
            seq_cols(first.0)
        } else {
            seq_cols(rest.0)
        }) + seq_cols(line_text(ws[k])) <= w);
    }
}

// ---------------------------------------------------------------------------
// Blocks
// ---------------------------------------------------------------------------

proof fn lemma_quote_fits(ls: Seq<Seq<char>>, w: nat)
    requires
        forall|q: int| 0 <= q < ls.len() ==> #[trigger] quote_line_room(ls[q], w),
    ensures
        all_fit(quote_spec(ls, w), w),
    decreases ls.len(),
{
    if ls.len() > 0 {
        let d = ls.drop_last();
        assert forall|q: int| 0 <= q < d.len() implies #[trigger] quote_line_room(d[q], w) by {
            assert(d[q] == ls[q]);
            assert(quote_line_room(ls[q], w));
        }
        lemma_quote_fits(d, w);
        let inner = quote_inner(w);
        let q = plain(MdTone::Quote);
        let stream = parse_inline_spec(ls.last(), q);
        assert(quote_line_room(ls[ls.len() - 1], w));
        lemma_seq_cols_two('\u{2502}', ' ');
        lemma_seq_cols_two(' ', ' ');
        lemma_prefixed_fits(stream, inner, q, (seq!['\u{2502}', ' '], q), (seq![' ', ' '], q), w);
        lemma_all_fit_concat(
            quote_spec(d, w),
            prefixed(wrap_spec(stream, inner, q), (seq!['\u{2502}', ' '], q), (seq![' ', ' '], q)),
            w,
        );
    }
}

proof fn lemma_list_fits(items: Seq<Seq<char>>, n: nat, ordered: bool, w: nat)
    requires
        n <= items.len(),
        forall|x: int| 0 <= x < n ==> #[trigger] item_room(items[x], x as nat, ordered, w),
    ensures
        all_fit(list_spec_lines(items, n, ordered, w), w),
    decreases n,
{
    if n > 0 {
        lemma_list_fits(items, (n - 1) as nat, ordered, w);
        let ind = list_indent(ordered, (n - 1) as nat);
        let inner = list_wrap_w(ind, w);
        let body = plain(MdTone::Body);
        let stream = parse_inline_spec(items[n - 1], body);
        assert(item_room(items[n - 1], (n - 1) as nat, ordered, w));
        lemma_seq_cols_rep(' ', ind);
        let first = (marker_text(ordered, (n - 1) as nat), plain(MdTone::Marker));
        let rest = (rep(' ', ind), plain(MdTone::Dim));
        lemma_prefixed_fits(stream, inner, body, first, rest, w);
        lemma_all_fit_concat(
            list_spec_lines(items, (n - 1) as nat, ordered, w),
            prefixed(wrap_spec(stream, inner, body), first, rest),
            w,
        );
    }
}

proof fn lemma_code_fits(ls: Seq<Seq<char>>, w: nat)
    ensures
        all_fit(code_block_spec(ls, w), w),
{
    let c = code_block_spec(ls, w);
    let st = plain(MdTone::CodeBlock);
    assert forall|k: int| 0 <= k < c.len() implies fits(line_text(#[trigger] c[k]), w) by {
        if ls.len() == 0 {
            assert(seq_cols(Seq::<char>::empty()) == 0);
            lemma_single_span_fits(Seq::<char>::empty(), st, w);
        } else {
            lemma_truncated_cols(trim_end(ls[k]), w);
            lemma_single_span_fits(truncated(trim_end(ls[k]), w), st, w);
        }
    }
}

proof fn lemma_sep_cols(cols: nat, cw: nat)
    requires
        cols >= 1,
    ensures
        seq_cols(sep_line(cols, cw)) == cols * cw + 2 * (cols - 1),
    decreases cols,
{
    lemma_seq_cols_rep('\u{2500}', cw);
    if cols <= 1 {
        assert(sep_line(cols, cw) == rep('\u{2500}', cw));
        assert(cols * cw == cw) by (nonlinear_arith)
            requires
                cols == 1,
        ;
    } else {
        lemma_sep_cols((cols - 1) as nat, cw);
        let a = sep_line((cols - 1) as nat, cw);
        assert(sep_line(cols, cw) == a + seq![' ', ' '] + rep('\u{2500}', cw));
        lemma_seq_cols_two(' ', ' ');
        lemma_seq_cols_concat(a, seq![' ', ' ']);
        lemma_seq_cols_concat(a + seq![' ', ' '], rep('\u{2500}', cw));
        assert(cols * cw == (cols - 1) * cw + cw) by (nonlinear_arith);
    }
}

proof fn lemma_row_cols(cs: Seq<Seq<char>>, cols: nat, cw: nat, header: bool, n: nat)
    requires
        n <= cols,
    ensures
        n < cols ==> seq_cols(line_text(row_spans(cs, cols, cw, header, n))) <= n * cw + 2 * n,
        0 < n == cols ==> seq_cols(line_text(row_spans(cs, cols, cw, header, n))) <= n * cw + 2 * (
        n - 1),
    decreases n,
{
    if n == 0 {
        assert(line_text(Seq::<SpanV>::empty()) == Seq::<char>::empty());
        assert(seq_cols(Seq::<char>::empty()) == 0);
    } else {
        lemma_row_cols(cs, cols, cw, header, (n - 1) as nat);
        let ci = (n - 1) as int;
        let text = if ci < cs.len() {
            cs[ci]
        } else {
            Seq::empty()
        };
        let st = if header {
            super::heading_style()
        } else {
            plain(MdTone::Body)
        };
        let prev = row_spans(cs, cols, cw, header, (n - 1) as nat);
        let cell = seq![(truncated(text, cw), st)];
        let gap: LineV = if ci + 1 < cols {
            seq![(seq![' ', ' '], plain(MdTone::Dim))]
        } else {
            Seq::<SpanV>::empty()
        };
        assert(row_spans(cs, cols, cw, header, n) == prev + cell + gap);
        lemma_line_text_concat(prev + cell, gap);
        lemma_line_text_concat(prev, cell);
        lemma_line_text_single(truncated(text, cw), st);
        lemma_truncated_cols(text, cw);
        lemma_seq_cols_concat(line_text(prev), truncated(text, cw));
        lemma_seq_cols_concat(line_text(prev) + truncated(text, cw), line_text(gap));
        if ci + 1 < cols {
            lemma_line_text_single(seq![' ', ' '], plain(MdTone::Dim));
            lemma_seq_cols_two(' ', ' ');
        } else {
            assert(line_text(gap) == Seq::<char>::empty());
            assert(seq_cols(Seq::<char>::empty()) == 0);
        }
        assert(n * cw == (n - 1) * cw + cw) by (nonlinear_arith);
    }
}

proof fn lemma_table_lines_fit(rows: Seq<Seq<Seq<char>>>, cols: nat, cw: nat, n: nat, w: nat)
    requires
        cols >= 1,
        n <= rows.len(),
        cols * cw + 2 * (cols - 1) <= w,
    ensures
        all_fit(table_lines(rows, cols, cw, n), w),
    decreases n,
{
    if n > 0 {
        lemma_table_lines_fit(rows, cols, cw, (n - 1) as nat, w);
        let ri = (n - 1) as int;
        let sep: Seq<LineV> = if ri == 1 {
            seq![seq![(sep_line(cols, cw), plain(MdTone::Rule))]]
        } else {
            Seq::<LineV>::empty()
        };
        let row = seq![row_spans(rows[ri], cols, cw, ri == 0, cols)];
        if ri == 1 {
            lemma_sep_cols(cols, cw);
            lemma_single_span_fits(sep_line(cols, cw), plain(MdTone::Rule), w);
        }
        lemma_row_cols(rows[ri], cols, cw, ri == 0, cols);
        assert(fits(line_text(row[0]), w));
        lemma_all_fit_concat(table_lines(rows, cols, cw, (n - 1) as nat), sep, w);
        lemma_all_fit_concat(table_lines(rows, cols, cw, (n - 1) as nat) + sep, row, w);
    }
}

proof fn lemma_table_fits(rows: Seq<Seq<char>>, w: nat)
    requires
        table_has_room(rows, w),
    ensures
        all_fit(table_spec(rows, w), w),
{
    let cs = rows.map_values(|r: Seq<char>| cells(r));
    if cs.len() == 1 {
        let cols = table_cols(cs);
        let cw = table_cell_w(cols, w);
        let row = row_spans(cs[0], cols, cw, true, cols);
        assert(table_lines(cs, cols, cw, 0) =~= Seq::<LineV>::empty());
        assert(table_spec(rows, w) =~= seq![row]);
    } else if cs.len() > 1 {
        let cols = table_cols(cs);
        let used = 2 * (cols - 1);
        let avail = (w - used) as nat;
        let cw = table_cell_w(cols, w);
        assert(cw == avail / cols);
        assert(cols * (avail / cols) <= avail) by (nonlinear_arith)
            requires
                cols >= 1,
        ;
        lemma_table_lines_fit(cs, cols, cw, cs.len() as nat, w);
    }
}

proof fn lemma_pre_fits(pb: bool, w: nat)
    ensures
        all_fit(pre(pb), w),
{
    assert(line_text(Seq::<SpanV>::empty()) == Seq::<char>::empty());
    assert(seq_cols(Seq::<char>::empty()) == 0);
}

proof fn lemma_block_fits(ls: Seq<Seq<char>>, i: int, pb: bool, w: nat)
    requires
        0 <= i < ls.len(),
        block_has_room(ls, i, w),
    ensures
        all_fit(block_lines(ls, i, pb, w), w),
{
    let t = trim(ls[i]);
    let j = next_line(ls, i);
    lemma_next_line(ls, i);
    lemma_pre_fits(pb, w);
    match classify(ls, i) {
        BlockKind::Blank => {},
        BlockKind::Separator => {},
        BlockKind::Rule => {
            lemma_seq_cols_rep('\u{2500}', w);
            lemma_single_span_fits(rep('\u{2500}', w), plain(MdTone::Rule), w);
            lemma_all_fit_concat(pre(pb), seq![seq![(rep('\u{2500}', w), plain(MdTone::Rule))]], w);
        },
        BlockKind::Fence => {
            let body = ls.subrange(i + 1, super::render::fence_close(ls, i + 1, super::blocks::fence_spec(t)->0));
            lemma_code_fits(body, w);
            lemma_all_fit_concat(pre(pb), code_block_spec(body, w), w);
        },
        BlockKind::Heading => {
            let stream = parse_inline_spec(
                crate::text::trim_start(super::render::skipn(t, super::blocks::heading_spec(t)->0)),
                super::heading_style(),
            );
            lemma_wrap_spec_fits(stream, w, super::heading_style());
            lemma_all_fit_concat(pre(pb), wrap_spec(stream, w, super::heading_style()), w);
        },
        BlockKind::Quote => {
            let body = ls.subrange(i, j).map_values(|l: Seq<char>| super::render::quote_body(l));
            lemma_quote_fits(body, w);
            lemma_all_fit_concat(pre(pb), quote_spec(body, w), w);
        },
        BlockKind::List => {
            let m = list_spec(t)->0;
            let items = ls.subrange(i, j).map_values(|l: Seq<char>| super::render::skipn(trim(l), m.1));
            lemma_list_fits(items, (j - i) as nat, m.0, w);
            lemma_all_fit_concat(pre(pb), list_spec_lines(items, (j - i) as nat, m.0, w), w);
        },
        BlockKind::Table => {
            let rows = seq![t] + ls.subrange(i + 2, j).map_values(|l: Seq<char>| trim(l));
            lemma_table_fits(rows, w);
            lemma_all_fit_concat(pre(pb), table_spec(rows, w), w);
        },
        BlockKind::Indented => {
            let body = ls.subrange(i, j).map_values(|l: Seq<char>| super::render::unindent(l));
            lemma_code_fits(body, w);
            lemma_all_fit_concat(pre(pb), code_block_spec(body, w), w);
        },
        BlockKind::Paragraph => {
            let stream = parse_inline_spec(
                super::render::join_spaces(ls.subrange(i, j).map_values(|l: Seq<char>| trim(l))),
                plain(MdTone::Body),
            );
            lemma_wrap_spec_fits(stream, w, plain(MdTone::Body));
            lemma_all_fit_concat(pre(pb), wrap_spec(stream, w, plain(MdTone::Body)), w);
        },
    }
}

proof fn lemma_blocks_fit(ls: Seq<Seq<char>>, i: int, pb: bool, w: nat)
    requires
        layout_ok(ls, i, w),
    ensures
        all_fit(blocks_from(ls, i, pb, w), w),
    decreases ls.len() - i,
{
    if 0 <= i < ls.len() {
        let j = next_line(ls, i);
        if i < j <= ls.len() {
            lemma_block_fits(ls, i, pb, w);
            lemma_blocks_fit(ls, j, next_blank(ls, i, pb), w);
            lemma_all_fit_concat(block_lines(ls, i, pb, w), blocks_from(ls, j, next_blank(ls, i, pb), w), w);
        }
    }
}

proof fn lemma_strip_trailing_prefix(ls: Seq<LineV>)
    ensures
        strip_trailing(ls).len() <= ls.len(),
        forall|k: int| 0 <= k < strip_trailing(ls).len() ==> #[trigger] strip_trailing(ls)[k] == ls[k],
    decreases ls.len(),
{
    if ls.len() > 0 && super::blocks::blank_spec(ls.last()) {
        lemma_strip_trailing_prefix(ls.drop_last());
    }
}

/// Laid-out lines fit the width: every line of a laid-out document takes at
/// most `width` columns (or is a single glyph wider than the width), as
/// long as each block quote, list and table of the document has room (see
/// [`block_has_room`]); paragraphs, headings, rules and code always fit.
pub proof fn lemma_layout_fits(text: Seq<char>, width: nat)
    requires
        layout_ok(md_source(text), 0, width),
    ensures
        forall|k: int|
            0 <= k < md_layout_spec(text, width).len() ==> fits(
                line_text(#[trigger] md_layout_spec(text, width)[k]),
                width,
            ),
{
    let all = blocks_from(md_source(text), 0, false, width);
    lemma_blocks_fit(md_source(text), 0, false, width);
    lemma_strip_trailing_prefix(all);
    assert forall|k: int| 0 <= k < md_layout_spec(text, width).len() implies fits(
        line_text(#[trigger] md_layout_spec(text, width)[k]),
        width,
    ) by {
        assert(md_layout_spec(text, width)[k] == all[k]);
    }
}

/// Rendered lines fit the width: every line of every rendered document
/// takes at most `width` columns.
pub proof fn law_rendered_lines_fit(text: Seq<char>, width: nat)
    ensures
        forall|k: int|
            0 <= k < render_md_spec(text, width).len() ==> seq_cols(
                line_text(#[trigger] render_md_spec(text, width)[k]),
            ) <= width,
{
    assert forall|k: int| 0 <= k < render_md_spec(text, width).len() implies seq_cols(
        line_text(#[trigger] render_md_spec(text, width)[k]),
    ) <= width by {
        lemma_clip_line(md_layout_spec(text, width)[k], width);
    }
}

/// Nothing is cut when the document's blocks have room: when each block
/// quote, list and table has room in `width` columns (at least three, the
/// widest glyph), the rendered lines are the laid-out lines.
pub proof fn law_nothing_cut(text: Seq<char>, width: nat)
    requires
        layout_ok(md_source(text), 0, width),
        width >= 3,
    ensures
        render_md_spec(text, width) == md_layout_spec(text, width),
{
    let l = md_layout_spec(text, width);
    lemma_layout_fits(text, width);
    assert forall|k: int| 0 <= k < l.len() implies #[trigger] clip_line(l[k], width) == l[k] by {
        let t = line_text(l[k]);
        assert(fits(t, width));
        if t.len() > 0 && seq_cols(t.drop_last()) == 0 {
            assert(seq_cols(t) == seq_cols(t.drop_last()) + cols_of(t.last()));
        }
        lemma_clip_line(l[k], width);
    }
    assert(render_md_spec(text, width) =~= l);
}

} // verus!
