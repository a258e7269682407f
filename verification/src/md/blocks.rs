//! Block-level markdown: line classification, HTML stripping and the
//! renderers for code blocks, quotes, lists and tables.

use vstd::prelude::*;

use super::inline::{parse_inline, parse_inline_spec, run_len, lemma_run_len};
use super::wrap::{wrap_inline, wrap_spec};
use super::{
    heading, heading_style, lines_view, plain, span_line, style_of, LineV, MdLine, MdSpan, MdStyle,
    MdTone, SpanV,
};
use crate::text::{
    has_prefix, is_whitespace, lower_seq, push_all, push_decimal, starts_with, string_from_chars,
    sub_chars, to_lower_chars, trim, trim_bounds, trim_chars, trim_end, trim_end_chars, decimal,
};
use crate::width::{truncate_cols, truncated};

verus! {

// ---------------------------------------------------------------------------
// Line classification
// ---------------------------------------------------------------------------

/// A thematic break: three or more of `-`, `*`, `_` (spaces allowed).
pub open spec fn is_hr_spec(t: Seq<char>) -> bool {
    &&& t.len() >= 3
    &&& forall|k: int| 0 <= k < t.len() ==> #[trigger] t[k] == '-' || t[k] == '*' || t[k] == '_' || t[k] == ' '
    &&& exists|k: int| 0 <= k < t.len() && #[trigger] t[k] != ' '
}

/// Whether the trimmed line `t` is a horizontal rule.
pub fn is_hr(t: &[char]) -> (r: bool)
    ensures
        r == is_hr_spec(t@),
{
    if t.len() < 3 {
        return false;
    }
    let mut all_ok = true;
    let mut any = false;
    let mut k: usize = 0;
    while k < t.len()
        invariant
            0 <= k <= t@.len(),
            all_ok == forall|q: int| 0 <= q < k ==> #[trigger] t@[q] == '-' || t@[q] == '*' || t@[q] == '_' || t@[q] == ' ',
            any == exists|q: int| 0 <= q < k && #[trigger] t@[q] != ' ',
        decreases t@.len() - k,
    {
        let c = t[k];
        if !(c == '-' || c == '*' || c == '_' || c == ' ') {
            all_ok = false;
        }
        if c != ' ' {
            any = true;
        }
        k = k + 1;
    }
    all_ok && any
}

/// The opening code fence of `t`, if any.
pub open spec fn fence_spec(t: Seq<char>) -> Option<Seq<char>> {
    if starts_with(t, seq!['`', '`', '`']) {
        Some(seq!['`', '`', '`'])
    } else if starts_with(t, seq!['~', '~', '~']) {
        Some(seq!['~', '~', '~'])
    } else {
        None
    }
}

/// The code fence that the trimmed line `t` opens, if it opens one.
pub fn fence_of(t: &[char]) -> (r: Option<Vec<char>>)
    ensures
        r matches Some(f) ==> fence_spec(t@) == Some(f@),
        r is None ==> fence_spec(t@) is None,
{
    let ticks = vec!['`', '`', '`'];
    if has_prefix(t, ticks.as_slice()) {
        assert(ticks@ =~= seq!['`', '`', '`']);
        return Some(ticks);
    }
    let tildes = vec!['~', '~', '~'];
    assert(ticks@ =~= seq!['`', '`', '`']);
    assert(tildes@ =~= seq!['~', '~', '~']);
    if has_prefix(t, tildes.as_slice()) {
        return Some(tildes);
    }
    None
}

/// Number of leading `#`, at most six.
pub open spec fn hashes(t: Seq<char>) -> nat {
    if run_len(t, 0, '#') > 6 {
        6
    } else {
        run_len(t, 0, '#')
    }
}

/// The level of an ATX heading (`#` to `######` followed by a space).
pub open spec fn heading_spec(t: Seq<char>) -> Option<nat> {
    let n = hashes(t);
    if n > 0 && n < t.len() && t[n as int] == ' ' {
        Some(n)
    } else {
        None
    }
}

/// The heading level of the trimmed line `t`, if it is a heading.
pub fn heading_level(t: &[char]) -> (r: Option<usize>)
    ensures
        r == (match heading_spec(t@) {
            Some(n) => Some(n as usize),
            None => None::<usize>,
        }),
{
    let mut n: usize = 0;
    proof {
        lemma_run_len(t@, 0, '#');
    }
    while n < t.len() && n < 6 && t[n] == '#'
        invariant
            0 <= n <= 6,
            n <= t@.len(),
            forall|k: int| 0 <= k < n ==> t@[k] == '#',
            run_len(t@, 0, '#') == n + run_len(t@, n as int, '#'),
        decreases 6 - n,
    {
        n = n + 1;
    }
    proof {
        lemma_run_len(t@, n as int, '#');
    }
    assert(hashes(t@) == n);
    if n > 0 && n < t.len() && t[n] == ' ' {
        Some(n)
    } else {
        None
    }
}

/// Number of leading ASCII digits of `t[i..]`.
pub open spec fn digit_run(t: Seq<char>, i: int) -> nat
    decreases t.len() - i,
{
    if 0 <= i < t.len() && '0' <= t[i] && t[i] <= '9' {
        1 + digit_run(t, i + 1)
    } else {
        0
    }
}

pub proof fn lemma_digit_run(t: Seq<char>, i: int)
    requires
        0 <= i <= t.len(),
    ensures
        i + digit_run(t, i) <= t.len(),
    decreases t.len() - i,
{
    if i < t.len() && '0' <= t[i] && t[i] <= '9' {
        lemma_digit_run(t, i + 1);
    }
}

/// A list item marker: `-`, `*` or `+` then a space (unordered, two
/// columns), or digits, `.` and a space (ordered, digits plus two).
pub open spec fn list_spec(t: Seq<char>) -> Option<(bool, nat)> {
    if t.len() == 0 {
        None
    } else if (t[0] == '-' || t[0] == '*' || t[0] == '+') && t.len() > 1 && t[1] == ' ' {
        Some((false, 2))
    } else if '0' <= t[0] && t[0] <= '9' {
        let n = digit_run(t, 0);
        if n > 0 && n + 1 < t.len() && t[n as int] == '.' && t[n as int + 1] == ' ' {
            Some((true, n + 2))
        } else {
            None
        }
    } else {
        None
    }
}

/// If the trimmed line `t` is a list item, whether it is ordered and the
/// width of its marker.
pub fn list_marker(t: &[char]) -> (r: Option<(bool, usize)>)
    ensures
        r == (match list_spec(t@) {
            Some((o, n)) => Some((o, n as usize)),
            None => None::<(bool, usize)>,
        }),
        r matches Some((_, n)) ==> n <= t@.len(),
        r matches Some((o, n)) ==> list_spec(t@) == Some((o, n as nat)),
        r is None ==> list_spec(t@) is None,
{
    if t.len() == 0 {
        return None;
    }
    let c = t[0];
    if (c == '-' || c == '*' || c == '+') && t.len() > 1 && t[1] == ' ' {
        return Some((false, 2));
    }
    if '0' <= c && c <= '9' {
        let mut n: usize = 0;
        proof {
            lemma_digit_run(t@, 0);
        }
        while n < t.len() && '0' <= t[n] && t[n] <= '9'
            invariant
                n <= t@.len(),
                digit_run(t@, 0) == n + digit_run(t@, n as int),
            decreases t@.len() - n,
        {
            n = n + 1;
        }
        if n > 0 && n < t.len() && t[n] == '.' && n + 1 < t.len() && t[n + 1] == ' ' {
            return Some((true, n + 2));
        }
    }
    None
}

/// A table delimiter row: only `-`, `:`, `|` and spaces, with at least one
/// `-` or `:`.
pub open spec fn table_sep_spec(t: Seq<char>) -> bool {
    &&& forall|k: int| 0 <= k < t.len() ==> #[trigger] t[k] == '-' || t[k] == ':' || t[k] == '|' || t[k] == ' '
    &&& exists|k: int| 0 <= k < t.len() && (#[trigger] t[k] == '-' || t[k] == ':')
}

/// Whether the trimmed line `t` is a table delimiter row.
pub fn is_table_separator(t: &[char]) -> (r: bool)
    ensures
        r == table_sep_spec(t@),
{
    let mut any_dash = false;
    let mut k: usize = 0;
    while k < t.len()
        invariant
            0 <= k <= t@.len(),
            forall|q: int| 0 <= q < k ==> #[trigger] t@[q] == '-' || t@[q] == ':' || t@[q] == '|' || t@[q] == ' ',
            any_dash == exists|q: int| 0 <= q < k && (#[trigger] t@[q] == '-' || t@[q] == ':'),
        decreases t@.len() - k,
    {
        let c = t[k];
        if c == '-' || c == ':' {
            any_dash = true;
        } else if c == '|' || c == ' ' {
        } else {
            assert(!(t@[k as int] == '-' || t@[k as int] == ':' || t@[k as int] == '|' || t@[k as int] == ' '));
            return false;
        }
        k = k + 1;
    }
    any_dash
}

// ---------------------------------------------------------------------------
// HTML stripping
// ---------------------------------------------------------------------------

/// First `>` at or after `j`.
pub open spec fn gt_from(s: Seq<char>, j: int) -> Option<int>
    decreases s.len() - j,
{
    if j < 0 || j >= s.len() {
        None
    } else if s[j] == '>' {
        Some(j)
    } else {
        gt_from(s, j + 1)
    }
}

pub proof fn lemma_gt_from(s: Seq<char>, j: int)
    requires
        0 <= j,
    ensures
        gt_from(s, j) matches Some(k) ==> j <= k < s.len() && s[k] == '>',
        gt_from(s, j) is None ==> forall|k: int| j <= k < s.len() ==> s[k] != '>',
    decreases s.len() - j,
{
    if j < s.len() && s[j] != '>' {
        lemma_gt_from(s, j + 1);
    }
}

/// A tag that reads as a line break: `<br…>`, `</p…>` or `</h…>`, compared
/// without regard to ASCII case.
pub open spec fn breaking_tag(tag: Seq<char>) -> bool {
    let l = lower_seq(tag);
    ||| starts_with(l, seq!['b', 'r'])
    ||| starts_with(l, seq!['/', 'p'])
    ||| starts_with(l, seq!['/', 'h'])
}

/// Text of `s[i..]` with HTML tags removed; breaking tags become a blank
/// line, and an unclosed `<` ends the text.
pub open spec fn strip_from(s: Seq<char>, i: int) -> Seq<char>
    decreases s.len() - i,
{
    if i < 0 || i >= s.len() {
        Seq::empty()
    } else if s[i] == '<' {
        proof {
            lemma_gt_from(s, i + 1);
        }
        match gt_from(s, i + 1) {
            None => Seq::empty(),
            Some(j) => (if breaking_tag(s.subrange(i + 1, j)) {
                seq!['\n', '\n']
            } else {
                Seq::empty()
            }) + strip_from(s, j + 1),
        }
    } else {
        seq![s[i]] + strip_from(s, i + 1)
    }
}

/// `text` with raw HTML stripped.
pub open spec fn strip_html_spec(text: Seq<char>) -> Seq<char> {
    strip_from(text, 0)
}

/// Strip raw HTML, converting `<br>` into newlines so inline HTML in
/// Modrinth descriptions degrades to readable text.
pub fn strip_html(text: &[char]) -> (r: Vec<char>)
    ensures
        r@ == strip_html_spec(text@),
{
    let mut out: Vec<char> = Vec::new();
    let mut i: usize = 0;
    let ghost s = text@;
    while i < text.len()
        invariant_except_break
            s == text@,
            0 <= i <= s.len(),
            out@ + strip_from(s, i as int) == strip_from(s, 0),
        ensures
            out@ == strip_from(s, 0),
        decreases s.len() - i,
    {
        let ghost before = out@;
        if text[i] == '<' {
            let mut j: usize = i + 1;
            proof {
                lemma_gt_from(s, j as int);
            }
            while j < text.len() && text[j] != '>'
                invariant
                    i + 1 <= j <= s.len(),
                    s == text@,
                    gt_from(s, i + 1) == gt_from(s, j as int),
                decreases s.len() - j,
            {
                j = j + 1;
            }
            if j >= text.len() {
                assert(gt_from(s, i + 1) is None);
                assert(before + Seq::<char>::empty() =~= before);
                break;
            }
            assert(gt_from(s, i + 1) == Some(j as int));
            let tag = sub_chars(text, i + 1, j);
            let lower = to_lower_chars(tag.as_slice());
            let br = vec!['b', 'r'];
            let p = vec!['/', 'p'];
            let h = vec!['/', 'h'];
            assert(br@ =~= seq!['b', 'r']);
            assert(p@ =~= seq!['/', 'p']);
            assert(h@ =~= seq!['/', 'h']);
            if has_prefix(lower.as_slice(), br.as_slice()) || has_prefix(lower.as_slice(), p.as_slice())
                || has_prefix(lower.as_slice(), h.as_slice()) {
                out.push('\n');
                out.push('\n');
                assert(out@ =~= before + seq!['\n', '\n']);
            } else {
                assert(out@ =~= before + Seq::<char>::empty());
            }
            let ghost mid = out@;
            assert(before + strip_from(s, i as int) =~= mid + strip_from(s, (j + 1) as int));
            i = j + 1;
        } else {
            out.push(text[i]);
            assert(before + strip_from(s, i as int) =~= out@ + strip_from(s, i + 1));
            i = i + 1;
        }
    }
    out
}

/// No `<` survives HTML stripping.
pub proof fn law_strip_html_no_lt(text: Seq<char>)
    ensures
        !strip_html_spec(text).contains('<'),
{
    lemma_strip_from_no_lt(text, 0);
}

proof fn lemma_concat_lacks(a: Seq<char>, b: Seq<char>, c: char)
    requires
        !a.contains(c),
        !b.contains(c),
    ensures
        !(a + b).contains(c),
{
    if (a + b).contains(c) {
        let k = choose|k: int| 0 <= k < (a + b).len() && (a + b)[k] == c;
        if k < a.len() {
            assert(a[k] == c);
        } else {
            assert(b[k - a.len()] == c);
        }
    }
}

proof fn lemma_strip_from_no_lt(s: Seq<char>, i: int)
    requires
        0 <= i,
    ensures
        !strip_from(s, i).contains('<'),
    decreases s.len() - i,
{
    if i < s.len() {
        if s[i] == '<' {
            lemma_gt_from(s, i + 1);
            if let Some(j) = gt_from(s, i + 1) {
                lemma_strip_from_no_lt(s, j + 1);
                let head = if breaking_tag(s.subrange(i + 1, j)) {
                    seq!['\n', '\n']
                } else {
                    Seq::<char>::empty()
                };
                assert(!head.contains('<')) by {
                    if head.len() > 0 {
                        assert(head[0] != '<' && head[1] != '<');
                    }
                }
                lemma_concat_lacks(head, strip_from(s, j + 1), '<');
            }
        } else {
            lemma_strip_from_no_lt(s, i + 1);
            assert(!seq![s[i]].contains('<')) by {
                assert(seq![s[i]][0] != '<');
            }
            lemma_concat_lacks(seq![s[i]], strip_from(s, i + 1), '<');
        }
    }
}

// ---------------------------------------------------------------------------
// Blank lines
// ---------------------------------------------------------------------------

/// A rendered line with no visible text.
pub open spec fn blank_spec(l: LineV) -> bool {
    l.len() == 0 || forall|k: int| 0 <= k < l.len() ==> trim(#[trigger] l[k].0).len() == 0
}

/// Whether a rendered line shows nothing but white space.
pub fn line_blank(line: &MdLine) -> (r: bool)
    ensures
        r == blank_spec(line@),
{
    if line.spans.len() == 0 {
        return true;
    }
    let mut k: usize = 0;
    while k < line.spans.len()
        invariant
            0 <= k <= line.spans@.len(),
            line@.len() == line.spans@.len(),
            forall|q: int| 0 <= q < k ==> trim(#[trigger] line@[q].0).len() == 0,
        decreases line.spans@.len() - k,
    {
        let cs = crate::text::str_chars(line.spans[k].text.as_str());
        let (a, b) = trim_bounds(cs.as_slice());
        assert(line@[k as int].0 == cs@);
        if a < b {
            return false;
        }
        k = k + 1;
    }
    true
}

// ---------------------------------------------------------------------------
// Block renderers
// ---------------------------------------------------------------------------

/// Code lines, each trimmed at the end and cut to the width, in the code
/// style; an empty block still shows one empty line.
pub open spec fn code_block_spec(ls: Seq<Seq<char>>, width: nat) -> Seq<LineV> {
    if ls.len() == 0 {
        seq![seq![(Seq::<char>::empty(), plain(MdTone::CodeBlock))]]
    } else {
        ls.map_values(|l: Seq<char>| seq![(truncated(trim_end(l), width), plain(MdTone::CodeBlock))])
    }
}

/// The views of a vector of character vectors.
pub open spec fn cv(v: Seq<Vec<char>>) -> Seq<Seq<char>> {
    v.map_values(|x: Vec<char>| x@)
}

/// Render code lines as a block.
pub fn code_block(lines: &Vec<Vec<char>>, width: usize) -> (r: Vec<MdLine>)
    ensures
        lines_view(r@) == code_block_spec(cv(lines@), width as nat),
{
    let style = style_of(MdTone::CodeBlock);
    let mut out: Vec<MdLine> = Vec::new();
    let mut k: usize = 0;
    let ghost f = |l: Seq<char>| seq![(truncated(trim_end(l), width as nat), plain(MdTone::CodeBlock))];
    while k < lines.len()
        invariant
            0 <= k <= lines@.len(),
            style == plain(MdTone::CodeBlock),
            lines_view(out@) == cv(lines@).take(k as int).map_values(f),
            f == |l: Seq<char>| seq![(truncated(trim_end(l), width as nat), plain(MdTone::CodeBlock))],
        decreases lines@.len() - k,
    {
        let text = trim_end_chars(lines[k].as_slice());
        let shown = truncate_cols(text.as_slice(), width);
        let ghost prev = lines_view(out@);
        out.push(span_line(string_from_chars(shown.as_slice()), style));
        k = k + 1;
        assert(lines_view(out@) =~= prev.push(f(lines@[k - 1]@)));
        assert(cv(lines@).take(k as int).map_values(f) =~= cv(lines@).take(k - 1).map_values(f).push(
            f(lines@[k - 1]@),
        ));
    }
    if out.len() == 0 {
        out.push(span_line(String::new(), style));
        assert(lines_view(out@) =~= seq![seq![(Seq::<char>::empty(), plain(MdTone::CodeBlock))]]);
        return out;
    }
    assert(cv(lines@).take(lines@.len() as int) =~= cv(lines@));
    out
}

/// Wrapped lines with a leading span: `first` on the first line, `rest` on
/// the others.
pub open spec fn prefixed(ws: Seq<LineV>, first: SpanV, rest: SpanV) -> Seq<LineV> {
    ws.map(|i: int, l: LineV| seq![if i == 0 {
        first
    } else {
        rest
    }] + l)
}

/// Prefix every line of `wrapped` with a span: `first` for the first line,
/// `rest` for the others.
fn prefix_lines(out: &mut Vec<MdLine>, wrapped: Vec<MdLine>, first: &MdSpan, rest_text: &[char], rest_style: MdStyle)
    ensures
        lines_view(final(out)@) == lines_view(old(out)@) + prefixed(
            lines_view(wrapped@),
            first@,
            (rest_text@, rest_style),
        ),
{
    let mut wrapped = wrapped;
    let ghost src = lines_view(wrapped@);
    let ghost goal = prefixed(src, first@, (rest_text@, rest_style));
    let ghost base = lines_view(out@);
    let ghost mut k: int = 0;
    let mut is_first = true;
    while wrapped.len() > 0
        invariant
            0 <= k <= src.len(),
            is_first == (k == 0),
            lines_view(wrapped@) == src.skip(k),
            goal == prefixed(src, first@, (rest_text@, rest_style)),
            goal.len() == src.len(),
            lines_view(out@) == base + goal.take(k),
        decreases wrapped@.len(),
    {
        assert(src.skip(k).len() == wrapped@.len());
        let ghost w0 = wrapped@;
        let l = wrapped.remove(0);
        assert(wrapped@ =~= w0.drop_first());
        assert(lines_view(wrapped@) =~= lines_view(w0).drop_first());
        assert(src.skip(k)[0] == l@);
        let prefix = if is_first {
            MdSpan { text: string_from_chars(crate::text::str_chars(first.text.as_str()).as_slice()), style: first.style }
        } else {
            MdSpan { text: string_from_chars(rest_text), style: rest_style }
        };
        let mut spans: Vec<MdSpan> = Vec::new();
        spans.push(prefix);
        let mut tail = l.spans;
        spans.append(&mut tail);
        let line = MdLine { spans };
        assert(line@ =~= seq![prefix@] + l@);
        let ghost prev = lines_view(out@);
        out.push(line);
        assert(goal[k] == seq![if k == 0 {
            first@
        } else {
            (rest_text@, rest_style)
        }] + src[k]);
        assert(goal[k] == seq![prefix@] + src[k]);
        proof {
            k = k + 1;
        }
        is_first = false;
        assert(lines_view(out@) =~= prev.push(goal[k - 1]));
        assert(goal.take(k) =~= goal.take(k - 1).push(goal[k - 1]));
        assert(lines_view(wrapped@) =~= src.skip(k));
    }
    assert(src.skip(k).len() == 0);
    assert(goal.take(k) =~= goal);
}

/// Lines of a block quote: each quoted line wrapped inside the gutter.
pub open spec fn quote_spec(ls: Seq<Seq<char>>, width: nat) -> Seq<LineV>
    decreases ls.len(),
{
    if ls.len() == 0 {
        Seq::empty()
    } else {
        let inner = if width >= 3 { (width - 2) as nat } else { 1nat };
        let q = plain(MdTone::Quote);
        quote_spec(ls.drop_last(), width) + prefixed(
            wrap_spec(parse_inline_spec(ls.last(), q), inner, q),
            (seq!['\u{2502}', ' '], q),
            (seq![' ', ' '], q),
        )
    }
}

/// Render a block quote.
pub fn render_blockquote(lines: &Vec<Vec<char>>, width: usize) -> (r: Vec<MdLine>)
    ensures
        lines_view(r@) == quote_spec(cv(lines@), width as nat),
{
    let style = style_of(MdTone::Quote);
    let inner_w: usize = if width >= 3 {
        width - 2
    } else {
        1
    };
    let mut out: Vec<MdLine> = Vec::new();
    let mut k: usize = 0;
    while k < lines.len()
        invariant
            0 <= k <= lines@.len(),
            style == plain(MdTone::Quote),
            inner_w as nat == (if width >= 3 { (width - 2) as nat } else { 1nat }),
            lines_view(out@) == quote_spec(cv(lines@).take(k as int), width as nat),
        decreases lines@.len() - k,
    {
        let frags = parse_inline(lines[k].as_slice(), style);
        let wrapped = wrap_inline(frags, inner_w, style);
        let gutter = vec!['\u{2502}', ' '];
        let first = MdSpan { text: string_from_chars(gutter.as_slice()), style };
        let pad = vec![' ', ' '];
        assert(gutter@ =~= seq!['\u{2502}', ' ']);
        assert(pad@ =~= seq![' ', ' ']);
        prefix_lines(&mut out, wrapped, &first, pad.as_slice(), style);
        k = k + 1;
        assert(cv(lines@).take(k as int).drop_last() =~= cv(lines@).take(k - 1));
    }
    assert(cv(lines@).take(lines@.len() as int) =~= cv(lines@));
    out
}

/// The marker text of list item `idx` (0-based).
pub open spec fn marker_text(ordered: bool, idx: nat) -> Seq<char> {
    if ordered {
        decimal(idx + 1) + seq!['.', ' ']
    } else {
        seq!['\u{2022}', ' ']
    }
}

/// The indent of list item `idx`: its marker's width, and at least three
/// columns, so that continuation lines line up under the item's text.
pub open spec fn list_indent(ordered: bool, idx: nat) -> nat {
    let m = marker_text(ordered, idx).len();
    if m > 3 {
        m
    } else {
        3
    }
}

/// The width an item's text wraps to beside an indent of `ind` columns.
pub open spec fn list_wrap_w(ind: nat, width: nat) -> nat {
    if width > ind {
        (width - ind) as nat
    } else {
        1
    }
}

/// Lines of a list whose items are `items[..n]`.
pub open spec fn list_spec_lines(items: Seq<Seq<char>>, n: nat, ordered: bool, width: nat) -> Seq<LineV>
    decreases n,
{
    if n == 0 {
        Seq::empty()
    } else {
        let ind = list_indent(ordered, (n - 1) as nat);
        let body = plain(MdTone::Body);
        list_spec_lines(items, (n - 1) as nat, ordered, width) + prefixed(
            wrap_spec(parse_inline_spec(items[n - 1], body), list_wrap_w(ind, width), body),
            (marker_text(ordered, (n - 1) as nat), plain(MdTone::Marker)),
            (rep(' ', ind), plain(MdTone::Dim)),
        )
    }
}

/// Render list items.
pub fn render_list(items: &Vec<Vec<char>>, ordered: bool, width: usize) -> (r: Vec<MdLine>)
    ensures
        lines_view(r@) == list_spec_lines(cv(items@), items@.len() as nat, ordered, width as nat),
{
    let body = style_of(MdTone::Body);
    let marker_style = style_of(MdTone::Marker);
    let dim = style_of(MdTone::Dim);
    let mut out: Vec<MdLine> = Vec::new();
    let mut k: usize = 0;
    while k < items.len()
        invariant
            0 <= k <= items@.len(),
            body == plain(MdTone::Body),
            marker_style == plain(MdTone::Marker),
            dim == plain(MdTone::Dim),
            lines_view(out@) == list_spec_lines(cv(items@), k as nat, ordered, width as nat),
        decreases items@.len() - k,
    {
        let mut mtext: Vec<char> = Vec::new();
        if ordered {
            push_decimal(&mut mtext, (k as u64) + 1);
            mtext.push('.');
            mtext.push(' ');
            assert(mtext@ =~= decimal((k + 1) as nat) + seq!['.', ' ']);
        } else {
            mtext.push('\u{2022}');
            mtext.push(' ');
            assert(mtext@ =~= seq!['\u{2022}', ' ']);
        }
        let ind: usize = if mtext.len() > 3 {
            mtext.len()
        } else {
            3
        };
        let inner_w: usize = if width > ind {
            width - ind
        } else {
            1
        };
        let frags = parse_inline(items[k].as_slice(), body);
        let wrapped = wrap_inline(frags, inner_w, body);
        let first = MdSpan { text: string_from_chars(mtext.as_slice()), style: marker_style };
        let pad = repeat_char(' ', ind);
        assert(cv(items@)[k as int] == items@[k as int]@);
        prefix_lines(&mut out, wrapped, &first, pad.as_slice(), dim);
        k = k + 1;
    }
    out
}

// ---------------------------------------------------------------------------
// Tables
// ---------------------------------------------------------------------------

/// Non-empty trimmed `|`-separated cells of `s[i..]`, given the partial
/// cell `cur`.
pub open spec fn cells_from(s: Seq<char>, i: int, cur: Seq<char>) -> Seq<Seq<char>>
    decreases s.len() - i,
{
    if i < 0 || i >= s.len() {
        if trim(cur).len() > 0 {
            seq![trim(cur)]
        } else {
            Seq::empty()
        }
    } else if s[i] == '|' {
        (if trim(cur).len() > 0 {
            seq![trim(cur)]
        } else {
            Seq::empty()
        }) + cells_from(s, i + 1, Seq::empty())
    } else {
        cells_from(s, i + 1, cur.push(s[i]))
    }
}

/// The cells of a table row.
pub open spec fn cells(row: Seq<char>) -> Seq<Seq<char>> {
    cells_from(row, 0, Seq::empty())
}

fn split_cells(row: &[char]) -> (r: Vec<Vec<char>>)
    ensures
        cv(r@) == cells(row@),
{
    let mut r: Vec<Vec<char>> = Vec::new();
    let mut cur: Vec<char> = Vec::new();
    let mut i: usize = 0;
    assert(cv(r@) + cells_from(row@, 0, cur@) =~= cells(row@));
    while i < row.len()
        invariant
            0 <= i <= row@.len(),
            cv(r@) + cells_from(row@, i as int, cur@) == cells(row@),
        decreases row@.len() - i,
    {
        let ghost before = cv(r@);
        let ghost cur0 = cur@;
        let ghost rest = cells_from(row@, i + 1, Seq::empty());
        if row[i] == '|' {
            let t = trim_chars(cur.as_slice());
            if t.len() > 0 {
                r.push(t);
                assert(cv(r@) =~= before.push(trim(cur0)));
                assert(before + (seq![trim(cur0)] + rest) =~= before.push(trim(cur0)) + rest);
            } else {
                assert(Seq::<Seq<char>>::empty() + rest =~= rest);
            }
            cur = Vec::new();
            assert(cur@ =~= Seq::<char>::empty());
        } else {
            cur.push(row[i]);
        }
        i = i + 1;
    }
    let ghost before = cv(r@);
    let t = trim_chars(cur.as_slice());
    if t.len() > 0 {
        let ghost tv = t@;
        r.push(t);
        assert(cv(r@) =~= before.push(tv));
        assert(before + seq![tv] =~= before.push(tv));
    } else {
        assert(before + Seq::<Seq<char>>::empty() =~= before);
    }
    r
}

/// The largest cell count among `rows[..n]`.
pub open spec fn max_cells(rows: Seq<Seq<Seq<char>>>, n: int) -> nat
    decreases n,
{
    if n <= 0 {
        0
    } else {
        let m = max_cells(rows, n - 1);
        if rows[n - 1].len() > m {
            rows[n - 1].len()
        } else {
            m
        }
    }
}

/// `n` copies of `c`.
pub open spec fn rep(c: char, n: nat) -> Seq<char> {
    Seq::new(n, |_i: int| c)
}

/// `cols` rules of `w` columns joined by two spaces.
pub open spec fn sep_line(cols: nat, w: nat) -> Seq<char>
    decreases cols,
{
    if cols <= 1 {
        rep('\u{2500}', w)
    } else {
        sep_line((cols - 1) as nat, w) + seq![' ', ' '] + rep('\u{2500}', w)
    }
}

/// Column count and cell width of a table with these rows.
pub open spec fn table_cols(rows: Seq<Seq<Seq<char>>>) -> nat {
    let m = max_cells(rows, rows.len() as int);
    if m >= 1 {
        m
    } else {
        1
    }
}

pub open spec fn table_cell_w(cols: nat, width: nat) -> nat {
    let used = (cols - 1) * 2;
    let avail = if width >= used {
        (width - used) as nat
    } else {
        0nat
    };
    let w = avail / cols;
    if w >= 3 {
        w
    } else {
        3
    }
}

/// The spans of one table row.
pub open spec fn row_spans(cells: Seq<Seq<char>>, cols: nat, cell_w: nat, header: bool, n: nat) -> LineV
    decreases n,
{
    if n == 0 {
        Seq::empty()
    } else {
        let ci = (n - 1) as int;
        let text = if ci < cells.len() {
            cells[ci]
        } else {
            Seq::empty()
        };
        let st = if header {
            heading_style()
        } else {
            plain(MdTone::Body)
        };
        row_spans(cells, cols, cell_w, header, (n - 1) as nat) + seq![(truncated(text, cell_w), st)]
            + (if ci + 1 < cols {
            seq![(seq![' ', ' '], plain(MdTone::Dim))]
        } else {
            Seq::<SpanV>::empty()
        })
    }
}

/// Lines of the first `n` rows of a table.
pub open spec fn table_lines(rows: Seq<Seq<Seq<char>>>, cols: nat, cell_w: nat, n: nat) -> Seq<LineV>
    decreases n,
{
    if n == 0 {
        Seq::empty()
    } else {
        let ri = (n - 1) as int;
        table_lines(rows, cols, cell_w, (n - 1) as nat) + (if ri == 1 {
            seq![seq![(sep_line(cols, cell_w), plain(MdTone::Rule))]]
        } else {
            Seq::<LineV>::empty()
        }) + seq![row_spans(rows[ri], cols, cell_w, ri == 0, cols)]
    }
}

/// A table: a header row, a rule, then the body rows, each cell cut to an
/// equal share of the width.
pub open spec fn table_spec(rows: Seq<Seq<char>>, width: nat) -> Seq<LineV> {
    let cs = rows.map_values(|r: Seq<char>| cells(r));
    if cs.len() == 0 {
        Seq::empty()
    } else {
        let cols = table_cols(cs);
        table_lines(cs, cols, table_cell_w(cols, width), cs.len() as nat)
    }
}

/// A line of `n` copies of `c` in `style`... built as characters.
fn push_rep(out: &mut Vec<char>, c: char, n: usize)
    ensures
        final(out)@ == old(out)@ + rep(c, n as nat),
{
    let mut k: usize = 0;
    while k < n
        invariant
            0 <= k <= n,
            out@ == old(out)@ + rep(c, k as nat),
        decreases n - k,
    {
        out.push(c);
        k = k + 1;
        assert(out@ =~= old(out)@ + rep(c, k as nat));
    }
}

/// `n` copies of `c`.
pub fn repeat_char(c: char, n: usize) -> (r: Vec<char>)
    ensures
        r@ == rep(c, n as nat),
{
    let mut r: Vec<char> = Vec::new();
    push_rep(&mut r, c, n);
    assert(r@ =~= rep(c, n as nat));
    r
}

/// Render a table from its raw rows.
pub fn render_table(rows: &Vec<Vec<char>>, width: usize) -> (r: Vec<MdLine>)
    ensures
        lines_view(r@) == table_spec(cv(rows@), width as nat),
{
    let ghost cs_goal = cv(rows@).map_values(|r: Seq<char>| cells(r));
    let mut table: Vec<Vec<Vec<char>>> = Vec::new();
    let mut max_cols: usize = 0;
    let mut k: usize = 0;
    while k < rows.len()
        invariant
            0 <= k <= rows@.len(),
            table@.len() == k,
            forall|q: int| 0 <= q < k ==> cv(#[trigger] table@[q]@) == cs_goal[q],
            cs_goal == cv(rows@).map_values(|r: Seq<char>| cells(r)),
            max_cols == max_cells(cs_goal, k as int),
        decreases rows@.len() - k,
    {
        let parts = split_cells(rows[k].as_slice());
        assert(cs_goal[k as int] == cells(rows@[k as int]@));
        if parts.len() > max_cols {
            max_cols = parts.len();
        }
        table.push(parts);
        k = k + 1;
    }
    if table.len() == 0 {
        let out: Vec<MdLine> = Vec::new();
        assert(lines_view(out@) =~= Seq::<LineV>::empty());
        return out;
    }
    let ghost cs = cs_goal;
    let cols: usize = if max_cols >= 1 {
        max_cols
    } else {
        1
    };
    let used: u128 = ((cols - 1) as u128) * 2;
    let avail: u128 = if (width as u128) >= used {
        (width as u128) - used
    } else {
        0
    };
    let w: u128 = avail / (cols as u128);
    let cell_w: usize = if w >= 3 {
        w as usize
    } else {
        3
    };
    assert(cell_w as nat == table_cell_w(cols as nat, width as nat));
    let sep = {
        let mut s: Vec<char> = Vec::new();
        let mut q: usize = 0;
        while q < cols
            invariant
                0 <= q <= cols,
                cols >= 1,
                q >= 1 ==> s@ == sep_line(q as nat, cell_w as nat),
                q == 0 ==> s@.len() == 0,
            decreases cols - q,
        {
            if q > 0 {
                s.push(' ');
                s.push(' ');
            }
            let ghost before = s@;
            push_rep(&mut s, '\u{2500}', cell_w);
            q = q + 1;
            if q > 1 {
                assert(s@ =~= sep_line((q - 1) as nat, cell_w as nat) + seq![' ', ' '] + rep('\u{2500}', cell_w as nat));
            } else {
                assert(s@ =~= rep('\u{2500}', cell_w as nat));
            }
        }
        s
    };
    let rule = style_of(MdTone::Rule);
    let body = style_of(MdTone::Body);
    let head = heading();
    let dim = style_of(MdTone::Dim);
    let mut out: Vec<MdLine> = Vec::new();
    let mut ri: usize = 0;
    while ri < table.len()
        invariant
            0 <= ri <= table@.len(),
            table@.len() == cs.len(),
            forall|q: int| 0 <= q < table@.len() ==> cv(#[trigger] table@[q]@) == cs[q],
            sep@ == sep_line(cols as nat, cell_w as nat),
            cols as nat == table_cols(cs),
            cols >= 1,
            rule == plain(MdTone::Rule),
            body == plain(MdTone::Body),
            head == heading_style(),
            dim == plain(MdTone::Dim),
            lines_view(out@) == table_lines(cs, cols as nat, cell_w as nat, ri as nat),
        decreases table@.len() - ri,
    {
        let ghost before = lines_view(out@);
        if ri == 1 {
            out.push(span_line(string_from_chars(sep.as_slice()), rule));
        }
        let ghost mid = lines_view(out@);
        let mut spans: Vec<MdSpan> = Vec::new();
        let mut ci: usize = 0;
        let row = &table[ri];
        assert(cv(row@) == cs[ri as int]);
        while ci < cols
            invariant
                0 <= ci <= cols,
                cv(row@) == cs[ri as int],
                body == plain(MdTone::Body),
                head == heading_style(),
                dim == plain(MdTone::Dim),
                spans@.map_values(|s: MdSpan| s@) == row_spans(cs[ri as int], cols as nat, cell_w as nat, ri == 0, ci as nat),
            decreases cols - ci,
        {
            let ghost sv = spans@.map_values(|s: MdSpan| s@);
            let text: Vec<char> = if ci < row.len() {
                sub_chars(row[ci].as_slice(), 0, row[ci].len())
            } else {
                Vec::new()
            };
            assert(ci < row@.len() ==> row@[ci as int]@.subrange(0, row@[ci as int]@.len() as int) =~= row@[ci as int]@);
            assert(ci < row@.len() ==> cv(row@)[ci as int] == row@[ci as int]@);
            let shown = truncate_cols(text.as_slice(), cell_w);
            let st = if ri == 0 {
                head
            } else {
                body
            };
            spans.push(MdSpan { text: string_from_chars(shown.as_slice()), style: st });
            if ci + 1 < cols {
                let gap = vec![' ', ' '];
                assert(gap@ =~= seq![' ', ' ']);
                spans.push(MdSpan { text: string_from_chars(gap.as_slice()), style: dim });
            }
            ci = ci + 1;
            assert(spans@.map_values(|s: MdSpan| s@) =~= row_spans(cs[ri as int], cols as nat, cell_w as nat, ri == 0, ci as nat));
        }
        let line = MdLine { spans };
        out.push(line);
        ri = ri + 1;
        assert(lines_view(out@) =~= table_lines(cs, cols as nat, cell_w as nat, ri as nat));
    }
    out
}

} // verus!
