//! The block walk over a markdown document.

use vstd::prelude::*;

use super::blocks::{
    blank_spec, code_block, code_block_spec, cv, fence_of, fence_spec, heading_level, heading_spec,
    is_hr, is_hr_spec, is_table_separator, line_blank, list_marker, list_spec, list_spec_lines,
    quote_spec, render_blockquote, render_list, render_table, rep, repeat_char, strip_html,
    strip_html_spec, table_sep_spec, table_spec,
};
use super::inline::{parse_inline, parse_inline_spec};
use super::wrap::{line_text, wrap_inline, wrap_spec};
use super::{
    empty_line, extend_lines, heading, heading_style, lines_view, plain, span_line, style_of,
    LineV, MdLine, MdSpan, MdTone, SpanV,
};
use crate::width::{lemma_seq_cols_concat, lemma_truncated_cols, seq_cols, truncate_counted, truncated};
use crate::text::{
    contains_seq, ends_with, has_char, has_prefix, has_suffix, lines, split_lines, starts_with,
    str_chars, string_from_chars, sub_chars, trim, trim_chars, trim_start, trim_start_chars,
};

verus! {

// ---------------------------------------------------------------------------
// Block extents
// ---------------------------------------------------------------------------

/// `s` without its first `n` characters (empty when `n` reaches the end).
pub open spec fn skipn(s: Seq<char>, n: nat) -> Seq<char> {
    if n >= s.len() {
        Seq::empty()
    } else {
        s.skip(n as int)
    }
}

/// Index of the line closing a fenced block opened before `j`, or the end.
pub open spec fn fence_close(ls: Seq<Seq<char>>, j: int, fence: Seq<char>) -> int
    decreases ls.len() - j,
{
    if j < 0 || j >= ls.len() {
        ls.len() as int
    } else {
        let t = trim(ls[j]);
        if t.len() > 0 && fence_spec(t) is Some && ends_with(t, fence) {
            j
        } else {
            fence_close(ls, j + 1, fence)
        }
    }
}

/// End of a run of `>` lines starting at `j`.
pub open spec fn quote_end(ls: Seq<Seq<char>>, j: int) -> int
    decreases ls.len() - j,
{
    if j < 0 || j >= ls.len() {
        ls.len() as int
    } else if starts_with(trim_start(ls[j]), seq!['>']) {
        quote_end(ls, j + 1)
    } else {
        j
    }
}

/// A quoted line with every leading `>` (and the space after it) removed.
pub open spec fn strip_gt(b: Seq<char>) -> Seq<char>
    decreases b.len(),
{
    if starts_with(b, seq!['>']) {
        proof {
            crate::text::lemma_lead_ws(b.drop_first());
        }
        strip_gt(trim_start(b.drop_first()))
    } else {
        b
    }
}

/// The body of a quoted line.
pub open spec fn quote_body(l: Seq<char>) -> Seq<char> {
    strip_gt(trim_start(skipn(trim_start(l), 1)))
}

/// End of a run of list items of the same kind starting at `j`.
pub open spec fn list_end(ls: Seq<Seq<char>>, j: int, ordered: bool) -> int
    decreases ls.len() - j,
{
    if j < 0 || j >= ls.len() {
        ls.len() as int
    } else {
        let t = trim(ls[j]);
        if t.len() > 0 && list_spec(t) is Some && (list_spec(t)->0).0 == ordered {
            list_end(ls, j + 1, ordered)
        } else {
            j
        }
    }
}

/// End of the body rows of a table starting at `j`.
pub open spec fn table_end(ls: Seq<Seq<char>>, j: int) -> int
    decreases ls.len() - j,
{
    if j < 0 || j >= ls.len() {
        ls.len() as int
    } else {
        let t = trim(ls[j]);
        if t.len() > 0 && t.contains('|') {
            table_end(ls, j + 1)
        } else {
            j
        }
    }
}

/// A line indented as code: four spaces or a tab.
pub open spec fn indented(l: Seq<char>) -> bool {
    starts_with(l, seq![' ', ' ', ' ', ' ']) || starts_with(l, seq!['\t'])
}

/// End of an indented code block starting at `j`.
pub open spec fn indent_end(ls: Seq<Seq<char>>, j: int) -> int
    decreases ls.len() - j,
{
    if j < 0 || j >= ls.len() {
        ls.len() as int
    } else if trim(ls[j]).len() == 0 || indented(ls[j]) {
        indent_end(ls, j + 1)
    } else {
        j
    }
}

/// An indented code line without its indent (blank lines become empty).
pub open spec fn unindent(l: Seq<char>) -> Seq<char> {
    if trim(l).len() == 0 {
        Seq::empty()
    } else {
        skipn(l, 4)
    }
}

/// Whether a trimmed line interrupts a paragraph.
pub open spec fn breaks_para(t: Seq<char>) -> bool {
    ||| t.len() == 0
    ||| is_hr_spec(t)
    ||| fence_spec(t) is Some
    ||| heading_spec(t) is Some
    ||| starts_with(t, seq!['>'])
    ||| list_spec(t) is Some
    ||| t.contains('|')
}

/// End of a paragraph starting at `j`.
pub open spec fn para_end(ls: Seq<Seq<char>>, j: int) -> int
    decreases ls.len() - j,
{
    if j < 0 || j >= ls.len() {
        ls.len() as int
    } else if breaks_para(trim(ls[j])) {
        j
    } else {
        para_end(ls, j + 1)
    }
}

/// `parts` joined by single spaces.
pub open spec fn join_spaces(parts: Seq<Seq<char>>) -> Seq<char>
    decreases parts.len(),
{
    if parts.len() == 0 {
        Seq::empty()
    } else if parts.len() == 1 {
        parts[0]
    } else {
        join_spaces(parts.drop_last()) + seq![' '] + parts.last()
    }
}

// ---------------------------------------------------------------------------
// Blocks
// ---------------------------------------------------------------------------

/// The kind of block that starts at a line.
#[derive(Debug, Clone, Copy, PartialEq, Eq, Structural)]
pub enum BlockKind {
    Blank,
    Rule,
    Fence,
    Heading,
    Quote,
    List,
    Separator,
    Table,
    Indented,
    Paragraph,
}

/// The kind of the block starting at line `i` (which exists).
pub open spec fn classify(ls: Seq<Seq<char>>, i: int) -> BlockKind {
    let t = trim(ls[i]);
    if t.len() == 0 {
        BlockKind::Blank
    } else if is_hr_spec(t) {
        BlockKind::Rule
    } else if fence_spec(t) is Some {
        BlockKind::Fence
    } else if heading_spec(t) is Some {
        BlockKind::Heading
    } else if starts_with(t, seq!['>']) {
        BlockKind::Quote
    } else if list_spec(t) is Some {
        BlockKind::List
    } else if table_sep_spec(t) {
        BlockKind::Separator
    } else if t.contains('|') && i + 1 < ls.len() && table_sep_spec(trim(ls[i + 1])) {
        BlockKind::Table
    } else if indented(ls[i]) {
        BlockKind::Indented
    } else {
        BlockKind::Paragraph
    }
}

/// The line after the block starting at line `i`.
pub open spec fn next_line(ls: Seq<Seq<char>>, i: int) -> int {
    let t = trim(ls[i]);
    match classify(ls, i) {
        BlockKind::Fence => {
            let j = fence_close(ls, i + 1, fence_spec(t)->0);
            if j + 1 < ls.len() {
                j + 1
            } else {
                ls.len() as int
            }
        },
        BlockKind::Quote => quote_end(ls, i),
        BlockKind::List => list_end(ls, i, (list_spec(t)->0).0),
        BlockKind::Table => table_end(ls, i + 2),
        BlockKind::Indented => indent_end(ls, i),
        BlockKind::Paragraph => para_end(ls, i + 1),
        _ => i + 1,
    }
}

/// Whether a blank line preceded the next block.
pub open spec fn next_blank(ls: Seq<Seq<char>>, i: int, pb: bool) -> bool {
    match classify(ls, i) {
        BlockKind::Separator => pb,
        BlockKind::Paragraph => false,
        _ => true,
    }
}

/// One empty line when a blank line preceded the block.
pub open spec fn pre(pb: bool) -> Seq<LineV> {
    if pb {
        seq![Seq::<SpanV>::empty()]
    } else {
        Seq::empty()
    }
}

/// The rendered lines of the block starting at line `i`.
pub open spec fn block_lines(ls: Seq<Seq<char>>, i: int, pb: bool, w: nat) -> Seq<LineV> {
    let t = trim(ls[i]);
    let j = next_line(ls, i);
    match classify(ls, i) {
        BlockKind::Blank => Seq::empty(),
        BlockKind::Separator => Seq::empty(),
        BlockKind::Rule => pre(pb) + seq![seq![(rep('\u{2500}', w), plain(MdTone::Rule))]],
        BlockKind::Fence => pre(pb) + code_block_spec(
            ls.subrange(i + 1, fence_close(ls, i + 1, fence_spec(t)->0)),
            w,
        ),
        BlockKind::Heading => pre(pb) + wrap_spec(
            parse_inline_spec(trim_start(skipn(t, heading_spec(t)->0)), heading_style()),
            w,
            heading_style(),
        ),
        BlockKind::Quote => pre(pb) + quote_spec(
            ls.subrange(i, j).map_values(|l: Seq<char>| quote_body(l)),
            w,
        ),
        BlockKind::List => pre(pb) + list_spec_lines(
            ls.subrange(i, j).map_values(|l: Seq<char>| skipn(trim(l), (list_spec(t)->0).1)),
            (j - i) as nat,
            (list_spec(t)->0).0,
            w,
        ),
        BlockKind::Table => pre(pb) + table_spec(
            seq![t] + ls.subrange(i + 2, j).map_values(|l: Seq<char>| trim(l)),
            w,
        ),
        BlockKind::Indented => pre(pb) + code_block_spec(
            ls.subrange(i, j).map_values(|l: Seq<char>| unindent(l)),
            w,
        ),
        BlockKind::Paragraph => pre(pb) + wrap_spec(
            parse_inline_spec(
                join_spaces(ls.subrange(i, j).map_values(|l: Seq<char>| trim(l))),
                plain(MdTone::Body),
            ),
            w,
            plain(MdTone::Body),
        ),
    }
}

/// The rendered lines of the blocks from line `i`.
pub open spec fn blocks_from(ls: Seq<Seq<char>>, i: int, pb: bool, w: nat) -> Seq<LineV>
    decreases ls.len() - i,
{
    if i < 0 || i >= ls.len() {
        Seq::empty()
    } else {
        let j = next_line(ls, i);
        if i < j <= ls.len() {
            block_lines(ls, i, pb, w) + blocks_from(ls, j, next_blank(ls, i, pb), w)
        } else {
            Seq::empty()
        }
    }
}

/// `ls` without trailing blank lines.
pub open spec fn strip_trailing(ls: Seq<LineV>) -> Seq<LineV>
    decreases ls.len(),
{
    if ls.len() > 0 && blank_spec(ls.last()) {
        strip_trailing(ls.drop_last())
    } else {
        ls
    }
}

/// The source lines of a document, after HTML stripping.
pub open spec fn md_source(text: Seq<char>) -> Seq<Seq<char>> {
    lines(strip_html_spec(text))
}

/// The laid-out document: its blocks' lines without trailing blank lines.
pub open spec fn md_layout_spec(text: Seq<char>, width: nat) -> Seq<LineV> {
    strip_trailing(blocks_from(md_source(text), 0, false, width))
}

// ---------------------------------------------------------------------------
// Headings
// ---------------------------------------------------------------------------

proof fn lemma_hash_run(t: Seq<char>, n: nat, i: int)
    requires
        0 <= i <= n,
        n < t.len(),
        forall|k: int| 0 <= k < n ==> t[k] == '#',
        t[n as int] == ' ',
    ensures
        super::inline::run_len(t, i, '#') == n - i,
    decreases n - i,
{
    if i < n {
        lemma_hash_run(t, n, i + 1);
    }
}

/// A heading shows its text without its marker: a line of one to six `#`,
/// a space and a text `body` (starting and ending with a non-blank
/// character) is a heading, and it renders as `body` alone, in the heading
/// style, wrapped to the width: the whole run of `#` is dropped.
pub proof fn law_heading_drops_marker(ls: Seq<Seq<char>>, i: int, n: nat, body: Seq<char>, pb: bool, w: nat)
    requires
        0 <= i < ls.len(),
        1 <= n <= 6,
        body.len() > 0,
        !crate::text::is_ws(body[0]),
        !crate::text::is_ws(body.last()),
        ls[i] == rep('#', n) + seq![' '] + body,
    ensures
        classify(ls, i) == BlockKind::Heading,
        block_lines(ls, i, pb, w) == pre(pb) + wrap_spec(
            parse_inline_spec(body, heading_style()),
            w,
            heading_style(),
        ),
{
    let t = ls[i];
    let head = rep('#', n) + seq![' '];
    assert(t.len() == n + 1 + body.len());
    assert forall|k: int| 0 <= k < n implies t[k] == '#' by {
        assert(t[k] == head[k]);
    }
    assert(t[n as int] == head[n as int]);
    assert(t[n as int] == ' ');
    assert(t[0] == '#');
    assert(t.last() == body.last());
    // The line is its own trim.
    assert(crate::text::lead_ws(t) == 0);
    assert(t.skip(0) =~= t);
    assert(crate::text::trail_ws(t) == 0);
    assert(t.take(t.len() as int) =~= t);
    assert(trim(t) == t);
    // A heading of level `n`.
    lemma_hash_run(t, n, 0);
    assert(super::blocks::hashes(t) == n);
    assert(heading_spec(t) == Some(n));
    assert(!is_hr_spec(t)) by {
        assert(!(t[0] == '-' || t[0] == '*' || t[0] == '_' || t[0] == ' '));
    }
    assert(fence_spec(t) is None) by {
        assert(t.take(3)[0] == '#');
        assert(seq!['`', '`', '`'][0] == '`');
        assert(seq!['~', '~', '~'][0] == '~');
    }
    assert(t.len() > 0);
    // Its text is the body.
    let rest = skipn(t, n);
    assert(rest =~= seq![' '] + body);
    assert(crate::text::lead_ws(rest.drop_first()) == 0) by {
        assert(rest.drop_first() =~= body);
    }
    assert(crate::text::lead_ws(rest) == 1);
    assert(trim_start(rest) =~= body);
}

// ---------------------------------------------------------------------------
// Extent bounds
// ---------------------------------------------------------------------------

pub proof fn lemma_fence_close(ls: Seq<Seq<char>>, j: int, f: Seq<char>)
    requires
        0 <= j <= ls.len(),
    ensures
        j <= fence_close(ls, j, f) <= ls.len(),
    decreases ls.len() - j,
{
    if j < ls.len() {
        lemma_fence_close(ls, j + 1, f);
    }
}

pub proof fn lemma_quote_end(ls: Seq<Seq<char>>, j: int)
    requires
        0 <= j <= ls.len(),
    ensures
        j <= quote_end(ls, j) <= ls.len(),
    decreases ls.len() - j,
{
    if j < ls.len() {
        lemma_quote_end(ls, j + 1);
    }
}

pub proof fn lemma_list_end(ls: Seq<Seq<char>>, j: int, o: bool)
    requires
        0 <= j <= ls.len(),
    ensures
        j <= list_end(ls, j, o) <= ls.len(),
    decreases ls.len() - j,
{
    if j < ls.len() {
        lemma_list_end(ls, j + 1, o);
    }
}

pub proof fn lemma_table_end(ls: Seq<Seq<char>>, j: int)
    requires
        0 <= j <= ls.len(),
    ensures
        j <= table_end(ls, j) <= ls.len(),
    decreases ls.len() - j,
{
    if j < ls.len() {
        lemma_table_end(ls, j + 1);
    }
}

pub proof fn lemma_indent_end(ls: Seq<Seq<char>>, j: int)
    requires
        0 <= j <= ls.len(),
    ensures
        j <= indent_end(ls, j) <= ls.len(),
    decreases ls.len() - j,
{
    if j < ls.len() {
        lemma_indent_end(ls, j + 1);
    }
}

pub proof fn lemma_para_end(ls: Seq<Seq<char>>, j: int)
    requires
        0 <= j <= ls.len(),
    ensures
        j <= para_end(ls, j) <= ls.len(),
    decreases ls.len() - j,
{
    if j < ls.len() {
        lemma_para_end(ls, j + 1);
    }
}

/// The next block starts within the document.
pub proof fn lemma_next_line(ls: Seq<Seq<char>>, i: int)
    requires
        0 <= i < ls.len(),
    ensures
        i < next_line(ls, i) <= ls.len(),
{
    let t = trim(ls[i]);
    lemma_fence_close(ls, i + 1, fence_spec(t)->0);
    lemma_quote_end(ls, i);
    lemma_para_end(ls, i + 1);
    lemma_indent_end(ls, i);
    lemma_quote_end(ls, i + 1);
    lemma_indent_end(ls, i + 1);
    if classify(ls, i) == BlockKind::Quote {
        crate::text::lemma_lead_ws(ls[i]);
        crate::text::lemma_trail_ws(trim_start(ls[i]));
        assert(t.take(1) =~= seq!['>']);
        assert(t.take(1)[0] == t[0]);
        assert(t[0] == '>');
        assert(trim_start(ls[i])[0] == t[0]);
        assert(trim_start(ls[i]).take(1) =~= seq!['>']);
        assert(starts_with(trim_start(ls[i]), seq!['>']));
    }
    if classify(ls, i) == BlockKind::List {
        lemma_list_end(ls, i, (list_spec(t)->0).0);
        lemma_list_end(ls, i + 1, (list_spec(t)->0).0);
    }
    if classify(ls, i) == BlockKind::Table {
        lemma_table_end(ls, i + 2);
    }
    if classify(ls, i) == BlockKind::Indented {
        assert(indented(ls[i]));
    }
}

// ---------------------------------------------------------------------------
// Executable block walk
// ---------------------------------------------------------------------------

/// The kind of the block starting at line `i`.
pub fn classify_at(lines: &Vec<Vec<char>>, i: usize) -> (r: BlockKind)
    requires
        i < lines@.len(),
    ensures
        r == classify(cv(lines@), i as int),
{
    let ghost ls = cv(lines@);
    let n = lines.len();
    assert(ls[i as int] == lines@[i as int]@);
    let t = trim_chars(lines[i].as_slice());
    if t.len() == 0 {
        return BlockKind::Blank;
    }
    if is_hr(t.as_slice()) {
        return BlockKind::Rule;
    }
    if fence_of(t.as_slice()).is_some() {
        return BlockKind::Fence;
    }
    if heading_level(t.as_slice()).is_some() {
        return BlockKind::Heading;
    }
    let gt = vec!['>'];
    assert(gt@ =~= seq!['>']);
    if has_prefix(t.as_slice(), gt.as_slice()) {
        return BlockKind::Quote;
    }
    if list_marker(t.as_slice()).is_some() {
        return BlockKind::List;
    }
    if is_table_separator(t.as_slice()) {
        return BlockKind::Separator;
    }
    if has_char(t.as_slice(), '|') && i + 1 < lines.len() {
        assert(ls[i + 1] == lines@[i + 1]@);
        let t2 = trim_chars(lines[i + 1].as_slice());
        if is_table_separator(t2.as_slice()) {
            return BlockKind::Table;
        }
    }
    if is_indented(lines[i].as_slice()) {
        return BlockKind::Indented;
    }
    BlockKind::Paragraph
}

/// Whether a line is indented as code.
pub fn is_indented(l: &[char]) -> (r: bool)
    ensures
        r == indented(l@),
{
    let four = vec![' ', ' ', ' ', ' '];
    let tab = vec!['\t'];
    assert(four@ =~= seq![' ', ' ', ' ', ' ']);
    assert(tab@ =~= seq!['\t']);
    has_prefix(l, four.as_slice()) || has_prefix(l, tab.as_slice())
}

/// Index of the closing fence line at or after `j`, or the end.
fn fence_close_at(lines: &Vec<Vec<char>>, j: usize, fence: &Vec<char>) -> (r: usize)
    requires
        j <= lines@.len(),
    ensures
        r == fence_close(cv(lines@), j as int, fence@),
{
    let ghost ls = cv(lines@);
    let mut k = j;
    while k < lines.len()
        invariant
            j <= k <= lines@.len(),
            ls == cv(lines@),
            fence_close(ls, j as int, fence@) == fence_close(ls, k as int, fence@),
        decreases lines@.len() - k,
    {
        assert(ls[k as int] == lines@[k as int]@);
        let t = trim_chars(lines[k].as_slice());
        if t.len() > 0 && fence_of(t.as_slice()).is_some() && has_suffix(t.as_slice(), fence.as_slice()) {
            return k;
        }
        k = k + 1;
    }
    k
}

fn quote_end_at(lines: &Vec<Vec<char>>, j: usize) -> (r: usize)
    requires
        j <= lines@.len(),
    ensures
        r == quote_end(cv(lines@), j as int),
{
    let ghost ls = cv(lines@);
    let gt = vec!['>'];
    assert(gt@ =~= seq!['>']);
    let mut k = j;
    while k < lines.len()
        invariant
            j <= k <= lines@.len(),
            ls == cv(lines@),
            gt@ == seq!['>'],
            quote_end(ls, j as int) == quote_end(ls, k as int),
        decreases lines@.len() - k,
    {
        assert(ls[k as int] == lines@[k as int]@);
        let t = trim_start_chars(lines[k].as_slice());
        if !has_prefix(t.as_slice(), gt.as_slice()) {
            return k;
        }
        k = k + 1;
    }
    k
}

fn list_end_at(lines: &Vec<Vec<char>>, j: usize, ordered: bool) -> (r: usize)
    requires
        j <= lines@.len(),
    ensures
        r == list_end(cv(lines@), j as int, ordered),
{
    let ghost ls = cv(lines@);
    let mut k = j;
    while k < lines.len()
        invariant
            j <= k <= lines@.len(),
            ls == cv(lines@),
            list_end(ls, j as int, ordered) == list_end(ls, k as int, ordered),
        decreases lines@.len() - k,
    {
        assert(ls[k as int] == lines@[k as int]@);
        let t = trim_chars(lines[k].as_slice());
        if t.len() == 0 {
            return k;
        }
        match list_marker(t.as_slice()) {
            Some((o, _)) => {
                if o != ordered {
                    return k;
                }
            },
            None => {
                return k;
            },
        }
        k = k + 1;
    }
    k
}

fn table_end_at(lines: &Vec<Vec<char>>, j: usize) -> (r: usize)
    requires
        j <= lines@.len(),
    ensures
        r == table_end(cv(lines@), j as int),
{
    let ghost ls = cv(lines@);
    let mut k = j;
    while k < lines.len()
        invariant
            j <= k <= lines@.len(),
            ls == cv(lines@),
            table_end(ls, j as int) == table_end(ls, k as int),
        decreases lines@.len() - k,
    {
        assert(ls[k as int] == lines@[k as int]@);
        let t = trim_chars(lines[k].as_slice());
        if t.len() == 0 || !has_char(t.as_slice(), '|') {
            return k;
        }
        k = k + 1;
    }
    k
}

fn indent_end_at(lines: &Vec<Vec<char>>, j: usize) -> (r: usize)
    requires
        j <= lines@.len(),
    ensures
        r == indent_end(cv(lines@), j as int),
{
    let ghost ls = cv(lines@);
    let mut k = j;
    while k < lines.len()
        invariant
            j <= k <= lines@.len(),
            ls == cv(lines@),
            indent_end(ls, j as int) == indent_end(ls, k as int),
        decreases lines@.len() - k,
    {
        assert(ls[k as int] == lines@[k as int]@);
        let t = trim_chars(lines[k].as_slice());
        if !(t.len() == 0 || is_indented(lines[k].as_slice())) {
            return k;
        }
        k = k + 1;
    }
    k
}

/// Whether a trimmed line interrupts a paragraph.
fn breaks_paragraph(t: &[char]) -> (r: bool)
    ensures
        r == breaks_para(t@),
{
    let gt = vec!['>'];
    assert(gt@ =~= seq!['>']);
    t.len() == 0 || is_hr(t) || fence_of(t).is_some() || heading_level(t).is_some() || has_prefix(
        t,
        gt.as_slice(),
    ) || list_marker(t).is_some() || has_char(t, '|')
}

fn para_end_at(lines: &Vec<Vec<char>>, j: usize) -> (r: usize)
    requires
        j <= lines@.len(),
    ensures
        r == para_end(cv(lines@), j as int),
{
    let ghost ls = cv(lines@);
    let mut k = j;
    while k < lines.len()
        invariant
            j <= k <= lines@.len(),
            ls == cv(lines@),
            para_end(ls, j as int) == para_end(ls, k as int),
        decreases lines@.len() - k,
    {
        assert(ls[k as int] == lines@[k as int]@);
        let t = trim_chars(lines[k].as_slice());
        if breaks_paragraph(t.as_slice()) {
            return k;
        }
        k = k + 1;
    }
    k
}

/// The line after the block starting at line `i`.
pub fn next_line_at(lines: &Vec<Vec<char>>, i: usize) -> (r: usize)
    requires
        i < lines@.len(),
    ensures
        r == next_line(cv(lines@), i as int),
{
    let ghost ls = cv(lines@);
    let n = lines.len();
    proof {
        lemma_next_line(ls, i as int);
    }
    assert(ls[i as int] == lines@[i as int]@);
    let kind = classify_at(lines, i);
    let t = trim_chars(lines[i].as_slice());
    match kind {
        BlockKind::Fence => {
            let fence = fence_of(t.as_slice()).unwrap();
            let j = fence_close_at(lines, i + 1, &fence);
            proof {
                lemma_fence_close(ls, i + 1, fence@);
            }
            if j < n - 1 {
                j + 1
            } else {
                lines.len()
            }
        },
        BlockKind::Quote => quote_end_at(lines, i),
        BlockKind::List => {
            let (ordered, _) = list_marker(t.as_slice()).unwrap();
            list_end_at(lines, i, ordered)
        },
        BlockKind::Table => table_end_at(lines, i + 2),
        BlockKind::Indented => indent_end_at(lines, i),
        BlockKind::Paragraph => para_end_at(lines, i + 1),
        _ => i + 1,
    }
}

// ---------------------------------------------------------------------------
// Per-line transformations
// ---------------------------------------------------------------------------

/// `v` without its first `n` characters.
fn skip_chars(v: &[char], n: usize) -> (r: Vec<char>)
    ensures
        r@ == skipn(v@, n as nat),
{
    if n >= v.len() {
        let r: Vec<char> = Vec::new();
        assert(r@ =~= Seq::<char>::empty());
        r
    } else {
        let r = sub_chars(v, n, v.len());
        assert(r@ =~= v@.skip(n as int));
        r
    }
}

/// The body of a quoted line.
fn quote_body_of(l: &[char]) -> (r: Vec<char>)
    ensures
        r@ == quote_body(l@),
{
    let t = trim_start_chars(l);
    let s1 = skip_chars(t.as_slice(), 1);
    let mut b = trim_start_chars(s1.as_slice());
    let gt = vec!['>'];
    assert(gt@ =~= seq!['>']);
    while has_prefix(b.as_slice(), gt.as_slice())
        invariant
            gt@ == seq!['>'],
            strip_gt(b@) == quote_body(l@),
        decreases b@.len(),
    {
        proof {
            crate::text::lemma_lead_ws(b@.drop_first());
        }
        let rest = sub_chars(b.as_slice(), 1, b.len());
        assert(rest@ =~= b@.drop_first());
        b = trim_start_chars(rest.as_slice());
    }
    b
}

/// What happens to each source line of a block before rendering.
pub enum LineMap {
    /// Strip the quote markers.
    QuoteBody,
    /// Trim, then drop a list marker of the given width.
    ListItem(usize),
    /// Trim.
    Trim,
    /// Drop a code indent.
    Unindent,
    /// Keep the line as it is.
    Keep,
}

pub open spec fn map_spec(m: LineMap, l: Seq<char>) -> Seq<char> {
    match m {
        LineMap::QuoteBody => quote_body(l),
        LineMap::ListItem(n) => skipn(trim(l), n as nat),
        LineMap::Trim => trim(l),
        LineMap::Unindent => unindent(l),
        LineMap::Keep => l,
    }
}

fn apply_map(m: &LineMap, l: &[char]) -> (r: Vec<char>)
    ensures
        r@ == map_spec(*m, l@),
{
    match m {
        LineMap::QuoteBody => quote_body_of(l),
        LineMap::ListItem(n) => {
            let t = trim_chars(l);
            skip_chars(t.as_slice(), *n)
        },
        LineMap::Trim => trim_chars(l),
        LineMap::Unindent => {
            let t = trim_chars(l);
            if t.len() == 0 {
                Vec::new()
            } else {
                skip_chars(l, 4)
            }
        },
        LineMap::Keep => sub_chars(l, 0, l.len()),
    }
}

/// The transformed lines `a..b`.
fn map_range(lines: &Vec<Vec<char>>, a: usize, b: usize, m: &LineMap) -> (r: Vec<Vec<char>>)
    requires
        a <= b <= lines@.len(),
    ensures
        cv(r@) == cv(lines@).subrange(a as int, b as int).map_values(|l: Seq<char>| map_spec(*m, l)),
{
    let ghost f = |l: Seq<char>| map_spec(*m, l);
    let mut r: Vec<Vec<char>> = Vec::new();
    let mut k = a;
    while k < b
        invariant
            a <= k <= b <= lines@.len(),
            f == |l: Seq<char>| map_spec(*m, l),
            cv(r@) == cv(lines@).subrange(a as int, k as int).map_values(f),
        decreases b - k,
    {
        let x = apply_map(m, lines[k].as_slice());
        let ghost prev = cv(r@);
        r.push(x);
        k = k + 1;
        assert(cv(r@) =~= prev.push(f(lines@[k - 1]@)));
        assert(cv(lines@).subrange(a as int, k as int).map_values(f) =~= cv(lines@).subrange(
            a as int,
            k - 1,
        ).map_values(f).push(f(cv(lines@)[k - 1])));
    }
    r
}

/// `parts` joined by single spaces.
fn join_with_spaces(parts: &Vec<Vec<char>>) -> (r: Vec<char>)
    ensures
        r@ == join_spaces(cv(parts@)),
{
    let mut r: Vec<char> = Vec::new();
    let mut k: usize = 0;
    while k < parts.len()
        invariant
            0 <= k <= parts@.len(),
            r@ == join_spaces(cv(parts@).take(k as int)),
        decreases parts@.len() - k,
    {
        let ghost prefix = cv(parts@).take(k as int);
        if k > 0 {
            r.push(' ');
        }
        crate::text::push_all(&mut r, parts[k].as_slice());
        k = k + 1;
        let ghost now = cv(parts@).take(k as int);
        assert(now.drop_last() =~= prefix);
        assert(now.last() == parts@[k - 1]@);
        if k == 1 {
            assert(r@ =~= now[0]);
        } else {
            assert(r@ =~= join_spaces(prefix) + seq![' '] + now.last());
        }
    }
    assert(cv(parts@).take(parts@.len() as int) =~= cv(parts@));
    r
}

// ---------------------------------------------------------------------------
// Rendering
// ---------------------------------------------------------------------------

fn pre_lines(pb: bool) -> (r: Vec<MdLine>)
    ensures
        lines_view(r@) == pre(pb),
{
    let mut r: Vec<MdLine> = Vec::new();
    if pb {
        r.push(empty_line());
        assert(lines_view(r@) =~= seq![Seq::<SpanV>::empty()]);
    } else {
        assert(lines_view(r@) =~= Seq::<LineV>::empty());
    }
    r
}

/// Render the block of kind `kind` spanning lines `i..j`.
fn render_block(lines: &Vec<Vec<char>>, i: usize, j: usize, kind: BlockKind, pb: bool, width: usize) -> (r: Vec<MdLine>)
    requires
        i < j <= lines@.len(),
        j == next_line(cv(lines@), i as int),
        kind == classify(cv(lines@), i as int),
    ensures
        lines_view(r@) == block_lines(cv(lines@), i as int, pb, width as nat),
{
    let ghost ls = cv(lines@);
    let n = lines.len();
    assert(ls[i as int] == lines@[i as int]@);
    let t = trim_chars(lines[i].as_slice());
    let mut out = pre_lines(pb);
    match kind {
        BlockKind::Blank => {
            let r: Vec<MdLine> = Vec::new();
            assert(lines_view(r@) =~= Seq::<LineV>::empty());
            r
        },
        BlockKind::Separator => {
            let r: Vec<MdLine> = Vec::new();
            assert(lines_view(r@) =~= Seq::<LineV>::empty());
            r
        },
        BlockKind::Rule => {
            let bar = repeat_char('\u{2500}', width);
            let mut one: Vec<MdLine> = Vec::new();
            one.push(span_line(string_from_chars(bar.as_slice()), style_of(MdTone::Rule)));
            assert(lines_view(one@) =~= seq![seq![(rep('\u{2500}', width as nat), plain(MdTone::Rule))]]);
            extend_lines(&mut out, one);
            out
        },
        BlockKind::Fence => {
            let fence = fence_of(t.as_slice()).unwrap();
            let e = fence_close_at(lines, i + 1, &fence);
            proof {
                lemma_fence_close(ls, i + 1, fence@);
            }
            let code = map_range(lines, i + 1, e, &LineMap::Keep);
            assert(cv(code@) =~= ls.subrange(i + 1, e as int));
            extend_lines(&mut out, code_block(&code, width));
            out
        },
        BlockKind::Heading => {
            let level = heading_level(t.as_slice()).unwrap();
            let rest = skip_chars(t.as_slice(), level);
            let text = trim_start_chars(rest.as_slice());
            let st = heading();
            let frags = parse_inline(text.as_slice(), st);
            extend_lines(&mut out, wrap_inline(frags, width, st));
            out
        },
        BlockKind::Quote => {
            let body = map_range(lines, i, j, &LineMap::QuoteBody);
            assert(cv(body@) =~= ls.subrange(i as int, j as int).map_values(|l: Seq<char>| quote_body(l)));
            extend_lines(&mut out, render_blockquote(&body, width));
            out
        },
        BlockKind::List => {
            let (ordered, indent) = list_marker(t.as_slice()).unwrap();
            let items = map_range(lines, i, j, &LineMap::ListItem(indent));
            assert(cv(items@) =~= ls.subrange(i as int, j as int).map_values(
                |l: Seq<char>| skipn(trim(l), (list_spec(trim(ls[i as int]))->0).1),
            ));
            extend_lines(&mut out, render_list(&items, ordered, width));
            out
        },
        BlockKind::Table => {
            proof {
                lemma_table_end(ls, i + 2);
            }
            let body = map_range(lines, i + 2, j, &LineMap::Trim);
            let mut rows: Vec<Vec<char>> = Vec::new();
            rows.push(t);
            let ghost t_v = trim(ls[i as int]);
            let mut body = body;
            let ghost body_v = cv(body@);
            rows.append(&mut body);
            assert(cv(rows@) =~= seq![t_v] + body_v);
            assert(body_v =~= ls.subrange(i + 2, j as int).map_values(|l: Seq<char>| trim(l)));
            extend_lines(&mut out, render_table(&rows, width));
            out
        },
        BlockKind::Indented => {
            let code = map_range(lines, i, j, &LineMap::Unindent);
            assert(cv(code@) =~= ls.subrange(i as int, j as int).map_values(|l: Seq<char>| unindent(l)));
            extend_lines(&mut out, code_block(&code, width));
            out
        },
        BlockKind::Paragraph => {
            let parts = map_range(lines, i, j, &LineMap::Trim);
            assert(cv(parts@) =~= ls.subrange(i as int, j as int).map_values(|l: Seq<char>| trim(l)));
            let joined = join_with_spaces(&parts);
            let st = style_of(MdTone::Body);
            let frags = parse_inline(joined.as_slice(), st);
            extend_lines(&mut out, wrap_inline(frags, width, st));
            out
        },
    }
}

// ---------------------------------------------------------------------------
// Clipping to the width
// ---------------------------------------------------------------------------

/// `t` when it takes at most `room` columns, else its longest prefix that
/// does.
pub open spec fn clip_text(t: Seq<char>, room: nat) -> Seq<char> {
    if seq_cols(t) <= room {
        t
    } else {
        truncated(t, room)
    }
}

/// A line cut at `w` columns: each span keeps what still fits after the
/// spans before it.
pub open spec fn clip_line(l: LineV, w: nat) -> LineV
    decreases l.len(),
{
    if l.len() == 0 {
        l
    } else {
        let p = clip_line(l.drop_last(), w);
        let used = seq_cols(line_text(p));
        let room = if used <= w {
            (w - used) as nat
        } else {
            0
        };
        p.push((clip_text(l.last().0, room), l.last().1))
    }
}

/// Every line cut at `w` columns.
pub open spec fn clip_lines(ls: Seq<LineV>, w: nat) -> Seq<LineV> {
    ls.map_values(|l: LineV| clip_line(l, w))
}

/// The rendered document: the laid-out lines, each cut at the width.
pub open spec fn render_md_spec(text: Seq<char>, width: nat) -> Seq<LineV> {
    clip_lines(md_layout_spec(text, width), width)
}

/// A cut line takes at most `w` columns, and a line that already does is
/// left as it is.
pub proof fn lemma_clip_line(l: LineV, w: nat)
    ensures
        seq_cols(line_text(clip_line(l, w))) <= w,
        clip_line(l, w).len() == l.len(),
        seq_cols(line_text(l)) <= w ==> clip_line(l, w) == l,
    decreases l.len(),
{
    if l.len() > 0 {
        let d = l.drop_last();
        lemma_clip_line(d, w);
        let p = clip_line(d, w);
        let used = seq_cols(line_text(p));
        let room = (w - used) as nat;
        let t = l.last().0;
        lemma_truncated_cols(t, room);
        let q = p.push((clip_text(t, room), l.last().1));
        assert(q.drop_last() =~= p);
        assert(line_text(q) == line_text(p) + clip_text(t, room));
        lemma_seq_cols_concat(line_text(p), clip_text(t, room));
        lemma_seq_cols_concat(line_text(d), t);
        if seq_cols(line_text(l)) <= w {
            assert(line_text(l) == line_text(d) + t);
            assert(p == d);
            assert(l =~= d.push(l.last()));
        }
    }
}

/// `clip_text` with the columns kept.
fn clip_text_counted(t: &[char], room: usize) -> (r: (Vec<char>, usize))
    ensures
        r.0@ == clip_text(t@, room as nat),
        r.1 == seq_cols(r.0@),
        r.1 <= room,
{
    let mut out: Vec<char> = Vec::new();
    let mut cols: usize = 0;
    let mut i: usize = 0;
    while i < t.len()
        invariant
            0 <= i <= t@.len(),
            out@ == t@.take(i as int),
            cols == seq_cols(out@),
            cols <= room,
        decreases t@.len() - i,
    {
        let c = crate::width::char_cols(t[i]);
        let ghost before = out@;
        assert(t@.take(i + 1).drop_last() =~= t@.take(i as int));
        if c > room - cols {
            proof {
                lemma_seq_cols_concat(t@.take(i + 1), t@.skip(i + 1));
                assert(t@.take(i + 1) + t@.skip(i + 1) =~= t@);
            }
            return truncate_counted(t, room);
        }
        out.push(t[i]);
        assert(out@.drop_last() =~= before);
        cols = cols + c;
        i = i + 1;
        assert(out@ =~= t@.take(i as int));
    }
    assert(t@.take(i as int) =~= t@);
    (out, cols)
}

/// Cut a line at `w` columns.
fn clip_line_exec(line: &MdLine, w: usize) -> (r: MdLine)
    ensures
        r@ == clip_line(line@, w as nat),
{
    let mut spans: Vec<MdSpan> = Vec::new();
    let mut used: usize = 0;
    let mut k: usize = 0;
    while k < line.spans.len()
        invariant
            0 <= k <= line.spans@.len(),
            line@.len() == line.spans@.len(),
            spans@.map_values(|s: MdSpan| s@) == clip_line(line@.take(k as int), w as nat),
            used == seq_cols(line_text(clip_line(line@.take(k as int), w as nat))),
            used <= w,
        decreases line.spans@.len() - k,
    {
        let ghost pre = line@.take(k as int);
        let ghost nxt = line@.take(k + 1);
        assert(nxt.drop_last() =~= pre);
        assert(nxt.last() == line.spans@[k as int]@);
        proof {
            lemma_clip_line(pre, w as nat);
        }
        let chars = str_chars(line.spans[k].text.as_str());
        let (kept, c) = clip_text_counted(chars.as_slice(), w - used);
        let ghost before = spans@.map_values(|s: MdSpan| s@);
        spans.push(MdSpan { text: string_from_chars(kept.as_slice()), style: line.spans[k].style });
        assert(spans@.map_values(|s: MdSpan| s@) =~= before.push((kept@, line.spans@[k as int].style)));
        let ghost q = clip_line(nxt, w as nat);
        assert(q == before.push((kept@, line.spans@[k as int].style)));
        assert(q.drop_last() =~= before);
        assert(line_text(q) == line_text(before) + kept@);
        proof {
            lemma_seq_cols_concat(line_text(before), kept@);
        }
        used = used + c;
        k = k + 1;
    }
    assert(line@.take(k as int) =~= line@);
    let r = MdLine { spans };
    r
}

/// Render a markdown document into wrapped, styled lines of at most
/// `width` columns; what a crowded block cannot fit is cut off at the
/// width.
pub fn render_md(text: &str, width: usize) -> (r: Vec<MdLine>)
    ensures
        lines_view(r@) == render_md_spec(text@, width as nat),
        forall|k: int| 0 <= k < r@.len() ==> seq_cols(line_text(#[trigger] r@[k]@)) <= width,
        super::layout::layout_ok(md_source(text@), 0, width as nat) && width >= 3 ==> lines_view(
            r@,
        ) == md_layout_spec(text@, width as nat),
{
    let chars = str_chars(text);
    let clean = strip_html(chars.as_slice());
    let lines = split_lines(clean.as_slice());
    let ghost ls = cv(lines@);
    let ghost w = width as nat;
    assert(ls == md_source(text@));
    let mut out: Vec<MdLine> = Vec::new();
    let mut i: usize = 0;
    let mut pb = false;
    assert(lines_view(out@) =~= Seq::<LineV>::empty());
    while i < lines.len()
        invariant
            0 <= i <= lines@.len(),
            ls == cv(lines@),
            w == width as nat,
            lines_view(out@) + blocks_from(ls, i as int, pb, w) == blocks_from(ls, 0, false, w),
        decreases lines@.len() - i,
    {
        let kind = classify_at(&lines, i);
        let j = next_line_at(&lines, i);
        proof {
            lemma_next_line(ls, i as int);
        }
        assert(i < j);
        let block = render_block(&lines, i, j, kind, pb, width);
        let ghost before = lines_view(out@);
        let ghost blk = lines_view(block@);
        extend_lines(&mut out, block);
        let npb = match kind {
            BlockKind::Separator => pb,
            BlockKind::Paragraph => false,
            _ => true,
        };
        assert(npb == next_blank(ls, i as int, pb));
        assert(blocks_from(ls, i as int, pb, w) == blk + blocks_from(ls, j as int, npb, w));
        assert(before + (blk + blocks_from(ls, j as int, npb, w)) =~= (before + blk) + blocks_from(ls, j as int, npb, w));
        pb = npb;
        i = j;
    }
    assert(lines_view(out@) =~= blocks_from(ls, 0, false, w));
    let ghost full = lines_view(out@);
    while out.len() > 0 && line_blank(&out[out.len() - 1])
        invariant
            strip_trailing(lines_view(out@)) == strip_trailing(full),
        decreases out@.len(),
    {
        let ghost lv = lines_view(out@);
        out.pop();
        assert(lines_view(out@) =~= lv.drop_last());
    }
    assert(lines_view(out@) == md_layout_spec(text@, width as nat));
    let ghost laid = lines_view(out@);
    let mut clipped: Vec<MdLine> = Vec::new();
    let mut k: usize = 0;
    while k < out.len()
        invariant
            0 <= k <= out@.len(),
            laid == lines_view(out@),
            lines_view(clipped@) == clip_lines(laid.take(k as int), width as nat),
        decreases out@.len() - k,
    {
        let line = clip_line_exec(&out[k], width);
        let ghost before = lines_view(clipped@);
        clipped.push(line);
        assert(lines_view(clipped@) =~= before.push(line@));
        assert(clip_lines(laid.take(k + 1), width as nat) =~= before.push(clip_line(laid[k as int], width as nat)));
        k = k + 1;
    }
    assert(laid.take(k as int) =~= laid);
    proof {
        assert forall|q: int| 0 <= q < clipped@.len() implies seq_cols(line_text(#[trigger] clipped@[q]@)) <= width by {
            assert(lines_view(clipped@)[q] == clipped@[q]@);
            lemma_clip_line(laid[q], width as nat);
        }
        if super::layout::layout_ok(md_source(text@), 0, width as nat) && width >= 3 {
            super::layout::law_nothing_cut(text@, width as nat);
        }
    }
    clipped
}

} // verus!
