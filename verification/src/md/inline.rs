//! Inline markdown: escapes, images, links, code spans and emphasis.

use vstd::prelude::*;

use super::{plain, styled, Item, MdStyle, MdTone};
use crate::text::{string_from_chars, str_chars, sub_chars};

verus! {

// ---------------------------------------------------------------------------
// Fragments
// ---------------------------------------------------------------------------

/// A run of text with a single style.
#[derive(Debug, Clone)]
pub struct Frag {
    pub text: String,
    pub style: MdStyle,
}

/// The styled characters of a sequence of fragments, in order.
pub open spec fn flatten(frags: Seq<Frag>) -> Seq<Item>
    decreases frags.len(),
{
    if frags.len() == 0 {
        Seq::empty()
    } else {
        flatten(frags.drop_last()) + styled(frags.last().text@, frags.last().style)
    }
}

pub proof fn lemma_flatten_push(frags: Seq<Frag>, f: Frag)
    ensures
        flatten(frags.push(f)) == flatten(frags) + styled(f.text@, f.style),
{
    assert(frags.push(f).drop_last() =~= frags);
}

pub proof fn lemma_flatten_take(frags: Seq<Frag>, k: int)
    requires
        0 <= k < frags.len(),
    ensures
        flatten(frags.take(k + 1)) == flatten(frags.take(k)) + styled(
            frags[k].text@,
            frags[k].style,
        ),
{
    assert(frags.take(k + 1).drop_last() =~= frags.take(k));
}

pub proof fn lemma_styled_concat(a: Seq<char>, b: Seq<char>, st: MdStyle)
    ensures
        styled(a + b, st) == styled(a, st) + styled(b, st),
{
    assert(styled(a + b, st) =~= styled(a, st) + styled(b, st));
}

/// A fragment as its text and style.
pub open spec fn frag_view(f: Frag) -> (Seq<char>, MdStyle) {
    (f.text@, f.style)
}

/// The views of a sequence of fragments.
pub open spec fn frags_view(v: Seq<Frag>) -> Seq<(Seq<char>, MdStyle)> {
    v.map_values(|f: Frag| frag_view(f))
}

/// Fragments in merged form: none is empty and neighbours differ in style.
pub open spec fn frags_ok(v: Seq<Frag>) -> bool {
    &&& forall|k: int| 0 <= k < v.len() ==> (#[trigger] v[k]).text@.len() > 0
    &&& forall|j: int, k: int|
        #![trigger v[j], v[k]]
        0 <= j && k == j + 1 && k < v.len() ==> v[j].style != v[k].style
}

/// What pushing `text` in `style` does to fragments `v`: empty text changes
/// nothing, text in the style of the last fragment is appended to it, any
/// other text becomes a new last fragment.
pub open spec fn push_frag_spec(v: Seq<(Seq<char>, MdStyle)>, text: Seq<char>, style: MdStyle) -> Seq<(Seq<char>, MdStyle)> {
    if text.len() == 0 {
        v
    } else if v.len() > 0 && v.last().1 == style {
        v.drop_last().push((v.last().0 + text, style))
    } else {
        v.push((text, style))
    }
}

proof fn lemma_push_frag_ok(v: Seq<Frag>, w: Seq<Frag>, text: Seq<char>, style: MdStyle)
    requires
        frags_ok(v),
        frags_view(w) == push_frag_spec(frags_view(v), text, style),
    ensures
        frags_ok(w),
{
    let fv = frags_view(v);
    let fw = frags_view(w);
    assert(fw.len() == w.len());
    assert forall|k: int| 0 <= k < w.len() implies (#[trigger] w[k]).text@.len() > 0 by {
        assert(fw[k] == frag_view(w[k]));
        if k < v.len() {
            assert(fv[k] == frag_view(v[k]));
        }
    }
    assert forall|j: int, k: int| 0 <= j && k == j + 1 && k < w.len() implies #[trigger] w[j].style
        != #[trigger] w[k].style by {
        assert(fw[j] == frag_view(w[j]));
        assert(fw[k] == frag_view(w[k]));
        assert(fv[j] == frag_view(v[j]));
        if k < v.len() {
            assert(fv[k] == frag_view(v[k]));
        }
    }
}

/// Push a fragment, merging with the previous when the style matches.
pub fn push_frag(out: &mut Vec<Frag>, text: String, style: MdStyle)
    ensures
        frags_view(final(out)@) == push_frag_spec(frags_view(old(out)@), text@, style),
        flatten(final(out)@) == flatten(old(out)@) + styled(text@, style),
        frags_ok(old(out)@) ==> frags_ok(final(out)@),
{
    let ghost before = out@;
    if text.as_str().is_empty() {
        assert(styled(text@, style) =~= Seq::<Item>::empty());
        assert(flatten(out@) + styled(text@, style) =~= flatten(out@));
        return;
    }
    let n = out.len();
    if n > 0 && out[n - 1].style == style {
        let ghost prefix = out@.drop_last();
        let mut last = out.pop().unwrap();
        let ghost old_text = last.text@;
        assert(out@ == prefix);
        last.text.append(text.as_str());
        proof {
            lemma_styled_concat(old_text, text@, style);
            lemma_flatten_push(prefix, last);
        }
        out.push(last);
        assert(frags_view(out@) =~= frags_view(before).drop_last().push((old_text + text@, style)));
    } else {
        let f = Frag { text, style };
        proof {
            lemma_flatten_push(out@, f);
        }
        out.push(f);
        assert(frags_view(out@) =~= frags_view(before).push((f.text@, style)));
    }
    proof {
        if frags_ok(before) {
            lemma_push_frag_ok(before, out@, text@, style);
        }
    }
}

// ---------------------------------------------------------------------------
// Runs and closers
// ---------------------------------------------------------------------------

/// Length of the run of `c` starting at `i`.
pub open spec fn run_len(s: Seq<char>, i: int, c: char) -> nat
    decreases s.len() - i,
{
    if 0 <= i && i < s.len() && s[i] == c {
        1 + run_len(s, i + 1, c)
    } else {
        0
    }
}

pub proof fn lemma_run_len(s: Seq<char>, i: int, c: char)
    requires
        0 <= i <= s.len(),
    ensures
        i + run_len(s, i, c) <= s.len(),
        forall|k: int| i <= k < i + run_len(s, i, c) ==> s[k] == c,
        i + run_len(s, i, c) < s.len() ==> s[i + run_len(s, i, c)] != c,
    decreases s.len() - i,
{
    if i < s.len() && s[i] == c {
        lemma_run_len(s, i + 1, c);
    }
}

/// Number of consecutive `c` characters starting at `i`.
pub fn count_run(chars: &[char], i: usize, c: char) -> (n: usize)
    ensures
        n == run_len(chars@, i as int, c),
{
    if i >= chars.len() {
        return 0;
    }
    let mut n: usize = 0;
    while n < chars.len() - i && chars[i + n] == c
        invariant
            i < chars@.len(),
            n <= chars@.len() - i,
            run_len(chars@, i as int, c) == n + run_len(chars@, i + n, c),
        decreases chars@.len() - i - n,
    {
        n = n + 1;
    }
    n
}

/// Start of the first run of exactly `run` copies of `c` at or after `j`,
/// skipping backslash escapes.
pub open spec fn closer_from(s: Seq<char>, j: int, c: char, run: nat) -> Option<int>
    decreases s.len() - j,
{
    if j < 0 || j >= s.len() {
        None
    } else if s[j] == '\\' {
        if j + 1 >= s.len() {
            None
        } else {
            closer_from(s, j + 2, c, run)
        }
    } else if s[j] == c {
        if run_len(s, j, c) == run {
            Some(j)
        } else {
            proof {
                lemma_run_len(s, j, c);
            }
            closer_from(s, j + run_len(s, j, c), c, run)
        }
    } else {
        closer_from(s, j + 1, c, run)
    }
}

pub proof fn lemma_closer_from(s: Seq<char>, j: int, c: char, run: nat)
    requires
        0 <= j,
    ensures
        closer_from(s, j, c, run) matches Some(k) ==> j <= k < s.len() && run_len(s, k, c)
            == run,
    decreases s.len() - j,
{
    if j < s.len() {
        if s[j] == '\\' {
            if j + 1 < s.len() {
                lemma_closer_from(s, j + 2, c, run);
            }
        } else if s[j] == c {
            if run_len(s, j, c) != run {
                lemma_run_len(s, j, c);
                lemma_closer_from(s, j + run_len(s, j, c), c, run);
            }
        } else {
            lemma_closer_from(s, j + 1, c, run);
        }
    }
}

/// Find the index of a run of `run` copies of `c` starting at or after `from`.
pub fn find_closer(chars: &[char], from: usize, c: char, run: usize) -> (r: Option<usize>)
    ensures
        r matches Some(k) ==> closer_from(chars@, from as int, c, run as nat) == Some(k as int),
        r is None ==> closer_from(chars@, from as int, c, run as nat) is None,
        r matches Some(k) ==> from <= k < chars@.len(),
{
    proof {
        lemma_closer_from(chars@, from as int, c, run as nat);
    }
    let ghost goal = closer_from(chars@, from as int, c, run as nat);
    let mut j: usize = from;
    while j < chars.len()
        invariant
            from <= j,
            goal == closer_from(chars@, from as int, c, run as nat),
            goal == closer_from(chars@, j as int, c, run as nat),
        decreases chars@.len() - j,
    {
        if chars[j] == '\\' {
            if j + 1 >= chars.len() {
                return None;
            }
            j = j + 2;
        } else if chars[j] == c {
            let n = count_run(chars, j, c);
            proof {
                lemma_run_len(chars@, j as int, c);
            }
            if n == run {
                return Some(j);
            }
            j = j + n;
        } else {
            j = j + 1;
        }
    }
    None
}

// ---------------------------------------------------------------------------
// Code spans
// ---------------------------------------------------------------------------

/// Start of the first closing run of exactly `run` backticks at or after `j`.
pub open spec fn code_scan(s: Seq<char>, j: int, run: nat) -> Option<int>
    decreases s.len() - j,
{
    if j < 0 || run == 0 || j + run > s.len() {
        None
    } else if s[j] == '`' {
        if run_len(s, j, '`') == run {
            Some(j)
        } else {
            proof {
                lemma_run_len(s, j, '`');
            }
            code_scan(s, j + run_len(s, j, '`'), run)
        }
    } else {
        code_scan(s, j + 1, run)
    }
}

/// For a backtick run at `i`: the code text and the index just past the
/// matching closing run.
pub open spec fn code_spec(s: Seq<char>, i: int) -> Option<(Seq<char>, int)> {
    let run = run_len(s, i, '`');
    match code_scan(s, i + run, run) {
        Some(j) => Some((s.subrange(i + run, j), j + run)),
        None => None,
    }
}

proof fn lemma_code_scan(s: Seq<char>, j: int, run: nat)
    requires
        0 <= j,
    ensures
        code_scan(s, j, run) matches Some(k) ==> j <= k && k + run <= s.len() && run_len(
            s,
            k,
            '`',
        ) == run,
    decreases s.len() - j,
{
    if j + run <= s.len() && run > 0 {
        if s[j] == '`' {
            if run_len(s, j, '`') != run {
                lemma_run_len(s, j, '`');
                lemma_code_scan(s, j + run_len(s, j, '`'), run);
            }
        } else {
            lemma_code_scan(s, j + 1, run);
        }
    }
}

pub proof fn lemma_code_spec(s: Seq<char>, i: int)
    requires
        0 <= i < s.len(),
        s[i] == '`',
    ensures
        code_spec(s, i) matches Some((t, r)) ==> t.len() < s.len() && i < r <= s.len(),
{
    lemma_run_len(s, i, '`');
    let run = run_len(s, i, '`');
    lemma_code_scan(s, i + run, run);
}

/// For a backtick run starting at `i`, find the matching closing run and
/// return the raw code text plus the index just past the closer.
pub fn code_span(chars: &[char], i: usize) -> (r: Option<(Vec<char>, usize)>)
    requires
        i < chars@.len(),
        chars@[i as int] == '`',
    ensures
        r matches Some((t, k)) ==> code_spec(chars@, i as int) == Some((t@, k as int)),
        r is None ==> code_spec(chars@, i as int) is None,
{
    let run = count_run(chars, i, '`');
    proof {
        lemma_run_len(chars@, i as int, '`');
        lemma_code_scan(chars@, (i + run) as int, run as nat);
    }
    let len = chars.len();
    assert(i + run <= len);
    let ghost goal = code_scan(chars@, (i + run) as int, run as nat);
    let mut j: usize = i + run;
    while j <= chars.len() && run <= chars.len() - j
        invariant
            i + run <= j,
            run >= 1,
            i < chars@.len(),
            run == run_len(chars@, i as int, '`'),
            goal == code_scan(chars@, (i + run) as int, run as nat),
            goal == code_scan(chars@, j as int, run as nat),
        decreases chars@.len() - j,
    {
        if chars[j] == '`' {
            let again = count_run(chars, j, '`');
            proof {
                lemma_run_len(chars@, j as int, '`');
            }
            if again == run {
                let code = sub_chars(chars, i + run, j);
                assert(goal == Some(j as int));
                assert(code_spec(chars@, i as int) == Some((code@, (j + run) as int)));
                return Some((code, j + run));
            }
            j = j + again;
        } else {
            j = j + 1;
        }
    }
    None
}

// ---------------------------------------------------------------------------
// Links
// ---------------------------------------------------------------------------

/// First `)` at or after `k`.
pub open spec fn paren_close(s: Seq<char>, k: int) -> Option<int>
    decreases s.len() - k,
{
    if k < 0 || k >= s.len() {
        None
    } else if s[k] == ')' {
        Some(k)
    } else {
        paren_close(s, k + 1)
    }
}

/// Scan for the `]` that closes the `[` at `i` (bracket depth `depth` before
/// position `j`); when it is directly followed by `(...)`, the label and the
/// index just past `)`.
pub open spec fn link_scan(s: Seq<char>, i: int, j: int, depth: int) -> Option<(Seq<char>, int)>
    decreases s.len() - j,
{
    if j < 0 || j >= s.len() {
        None
    } else if s[j] == '[' {
        link_scan(s, i, j + 1, depth + 1)
    } else if s[j] == ']' {
        if depth - 1 == 0 {
            if j + 1 < s.len() && s[j + 1] == '(' {
                match paren_close(s, j + 2) {
                    Some(k) => Some((s.subrange(i + 1, j), k + 1)),
                    None => None,
                }
            } else {
                None
            }
        } else {
            link_scan(s, i, j + 1, depth - 1)
        }
    } else {
        link_scan(s, i, j + 1, depth)
    }
}

/// For a `[` at `i`: the label and the index just past `](url)`.
pub open spec fn link_spec(s: Seq<char>, i: int) -> Option<(Seq<char>, int)> {
    link_scan(s, i, i, 0)
}

proof fn lemma_paren_close(s: Seq<char>, k: int)
    requires
        0 <= k,
    ensures
        paren_close(s, k) matches Some(p) ==> k <= p < s.len() && s[p] == ')',
    decreases s.len() - k,
{
    if k < s.len() && s[k] != ')' {
        lemma_paren_close(s, k + 1);
    }
}

proof fn lemma_link_scan(s: Seq<char>, i: int, j: int, depth: int)
    requires
        0 <= i < j,
    ensures
        link_scan(s, i, j, depth) matches Some((l, r)) ==> l.len() < s.len() && j < r <= s.len()
            && l == s.subrange(i + 1, r - 1).take(l.len() as int) && i + 1 + l.len() + 2 < r,
    decreases s.len() - j,
{
    if j < s.len() {
        if s[j] == '[' {
            lemma_link_scan(s, i, j + 1, depth + 1);
        } else if s[j] == ']' {
            if depth - 1 == 0 {
                if j + 1 < s.len() && s[j + 1] == '(' {
                    lemma_paren_close(s, j + 2);
                    if let Some(k) = paren_close(s, j + 2) {
                        assert(s.subrange(i + 1, j) =~= s.subrange(i + 1, k).take(j - i - 1));
                    }
                }
            } else {
                lemma_link_scan(s, i, j + 1, depth - 1);
            }
        } else {
            lemma_link_scan(s, i, j + 1, depth);
        }
    }
}

pub proof fn lemma_link_spec(s: Seq<char>, i: int)
    requires
        0 <= i < s.len(),
        s[i] == '[',
    ensures
        link_spec(s, i) matches Some((l, r)) ==> l.len() < s.len() && i < r <= s.len() && l.len()
            + 3 <= r - i - 1,
{
    lemma_link_scan(s, i, i + 1, 1);
    assert(link_spec(s, i) == link_scan(s, i, i + 1, 1));
}

/// For a `[` at `i`, find the closing `](url)` and return `(label, next_index)`.
pub fn link_target(chars: &[char], i: usize) -> (r: Option<(Vec<char>, usize)>)
    requires
        i < chars@.len(),
        chars@[i as int] == '[',
    ensures
        r matches Some((l, k)) ==> link_spec(chars@, i as int) == Some((l@, k as int)),
        r is None ==> link_spec(chars@, i as int) is None,
{
    let ghost goal = link_spec(chars@, i as int);
    let mut depth: usize = 0;
    let mut j: usize = i;
    while j < chars.len()
        invariant
            i <= j,
            i < chars@.len(),
            chars@[i as int] == '[',
            depth <= j - i,
            j > i ==> depth >= 1,
            goal == link_spec(chars@, i as int),
            goal == link_scan(chars@, i as int, j as int, depth as int),
        decreases chars@.len() - j,
    {
        let c = chars[j];
        if c == '[' {
            depth = depth + 1;
        } else if c == ']' {
            let ghost d0 = depth;
            depth = depth - 1;
            if depth == 0 {
                if j + 1 < chars.len() && chars[j + 1] == '(' {
                    let mut k: usize = j + 2;
                    proof {
                        lemma_paren_close(chars@, k as int);
                    }
                    while k < chars.len() && chars[k] != ')'
                        invariant
                            j + 2 <= k <= chars@.len(),
                            paren_close(chars@, (j + 2) as int) == paren_close(chars@, k as int),
                        decreases chars@.len() - k,
                    {
                        k = k + 1;
                    }
                    if k < chars.len() {
                        let label = sub_chars(chars, i + 1, j);
                        assert(paren_close(chars@, k as int) == Some(k as int));
                        assert(goal == link_scan(chars@, i as int, j as int, d0 as int));
                        assert(goal == Some((label@, (k + 1) as int)));
                        return Some((label, k + 1));
                    }
                }
                return None;
            }
        }
        j = j + 1;
    }
    None
}

// ---------------------------------------------------------------------------
// Inline parsing
// ---------------------------------------------------------------------------

/// The style with the underline modifier added.
pub open spec fn underlined(st: MdStyle) -> MdStyle {
    MdStyle { underlined: true, ..st }
}

/// The style used inside an emphasis delimited by `run` copies of `c`.
pub open spec fn emphasis(base: MdStyle, c: char, run: nat) -> MdStyle {
    if c == '~' {
        MdStyle { crossed: true, ..base }
    } else if run >= 2 {
        MdStyle { bold: true, ..base }
    } else {
        MdStyle { italic: true, ..base }
    }
}

/// Every item of `items` with the underline modifier added.
pub open spec fn underline_all(items: Seq<Item>) -> Seq<Item> {
    items.map_values(|it: Item| (it.0, underlined(it.1)))
}

/// Whether `c` opens an emphasis.
pub open spec fn is_emph(c: char) -> bool {
    c == '*' || c == '_' || c == '~'
}

/// Styled characters of `s[i..]`, with `base` as the surrounding style.
#[verifier::opaque]
pub open spec fn inline_from(s: Seq<char>, i: int, base: MdStyle) -> Seq<Item>
    decreases s.len(), s.len() - i,
{
    if i < 0 || i >= s.len() {
        Seq::empty()
    } else if s[i] == '\\' && i + 1 < s.len() {
        seq![(s[i + 1], base)] + inline_from(s, i + 2, base)
    } else if s[i] == '!' && i + 1 < s.len() && s[i + 1] == '[' && link_spec(s, i + 1) is Some {
        proof {
            lemma_link_spec(s, i + 1);
        }
        match link_spec(s, i + 1) {
            Some((alt, rest)) => styled(seq!['\u{25A3}', ' '] + alt, plain(MdTone::Rule))
                + inline_from(s, rest, base),
            None => Seq::empty(),
        }
    } else if s[i] == '[' && link_spec(s, i) is Some {
        proof {
            lemma_link_spec(s, i);
        }
        match link_spec(s, i) {
            Some((label, rest)) => underline_all(inline_from(label, 0, base)) + inline_from(
                s,
                rest,
                base,
            ),
            None => Seq::empty(),
        }
    } else if s[i] == '`' && code_spec(s, i) is Some {
        proof {
            lemma_code_spec(s, i);
        }
        match code_spec(s, i) {
            Some((code, rest)) => styled(code, plain(MdTone::Code)) + inline_from(s, rest, base),
            None => Seq::empty(),
        }
    } else if is_emph(s[i]) && closer_from(s, i + run_len(s, i, s[i]), s[i], run_len(s, i, s[i]))
        is Some {
        let c = s[i];
        let run = run_len(s, i, c);
        proof {
            lemma_run_len(s, i, c);
            lemma_closer_from(s, i + run, c, run);
        }
        match closer_from(s, i + run, c, run) {
            Some(closer) => {
                proof {
                    lemma_run_len(s, closer, c);
                }
                inline_from(s.subrange(i + run, closer), 0, emphasis(base, c, run)) + inline_from(
                    s,
                    closer + run,
                    base,
                )
            },
            None => Seq::empty(),
        }
    } else {
        seq![(s[i], base)] + inline_from(s, i + 1, base)
    }
}

/// Styled characters of the inline markdown `s` over the style `base`.
pub open spec fn parse_inline_spec(s: Seq<char>, base: MdStyle) -> Seq<Item> {
    inline_from(s, 0, base)
}

fn underline(st: MdStyle) -> (r: MdStyle)
    ensures
        r == underlined(st),
{
    MdStyle { underlined: true, ..st }
}

fn emphasis_style(base: MdStyle, c: char, run: usize) -> (r: MdStyle)
    ensures
        r == emphasis(base, c, run as nat),
{
    if c == '~' {
        MdStyle { crossed: true, ..base }
    } else if run >= 2 {
        MdStyle { bold: true, ..base }
    } else {
        MdStyle { italic: true, ..base }
    }
}

proof fn lemma_underline_concat(a: Seq<Item>, b: Seq<Item>)
    ensures
        underline_all(a + b) == underline_all(a) + underline_all(b),
{
    assert(underline_all(a + b) =~= underline_all(a) + underline_all(b));
}

proof fn lemma_underline_styled(t: Seq<char>, st: MdStyle)
    ensures
        underline_all(styled(t, st)) == styled(t, underlined(st)),
{
    assert(underline_all(styled(t, st)) =~= styled(t, underlined(st)));
}

/// Push every fragment of `frags` onto `out`, optionally underlining it.
fn push_frags(out: &mut Vec<Frag>, frags: &Vec<Frag>, underline_them: bool)
    ensures
        flatten(final(out)@) == flatten(old(out)@) + (if underline_them {
            underline_all(flatten(frags@))
        } else {
            flatten(frags@)
        }),
        frags_ok(old(out)@) ==> frags_ok(final(out)@),
{
    let mut k: usize = 0;
    while k < frags.len()
        invariant
            0 <= k <= frags@.len(),
            frags_ok(old(out)@) ==> frags_ok(out@),
            flatten(out@) == flatten(old(out)@) + (if underline_them {
                underline_all(flatten(frags@.take(k as int)))
            } else {
                flatten(frags@.take(k as int))
            }),
        decreases frags@.len() - k,
    {
        let f = &frags[k];
        let st = if underline_them {
            underline(f.style)
        } else {
            f.style
        };
        proof {
            lemma_flatten_take(frags@, k as int);
            lemma_underline_concat(flatten(frags@.take(k as int)), styled(f.text@, f.style));
            lemma_underline_styled(f.text@, f.style);
        }
        push_frag(out, f.text.clone(), st);
        k = k + 1;
    }
    assert(frags@.take(frags@.len() as int) =~= frags@);
}

/// Parse inline markdown (bold, italic, code, strike, links, images) into
/// styled fragments with consecutive same-style runs merged.
#[verifier::rlimit(80)]
#[verifier::spinoff_prover]
pub fn parse_inline(chars: &[char], base: MdStyle) -> (out: Vec<Frag>)
    ensures
        flatten(out@) == parse_inline_spec(chars@, base),
        frags_ok(out@),
    decreases chars@.len(),
{
    let mut out: Vec<Frag> = Vec::new();
    let mut i: usize = 0;
    let ghost s = chars@;
    while i < chars.len()
        invariant
            s == chars@,
            frags_ok(out@),
            0 <= i <= s.len(),
            flatten(out@) + inline_from(s, i as int, base) == inline_from(s, 0, base),
        decreases s.len() - i,
    {
        let ghost before = flatten(out@);
        let c = chars[i];
        if c == '\\' && i + 1 < chars.len() {
            let mut one: Vec<char> = Vec::new();
            one.push(chars[i + 1]);
            push_frag(&mut out, string_from_chars(one.as_slice()), base);
            assert(styled(one@, base) =~= seq![(s[i + 1], base)]);
            assert(inline_from(s, i as int, base) == seq![(s[i + 1], base)] + inline_from(
                s,
                i + 2,
                base,
            )) by {
                reveal(inline_from);
            }
            assert(before + (seq![(s[i + 1], base)] + inline_from(s, i + 2, base)) =~= (before
                + seq![(s[i + 1], base)]) + inline_from(s, i + 2, base));
            i = i + 2;
            continue;
        }
        if c == '!' && i + 1 < chars.len() && chars[i + 1] == '[' {
            if let Some((alt, rest)) = link_target(chars, i + 1) {
                proof {
                    lemma_link_spec(s, i + 1);
                }
                let mut text: Vec<char> = Vec::new();
                text.push('\u{25A3}');
                text.push(' ');
                crate::text::push_all(&mut text, alt.as_slice());
                assert(text@ =~= seq!['\u{25A3}', ' '] + alt@);
                push_frag(&mut out, string_from_chars(text.as_slice()), style_rule());
                assert(inline_from(s, i as int, base) == styled(text@, plain(MdTone::Rule))
                    + inline_from(s, rest as int, base)) by {
                    reveal(inline_from);
                }
                assert(before + (styled(text@, plain(MdTone::Rule)) + inline_from(s, rest as int, base))
                    =~= (before + styled(text@, plain(MdTone::Rule))) + inline_from(s, rest as int, base));
                i = rest;
                continue;
            }
        }
        if c == '[' {
            if let Some((label, rest)) = link_target(chars, i) {
                proof {
                    lemma_link_spec(s, i as int);
                }
                let inner = parse_inline(label.as_slice(), base);
                push_frags(&mut out, &inner, true);
                assert(inline_from(s, i as int, base) == underline_all(inline_from(label@, 0, base))
                    + inline_from(s, rest as int, base)) by {
                    reveal(inline_from);
                }
                assert(before + (underline_all(inline_from(label@, 0, base)) + inline_from(s, rest as int, base))
                    =~= (before + underline_all(inline_from(label@, 0, base))) + inline_from(s, rest as int, base));
                i = rest;
                continue;
            }
        }
        if c == '`' {
            if let Some((code, rest)) = code_span(chars, i) {
                proof {
                    lemma_code_spec(s, i as int);
                }
                push_frag(&mut out, string_from_chars(code.as_slice()), style_code());
                assert(inline_from(s, i as int, base) == styled(code@, plain(MdTone::Code))
                    + inline_from(s, rest as int, base)) by {
                    reveal(inline_from);
                }
                assert(before + (styled(code@, plain(MdTone::Code)) + inline_from(s, rest as int, base))
                    =~= (before + styled(code@, plain(MdTone::Code))) + inline_from(s, rest as int, base));
                i = rest;
                continue;
            }
        }
        if c == '*' || c == '_' || c == '~' {
            let run = count_run(chars, i, c);
            proof {
                lemma_run_len(s, i as int, c);
            }
            if let Some(closer) = find_closer(chars, i + run, c, run) {
                proof {
                    lemma_closer_from(s, (i + run) as int, c, run as nat);
                    lemma_run_len(s, closer as int, c);
                }
                let inner_text = sub_chars(chars, i + run, closer);
                let inner_style = emphasis_style(base, c, run);
                let inner = parse_inline(inner_text.as_slice(), inner_style);
                push_frags(&mut out, &inner, false);
                let ghost mid = inline_from(inner_text@, 0, inner_style);
                assert(inline_from(s, i as int, base) == mid + inline_from(
                    s,
                    (closer + run) as int,
                    base,
                )) by {
                    reveal(inline_from);
                }
                assert(before + (mid + inline_from(s, (closer + run) as int, base)) =~= (before + mid)
                    + inline_from(s, (closer + run) as int, base));
                i = closer + run;
                continue;
            }
        }
        let mut one: Vec<char> = Vec::new();
        one.push(c);
        push_frag(&mut out, string_from_chars(one.as_slice()), base);
        assert(styled(one@, base) =~= seq![(c, base)]);
        assert(inline_from(s, i as int, base) == seq![(c, base)] + inline_from(s, i + 1, base))
            by {
            reveal(inline_from);
        }
        assert(before + (seq![(c, base)] + inline_from(s, i + 1, base)) =~= (before + seq![(c, base)])
            + inline_from(s, i + 1, base));
        i = i + 1;
    }
    assert(inline_from(s, i as int, base) == Seq::<Item>::empty()) by {
        reveal(inline_from);
    }
    assert(flatten(out@) =~= flatten(out@) + inline_from(s, i as int, base));
    out
}

fn style_rule() -> (r: MdStyle)
    ensures
        r == plain(MdTone::Rule),
{
    super::style_of(MdTone::Rule)
}

fn style_code() -> (r: MdStyle)
    ensures
        r == plain(MdTone::Code),
{
    super::style_of(MdTone::Code)
}

/// The styled characters of `frags`, one item per character.
pub fn frag_items(frags: &Vec<Frag>) -> (r: Vec<Item>)
    ensures
        r@ == flatten(frags@),
{
    let mut r: Vec<Item> = Vec::new();
    let mut k: usize = 0;
    while k < frags.len()
        invariant
            0 <= k <= frags@.len(),
            r@ == flatten(frags@.take(k as int)),
        decreases frags@.len() - k,
    {
        let f = &frags[k];
        let cs = str_chars(f.text.as_str());
        let mut m: usize = 0;
        let ghost base = r@;
        while m < cs.len()
            invariant
                0 <= m <= cs@.len(),
                cs@ == f.text@,
                r@ == base + styled(cs@.take(m as int), f.style),
            decreases cs@.len() - m,
        {
            r.push((cs[m], f.style));
            m = m + 1;
            assert(styled(cs@.take(m as int), f.style) =~= styled(cs@.take(m - 1), f.style).push(
                (cs@[m - 1], f.style),
            ));
        }
        assert(cs@.take(cs@.len() as int) =~= cs@);
        proof {
            lemma_flatten_take(frags@, k as int);
        }
        k = k + 1;
    }
    assert(frags@.take(frags@.len() as int) =~= frags@);
    r
}


// ---------------------------------------------------------------------------
// Laws of fragments
// ---------------------------------------------------------------------------

proof fn lemma_flatten_last(v: Seq<Frag>)
    requires
        v.len() > 0,
        v.last().text@.len() > 0,
    ensures
        flatten(v) == flatten(v.drop_last()) + styled(v.last().text@, v.last().style),
        flatten(v).len() == flatten(v.drop_last()).len() + v.last().text@.len(),
        flatten(v).len() > 0,
        flatten(v).last() == (v.last().text@.last(), v.last().style),
{
}

proof fn lemma_frags_ok_drop_last(v: Seq<Frag>)
    requires
        frags_ok(v),
        v.len() > 0,
    ensures
        frags_ok(v.drop_last()),
{
    let d = v.drop_last();
    assert forall|k: int| 0 <= k < d.len() implies (#[trigger] d[k]).text@.len() > 0 by {
        assert(d[k] == v[k]);
    }
    assert forall|j: int, k: int| 0 <= j && k == j + 1 && k < d.len() implies #[trigger] d[j].style
        != #[trigger] d[k].style by {
        assert(d[j] == v[j]);
        assert(d[k] == v[k]);
    }
}

proof fn lemma_flatten_nonempty(v: Seq<Frag>)
    requires
        frags_ok(v),
        v.len() > 0,
    ensures
        flatten(v).len() > 0,
{
    assert(v[v.len() - 1].text@.len() > 0);
    lemma_flatten_last(v);
}

/// Fragments in merged form are determined by their styled text: two
/// merged fragment lists that spell the same styled characters are equal.
pub proof fn law_merged_frags_unique(a: Seq<Frag>, b: Seq<Frag>)
    requires
        frags_ok(a),
        frags_ok(b),
        flatten(a) == flatten(b),
    ensures
        frags_view(a) == frags_view(b),
    decreases a.len() + b.len(),
{
    if a.len() == 0 || b.len() == 0 {
        if a.len() > 0 {
            lemma_flatten_nonempty(a);
        }
        if b.len() > 0 {
            lemma_flatten_nonempty(b);
        }
        assert(frags_view(a) =~= frags_view(b));
    } else {
        let fa = a.last();
        let fb = b.last();
        let a2 = a.drop_last();
        let b2 = b.drop_last();
        assert(a[a.len() - 1].text@.len() > 0);
        assert(b[b.len() - 1].text@.len() > 0);
        lemma_flatten_last(a);
        lemma_flatten_last(b);
        lemma_frags_ok_drop_last(a);
        lemma_frags_ok_drop_last(b);
        let f = flatten(a);
        let la = fa.text@.len();
        let lb = fb.text@.len();
        assert(fa.style == fb.style);
        if la == lb {
            assert(flatten(a2) =~= f.take(f.len() - la));
            assert(flatten(b2) =~= f.take(f.len() - lb));
            assert forall|i: int| 0 <= i < la implies fa.text@[i] == fb.text@[i] by {
                assert(styled(fa.text@, fa.style)[i] == f[f.len() - la + i]);
                assert(styled(fb.text@, fb.style)[i] == f[f.len() - lb + i]);
            }
            assert(fa.text@ =~= fb.text@);
            law_merged_frags_unique(a2, b2);
            assert(frags_view(a) =~= frags_view(a2).push(frag_view(fa)));
            assert(frags_view(b) =~= frags_view(b2).push(frag_view(fb)));
        } else if la < lb {
            let idx = f.len() - la - 1;
            assert(styled(fb.text@, fb.style)[lb - la - 1] == f[idx]);
            assert(f[idx].1 == fb.style);
            assert(flatten(a2).len() == f.len() - la);
            assert(a2.len() > 0);
            assert(a2[a2.len() - 1].text@.len() > 0);
            lemma_flatten_last(a2);
            assert(flatten(a2).last() == f[idx]);
            assert(a[a.len() - 2].style != a[a.len() - 1].style);
            assert(false);
        } else {
            let idx = f.len() - lb - 1;
            assert(styled(fa.text@, fa.style)[la - lb - 1] == f[idx]);
            assert(f[idx].1 == fa.style);
            assert(flatten(b2).len() == f.len() - lb);
            assert(b2.len() > 0);
            assert(b2[b2.len() - 1].text@.len() > 0);
            lemma_flatten_last(b2);
            assert(flatten(b2).last() == f[idx]);
            assert(b[b.len() - 2].style != b[b.len() - 1].style);
            assert(false);
        }
    }
}

/// Text without markup characters.
pub open spec fn unmarked(s: Seq<char>) -> bool {
    forall|k: int|
        0 <= k < s.len() ==> {
            let c = #[trigger] s[k];
            c != '\\' && c != '[' && c != '`' && c != '*' && c != '_' && c != '~'
        }
}

proof fn lemma_inline_unmarked(s: Seq<char>, i: int, base: MdStyle)
    requires
        unmarked(s),
        0 <= i <= s.len(),
    ensures
        inline_from(s, i, base) == styled(s.skip(i), base),
    decreases s.len() - i,
{
    reveal(inline_from);
    if i < s.len() {
        lemma_inline_unmarked(s, i + 1, base);
        assert(s[i] != '\\' && s[i] != '[' && s[i] != '`');
        if i + 1 < s.len() {
            assert(s[i + 1] != '[');
        }
        assert(!is_emph(s[i]));
        assert(styled(s.skip(i), base) =~= seq![(s[i], base)] + styled(s.skip(i + 1), base));
    } else {
        assert(styled(s.skip(i), base) =~= Seq::<Item>::empty());
    }
}

/// Text without markup characters parses to itself in the base style: one
/// fragment, or none for empty text.
pub proof fn law_unmarked_one_fragment(text: Seq<char>, base: MdStyle, out: Seq<Frag>)
    requires
        unmarked(text),
        frags_ok(out),
        flatten(out) == parse_inline_spec(text, base),
    ensures
        frags_view(out) == (if text.len() == 0 {
            Seq::<(Seq<char>, MdStyle)>::empty()
        } else {
            seq![(text, base)]
        }),
{
    lemma_inline_unmarked(text, 0, base);
    assert(text.skip(0) =~= text);
    let f = flatten(out);
    if out.len() >= 2 {
        let a2 = out.drop_last();
        assert(out[out.len() - 1].text@.len() > 0);
        lemma_flatten_last(out);
        lemma_frags_ok_drop_last(out);
        assert(a2[a2.len() - 1].text@.len() > 0);
        lemma_flatten_last(a2);
        assert(f[f.len() - 1].1 == base);
        assert(f[flatten(a2).len() - 1] == flatten(a2).last());
        assert(f[flatten(a2).len() - 1].1 == base);
        assert(out[out.len() - 2].style != out[out.len() - 1].style);
        assert(false);
    } else if out.len() == 1 {
        let g = out[0];
        assert(out.drop_last() =~= Seq::<Frag>::empty());
        assert(out[0].text@.len() > 0);
        lemma_flatten_last(out);
        assert(flatten(Seq::<Frag>::empty()) == Seq::<Item>::empty());
        assert(Seq::<Item>::empty() + styled(g.text@, g.style) =~= styled(g.text@, g.style));
        assert(flatten(out) == styled(g.text@, g.style));
        assert(g.text@.len() > 0);
        assert(styled(g.text@, g.style)[0] == f[0]);
        assert forall|i: int| 0 <= i < text.len() implies g.text@[i] == text[i] by {
            assert(styled(g.text@, g.style)[i] == styled(text, base)[i]);
        }
        assert(g.text@ =~= text);
        assert(frags_view(out) =~= seq![(text, base)]);
    } else {
        assert(frags_view(out) =~= Seq::<(Seq<char>, MdStyle)>::empty());
    }
}

} // verus!
