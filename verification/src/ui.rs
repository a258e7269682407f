//! Screen bookkeeping of the launcher: click regions, list selections,
//! scroll positions of the log and the grids, and short-lived notices.

use vstd::prelude::*;
use crate::forms::{clamp, clamp_step};
use crate::nav::{HitAction, OverlayAction};
use crate::text::{split_words, str_chars, string_from_chars, string_from_str, words};
use crate::width::{lemma_fit_all, lemma_truncated_cols, seq_cols, truncate_cols, truncated};

verus! {

// ---------------------------------------------------------------------------
// Click regions
// ---------------------------------------------------------------------------

/// A rectangle of terminal cells.
#[derive(Debug, Clone, Copy, PartialEq, Eq, Structural)]
pub struct Rect {
    pub x: u16,
    pub y: u16,
    pub width: u16,
    pub height: u16,
}

/// `a + b`, capped at the largest `u16`.
pub open spec fn sat_add16(a: u16, b: u16) -> int {
    if a + b > u16::MAX {
        u16::MAX as int
    } else {
        a + b
    }
}

/// Whether the cell `(x, y)` lies inside `r`; the far edges saturate at the
/// largest coordinate.
pub open spec fn contains_spec(r: Rect, x: u16, y: u16) -> bool {
    &&& r.x <= x
    &&& x < sat_add16(r.x, r.width)
    &&& r.y <= y
    &&& y < sat_add16(r.y, r.height)
}

/// Whether the cell `pos` lies inside `rect`.
pub fn rect_contains(rect: Rect, pos: (u16, u16)) -> (r: bool)
    ensures
        r == contains_spec(rect, pos.0, pos.1),
{
    let (x, y) = pos;
    x >= rect.x && x < rect.x.saturating_add(rect.width) && y >= rect.y && y
        < rect.y.saturating_add(rect.height)
}

/// A clickable region registered while drawing a frame.
#[derive(Debug, Clone, Copy, PartialEq, Eq, Structural)]
pub struct Hitbox {
    pub rect: Rect,
    pub action: HitAction,
}

/// The action of the first registered region containing `(x, y)`.
pub open spec fn first_hit(boxes: Seq<Hitbox>, x: u16, y: u16) -> Option<HitAction>
    decreases boxes.len(),
{
    if boxes.len() == 0 {
        None
    } else if contains_spec(boxes[0].rect, x, y) {
        Some(boxes[0].action)
    } else {
        first_hit(boxes.drop_first(), x, y)
    }
}

/// The action of the first registered region under `pos`, if any.
pub fn hit_action_at(hitboxes: &Vec<Hitbox>, pos: (u16, u16)) -> (r: Option<HitAction>)
    ensures
        r == first_hit(hitboxes@, pos.0, pos.1),
{
    let mut i: usize = 0;
    assert(hitboxes@.skip(0) =~= hitboxes@);
    while i < hitboxes.len()
        invariant
            0 <= i <= hitboxes@.len(),
            first_hit(hitboxes@.skip(i as int), pos.0, pos.1) == first_hit(hitboxes@, pos.0, pos.1),
        decreases hitboxes@.len() - i,
    {
        let h = hitboxes[i];
        assert(hitboxes@.skip(i as int)[0] == h);
        if rect_contains(h.rect, pos) {
            return Some(h.action);
        }
        assert(hitboxes@.skip(i as int).drop_first() =~= hitboxes@.skip(i + 1));
        i = i + 1;
    }
    None
}

/// Register a clickable region; empty rectangles are skipped.
pub fn push_hitbox(hitboxes: &mut Vec<Hitbox>, rect: Rect, action: HitAction)
    ensures
        rect.width > 0 && rect.height > 0 ==> final(hitboxes)@ == old(hitboxes)@.push(
            Hitbox { rect, action },
        ),
        !(rect.width > 0 && rect.height > 0) ==> final(hitboxes)@ == old(hitboxes)@,
{
    if rect.width > 0 && rect.height > 0 {
        hitboxes.push(Hitbox { rect, action });
    }
}

/// Whether the mouse, when its position is known, is over `rect`.
pub fn is_hovered(mouse_pos: Option<(u16, u16)>, rect: Rect) -> (r: bool)
    ensures
        r == (mouse_pos matches Some(p) && contains_spec(rect, p.0, p.1)),
{
    match mouse_pos {
        Some(pos) => rect_contains(rect, pos),
        None => false,
    }
}

proof fn lemma_first_hit_push(boxes: Seq<Hitbox>, h: Hitbox, x: u16, y: u16)
    ensures
        first_hit(boxes.push(h), x, y) == (match first_hit(boxes, x, y) {
            Some(a) => Some(a),
            None => if contains_spec(h.rect, x, y) {
                Some(h.action)
            } else {
                None
            },
        }),
    decreases boxes.len(),
{
    if boxes.len() > 0 {
        assert(boxes.push(h)[0] == boxes[0]);
        assert(boxes.push(h).drop_first() =~= boxes.drop_first().push(h));
        lemma_first_hit_push(boxes.drop_first(), h, x, y);
    } else {
        assert(boxes.push(h)[0] == h);
        assert(boxes.push(h).drop_first() =~= Seq::<Hitbox>::empty());
        assert(first_hit(Seq::<Hitbox>::empty(), x, y) is None);
    }
}

/// A click on a cell of a region registered after all regions drawn so far
/// reaches that region's action unless an earlier region covers the cell,
/// and registering a region never changes what an earlier region answers.
pub proof fn law_hit_after_push(boxes: Seq<Hitbox>, rect: Rect, action: HitAction, x: u16, y: u16)
    ensures
        contains_spec(rect, x, y) ==> rect.width > 0 && rect.height > 0,
        first_hit(boxes, x, y) is None && contains_spec(rect, x, y) ==> first_hit(
            boxes.push(Hitbox { rect, action }),
            x,
            y,
        ) == Some(action),
        first_hit(boxes, x, y) is Some ==> first_hit(boxes.push(Hitbox { rect, action }), x, y)
            == first_hit(boxes, x, y),
{
    lemma_first_hit_push(boxes, Hitbox { rect, action }, x, y);
}

// ---------------------------------------------------------------------------
// List selection
// ---------------------------------------------------------------------------

/// The selection after moving `delta` rows in a list of `len` rows: none in
/// an empty list, otherwise the current row (the first when nothing is
/// selected) moved and kept within the list.
pub open spec fn move_spec(selected: Option<usize>, len: nat, delta: int) -> Option<usize> {
    if len == 0 {
        None
    } else {
        Some(clamp(selected.unwrap_or(0) + delta, 0, len - 1) as usize)
    }
}

/// Move a list selection by `delta` rows.
pub fn move_selection(selected: Option<usize>, len: usize, delta: i32) -> (r: Option<usize>)
    ensures
        r == move_spec(selected, len as nat, delta as int),
        r matches Some(i) ==> i < len,
{
    if len == 0 {
        None
    } else {
        let current = match selected {
            Some(i) => i,
            None => 0,
        };
        Some(clamp_step(current, len, delta))
    }
}

/// Moving by `delta` and back by `-delta` returns to the starting row when
/// the first move stayed inside the list.
pub proof fn law_move_back(s: usize, len: usize, delta: int)
    requires
        s < len,
        0 <= s + delta < len,
    ensures
        move_spec(move_spec(Some(s), len as nat, delta), len as nat, -delta) == Some(s),
{
}

/// The selection after a list is reloaded with `len` rows: none for an
/// empty list, the last row when the old one is past the end, the first
/// row when nothing was selected, else unchanged.
pub open spec fn reconcile_spec(selected: Option<usize>, len: nat) -> Option<usize> {
    if len == 0 {
        None
    } else if selected.unwrap_or(0) >= len {
        Some((len - 1) as usize)
    } else if selected is None {
        Some(0)
    } else {
        selected
    }
}

/// Keep a list selection valid after the list was reloaded.
pub fn reconcile_selection(selected: Option<usize>, len: usize) -> (r: Option<usize>)
    ensures
        r == reconcile_spec(selected, len as nat),
        r matches Some(i) ==> i < len,
{
    if len == 0 {
        None
    } else if match selected {
        Some(i) => i,
        None => 0,
    } >= len {
        Some(len - 1)
    } else if selected.is_none() {
        Some(0)
    } else {
        selected
    }
}

// ---------------------------------------------------------------------------
// Log scrolling
// ---------------------------------------------------------------------------

/// Scroll state of the log console.
#[derive(Debug, Clone, Copy, PartialEq, Eq, Structural)]
pub struct LogView {
    /// First shown line when not following.
    pub scroll: usize,
    /// Whether the view sticks to the newest line.
    pub follow: bool,
    /// Number of lines the console shows.
    pub visible: usize,
}

/// Largest scroll offset for `total` lines in a console of `visible` rows
/// (at least one row).
pub open spec fn log_max_scroll(total: nat, visible: nat) -> int {
    let v = if visible == 0 {
        1
    } else {
        visible
    };
    if total > v {
        total - v
    } else {
        0
    }
}

/// The console after scrolling `delta` lines with `total` lines buffered.
pub open spec fn scroll_spec(v: LogView, total: nat, delta: int) -> LogView {
    let max = log_max_scroll(total as nat, v.visible as nat);
    let base = if v.follow {
        max
    } else {
        v.scroll as int
    };
    let next = clamp(base + delta, 0, max);
    LogView { scroll: next as usize, follow: next >= max, visible: v.visible }
}

/// The console after jumping to the end (`to_end`) or to the start.
pub open spec fn jump_spec(v: LogView, to_end: bool) -> LogView {
    if to_end {
        LogView { follow: true, ..v }
    } else {
        LogView { scroll: 0, follow: false, ..v }
    }
}

impl LogView {
    /// Scroll the console by `delta` lines given `total` buffered lines;
    /// reaching the bottom turns following back on.
    pub fn scroll_logs(&mut self, total: usize, delta: i32)
        ensures
            *final(self) == scroll_spec(*old(self), total as nat, delta as int),
    {
        let visible = if self.visible == 0 {
            1
        } else {
            self.visible
        };
        let max_scroll = total.saturating_sub(visible);
        let base = if self.follow {
            max_scroll
        } else {
            self.scroll
        };
        let next = clamp_step(base, max_scroll + 1, delta);
        self.scroll = next;
        self.follow = next >= max_scroll;
    }

    /// Jump to the newest line (following it) or to the first line.
    pub fn jump_logs(&mut self, to_end: bool)
        ensures
            *final(self) == jump_spec(*old(self), to_end),
    {
        if to_end {
            self.follow = true;
        } else {
            self.scroll = 0;
            self.follow = false;
        }
    }
}

/// After any scroll the offset lies within the buffer, and the console
/// follows exactly when it shows the newest line.
pub proof fn law_scroll_bounds(v: LogView, total: usize, delta: int)
    ensures
        0 <= scroll_spec(v, total as nat, delta).scroll <= log_max_scroll(total as nat, v.visible as nat),
        scroll_spec(v, total as nat, delta).follow <==> scroll_spec(v, total as nat, delta).scroll
            == log_max_scroll(total as nat, v.visible as nat),
{
}

/// A following console keeps following when scrolled down, and scrolling
/// up from the bottom by `d` lines (within the buffer) stops following.
pub proof fn law_follow(v: LogView, total: usize, delta: int)
    requires
        v.follow,
    ensures
        delta >= 0 ==> scroll_spec(v, total as nat, delta).follow,
        delta < 0 && log_max_scroll(total as nat, v.visible as nat) + delta >= 0 ==> !scroll_spec(
            v,
            total as nat,
            delta,
        ).follow && scroll_spec(v, total as nat, delta).scroll == log_max_scroll(
            total as nat,
            v.visible as nat,
        ) + delta,
{
}

/// Jumping to the start shows the first line; jumping to the end follows.
pub proof fn law_jump(v: LogView, total: usize)
    ensures
        jump_spec(v, false).scroll == 0 && !jump_spec(v, false).follow,
        jump_spec(v, true).follow,
        scroll_spec(jump_spec(v, true), total as nat, 0).scroll == log_max_scroll(total as nat, v.visible as nat),
{
}

// ---------------------------------------------------------------------------
// Keeping the selection on screen
// ---------------------------------------------------------------------------

/// The scroll offset that shows row `sel` of `rows` rows in a window of
/// `visible` rows (at least one), moving as little as possible.
pub open spec fn reveal_spec(sel: nat, scroll: nat, visible: nat, rows: nat) -> nat {
    let v = if visible == 0 {
        1
    } else {
        visible
    };
    let s = if sel < scroll {
        sel
    } else if sel >= scroll + v {
        (sel + 1 - v) as nat
    } else {
        scroll
    };
    let max = if rows > v {
        (rows - v) as nat
    } else {
        0
    };
    if s < max {
        s
    } else {
        max
    }
}

/// The world list's scroll offset after making the selected world visible.
pub open spec fn world_scroll_spec(selected: Option<usize>, scroll: nat, visible: nat, len: nat) -> nat {
    match selected {
        None => scroll,
        Some(sel) => reveal_spec(sel as nat, scroll, visible, len),
    }
}

fn reveal_row(sel: usize, scroll: usize, visible_rows: usize, rows: usize) -> (r: usize)
    ensures
        r == reveal_spec(sel as nat, scroll as nat, visible_rows as nat, rows as nat),
{
    let visible = if visible_rows == 0 {
        1
    } else {
        visible_rows
    };
    let s = if sel < scroll {
        sel
    } else if sel - scroll >= visible {
        sel - visible + 1
    } else {
        scroll
    };
    let max_scroll = rows.saturating_sub(visible);
    if s < max_scroll {
        s
    } else {
        max_scroll
    }
}

/// Scroll the world list so that the selected world is on screen.
pub fn ensure_world_visible(
    selected: Option<usize>,
    scroll: usize,
    visible_rows: usize,
    len: usize,
) -> (r: usize)
    ensures
        r == world_scroll_spec(selected, scroll as nat, visible_rows as nat, len as nat),
{
    match selected {
        None => scroll,
        Some(sel) => reveal_row(sel, scroll, visible_rows, len),
    }
}

/// `n / d` rounded up.
pub open spec fn ceil_div(n: nat, d: nat) -> nat
    recommends
        d > 0,
{
    if n % d == 0 {
        n / d
    } else {
        n / d + 1
    }
}

/// The screenshot grid's scroll offset (in rows of `cols` tiles, at least
/// one) after making the selected screenshot visible.
pub open spec fn shot_scroll_spec(
    selected: Option<usize>,
    scroll: nat,
    cols: nat,
    visible: nat,
    len: nat,
) -> nat {
    let c = if cols == 0 {
        1
    } else {
        cols
    };
    match selected {
        None => scroll,
        Some(sel) => reveal_spec(sel as nat / c, scroll, visible, ceil_div(len, c)),
    }
}

/// Scroll the screenshot grid so that the selected screenshot's row is on
/// screen.
pub fn ensure_screenshot_visible(
    selected: Option<usize>,
    scroll: usize,
    cols: usize,
    visible_rows: usize,
    len: usize,
) -> (r: usize)
    ensures
        r == shot_scroll_spec(selected, scroll as nat, cols as nat, visible_rows as nat, len as nat),
{
    let c = if cols == 0 {
        1
    } else {
        cols
    };
    match selected {
        None => scroll,
        Some(sel) => {
            let rows = if len % c == 0 {
                len / c
            } else {
                assert(len / c < len) by (nonlinear_arith)
                    requires
                        c >= 1,
                        len % c != 0,
                ;
                len / c + 1
            };
            reveal_row(sel / c, scroll, visible_rows, rows)
        },
    }
}

/// The revealed row is on screen whenever it exists.
pub proof fn law_reveal_shows(sel: nat, scroll: nat, visible: nat, rows: nat)
    requires
        sel < rows,
    ensures
        ({
            let v = if visible == 0 {
                1
            } else {
                visible
            };
            let s = reveal_spec(sel, scroll, visible, rows);
            s <= sel < s + v
        }),
{
}

/// After making a selected world visible, that world is on screen.
pub proof fn law_world_visible(sel: usize, scroll: nat, visible: nat, len: nat)
    requires
        sel < len,
    ensures
        ({
            let v = if visible == 0 {
                1
            } else {
                visible
            };
            let s = world_scroll_spec(Some(sel), scroll, visible, len);
            s <= sel < s + v
        }),
{
    law_reveal_shows(sel as nat, scroll, visible, len);
}

/// After making a selected screenshot visible, its row is on screen.
pub proof fn law_screenshot_visible(sel: usize, scroll: nat, cols: nat, visible: nat, len: nat)
    requires
        sel < len,
    ensures
        ({
            let c = if cols == 0 {
                1
            } else {
                cols
            };
            let v = if visible == 0 {
                1
            } else {
                visible
            };
            let s = shot_scroll_spec(Some(sel), scroll, cols, visible, len);
            s <= sel as nat / c < s + v
        }),
{
    let c: nat = if cols == 0 {
        1
    } else {
        cols
    };
    let row = sel as nat / c;
    assert(row < ceil_div(len, c)) by (nonlinear_arith)
        requires
            c > 0,
            sel < len,
            row == sel as nat / c,
            ceil_div(len, c) == (if len % c == 0 {
                len / c
            } else {
                len / c + 1
            }),
    {
        assert(row <= len / c);
        if len % c == 0 {
            assert(len == c * (len / c));
            assert(sel as nat >= c * row);
            if row == len / c {
                assert(false);
            }
        }
    }
    law_reveal_shows(row, scroll, visible, ceil_div(len, c));
}

// ---------------------------------------------------------------------------
// Short texts
// ---------------------------------------------------------------------------

/// `s` limited to `max` display columns: a text that fits is kept; a cut
/// text keeps its longest start that fits in `max - 1` columns and ends in
/// an ellipsis (one column).
pub open spec fn truncate_str_spec(s: Seq<char>, max: nat) -> Seq<char> {
    if max == 0 {
        Seq::empty()
    } else if seq_cols(s) <= max {
        s
    } else {
        truncated(s, (max - 1) as nat).push('\u{2026}')
    }
}

/// Limit `input` to `max` display columns, marking a cut with an ellipsis.
pub fn truncate_str(input: &str, max: usize) -> (r: String)
    ensures
        r@ == truncate_str_spec(input@, max as nat),
{
    if max == 0 {
        return String::new();
    }
    let chars = str_chars(input);
    let whole = truncate_cols(chars.as_slice(), max);
    proof {
        lemma_fit_all(input@, max as int);
    }
    if whole.len() == chars.len() {
        return string_from_str(input);
    }
    let mut out = truncate_cols(chars.as_slice(), max - 1);
    out.push('\u{2026}');
    string_from_chars(out.as_slice())
}

/// A truncated text never exceeds the limit in columns, keeps a text that
/// fits a non-zero limit, and otherwise ends in an ellipsis after a start of the text.
pub proof fn law_truncate(s: Seq<char>, max: nat)
    ensures
        seq_cols(truncate_str_spec(s, max)) <= max,
        0 < max && seq_cols(s) <= max ==> truncate_str_spec(s, max) == s,
        max == 0 ==> truncate_str_spec(s, max).len() == 0,
        seq_cols(s) > max > 0 ==> {
            let r = truncate_str_spec(s, max);
            &&& r.len() > 0
            &&& r.last() == '\u{2026}'
            &&& r.drop_last() == s.take(r.len() - 1)
        },
{
    if max == 0 {
        assert(seq_cols(Seq::<char>::empty()) == 0);
    } else if seq_cols(s) > max {
        let t = truncated(s, (max - 1) as nat);
        lemma_truncated_cols(s, (max - 1) as nat);
        assert(t.push('\u{2026}').drop_last() =~= t);
    }
}

/// Split a command line into white-space separated arguments.
pub fn split_args(input: &str) -> (r: Vec<String>)
    ensures
        r@.map_values(|w: String| w@) == words(input@),
{
    let chars = str_chars(input);
    split_words(chars.as_slice())
}

// ---------------------------------------------------------------------------
// Notices
// ---------------------------------------------------------------------------

/// `std::time::Instant`, carried opaquely by a [`Toast`].
#[verifier::external_type_specification]
#[verifier::external_body]
pub struct ExInstant(std::time::Instant);

/// `Instant` is `Copy`; its `clone` returns the same instant.
pub assume_specification[ <std::time::Instant as Clone>::clone ](i: &std::time::Instant) -> (r: std::time::Instant)
    ensures
        r == *i,
;

/// How long a notice stays on screen, in nanoseconds (six seconds).
pub const TOAST_LIFETIME_NANOS: u128 = 6_000_000_000;

/// The current instant (`Instant::now`); nothing is promised of its value.
#[verifier::external_body]
fn now() -> std::time::Instant {
    std::time::Instant::now()
}

/// Nanoseconds elapsed since `at` (`Instant::elapsed`, read in whole
/// nanoseconds); it depends on the clock, so nothing is promised of it.
#[verifier::external_body]
fn nanos_since(at: &std::time::Instant) -> u128 {
    at.elapsed().as_nanos()
}

/// A short-lived notice shown in the header.
#[derive(Debug, Clone)]
pub struct Toast {
    pub message: String,
    /// Whether it reports a failure.
    pub error: bool,
    /// When it was raised.
    pub at: std::time::Instant,
}

/// Whether a notice raised `elapsed_nanos` nanoseconds ago has expired.
pub open spec fn expired_spec(elapsed_nanos: u128) -> bool {
    elapsed_nanos > TOAST_LIFETIME_NANOS
}

/// Whether a notice raised `elapsed_nanos` nanoseconds ago has expired: it
/// lives for more than six seconds, not for ever.
pub fn expired_after(elapsed_nanos: u128) -> (r: bool)
    ensures
        r == expired_spec(elapsed_nanos),
{
    elapsed_nanos > TOAST_LIFETIME_NANOS
}

impl Toast {
    /// A notice raised now.
    pub fn new(message: String, error: bool) -> (r: Self)
        ensures
            r.message == message,
            r.error == error,
    {
        Toast { message, error, at: now() }
    }

    /// Whether the notice has been shown long enough; the answer depends on
    /// the clock.
    pub fn is_expired(&self) -> bool {
        expired_after(nanos_since(&self.at))
    }
}

/// Drop the notice when it was raised `elapsed_nanos` nanoseconds ago and
/// has expired; otherwise leave it as it is.
pub fn expire_toast_after(toast: &mut Option<Toast>, elapsed_nanos: u128)
    ensures
        (*old(toast) is Some && expired_spec(elapsed_nanos)) ==> *final(toast) is None,
        !(*old(toast) is Some && expired_spec(elapsed_nanos)) ==> *final(toast) == *old(toast),
{
    if toast.is_some() && expired_after(elapsed_nanos) {
        *toast = None;
    }
}

/// Drop the notice once it has expired by the clock; an absent notice
/// stays absent and a kept one is unchanged.
pub fn expire_toast(toast: &mut Option<Toast>)
    ensures
        *final(toast) is None || *final(toast) == *old(toast),
        *old(toast) is None ==> *final(toast) is None,
{
    let elapsed = match toast {
        Some(t) => nanos_since(&t.at),
        None => 0,
    };
    expire_toast_after(toast, elapsed);
}

// ---------------------------------------------------------------------------
// Launching
// ---------------------------------------------------------------------------

/// Why a launch cannot start: no build selected, no account, or a game
/// already running (checked in that order); `None` when it can start.
pub fn launch_guard(has_instance: bool, has_account: bool, running: bool) -> (r: Option<&'static str>)
    ensures
        !has_instance ==> (r matches Some(m) && m@ == "No instance selected"@),
        has_instance && !has_account ==> (r matches Some(m) && m@
            == "No account selected \u{2014} add one in Accounts"@),
        has_instance && has_account && running ==> (r matches Some(m) && m@
            == "A game is already running"@),
        has_instance && has_account && !running ==> r is None,
{
    if !has_instance {
        Some("No instance selected")
    } else if !has_account {
        Some("No account selected \u{2014} add one in Accounts")
    } else if running {
        Some("A game is already running")
    } else {
        None
    }
}

// ---------------------------------------------------------------------------
// Overlay click regions
// ---------------------------------------------------------------------------

/// What the click regions of an overlay depend on.
#[derive(Debug, Clone, Copy, PartialEq, Eq, Structural)]
pub enum OverlayView {
    Text,
    /// A form with this many fields.
    Form(usize),
    Confirm,
    Message,
    DeviceCode,
    /// A picker listing `len` matches with `selected` highlighted.
    Picker { selected: usize, len: usize },
}

/// `a - b`, or zero.
pub open spec fn sat_sub(a: nat, b: nat) -> nat {
    if a >= b {
        (a - b) as nat
    } else {
        0
    }
}

/// The inside of a popup: less a two-column left margin, a one-column right
/// margin and a one-row border above and below.
pub open spec fn content_area(p: Rect) -> Rect {
    Rect {
        x: (p.x + 2) as u16,
        y: (p.y + 1) as u16,
        width: sat_sub(p.width as nat, 3) as u16,
        height: sat_sub(p.height as nat, 2) as u16,
    }
}

/// The last area (`x`, `y`, `width`, `height`) of `ratatui`'s vertical
/// layout of the area `x`, `y`, `width`, `height` into `headers` rows of
/// one line and a last area of at least one line.
pub uninterp spec fn rows_after_headers(x: u16, y: u16, width: u16, height: u16, headers: nat) -> (
    u16,
    u16,
    u16,
    u16,
);

/// Calls `Layout::split` of `ratatui` on `area` with `headers` one-line rows
/// (`Constraint::Length(1)`) and a last row of at least one line
/// (`Constraint::Min(1)`), and returns the last area. The result is named by
/// `rows_after_headers`; the crate's source (`changes_to_rects`) also shows
/// that a vertical split keeps the area's column and width, and that an
/// area's end (`y + height`) is a `u16` end point. Which rows the solver
/// picks is left unsaid.
#[verifier::external_body]
fn split_after_headers(area: Rect, headers: usize) -> (r: Rect)
    ensures
        (r.x, r.y, r.width, r.height) == rows_after_headers(
            area.x,
            area.y,
            area.width,
            area.height,
            headers as nat,
        ),
        r.x == area.x,
        r.width == area.width,
        r.y + r.height <= u16::MAX,
{
    let mut constraints = vec![ratatui::layout::Constraint::Length(1); headers];
    constraints.push(ratatui::layout::Constraint::Min(1));
    let whole = ratatui::layout::Rect { x: area.x, y: area.y, width: area.width, height: area.height };
    let rows = ratatui::layout::Layout::vertical(constraints).split(whole);
    let last = rows[headers];
    Rect { x: last.x, y: last.y, width: last.width, height: last.height }
}

/// The area below `headers` one-line rows inside a popup.
pub open spec fn body_area(p: Rect, headers: nat) -> Rect {
    let c = content_area(p);
    let r = rows_after_headers(c.x, c.y, c.width, c.height, headers);
    Rect { x: r.0, y: r.1, width: r.2, height: r.3 }
}

/// A region, kept only when it is not empty.
pub open spec fn keep(r: Rect, a: HitAction) -> Seq<Hitbox> {
    if r.width > 0 && r.height > 0 {
        seq![Hitbox { rect: r, action: a }]
    } else {
        Seq::empty()
    }
}

/// Field regions of a form from field `idx` on, two rows each from row `y`
/// while they fit in `area`, then the submit hint one row below the last
/// (dropped when that row is past the last screen row).
pub open spec fn form_boxes(area: Rect, n: nat, idx: nat, y: nat) -> Seq<Hitbox>
    decreases n - idx,
{
    if idx >= n || y + 2 > area.y + area.height {
        if y + 1 <= u16::MAX {
            keep(
                Rect { x: area.x, y: (y + 1) as u16, width: area.width, height: 1 },
                HitAction::Overlay(OverlayAction::FormSubmit),
            )
        } else {
            Seq::empty()
        }
    } else {
        keep(
            Rect { x: area.x, y: y as u16, width: area.width, height: 2 },
            HitAction::Overlay(OverlayAction::FormField(idx as usize)),
        ) + form_boxes(area, n, idx + 1, y + 2)
    }
}

/// First match shown by a picker whose list shows `visible` rows: the
/// window scrolls just far enough to show the selection.
pub open spec fn picker_start(selected: nat, visible: nat) -> nat {
    sat_sub(selected, sat_sub(visible, 1))
}

/// Picker rows from row `row` on: each shown match is one clickable row.
pub open spec fn picker_boxes(area: Rect, start: nat, len: nat, row: nat) -> Seq<Hitbox>
    decreases area.height - row,
{
    if row >= area.height || start + row >= len {
        Seq::empty()
    } else {
        keep(
            Rect { x: area.x, y: (area.y + row) as u16, width: area.width, height: 1 },
            HitAction::Overlay(OverlayAction::PickerItem((start + row) as usize)),
        ) + picker_boxes(area, start, len, row + 1)
    }
}

/// The click regions of an overlay drawn in `popup`: a text prompt is one
/// region, a confirmation splits into a yes half and a no half, a message
/// closes on a click anywhere, a form has one region per shown field (below
/// its title and a blank row) and a submit hint, a picker one per shown
/// match (below its title, a blank row and the filter); the sign-in code
/// has none.
pub open spec fn overlay_hitboxes_spec(kind: OverlayView, popup: Rect) -> Seq<Hitbox> {
    match kind {
        OverlayView::Text => keep(popup, HitAction::Overlay(OverlayAction::TextDone)),
        OverlayView::Message => keep(popup, HitAction::Overlay(OverlayAction::MessageClose)),
        OverlayView::DeviceCode => Seq::empty(),
        OverlayView::Confirm => {
            let mid = popup.width / 2;
            keep(
                Rect { x: popup.x, y: popup.y, width: mid as u16, height: popup.height },
                HitAction::Overlay(OverlayAction::ConfirmYes),
            ) + keep(
                Rect {
                    x: (popup.x + mid) as u16,
                    y: popup.y,
                    width: (popup.width - mid) as u16,
                    height: popup.height,
                },
                HitAction::Overlay(OverlayAction::ConfirmNo),
            )
        },
        OverlayView::Form(n) => {
            let area = body_area(popup, 2);
            form_boxes(area, n as nat, 0, area.y as nat)
        },
        OverlayView::Picker { selected, len } => {
            let area = body_area(popup, 3);
            picker_boxes(area, picker_start(selected as nat, area.height as nat), len as nat, 0)
        },
    }
}

/// The popup's coordinates leave room for what the overlay computes: the
/// middle of a confirmation, and the inside of a form or picker.
pub open spec fn popup_ok(kind: OverlayView, p: Rect) -> bool {
    match kind {
        OverlayView::Confirm => p.x + p.width / 2 <= u16::MAX,
        OverlayView::Form(_) | OverlayView::Picker { .. } => p.x + 2 <= u16::MAX && p.y + 1
            <= u16::MAX,
        _ => true,
    }
}

fn push_kept(out: &mut Vec<Hitbox>, r: Rect, a: HitAction)
    ensures
        final(out)@ == old(out)@ + keep(r, a),
{
    if r.width > 0 && r.height > 0 {
        out.push(Hitbox { rect: r, action: a });
    }
    assert(final(out)@ =~= old(out)@ + keep(r, a)) by {}
}

fn content_of(popup: Rect) -> (r: Rect)
    requires
        popup.x + 2 <= u16::MAX,
        popup.y + 1 <= u16::MAX,
    ensures
        r == content_area(popup),
{
    Rect {
        x: popup.x + 2,
        y: popup.y + 1,
        width: popup.width.saturating_sub(3),
        height: popup.height.saturating_sub(2),
    }
}

/// The click regions of an overlay drawn in `popup`.
pub fn overlay_hitboxes(kind: OverlayView, popup: Rect) -> (r: Vec<Hitbox>)
    requires
        popup_ok(kind, popup),
    ensures
        r@ == overlay_hitboxes_spec(kind, popup),
{
    let mut out: Vec<Hitbox> = Vec::new();
    match kind {
        OverlayView::Text => {
            push_kept(&mut out, popup, HitAction::Overlay(OverlayAction::TextDone));
            assert(out@ =~= overlay_hitboxes_spec(kind, popup));
        },
        OverlayView::Message => {
            push_kept(&mut out, popup, HitAction::Overlay(OverlayAction::MessageClose));
            assert(out@ =~= overlay_hitboxes_spec(kind, popup));
        },
        OverlayView::DeviceCode => {
            assert(out@ =~= overlay_hitboxes_spec(kind, popup));
        },
        OverlayView::Confirm => {
            let mid = popup.width / 2;
            push_kept(
                &mut out,
                Rect { x: popup.x, y: popup.y, width: mid, height: popup.height },
                HitAction::Overlay(OverlayAction::ConfirmYes),
            );
            push_kept(
                &mut out,
                Rect { x: popup.x + mid, y: popup.y, width: popup.width - mid, height: popup.height },
                HitAction::Overlay(OverlayAction::ConfirmNo),
            );
            assert(out@ =~= overlay_hitboxes_spec(kind, popup));
        },
        OverlayView::Form(n) => {
            let area = split_after_headers(content_of(popup), 2);
            assert(area == body_area(popup, 2));
            let ghost goal = form_boxes(area, n as nat, 0, area.y as nat);
            let mut idx: usize = 0;
            let mut y: u16 = area.y;
            while idx < n && y as u32 + 2 <= area.y as u32 + area.height as u32
                invariant
                    0 <= idx <= n,
                    area.y <= y,
                    y == area.y || y <= area.y + area.height,
                    area.y + area.height <= u16::MAX,
                    out@ + form_boxes(area, n as nat, idx as nat, y as nat) == goal,
                decreases n - idx,
            {
                let ghost before = out@;
                push_kept(
                    &mut out,
                    Rect { x: area.x, y, width: area.width, height: 2 },
                    HitAction::Overlay(OverlayAction::FormField(idx)),
                );
                assert(before + (keep(
                    Rect { x: area.x, y: y, width: area.width, height: 2 },
                    HitAction::Overlay(OverlayAction::FormField(idx)),
                ) + form_boxes(area, n as nat, (idx + 1) as nat, (y + 2) as nat)) =~= out@
                    + form_boxes(area, n as nat, (idx + 1) as nat, (y + 2) as nat));
                idx = idx + 1;
                y = y + 2;
            }
            if y < u16::MAX {
                push_kept(
                    &mut out,
                    Rect { x: area.x, y: y + 1, width: area.width, height: 1 },
                    HitAction::Overlay(OverlayAction::FormSubmit),
                );
            }
            assert(out@ =~= goal);
        },
        OverlayView::Picker { selected, len } => {
            let area = split_after_headers(content_of(popup), 3);
            assert(area == body_area(popup, 3));
            let visible = area.height as usize;
            let start = selected.saturating_sub(visible.saturating_sub(1));
            let ghost goal = picker_boxes(area, start as nat, len as nat, 0);
            assert(start + visible <= usize::MAX + 1);
            let mut row: usize = 0;
            while row < visible
                invariant
                    visible == area.height,
                    start <= selected,
                    start + visible <= usize::MAX + 1,
                    area.y + area.height <= u16::MAX,
                    0 <= row <= visible,
                    out@ + picker_boxes(area, start as nat, len as nat, row as nat) == goal,
                ensures
                    out@ + picker_boxes(area, start as nat, len as nat, row as nat) == goal,
                    row >= visible || start + row >= len,
                decreases visible - row,
            {
                if start + row >= len {
                    break;
                }
                let ghost before = out@;
                push_kept(
                    &mut out,
                    Rect { x: area.x, y: area.y + row as u16, width: area.width, height: 1 },
                    HitAction::Overlay(OverlayAction::PickerItem(start + row)),
                );
                assert(before + (keep(
                    Rect { x: area.x, y: (area.y + row) as u16, width: area.width, height: 1 },
                    HitAction::Overlay(OverlayAction::PickerItem((start + row) as usize)),
                ) + picker_boxes(area, start as nat, len as nat, (row + 1) as nat)) =~= out@
                    + picker_boxes(area, start as nat, len as nat, (row + 1) as nat));
                row = row + 1;
            }
            assert(picker_boxes(area, start as nat, len as nat, row as nat) == Seq::<Hitbox>::empty());
            assert(out@ =~= goal);
        },
    }
    out
}

} // verus!
