use mc_tui::nav::{ButtonId, HitAction, Nav};
use mc_tui::ui::{
    ensure_screenshot_visible, ensure_world_visible, expired_after, expire_toast, expire_toast_after,
    hit_action_at,
    is_hovered, move_selection, push_hitbox, rect_contains, split_args, truncate_str, Hitbox,
    LogView, Rect, Toast,
};

fn rect(x: u16, y: u16, width: u16, height: u16) -> Rect {
    Rect { x, y, width, height }
}

#[test]
fn rect_edges() {
    let r = rect(2, 3, 4, 2);
    assert!(rect_contains(r, (2, 3)));
    assert!(rect_contains(r, (5, 4)));
    assert!(!rect_contains(r, (6, 4)));
    assert!(!rect_contains(r, (5, 5)));
    assert!(!rect_contains(r, (1, 3)));
    assert!(!rect_contains(rect(0, 0, 0, 5), (0, 0)));
    let edge = rect(u16::MAX - 1, 0, 10, 1);
    assert!(rect_contains(edge, (u16::MAX - 1, 0)));
    assert!(!rect_contains(edge, (u16::MAX, 0)));
}

#[test]
fn first_registered_region_wins() {
    let mut boxes: Vec<Hitbox> = Vec::new();
    push_hitbox(&mut boxes, rect(0, 0, 10, 10), HitAction::NavItem(Nav::Mods));
    push_hitbox(&mut boxes, rect(5, 5, 10, 10), HitAction::Button(ButtonId::Launch));
    push_hitbox(&mut boxes, rect(0, 0, 0, 3), HitAction::AddInstance);
    assert_eq!(boxes.len(), 2);
    assert_eq!(hit_action_at(&boxes, (6, 6)), Some(HitAction::NavItem(Nav::Mods)));
    assert_eq!(hit_action_at(&boxes, (12, 12)), Some(HitAction::Button(ButtonId::Launch)));
    assert_eq!(hit_action_at(&boxes, (20, 20)), None);
    assert!(is_hovered(Some((1, 1)), rect(0, 0, 2, 2)));
    assert!(!is_hovered(None, rect(0, 0, 2, 2)));
}

#[test]
fn selection_moves_within_the_list() {
    assert_eq!(move_selection(None, 0, 3), None);
    assert_eq!(move_selection(Some(4), 0, -1), None);
    assert_eq!(move_selection(None, 5, 0), Some(0));
    assert_eq!(move_selection(None, 5, 2), Some(2));
    assert_eq!(move_selection(Some(3), 5, 4), Some(4));
    assert_eq!(move_selection(Some(3), 5, -4), Some(0));
    assert_eq!(move_selection(Some(2), 5, 1), Some(3));
    assert_eq!(move_selection(move_selection(Some(2), 5, 2), 5, -2), Some(2));
}

#[test]
fn log_follows_by_default_and_stops_when_scrolled_up() {
    let mut view = LogView { scroll: 0, follow: true, visible: 10 };
    view.scroll_logs(200, 5);
    assert!(view.follow, "should follow by default");
    assert_eq!(view.scroll, 190);
    view.scroll_logs(200, -3);
    assert!(!view.follow, "scrolling up should stop following");
    assert_eq!(view.scroll, 187);
    view.scroll_logs(200, 3);
    assert!(view.follow);
    view.scroll_logs(200, -500);
    assert_eq!(view.scroll, 0);
    assert!(!view.follow);
    view.jump_logs(true);
    assert!(view.follow, "jump to bottom re-enables follow");
    view.jump_logs(false);
    assert_eq!((view.scroll, view.follow), (0, false));
}

#[test]
fn short_logs_always_follow() {
    let mut view = LogView { scroll: 0, follow: false, visible: 0 };
    view.scroll_logs(1, -1);
    assert_eq!(view.scroll, 0);
    assert!(view.follow);
}

#[test]
fn selected_world_is_scrolled_into_view() {
    assert_eq!(ensure_world_visible(None, 7, 5, 20), 7);
    assert_eq!(ensure_world_visible(Some(2), 7, 5, 20), 2);
    assert_eq!(ensure_world_visible(Some(15), 7, 5, 20), 11);
    assert_eq!(ensure_world_visible(Some(9), 7, 5, 20), 7);
    assert_eq!(ensure_world_visible(Some(3), 10, 5, 6), 1);
    assert_eq!(ensure_world_visible(Some(3), 0, 0, 10), 3);
}

#[test]
fn selected_screenshot_row_is_scrolled_into_view() {
    // 3 columns, 2 visible rows, 10 shots = 4 rows.
    assert_eq!(ensure_screenshot_visible(Some(9), 0, 3, 2, 10), 2);
    assert_eq!(ensure_screenshot_visible(Some(0), 2, 3, 2, 10), 0);
    assert_eq!(ensure_screenshot_visible(Some(4), 1, 3, 2, 10), 1);
    assert_eq!(ensure_screenshot_visible(Some(4), 1, 0, 2, 10), 3);
    assert_eq!(ensure_screenshot_visible(None, 5, 3, 2, 10), 5);
}

#[test]
fn truncation_marks_cuts() {
    assert_eq!(truncate_str("hello", 0), "");
    assert_eq!(truncate_str("hello", 5), "hello");
    assert_eq!(truncate_str("hello", 9), "hello");
    assert_eq!(truncate_str("hello", 4), "hel\u{2026}");
    assert_eq!(truncate_str("hello", 1), "\u{2026}");
    assert_eq!(truncate_str("日本語テキスト", 3), "日\u{2026}");
    assert_eq!(truncate_str("日日日日", 3), "日\u{2026}");
    assert_eq!(truncate_str("日日", 4), "日日");
    assert_eq!(truncate_str("日日", 3), "日\u{2026}");
    assert_eq!(truncate_str("日日", 2), "\u{2026}");
}

#[test]
fn arguments_split_on_white_space() {
    assert_eq!(split_args("  -Xmx2G   -XX:+UseG1GC\t--demo "), vec!["-Xmx2G", "-XX:+UseG1GC", "--demo"]);
    assert!(split_args("   ").is_empty());
    assert!(split_args("").is_empty());
}

#[test]
fn notices_expire_after_six_seconds() {
    assert!(!expired_after(6_000_000_000));
    assert!(expired_after(6_000_000_001));
    assert!(!expired_after(0));
    let toast = Toast::new("Saved".to_string(), false);
    assert_eq!(toast.message, "Saved");
    assert!(!toast.error);
    assert!(!toast.is_expired());
    let mut slot = Some(toast);
    expire_toast(&mut slot);
    assert!(slot.is_some());
    let mut none: Option<Toast> = None;
    expire_toast(&mut none);
    assert!(none.is_none());
}

#[test]
fn notices_are_dropped_only_past_their_lifetime() {
    let mut toast = Some(Toast::new("saved".to_string(), false));
    expire_toast_after(&mut toast, 6_000_000_000);
    assert_eq!(toast.as_ref().map(|t| t.message.as_str()), Some("saved"));
    expire_toast_after(&mut toast, 6_000_000_001);
    assert!(toast.is_none());
    let mut none: Option<Toast> = None;
    expire_toast_after(&mut none, u128::MAX);
    assert!(none.is_none());
}
