use mc_tui::keys::{
    browse_install_plan, browse_page, hit_effect, BrowseClick, BrowseKind, HitEffect, InstallDir,
    InstallPlan, ListId, BROWSE_PAGE,
};
use mc_tui::nav::{ButtonId, HitAction, Nav, OverlayAction};
use mc_tui::ui::{
    launch_guard, overlay_hitboxes, reconcile_selection, Hitbox, OverlayView, Rect,
};

fn rect(x: u16, y: u16, width: u16, height: u16) -> Rect {
    Rect { x, y, width, height }
}

fn hb(r: Rect, a: OverlayAction) -> Hitbox {
    Hitbox { rect: r, action: HitAction::Overlay(a) }
}

#[test]
fn launch_guards_in_order_with_their_messages() {
    assert_eq!(launch_guard(false, false, false), Some("No instance selected"));
    assert_eq!(launch_guard(false, true, true), Some("No instance selected"));
    assert_eq!(
        launch_guard(true, false, true),
        Some("No account selected \u{2014} add one in Accounts")
    );
    assert_eq!(launch_guard(true, true, true), Some("A game is already running"));
    assert_eq!(launch_guard(true, true, false), None);
}

#[test]
fn reloaded_lists_keep_a_valid_selection() {
    assert_eq!(reconcile_selection(Some(3), 0), None);
    assert_eq!(reconcile_selection(None, 0), None);
    assert_eq!(reconcile_selection(Some(5), 3), Some(2));
    assert_eq!(reconcile_selection(None, 4), Some(0));
    assert_eq!(reconcile_selection(Some(1), 4), Some(1));
}

#[test]
fn clicks_map_to_effects() {
    assert_eq!(hit_effect(HitAction::InstanceTile(1), 2), HitEffect::SelectInstance(1));
    assert_eq!(hit_effect(HitAction::InstanceTile(2), 2), HitEffect::Nothing);
    assert_eq!(hit_effect(HitAction::NavItem(Nav::Browse), 0), HitEffect::OpenNav(Nav::Browse));
    assert_eq!(hit_effect(HitAction::AddInstance, 0), HitEffect::NewInstance);
    assert_eq!(
        hit_effect(HitAction::ModRow(4), 0),
        HitEffect::SelectRow(ListId::InstalledMods, 4)
    );
    assert_eq!(
        hit_effect(HitAction::AccountRow(0), 0),
        HitEffect::SelectRow(ListId::Accounts, 0)
    );
    assert_eq!(hit_effect(HitAction::SettingsRow(2), 0), HitEffect::SelectSetting(2));
    assert_eq!(
        hit_effect(HitAction::Button(ButtonId::Launch), 0),
        HitEffect::Press(ButtonId::Launch)
    );
    assert_eq!(
        hit_effect(HitAction::BrowseQuickInstall(3), 0),
        HitEffect::Browse(BrowseClick::QuickInstall(3))
    );
    assert_eq!(hit_effect(HitAction::BrowsePageNext, 0), HitEffect::Browse(BrowseClick::NextPage));
    assert_eq!(
        hit_effect(HitAction::Overlay(OverlayAction::FormSubmit), 0),
        HitEffect::Overlay(OverlayAction::FormSubmit)
    );
}

#[test]
fn simple_overlays_have_whole_popup_regions() {
    let p = rect(10, 5, 40, 12);
    assert_eq!(overlay_hitboxes(OverlayView::Text, p), vec![hb(p, OverlayAction::TextDone)]);
    assert_eq!(
        overlay_hitboxes(OverlayView::Message, p),
        vec![hb(p, OverlayAction::MessageClose)]
    );
    assert_eq!(overlay_hitboxes(OverlayView::DeviceCode, p), vec![]);
    assert_eq!(overlay_hitboxes(OverlayView::Text, rect(10, 5, 0, 12)), vec![]);
}

#[test]
fn confirm_splits_into_yes_and_no_halves() {
    let p = rect(4, 2, 21, 6);
    assert_eq!(
        overlay_hitboxes(OverlayView::Confirm, p),
        vec![
            hb(rect(4, 2, 10, 6), OverlayAction::ConfirmYes),
            hb(rect(14, 2, 11, 6), OverlayAction::ConfirmNo),
        ]
    );
}

#[test]
fn form_regions_stop_where_the_fields_no_longer_fit() {
    let p = rect(10, 5, 40, 10);
    assert_eq!(
        overlay_hitboxes(OverlayView::Form(2), p),
        vec![
            hb(rect(12, 8, 37, 2), OverlayAction::FormField(0)),
            hb(rect(12, 10, 37, 2), OverlayAction::FormField(1)),
            hb(rect(12, 13, 37, 1), OverlayAction::FormSubmit),
        ]
    );
    assert_eq!(
        overlay_hitboxes(OverlayView::Form(5), p),
        vec![
            hb(rect(12, 8, 37, 2), OverlayAction::FormField(0)),
            hb(rect(12, 10, 37, 2), OverlayAction::FormField(1)),
            hb(rect(12, 12, 37, 2), OverlayAction::FormField(2)),
            hb(rect(12, 15, 37, 1), OverlayAction::FormSubmit),
        ]
    );
}

#[test]
fn picker_rows_follow_the_scrolled_window() {
    let p = rect(0, 0, 30, 10);
    let boxes = overlay_hitboxes(OverlayView::Picker { selected: 7, len: 10 }, p);
    let expected: Vec<Hitbox> = (0..5u16)
        .map(|row| hb(rect(2, 4 + row, 27, 1), OverlayAction::PickerItem(3 + row as usize)))
        .collect();
    assert_eq!(boxes, expected);
    assert_eq!(
        overlay_hitboxes(OverlayView::Picker { selected: 1, len: 2 }, p),
        vec![
            hb(rect(2, 4, 27, 1), OverlayAction::PickerItem(0)),
            hb(rect(2, 5, 27, 1), OverlayAction::PickerItem(1)),
        ]
    );
    assert_eq!(overlay_hitboxes(OverlayView::Picker { selected: 0, len: 0 }, p), vec![]);
}

#[test]
fn browser_pages_by_thirty_results() {
    assert_eq!(BROWSE_PAGE, 30);
    assert_eq!(browse_page(0, 100, false, true), Some(30));
    assert_eq!(browse_page(60, 100, false, true), Some(90));
    assert_eq!(browse_page(90, 100, false, true), None);
    assert_eq!(browse_page(0, 0, false, true), Some(30));
    assert_eq!(browse_page(30, 100, true, true), None);
    assert_eq!(browse_page(30, 100, false, false), Some(0));
    assert_eq!(browse_page(10, 100, false, false), Some(0));
    assert_eq!(browse_page(0, 100, false, false), None);
    assert_eq!(browse_page(90, 100, true, false), None);
    let there = browse_page(30, 100, false, true).unwrap();
    assert_eq!(browse_page(there, 100, false, false), Some(30));
}

#[test]
fn browser_installs_need_a_project_a_version_and_a_build() {
    assert_eq!(browse_install_plan(false, 0, 3, BrowseKind::Mods, true), Err("Open a project first"));
    assert_eq!(browse_install_plan(true, 3, 3, BrowseKind::Mods, true), Err("No version selected"));
    assert_eq!(browse_install_plan(true, 0, 3, BrowseKind::Modpacks, false), Ok(InstallPlan::Modpack));
    assert_eq!(
        browse_install_plan(true, 0, 3, BrowseKind::Shaders, false),
        Err("Select an instance in the Instances tab first")
    );
    assert_eq!(
        browse_install_plan(true, 2, 3, BrowseKind::Mods, true),
        Ok(InstallPlan::IntoBuild { dir: InstallDir::Mods, with_dependencies: true })
    );
    assert_eq!(
        browse_install_plan(true, 0, 1, BrowseKind::Resourcepacks, true),
        Ok(InstallPlan::IntoBuild { dir: InstallDir::ResourcePacks, with_dependencies: false })
    );
    assert_eq!(
        browse_install_plan(true, 0, 1, BrowseKind::Shaders, true),
        Ok(InstallPlan::IntoBuild { dir: InstallDir::Shaders, with_dependencies: false })
    );
}
