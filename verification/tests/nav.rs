use mc_tui::nav::{footer_hints, settings_field_count, Nav};

#[test]
fn menu_numbers_follow_menu_order() {
    let menu = Nav::menu();
    for (i, nav) in menu.iter().enumerate() {
        assert_eq!(nav.number(), Some(i + 1));
    }
    assert_eq!(Nav::Browse.number(), None);
    assert_eq!(Nav::Accounts.number(), None);
    assert!(!menu.contains(&Nav::Browse), "Browse must not appear in the sidebar menu");
    for nav in menu {
        assert!(Nav::all().contains(&nav));
    }
    let all = Nav::all();
    assert_eq!(all.len(), 13);
    assert!(all.contains(&Nav::Browse));
    for (i, a) in all.iter().enumerate() {
        assert!(!all[i + 1..].contains(a), "{a:?} listed twice");
    }
}

#[test]
fn labels_and_icons() {
    assert_eq!(Nav::Jvm.label(), "JVM Settings");
    assert_eq!(Nav::Jvm.menu_label(), "JVM");
    assert_eq!(Nav::ResourcePacks.menu_label(), "Res Packs");
    assert_eq!(Nav::Logs.menu_label(), "Logs");
    assert_eq!(Nav::Launcher.label(), "Launcher Settings");
    assert_eq!(Nav::Instances.icon(), "\u{2302}");
    assert_eq!(Nav::Worlds.icon(), "\u{1F310}");
}

#[test]
fn build_scoped_pages() {
    assert!(!Nav::Instances.is_build_scoped());
    assert!(!Nav::Accounts.is_build_scoped());
    assert!(!Nav::Browse.is_build_scoped());
    assert!(Nav::Mods.is_build_scoped());
    assert!(Nav::Screenshots.is_build_scoped());
    for nav in Nav::menu() {
        assert_eq!(nav.is_build_scoped(), nav != Nav::Instances);
    }
}

#[test]
fn footer_hints_per_page() {
    assert_eq!(footer_hints(Nav::Versions), &[("c", "change version"), ("r", "reinstall")]);
    assert_eq!(footer_hints(Nav::Instances).len(), 8);
    assert_eq!(footer_hints(Nav::Instances)[0], ("Enter", "launch"));
    assert_eq!(footer_hints(Nav::Worlds), &[("Enter", "open folder"), ("d", "delete")]);
    assert_eq!(settings_field_count(), 7);
}
