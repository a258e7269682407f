use mc_tui::settings::{default_max_memory, default_min_memory, default_true, AsciiBgAnchor};

#[test]
fn anchor_labels_and_order() {
    let labels: Vec<&str> = AsciiBgAnchor::ALL.iter().map(|a| a.label()).collect();
    assert_eq!(labels, vec!["Top-Left", "Top-Right", "Bottom-Left", "Bottom-Right"]);
    for (i, a) in AsciiBgAnchor::ALL.iter().enumerate() {
        assert_eq!(a.index(), i);
    }
    assert_eq!(AsciiBgAnchor::default(), AsciiBgAnchor::BottomRight);
}

#[test]
fn anchor_cycles_wrap_and_invert() {
    assert_eq!(AsciiBgAnchor::BottomRight.cycle(true), AsciiBgAnchor::TopLeft);
    assert_eq!(AsciiBgAnchor::TopLeft.cycle(false), AsciiBgAnchor::BottomRight);
    assert_eq!(AsciiBgAnchor::TopLeft.cycle(true), AsciiBgAnchor::TopRight);
    for a in AsciiBgAnchor::ALL {
        assert_eq!(a.cycle(true).cycle(false), a);
        assert_eq!(a.cycle(false).cycle(true), a);
        assert_eq!(a.cycle(true).cycle(true).cycle(true).cycle(true), a);
    }
}

#[test]
fn memory_and_flag_defaults() {
    assert_eq!(default_min_memory(), 512);
    assert_eq!(default_max_memory(), 4096);
    assert!(default_true());
}
