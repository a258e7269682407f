use mc_tui::forms::{FieldKind, Form, FormAction, PickerTarget, VersionPicker, parse_label};

#[test]
fn form_navigation_wraps() {
    let mut form = Form::new("t", FormAction::CreateInstance)
        .push_text("A", "a")
        .push_text("B", "b");
    assert_eq!(form.active, 0);
    form.prev_field();
    assert_eq!(form.active, 1);
    form.next_field();
    assert_eq!(form.active, 0);
}

#[test]
fn form_editing_and_choice() {
    let mut form = Form::new("t", FormAction::CreateInstance)
        .push_text("Name", "")
        .push_choice("Loader", vec!["Vanilla".into(), "Fabric".into()], 0);
    form.input_char('H');
    form.input_char('i');
    assert_eq!(form.text_value("Name"), Some("Hi"));
    form.active = 1;
    form.cycle(true);
    assert_eq!(form.choice_value("Loader"), Some("Fabric"));
    form.cycle(false);
    assert_eq!(form.choice_value("Loader"), Some("Vanilla"));
}

#[test]
fn bool_toggle() {
    let mut form =
        Form::new("t", FormAction::EditInstanceSettings).push_bool("Fullscreen", false);
    form.cycle(true);
    assert_eq!(form.bool_value("Fullscreen"), Some(true));
}

fn loader_labels() -> Vec<String> {
    ["Vanilla", "Fabric", "Forge", "NeoForge", "Quilt"]
        .iter()
        .map(|s| s.to_string())
        .collect()
}

#[test]
fn loader_round_trip() {
    let labels = loader_labels();
    for (i, label) in labels.iter().enumerate() {
        assert_eq!(parse_label(&labels, label, 0), i);
    }
}

#[test]
fn parse_label_ignores_ascii_case_and_falls_back() {
    let labels = loader_labels();
    assert_eq!(parse_label(&labels, "fabric", 0), 1);
    assert_eq!(parse_label(&labels, "NEOFORGE", 0), 3);
    assert_eq!(parse_label(&labels, "Rift", 0), 0);
    assert_eq!(parse_label(&labels, "Rift", 4), 4);
    assert_eq!(parse_label(&Vec::new(), "Fabric", 2), 2);
}

#[test]
fn next_then_prev_returns_to_the_same_field() {
    let mut form = Form::new("t", FormAction::CreateInstance)
        .push_text("A", "")
        .push_text("B", "")
        .push_text("C", "");
    for start in 0..3 {
        form.active = start;
        form.next_field();
        form.prev_field();
        assert_eq!(form.active, start);
        form.prev_field();
        form.next_field();
        assert_eq!(form.active, start);
    }
    form.active = 2;
    form.next_field();
    assert_eq!(form.active, 0);
}

#[test]
fn navigation_of_an_empty_form_does_nothing() {
    let mut form = Form::new("empty", FormAction::OfflineLogin);
    form.next_field();
    form.prev_field();
    assert_eq!(form.active, 0);
    form.input_char('x');
    form.backspace();
    form.cycle(true);
    assert!(form.fields.is_empty());
}

#[test]
fn typing_then_erasing_restores_text() {
    let mut form = Form::new("t", FormAction::OfflineLogin).push_text("Username", "Steve");
    form.input_char('!');
    assert_eq!(form.text_value("Username"), Some("Steve!"));
    form.backspace();
    assert_eq!(form.text_value("Username"), Some("Steve"));
    for _ in 0..10 {
        form.backspace();
    }
    assert_eq!(form.text_value("Username"), Some(""));
}

#[test]
fn typing_skips_choice_and_bool_fields() {
    let mut form = Form::new("t", FormAction::EditLauncherSettings)
        .push_choice("GC", vec!["G1".into(), "ZGC".into()], 1)
        .push_bool("Confirm quit", true);
    form.input_char('x');
    form.backspace();
    assert_eq!(form.choice_value("GC"), Some("ZGC"));
    form.active = 1;
    form.input_char('x');
    assert_eq!(form.bool_value("Confirm quit"), Some(true));
    assert_eq!(form.text_value("Confirm quit"), Some("yes"));
}

#[test]
fn bool_toggles_twice_back() {
    let mut form = Form::new("t", FormAction::EditInstanceSettings).push_bool("Fullscreen", true);
    assert_eq!(form.text_value("Fullscreen"), Some("yes"));
    form.cycle(false);
    assert_eq!(form.bool_value("Fullscreen"), Some(false));
    assert_eq!(form.text_value("Fullscreen"), Some("no"));
    form.cycle(true);
    assert_eq!(form.bool_value("Fullscreen"), Some(true));
    assert_eq!(form.text_value("Fullscreen"), Some("yes"));
}

#[test]
fn choice_wraps_in_both_directions() {
    let mut form = Form::new("t", FormAction::CreateInstance).push_choice(
        "Loader",
        vec!["Vanilla".into(), "Fabric".into(), "Quilt".into()],
        0,
    );
    form.cycle(false);
    assert_eq!(form.choice_value("Loader"), Some("Quilt"));
    form.cycle(true);
    assert_eq!(form.choice_value("Loader"), Some("Vanilla"));
    match &form.fields[0].kind {
        FieldKind::Choice { selected, .. } => assert_eq!(*selected, 0),
        _ => panic!("expected a choice field"),
    }
}

#[test]
fn choice_out_of_range_shows_nothing() {
    let form = Form::new("t", FormAction::CreateInstance).push_choice(
        "Loader",
        vec!["Vanilla".into()],
        5,
    );
    assert_eq!(form.choice_value("Loader"), Some(""));
}

#[test]
fn number_fields_read_back() {
    let mut form = Form::new("t", FormAction::EditInstanceSettings)
        .push_number("Min RAM", 512)
        .push_number("Max RAM", 4096)
        .push_text("Raw", " 42 ")
        .push_text("Bad", "4x");
    assert_eq!(form.number_value("Min RAM"), Some(512));
    assert_eq!(form.number_value("Max RAM"), Some(4096));
    assert_eq!(form.text_value("Max RAM"), Some("4096"));
    assert_eq!(form.number_value("Raw"), Some(42));
    assert_eq!(form.number_value("Bad"), None);
    assert_eq!(form.number_value("Missing"), None);
    form.active = 0;
    form.input_char('0');
    assert_eq!(form.number_value("Min RAM"), Some(5120));
    let big = Form::new("t", FormAction::EditInstanceSettings).push_text("N", "4294967296");
    assert_eq!(big.number_value("N"), None);
    let max = Form::new("t", FormAction::EditInstanceSettings).push_number("N", u32::MAX);
    assert_eq!(max.number_value("N"), Some(u32::MAX));
}

#[test]
fn first_field_with_a_label_wins() {
    let form = Form::new("t", FormAction::CreateInstance)
        .push_text("Name", "first")
        .push_text("Name", "second");
    assert_eq!(form.text_value("Name"), Some("first"));
    assert!(form.field("Other").is_none());
    assert_eq!(form.bool_value("Name"), None);
}

#[test]
fn hints_attach_to_the_last_field() {
    let form = Form::new("Settings", FormAction::EditLauncherSettings)
        .push_text("Java", "")
        .with_hint("path to java")
        .push_text("Args", "");
    assert_eq!(form.fields[0].hint, "path to java");
    assert_eq!(form.fields[1].hint, "");
    assert_eq!(form.title, "Settings");
    let empty = Form::new("t", FormAction::CreateInstance).with_hint("ignored");
    assert!(empty.fields.is_empty());
}

#[test]
fn editable_fields_are_text_and_number() {
    let form = Form::new("t", FormAction::CreateInstance)
        .push_text("T", "")
        .push_number("N", 1)
        .push_choice("C", vec!["a".into()], 0)
        .push_bool("B", false);
    let flags: Vec<bool> = form.fields.iter().map(|f| f.editable()).collect();
    assert_eq!(flags, vec![true, true, false, false]);
}

fn versions() -> Vec<String> {
    ["1.21.1", "1.20.1", "1.19.4", "24w14a"].iter().map(|s| s.to_string()).collect()
}

#[test]
fn picker_filters_and_selects() {
    let mut picker = VersionPicker::new("Minecraft Version", versions(), PickerTarget::WizardGame);
    assert_eq!(picker.filtered, vec![0, 1, 2, 3]);
    assert_eq!(picker.selected_value(), Some("1.21.1"));
    picker.query.push_str("1.2");
    picker.refilter();
    assert_eq!(picker.filtered, vec![0, 1]);
    picker.move_selection(1);
    assert_eq!(picker.selected_value(), Some("1.20.1"));
    picker.move_selection(5);
    assert_eq!(picker.selected, 1);
    picker.move_selection(-7);
    assert_eq!(picker.selected, 0);
    picker.query = "W14".to_string();
    picker.refilter();
    assert_eq!(picker.filtered, vec![3]);
    picker.query = "nothing".to_string();
    picker.refilter();
    assert!(picker.filtered.is_empty());
    assert_eq!(picker.selected_value(), None);
    picker.move_selection(1);
    assert_eq!(picker.selected, 0);
}

#[test]
fn stepping_from_far_past_the_end_wraps_by_remainder() {
    let mut form = Form::new("t", FormAction::CreateInstance)
        .push_text("A", "a")
        .push_text("B", "b")
        .push_text("C", "c");
    form.active = usize::MAX;
    form.next_field();
    assert_eq!(form.active, 1);
    form.active = usize::MAX;
    form.prev_field();
    assert_eq!(form.active, 2);

    let opts = vec!["x".to_string(), "y".to_string(), "z".to_string()];
    let mut form = Form::new("t", FormAction::CreateInstance).push_choice("L", opts, 0);
    if let FieldKind::Choice { selected, .. } = &mut form.fields[0].kind {
        *selected = usize::MAX;
    }
    form.cycle(true);
    assert_eq!(form.fields[0].value, "y");
    if let FieldKind::Choice { selected, .. } = &mut form.fields[0].kind {
        *selected = usize::MAX;
    }
    form.cycle(false);
    assert_eq!(form.fields[0].value, "z");
}
