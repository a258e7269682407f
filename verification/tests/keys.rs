use mc_tui::forms::{Form, FormAction, PickerTarget, VersionPicker};
use mc_tui::keys::{
    confirm_key, form_key, global_key, message_key, picker_key, sidebar_key, text_prompt_key,
    toggle_focus, ConfirmKey, GlobalKey, Key, KeyPress, PickerKey, PromptKey, SidebarKey,
};
use mc_tui::nav::{Focus, Nav};

fn press(code: Key) -> KeyPress {
    KeyPress { code, ctrl: false, plain: true }
}

#[test]
fn global_keys() {
    assert_eq!(global_key(true, false, Nav::Instances, press(Key::Char('q'))), GlobalKey::Overlay);
    assert_eq!(global_key(false, false, Nav::Instances, press(Key::Char('q'))), GlobalKey::RequestQuit);
    assert_eq!(global_key(false, true, Nav::Instances, press(Key::Char('q'))), GlobalKey::View);
    let ctrl_c = KeyPress { code: Key::Char('c'), ctrl: true, plain: false };
    assert_eq!(global_key(false, true, Nav::Logs, ctrl_c), GlobalKey::ForceQuit);
    let ctrl_q = KeyPress { code: Key::Char('q'), ctrl: true, plain: false };
    assert_eq!(global_key(false, false, Nav::Logs, ctrl_q), GlobalKey::View);
    assert_eq!(global_key(false, false, Nav::Logs, press(Key::Char('?'))), GlobalKey::Help);
    assert_eq!(global_key(false, false, Nav::Logs, press(Key::Tab)), GlobalKey::ToggleFocus);
    assert_eq!(global_key(false, false, Nav::Logs, press(Key::BackTab)), GlobalKey::ToggleFocus);
    assert_eq!(global_key(false, false, Nav::Logs, press(Key::F(2))), GlobalKey::OpenNav(Nav::Accounts));
    assert_eq!(global_key(false, false, Nav::Logs, press(Key::F(3))), GlobalKey::OpenNav(Nav::Launcher));
    assert_eq!(global_key(false, false, Nav::Logs, press(Key::F(4))), GlobalKey::OpenNav(Nav::Modpacks));
    assert_eq!(global_key(false, false, Nav::Logs, press(Key::F(5))), GlobalKey::View);
    assert_eq!(global_key(false, false, Nav::Logs, press(Key::Char('1'))), GlobalKey::OpenNav(Nav::Instances));
    assert_eq!(global_key(false, false, Nav::Logs, press(Key::Char('3'))), GlobalKey::OpenNav(Nav::ResourcePacks));
    assert_eq!(global_key(false, false, Nav::Logs, press(Key::Char('9'))), GlobalKey::OpenNav(Nav::Logs));
    assert_eq!(global_key(false, false, Nav::Logs, press(Key::Char('0'))), GlobalKey::View);
    assert_eq!(global_key(false, false, Nav::Instances, press(Key::Char('n'))), GlobalKey::NewInstance);
    assert_eq!(global_key(false, false, Nav::Mods, press(Key::Char('n'))), GlobalKey::View);
}

#[test]
fn digits_open_the_numbered_page() {
    for nav in Nav::menu() {
        let n = nav.number().expect("menu pages are numbered");
        let c = char::from(b'0' + n as u8);
        assert_eq!(global_key(false, false, Nav::Instances, press(Key::Char(c))), GlobalKey::OpenNav(nav));
    }
}

#[test]
fn focus_toggles() {
    assert_eq!(toggle_focus(Focus::Sidebar), Focus::Content);
    assert_eq!(toggle_focus(Focus::Content), Focus::Sidebar);
    assert_eq!(toggle_focus(toggle_focus(Focus::Content)), Focus::Content);
}

#[test]
fn sidebar_moves_through_the_menu() {
    assert_eq!(sidebar_key(Nav::Instances, Key::Down), SidebarKey::Open(Nav::Mods));
    assert_eq!(sidebar_key(Nav::Instances, Key::Up), SidebarKey::Open(Nav::Instances));
    assert_eq!(sidebar_key(Nav::Logs, Key::Char('j')), SidebarKey::Open(Nav::Logs));
    assert_eq!(sidebar_key(Nav::Logs, Key::Char('k')), SidebarKey::Open(Nav::Jvm));
    assert_eq!(sidebar_key(Nav::Browse, Key::Down), SidebarKey::Open(Nav::Mods));
    assert_eq!(sidebar_key(Nav::Mods, Key::Enter), SidebarKey::FocusContent);
    assert_eq!(sidebar_key(Nav::Mods, Key::Esc), SidebarKey::Ignore);
    let menu = Nav::menu();
    for i in 0..menu.len() - 1 {
        let SidebarKey::Open(next) = sidebar_key(menu[i], Key::Down) else {
            panic!("down opens a page");
        };
        assert_eq!(sidebar_key(next, Key::Up), SidebarKey::Open(menu[i]));
    }
}

#[test]
fn text_prompt_editing() {
    let mut value = String::from("ab");
    assert_eq!(text_prompt_key(&mut value, Key::Char('c')), PromptKey::Stay);
    assert_eq!(value, "abc");
    assert_eq!(text_prompt_key(&mut value, Key::Backspace), PromptKey::Stay);
    assert_eq!(value, "ab");
    assert_eq!(text_prompt_key(&mut value, Key::Left), PromptKey::Stay);
    assert_eq!(text_prompt_key(&mut value, Key::Enter), PromptKey::Submit);
    assert_eq!(text_prompt_key(&mut value, Key::Esc), PromptKey::Close);
    assert_eq!(value, "ab");
}

#[test]
fn form_overlay_keys() {
    let mut form = Form::new("t", FormAction::CreateInstance)
        .push_text("Name", "")
        .push_bool("Fullscreen", false);
    assert_eq!(form_key(&mut form, Key::Char('x')), PromptKey::Stay);
    assert_eq!(form.text_value("Name"), Some("x"));
    assert_eq!(form_key(&mut form, Key::Char(' ')), PromptKey::Stay);
    assert_eq!(form.text_value("Name"), Some("x"));
    form_key(&mut form, Key::Down);
    assert_eq!(form.active, 1);
    form_key(&mut form, Key::Char(' '));
    assert_eq!(form.bool_value("Fullscreen"), Some(true));
    form_key(&mut form, Key::Left);
    assert_eq!(form.bool_value("Fullscreen"), Some(false));
    form_key(&mut form, Key::Tab);
    assert_eq!(form.active, 0);
    form_key(&mut form, Key::Up);
    assert_eq!(form.active, 1);
    assert_eq!(form_key(&mut form, Key::Enter), PromptKey::Submit);
    assert_eq!(form_key(&mut form, Key::Esc), PromptKey::Close);
}

#[test]
fn dialog_keys() {
    assert_eq!(confirm_key(Key::Char('y')), ConfirmKey::Accept);
    assert_eq!(confirm_key(Key::Char('Y')), ConfirmKey::Accept);
    assert_eq!(confirm_key(Key::Enter), ConfirmKey::Accept);
    assert_eq!(confirm_key(Key::Char('n')), ConfirmKey::Dismiss);
    assert_eq!(confirm_key(Key::Esc), ConfirmKey::Dismiss);
    assert_eq!(confirm_key(Key::Char('x')), ConfirmKey::Stay);
    assert!(message_key(Key::Enter));
    assert!(message_key(Key::Esc));
    assert!(!message_key(Key::Char(' ')));
}

#[test]
fn picker_overlay_keys() {
    let items: Vec<String> = vec!["1.21.1".into(), "1.20.1".into(), "1.19.2".into()];
    let mut picker = VersionPicker::new("Minecraft Version", items, PickerTarget::ChangeGameVersion);
    assert_eq!(picker_key(&mut picker, Key::Char('j')), PickerKey::Stay);
    assert_eq!(picker.selected, 1);
    picker_key(&mut picker, Key::Up);
    assert_eq!(picker.selected, 0);
    picker_key(&mut picker, Key::Char('2'));
    picker_key(&mut picker, Key::Char('0'));
    assert_eq!(picker.query, "20");
    assert_eq!(picker.filtered, vec![1]);
    assert_eq!(
        picker_key(&mut picker, Key::Enter),
        PickerKey::Select(PickerTarget::ChangeGameVersion, "1.20.1".to_string())
    );
    picker_key(&mut picker, Key::Backspace);
    assert_eq!(picker.query, "2");
    assert_eq!(picker.filtered, vec![0, 1, 2]);
    picker_key(&mut picker, Key::Char('z'));
    assert!(picker.filtered.is_empty());
    assert_eq!(picker_key(&mut picker, Key::Enter), PickerKey::Stay);
    assert_eq!(picker_key(&mut picker, Key::Esc), PickerKey::Cancel);
}
