//! Keyboard handling decisions: what a key press means for the whole
//! screen, for the sidebar, and for each kind of modal overlay.

use vstd::prelude::*;
use crate::forms::{
    backspace_post, cycle_post, input_char_post, picker_move_spec,
    refiltered, step_field_spec, Form, PickerTarget, VersionPicker,
};
use crate::nav::{
    hints_spec, menu_spec, number_spec, ButtonId, FilterItem, Focus, HitAction, Nav, OverlayAction,
};

verus! {

/// A key as the launcher distinguishes them.
#[derive(Debug, Clone, Copy, PartialEq, Eq, Structural)]
pub enum Key {
    Char(char),
    Enter,
    Esc,
    Backspace,
    Tab,
    BackTab,
    Up,
    Down,
    Left,
    Right,
    F(u8),
    Other,
}

/// A key press together with the modifier state the launcher looks at.
#[derive(Debug, Clone, Copy, PartialEq, Eq, Structural)]
pub struct KeyPress {
    pub code: Key,
    /// Control is held.
    pub ctrl: bool,
    /// No modifier at all is held.
    pub plain: bool,
}

/// What a key press does before the current page sees it.
#[derive(Debug, Clone, Copy, PartialEq, Eq, Structural)]
pub enum GlobalKey {
    /// An overlay is open and receives the key.
    Overlay,
    /// Ask to quit (possibly through a confirmation).
    RequestQuit,
    /// Quit at once.
    ForceQuit,
    /// Show the help overlay.
    Help,
    /// Switch focus between sidebar and content.
    ToggleFocus,
    /// Open a page.
    OpenNav(Nav),
    /// Open the new-instance form.
    NewInstance,
    /// Hand the key to the current page.
    View,
}

/// The menu page reached with digit `c` (`'1'` is the first entry).
pub open spec fn digit_page(c: char) -> Nav
    recommends
        '1' <= c <= '9',
{
    menu_spec()[(c as int) - ('1' as int)]
}

/// What a key press does before the current page sees it, given whether an
/// overlay is open and whether a text field captures typing.
pub open spec fn global_key_spec(overlay_open: bool, typing: bool, nav: Nav, k: KeyPress) -> GlobalKey {
    if overlay_open {
        GlobalKey::Overlay
    } else if k.code == Key::Char('q') && !typing && k.plain {
        GlobalKey::RequestQuit
    } else if k.code == Key::Char('c') && k.ctrl {
        GlobalKey::ForceQuit
    } else if k.code == Key::Char('?') && !typing {
        GlobalKey::Help
    } else if (k.code == Key::Tab || k.code == Key::BackTab) && !typing {
        GlobalKey::ToggleFocus
    } else if k.code == Key::F(2) && !typing {
        GlobalKey::OpenNav(Nav::Accounts)
    } else if k.code == Key::F(3) && !typing {
        GlobalKey::OpenNav(Nav::Launcher)
    } else if k.code == Key::F(4) && !typing {
        GlobalKey::OpenNav(Nav::Modpacks)
    } else if k.code matches Key::Char(c) && '1' <= c <= '9' && !typing {
        GlobalKey::OpenNav(digit_page(k.code->Char_0))
    } else if k.code == Key::Char('n') && !typing && nav == Nav::Instances {
        GlobalKey::NewInstance
    } else {
        GlobalKey::View
    }
}

/// Decide what a key press does before the current page sees it.
pub fn global_key(overlay_open: bool, typing: bool, nav: Nav, key: KeyPress) -> (r: GlobalKey)
    ensures
        r == global_key_spec(overlay_open, typing, nav, key),
{
    if overlay_open {
        return GlobalKey::Overlay;
    }
    match key.code {
        Key::Char('q') if !typing && key.plain => GlobalKey::RequestQuit,
        Key::Char('c') if key.ctrl => GlobalKey::ForceQuit,
        Key::Char('?') if !typing => GlobalKey::Help,
        Key::Tab if !typing => GlobalKey::ToggleFocus,
        Key::BackTab if !typing => GlobalKey::ToggleFocus,
        Key::F(2) if !typing => GlobalKey::OpenNav(Nav::Accounts),
        Key::F(3) if !typing => GlobalKey::OpenNav(Nav::Launcher),
        Key::F(4) if !typing => GlobalKey::OpenNav(Nav::Modpacks),
        Key::Char(c) if '1' <= c && c <= '9' && !typing => {
            let idx = (c as u32 - '1' as u32) as usize;
            let menu = Nav::menu();
            GlobalKey::OpenNav(menu[idx])
        },
        Key::Char('n') if !typing && nav == Nav::Instances => GlobalKey::NewInstance,
        _ => GlobalKey::View,
    }
}

/// Every digit from `1` to `9` opens the menu page with that number.
pub proof fn law_digit_opens_numbered_page(c: char, nav: Nav)
    requires
        '1' <= c <= '9',
    ensures
        global_key_spec(false, false, nav, KeyPress { code: Key::Char(c), ctrl: false, plain: true })
            matches GlobalKey::OpenNav(p) && number_spec(p) == Some(((c as int) - ('1' as int) + 1) as usize),
{
    let i = (c as int) - ('1' as int);
    assert(0 <= i < 9);
    let p = menu_spec()[i];
    assert(number_spec(p) == Some((i + 1) as usize)) by {
        if i == 0 {
        } else if i == 1 {
        } else if i == 2 {
        } else if i == 3 {
        } else if i == 4 {
        } else if i == 5 {
        } else if i == 6 {
        } else if i == 7 {
        } else {
        }
    }
}

/// While a text field captures typing, keys other than Ctrl-C reach the page.
pub proof fn law_typing_passes_keys(nav: Nav, k: KeyPress)
    requires
        !(k.code == Key::Char('c') && k.ctrl),
    ensures
        global_key_spec(false, true, nav, k) == GlobalKey::View,
{
}

// ---------------------------------------------------------------------------
// Focus and sidebar
// ---------------------------------------------------------------------------

/// The other focus region: from the sidebar to the content, from anywhere
/// else to the sidebar.
pub open spec fn toggle_spec(f: Focus) -> Focus {
    match f {
        Focus::Sidebar => Focus::Content,
        _ => Focus::Sidebar,
    }
}

/// Switch keyboard focus between sidebar and content.
pub fn toggle_focus(f: Focus) -> (r: Focus)
    ensures
        r == toggle_spec(f),
{
    match f {
        Focus::Sidebar => Focus::Content,
        _ => Focus::Sidebar,
    }
}

/// Switching focus twice returns to where one was.
pub proof fn law_toggle_twice(f: Focus)
    ensures
        toggle_spec(toggle_spec(f)) == f,
        toggle_spec(f) != f,
{
}

/// What a key does while the sidebar has focus.
#[derive(Debug, Clone, Copy, PartialEq, Eq, Structural)]
pub enum SidebarKey {
    /// Open this page.
    Open(Nav),
    /// Give focus to the content.
    FocusContent,
    /// Nothing.
    Ignore,
}

/// Position of a page in the menu; pages outside it count as the first.
pub open spec fn menu_pos(nav: Nav) -> int {
    match number_spec(nav) {
        Some(k) => k - 1,
        None => 0,
    }
}

/// What a key does while the sidebar has focus: down and up move through
/// the menu (stopping at either end), Enter gives focus to the content.
pub open spec fn sidebar_spec(nav: Nav, code: Key) -> SidebarKey {
    let i = menu_pos(nav);
    if code == Key::Down || code == Key::Char('j') {
        SidebarKey::Open(menu_spec()[if i + 1 < 9 {
            i + 1
        } else {
            8
        }])
    } else if code == Key::Up || code == Key::Char('k') {
        SidebarKey::Open(menu_spec()[if i > 0 {
            i - 1
        } else {
            0
        }])
    } else if code == Key::Enter {
        SidebarKey::FocusContent
    } else {
        SidebarKey::Ignore
    }
}

/// Decide what a key does while the sidebar has focus on page `nav`.
pub fn sidebar_key(nav: Nav, code: Key) -> (r: SidebarKey)
    ensures
        r == sidebar_spec(nav, code),
{
    let all = Nav::menu();
    let idx: usize = match nav.number() {
        Some(k) => k - 1,
        None => 0,
    };
    proof {
        assert(number_spec(nav) matches Some(k) ==> 1 <= k <= 9) by {
            match nav {
                Nav::Instances => {},
                _ => {},
            }
        }
    }
    match code {
        Key::Down | Key::Char('j') => {
            let next = if idx + 1 < all.len() {
                idx + 1
            } else {
                all.len() - 1
            };
            SidebarKey::Open(all[next])
        },
        Key::Up | Key::Char('k') => {
            let prev = idx.saturating_sub(1);
            SidebarKey::Open(all[prev])
        },
        Key::Enter => SidebarKey::FocusContent,
        _ => SidebarKey::Ignore,
    }
}

/// In the menu, moving down and then up returns to the page one started
/// from, except from the last entry, where moving down stays put.
pub proof fn law_sidebar_down_up(nav: Nav)
    requires
        menu_spec().contains(nav),
        nav != Nav::Logs,
    ensures
        sidebar_spec(nav, Key::Down) matches SidebarKey::Open(next) && sidebar_spec(next, Key::Up)
            == SidebarKey::Open(nav),
{
    crate::nav::law_menu_numbers(nav);
    let i = menu_pos(nav);
    let next = menu_spec()[i + 1];
    crate::nav::law_menu_numbers(next);
    assert(menu_spec().contains(next));
}

// ---------------------------------------------------------------------------
// Overlays
// ---------------------------------------------------------------------------

/// What a key did to a text prompt or a form.
#[derive(Debug, Clone, Copy, PartialEq, Eq, Structural)]
pub enum PromptKey {
    /// Close the overlay without submitting.
    Close,
    /// Close the overlay and submit its value.
    Submit,
    /// Keep the overlay open.
    Stay,
}

/// What a key means to a text prompt: Esc closes, Enter submits.
pub open spec fn prompt_key_spec(code: Key) -> PromptKey {
    match code {
        Key::Esc => PromptKey::Close,
        Key::Enter => PromptKey::Submit,
        _ => PromptKey::Stay,
    }
}

/// The prompt's text after a key: backspace drops the last character,
/// a character key appends it, other keys leave it.
pub open spec fn prompt_value_spec(v: Seq<char>, code: Key) -> Seq<char> {
    match code {
        Key::Backspace => if v.len() > 0 {
            v.drop_last()
        } else {
            v
        },
        Key::Char(c) => v.push(c),
        _ => v,
    }
}

/// Handle a key in a single-line text prompt holding `value`.
pub fn text_prompt_key(value: &mut String, code: Key) -> (r: PromptKey)
    ensures
        r == prompt_key_spec(code),
        final(value)@ == prompt_value_spec(old(value)@, code),
{
    match code {
        Key::Esc => PromptKey::Close,
        Key::Enter => PromptKey::Submit,
        Key::Backspace => {
            value.pop();
            PromptKey::Stay
        },
        Key::Char(c) => {
            value.push(c);
            PromptKey::Stay
        },
        _ => PromptKey::Stay,
    }
}

/// Typing a character into a prompt and erasing it restores the text.
pub proof fn law_prompt_type_then_erase(v: Seq<char>, c: char)
    ensures
        prompt_value_spec(prompt_value_spec(v, Key::Char(c)), Key::Backspace) == v,
{
    assert(v.push(c).drop_last() =~= v);
}

/// What a key does to a form and what becomes of the overlay.
pub open spec fn form_key_post(before: Form, after: Form, code: Key, r: PromptKey) -> bool {
    match code {
        Key::Esc => r == PromptKey::Close && after == before,
        Key::Enter => r == PromptKey::Submit && after == before,
        Key::Tab | Key::Down => r == PromptKey::Stay && after == step_field_spec(before, true),
        Key::BackTab | Key::Up => r == PromptKey::Stay && after == step_field_spec(before, false),
        Key::Left => r == PromptKey::Stay && cycle_post(before, after, false),
        Key::Right | Key::Char(' ') => r == PromptKey::Stay && cycle_post(before, after, true),
        Key::Backspace => r == PromptKey::Stay && backspace_post(before, after),
        Key::Char(c) => r == PromptKey::Stay && input_char_post(before, after, c),
        _ => r == PromptKey::Stay && after == before,
    }
}

/// Handle a key in a form overlay.
pub fn form_key(form: &mut Form, code: Key) -> (r: PromptKey)
    ensures
        form_key_post(*old(form), *final(form), code, r),
{
    match code {
        Key::Esc => PromptKey::Close,
        Key::Enter => PromptKey::Submit,
        Key::Tab | Key::Down => {
            form.next_field();
            PromptKey::Stay
        },
        Key::BackTab | Key::Up => {
            form.prev_field();
            PromptKey::Stay
        },
        Key::Left => {
            form.cycle(false);
            PromptKey::Stay
        },
        Key::Right => {
            form.cycle(true);
            PromptKey::Stay
        },
        Key::Char(' ') => {
            form.cycle(true);
            PromptKey::Stay
        },
        Key::Backspace => {
            form.backspace();
            PromptKey::Stay
        },
        Key::Char(c) => {
            form.input_char(c);
            PromptKey::Stay
        },
        _ => PromptKey::Stay,
    }
}

/// What a key does to a confirmation dialog.
#[derive(Debug, Clone, Copy, PartialEq, Eq, Structural)]
pub enum ConfirmKey {
    /// Carry out the confirmed action.
    Accept,
    /// Close the dialog.
    Dismiss,
    /// Nothing.
    Stay,
}

/// Handle a key in a confirmation dialog: `y` or Enter accepts, `n` or Esc
/// dismisses.
pub fn confirm_key(code: Key) -> (r: ConfirmKey)
    ensures
        r == (if code == Key::Char('y') || code == Key::Char('Y') || code == Key::Enter {
            ConfirmKey::Accept
        } else if code == Key::Char('n') || code == Key::Char('N') || code == Key::Esc {
            ConfirmKey::Dismiss
        } else {
            ConfirmKey::Stay
        }),
{
    match code {
        Key::Char('y') | Key::Char('Y') | Key::Enter => ConfirmKey::Accept,
        Key::Char('n') | Key::Char('N') | Key::Esc => ConfirmKey::Dismiss,
        _ => ConfirmKey::Stay,
    }
}

/// Whether a key closes a message box (Enter or Esc).
pub fn message_key(code: Key) -> (r: bool)
    ensures
        r == (code == Key::Enter || code == Key::Esc),
{
    match code {
        Key::Enter | Key::Esc => true,
        _ => false,
    }
}

/// What a key did to a version picker.
#[derive(Debug, Clone, PartialEq, Eq)]
pub enum PickerKey {
    /// Keep the picker open.
    Stay,
    /// Close the picker without choosing.
    Cancel,
    /// Close the picker and apply the chosen value to the target.
    Select(PickerTarget, String),
}

/// The item under the picker's selection, if any.
pub open spec fn picker_choice(p: VersionPicker) -> Option<Seq<char>> {
    if p.selected < p.filtered@.len() && p.filtered@[p.selected as int] < p.items@.len() {
        Some(p.items@[p.filtered@[p.selected as int] as int]@)
    } else {
        None
    }
}

/// What a key does to a picker and what becomes of the overlay.
pub open spec fn picker_key_post(before: VersionPicker, after: VersionPicker, code: Key, r: PickerKey) -> bool {
    match code {
        Key::Esc => r == PickerKey::Cancel && after == before,
        Key::Down | Key::Char('j') => r == PickerKey::Stay && after == picker_move_spec(before, 1),
        Key::Up | Key::Char('k') => r == PickerKey::Stay && after == picker_move_spec(before, -1),
        Key::Backspace => r == PickerKey::Stay && refiltered(
            before,
            after,
            if before.query@.len() > 0 {
                before.query@.drop_last()
            } else {
                before.query@
            },
        ),
        Key::Char(c) => r == PickerKey::Stay && refiltered(before, after, before.query@.push(c)),
        Key::Enter => after == before && match picker_choice(before) {
            Some(v) => r matches PickerKey::Select(t, s) && t == before.target && s@ == v,
            None => r == PickerKey::Stay,
        },
        _ => r == PickerKey::Stay && after == before,
    }
}

/// Handle a key in a version picker: arrows (or `j`/`k`) move, typing
/// narrows the list, Enter chooses, Esc cancels.
pub fn picker_key(picker: &mut VersionPicker, code: Key) -> (r: PickerKey)
    ensures
        picker_key_post(*old(picker), *final(picker), code, r),
{
    match code {
        Key::Esc => PickerKey::Cancel,
        Key::Down | Key::Char('j') => {
            picker.move_selection(1);
            PickerKey::Stay
        },
        Key::Up | Key::Char('k') => {
            picker.move_selection(-1);
            PickerKey::Stay
        },
        Key::Backspace => {
            picker.query.pop();
            picker.refilter();
            PickerKey::Stay
        },
        Key::Char(c) => {
            picker.query.push(c);
            picker.refilter();
            PickerKey::Stay
        },
        Key::Enter => match picker.selected_value() {
            Some(value) => PickerKey::Select(picker.target, crate::text::string_from_str(value)),
            None => PickerKey::Stay,
        },
        _ => PickerKey::Stay,
    }
}

/// Typing a character into a picker's filter and erasing it restores the
/// filter and lists exactly the items matching it again, from the top.
pub proof fn law_picker_type_then_erase(
    p0: VersionPicker,
    p1: VersionPicker,
    p2: VersionPicker,
    c: char,
    r1: PickerKey,
    r2: PickerKey,
)
    requires
        c != 'j' && c != 'k',
        picker_key_post(p0, p1, Key::Char(c), r1),
        picker_key_post(p1, p2, Key::Backspace, r2),
    ensures
        p2.query@ == p0.query@,
        p2.filtered@ == crate::forms::filter_spec(p0.items@, p0.query@),
        p2.selected == 0,
        p2.items == p0.items,
        p2.target == p0.target,
{
    assert(p0.query@.push(c).drop_last() =~= p0.query@);
}

// ---------------------------------------------------------------------------
// Clicks
// ---------------------------------------------------------------------------

/// A list whose row a click selects.
#[derive(Debug, Clone, Copy, PartialEq, Eq, Structural)]
pub enum ListId {
    SearchResults,
    ProjectVersions,
    InstalledMods,
    ModSearchResults,
    Accounts,
}

/// A click inside the Modrinth browser.
#[derive(Debug, Clone, Copy, PartialEq, Eq, Structural)]
pub enum BrowseClick {
    Result(usize),
    Version(usize),
    Install,
    QuickInstall(usize),
    Filter(FilterItem),
    PrevPage,
    NextPage,
}

/// What a click on a registered region does.
#[derive(Debug, Clone, Copy, PartialEq, Eq, Structural)]
pub enum HitEffect {
    /// Open a page.
    OpenNav(Nav),
    /// Select a build, give focus to the content and reload the build's
    /// lists.
    SelectInstance(usize),
    /// Open the new-build form.
    NewInstance,
    /// Select a row of a list and give focus to the content.
    SelectRow(ListId, usize),
    /// Select a settings row and give focus to the content.
    SelectSetting(usize),
    /// Press a toolbar button.
    Press(ButtonId),
    /// Act in the Modrinth browser.
    Browse(BrowseClick),
    /// Act in the open overlay.
    Overlay(OverlayAction),
    /// Nothing (a build tile past the end of the list).
    Nothing,
}

/// What a click on `a` does while `instances` builds are listed.
pub open spec fn hit_effect_spec(a: HitAction, instances: nat) -> HitEffect {
    match a {
        HitAction::NavItem(nav) => HitEffect::OpenNav(nav),
        HitAction::InstanceTile(i) => if i < instances {
            HitEffect::SelectInstance(i)
        } else {
            HitEffect::Nothing
        },
        HitAction::AddInstance => HitEffect::NewInstance,
        HitAction::SearchRow(i) => HitEffect::SelectRow(ListId::SearchResults, i),
        HitAction::ProjectVersionRow(i) => HitEffect::SelectRow(ListId::ProjectVersions, i),
        HitAction::ModRow(i) => HitEffect::SelectRow(ListId::InstalledMods, i),
        HitAction::ModSearchRow(i) => HitEffect::SelectRow(ListId::ModSearchResults, i),
        HitAction::AccountRow(i) => HitEffect::SelectRow(ListId::Accounts, i),
        HitAction::SettingsRow(i) => HitEffect::SelectSetting(i),
        HitAction::Button(b) => HitEffect::Press(b),
        HitAction::BrowseResult(i) => HitEffect::Browse(BrowseClick::Result(i)),
        HitAction::BrowseVersion(i) => HitEffect::Browse(BrowseClick::Version(i)),
        HitAction::BrowseInstall => HitEffect::Browse(BrowseClick::Install),
        HitAction::BrowseQuickInstall(i) => HitEffect::Browse(BrowseClick::QuickInstall(i)),
        HitAction::BrowseFilter(f) => HitEffect::Browse(BrowseClick::Filter(f)),
        HitAction::BrowsePagePrev => HitEffect::Browse(BrowseClick::PrevPage),
        HitAction::BrowsePageNext => HitEffect::Browse(BrowseClick::NextPage),
        HitAction::Overlay(o) => HitEffect::Overlay(o),
    }
}

/// Decide what a click on `a` does while `instances` builds are listed.
pub fn hit_effect(a: HitAction, instances: usize) -> (r: HitEffect)
    ensures
        r == hit_effect_spec(a, instances as nat),
{
    match a {
        HitAction::NavItem(nav) => HitEffect::OpenNav(nav),
        HitAction::InstanceTile(i) => if i < instances {
            HitEffect::SelectInstance(i)
        } else {
            HitEffect::Nothing
        },
        HitAction::AddInstance => HitEffect::NewInstance,
        HitAction::SearchRow(i) => HitEffect::SelectRow(ListId::SearchResults, i),
        HitAction::ProjectVersionRow(i) => HitEffect::SelectRow(ListId::ProjectVersions, i),
        HitAction::ModRow(i) => HitEffect::SelectRow(ListId::InstalledMods, i),
        HitAction::ModSearchRow(i) => HitEffect::SelectRow(ListId::ModSearchResults, i),
        HitAction::AccountRow(i) => HitEffect::SelectRow(ListId::Accounts, i),
        HitAction::SettingsRow(i) => HitEffect::SelectSetting(i),
        HitAction::Button(b) => HitEffect::Press(b),
        HitAction::BrowseResult(i) => HitEffect::Browse(BrowseClick::Result(i)),
        HitAction::BrowseVersion(i) => HitEffect::Browse(BrowseClick::Version(i)),
        HitAction::BrowseInstall => HitEffect::Browse(BrowseClick::Install),
        HitAction::BrowseQuickInstall(i) => HitEffect::Browse(BrowseClick::QuickInstall(i)),
        HitAction::BrowseFilter(f) => HitEffect::Browse(BrowseClick::Filter(f)),
        HitAction::BrowsePagePrev => HitEffect::Browse(BrowseClick::PrevPage),
        HitAction::BrowsePageNext => HitEffect::Browse(BrowseClick::NextPage),
        HitAction::Overlay(o) => HitEffect::Overlay(o),
    }
}

/// A click selects only builds that exist, and does nothing only on a
/// build tile past the end of the list.
pub proof fn law_hit_selects_existing_build(a: HitAction, instances: nat)
    ensures
        hit_effect_spec(a, instances) matches HitEffect::SelectInstance(i) ==> i < instances
            && a == HitAction::InstanceTile(i),
        hit_effect_spec(a, instances) is Nothing ==> (a matches HitAction::InstanceTile(i) && i
            >= instances),
{
}

/// The kind of region an effect is named after: opening a page comes from
/// a page's menu entry, selecting a build from its tile, a list row from a
/// row of that list, a browser click from the browser control of the same
/// name, and so on.
pub open spec fn clicked_region(e: HitEffect) -> Option<HitAction> {
    match e {
        HitEffect::OpenNav(nav) => Some(HitAction::NavItem(nav)),
        HitEffect::SelectInstance(i) => Some(HitAction::InstanceTile(i)),
        HitEffect::NewInstance => Some(HitAction::AddInstance),
        HitEffect::SelectRow(ListId::SearchResults, i) => Some(HitAction::SearchRow(i)),
        HitEffect::SelectRow(ListId::ProjectVersions, i) => Some(HitAction::ProjectVersionRow(i)),
        HitEffect::SelectRow(ListId::InstalledMods, i) => Some(HitAction::ModRow(i)),
        HitEffect::SelectRow(ListId::ModSearchResults, i) => Some(HitAction::ModSearchRow(i)),
        HitEffect::SelectRow(ListId::Accounts, i) => Some(HitAction::AccountRow(i)),
        HitEffect::SelectSetting(i) => Some(HitAction::SettingsRow(i)),
        HitEffect::Press(b) => Some(HitAction::Button(b)),
        HitEffect::Browse(BrowseClick::Result(i)) => Some(HitAction::BrowseResult(i)),
        HitEffect::Browse(BrowseClick::Version(i)) => Some(HitAction::BrowseVersion(i)),
        HitEffect::Browse(BrowseClick::Install) => Some(HitAction::BrowseInstall),
        HitEffect::Browse(BrowseClick::QuickInstall(i)) => Some(HitAction::BrowseQuickInstall(i)),
        HitEffect::Browse(BrowseClick::Filter(f)) => Some(HitAction::BrowseFilter(f)),
        HitEffect::Browse(BrowseClick::PrevPage) => Some(HitAction::BrowsePagePrev),
        HitEffect::Browse(BrowseClick::NextPage) => Some(HitAction::BrowsePageNext),
        HitEffect::Overlay(o) => Some(HitAction::Overlay(o)),
        HitEffect::Nothing => None,
    }
}

/// Every click does what its region is named for: the effect of a click on
/// region `a` is named after `a` itself (so no two regions share an
/// effect), except a build tile past the end of the list, which does
/// nothing.
pub proof fn law_click_does_what_its_region_names(a: HitAction, instances: nat)
    ensures
        (a matches HitAction::InstanceTile(i) && i >= instances) ==> hit_effect_spec(a, instances)
            == HitEffect::Nothing,
        !(a matches HitAction::InstanceTile(i) && i >= instances) ==> clicked_region(
            hit_effect_spec(a, instances),
        ) == Some(a),
{
}

/// Two regions whose clicks do something do different things.
pub proof fn law_distinct_regions_distinct_effects(a: HitAction, b: HitAction, instances: nat)
    requires
        a != b,
        hit_effect_spec(a, instances) != HitEffect::Nothing,
    ensures
        hit_effect_spec(a, instances) != hit_effect_spec(b, instances),
{
    law_click_does_what_its_region_names(a, instances);
    law_click_does_what_its_region_names(b, instances);
}

// ---------------------------------------------------------------------------
// The log console's keys
// ---------------------------------------------------------------------------

/// What a key does on the log console.
#[derive(Debug, Clone, Copy, PartialEq, Eq, Structural)]
pub enum LogsKey {
    /// Scroll one line; `true` towards newer lines.
    Scroll(bool),
    /// Jump to the first line.
    Top,
    /// Jump to the newest line.
    Bottom,
    /// Follow the newest line.
    Follow,
    /// Pause or resume taking in lines.
    Pause,
    /// Clear the buffer.
    Clear,
    /// Ask for a filter.
    Filter,
    /// Analyze the last crash.
    AnalyzeCrash,
    /// Change the least level shown.
    Level,
    /// Nothing.
    Ignore,
}

/// The log console's keys: `j`/`k` (or the arrows) scroll, `g`/`G` jump to
/// the top or bottom, `f` follows, `p` pauses, `c` clears, `/` filters, `a`
/// analyzes a crash and `l` changes the level.
pub open spec fn logs_key_spec(code: Key) -> LogsKey {
    match code {
        Key::Char('j') | Key::Down => LogsKey::Scroll(true),
        Key::Char('k') | Key::Up => LogsKey::Scroll(false),
        Key::Char('g') => LogsKey::Top,
        Key::Char('G') => LogsKey::Bottom,
        Key::Char('f') => LogsKey::Follow,
        Key::Char('p') => LogsKey::Pause,
        Key::Char('c') => LogsKey::Clear,
        Key::Char('/') => LogsKey::Filter,
        Key::Char('a') => LogsKey::AnalyzeCrash,
        Key::Char('l') => LogsKey::Level,
        _ => LogsKey::Ignore,
    }
}

/// Decide what a key does on the log console.
pub fn logs_key(code: Key) -> (r: LogsKey)
    ensures
        r == logs_key_spec(code),
{
    match code {
        Key::Char('j') | Key::Down => LogsKey::Scroll(true),
        Key::Char('k') | Key::Up => LogsKey::Scroll(false),
        Key::Char('g') => LogsKey::Top,
        Key::Char('G') => LogsKey::Bottom,
        Key::Char('f') => LogsKey::Follow,
        Key::Char('p') => LogsKey::Pause,
        Key::Char('c') => LogsKey::Clear,
        Key::Char('/') => LogsKey::Filter,
        Key::Char('a') => LogsKey::AnalyzeCrash,
        Key::Char('l') => LogsKey::Level,
        _ => LogsKey::Ignore,
    }
}

/// The log command a footer hint's label names.
pub open spec fn logs_command_named(label: Seq<char>) -> LogsKey {
    if label == "follow"@ {
        LogsKey::Follow
    } else if label == "pause"@ {
        LogsKey::Pause
    } else if label == "clear"@ {
        LogsKey::Clear
    } else if label == "filter"@ {
        LogsKey::Filter
    } else if label == "crash"@ {
        LogsKey::AnalyzeCrash
    } else if label == "level"@ {
        LogsKey::Level
    } else {
        LogsKey::Ignore
    }
}

/// The log console's footer hints tell the truth: each hint names a key
/// that does what the hint says (`j/k` scroll down and up), and no hint
/// names a key that does nothing.
pub proof fn law_logs_hints_name_their_keys()
    ensures
        forall|i: int|
            0 <= i < hints_spec(Nav::Logs).len() ==> {
                let (k, label) = #[trigger] hints_spec(Nav::Logs)[i];
                &&& k.len() == 1 ==> logs_key_spec(Key::Char(k[0])) == logs_command_named(label)
                    && logs_key_spec(Key::Char(k[0])) != LogsKey::Ignore
                &&& k.len() != 1 ==> k == "j/k"@ && label == "scroll"@ && logs_key_spec(
                    Key::Char('j'),
                ) == LogsKey::Scroll(true) && logs_key_spec(Key::Char('k')) == LogsKey::Scroll(false)
            },
{
    reveal_strlit("j/k");
    reveal_strlit("scroll");
    reveal_strlit("f");
    reveal_strlit("follow");
    reveal_strlit("p");
    reveal_strlit("pause");
    reveal_strlit("c");
    reveal_strlit("clear");
    reveal_strlit("/");
    reveal_strlit("filter");
    reveal_strlit("a");
    reveal_strlit("crash");
    reveal_strlit("level");
    let h = hints_spec(Nav::Logs);
    assert(h.len() == 6);
    assert("follow"@ != "pause"@ && "follow"@ != "clear"@ && "follow"@ != "filter"@ && "follow"@ != "crash"@) by {
        assert("follow"@[0] != "pause"@[0] && "follow"@[0] != "clear"@[0] && "follow"@[1] != "filter"@[1] && "follow"@[0] != "crash"@[0]);
    }
    assert("pause"@ != "follow"@ && "pause"@ != "clear"@ && "pause"@ != "filter"@ && "pause"@ != "crash"@) by {
        assert("pause"@[0] != "clear"@[0] && "pause"@[0] != "filter"@[0] && "pause"@[0] != "crash"@[0]);
    }
    assert("clear"@ != "follow"@ && "clear"@ != "pause"@ && "clear"@ != "filter"@ && "clear"@ != "crash"@) by {
        assert("clear"@[0] != "follow"@[0] && "clear"@[0] != "pause"@[0] && "clear"@[0] != "filter"@[0] && "clear"@[1] != "crash"@[1]);
    }
    assert("filter"@ != "follow"@ && "filter"@ != "pause"@ && "filter"@ != "clear"@ && "filter"@ != "crash"@) by {
        assert("filter"@[1] != "follow"@[1] && "filter"@[0] != "pause"@[0] && "filter"@[0] != "clear"@[0] && "filter"@[0] != "crash"@[0]);
    }
    assert("crash"@ != "follow"@ && "crash"@ != "pause"@ && "crash"@ != "clear"@ && "crash"@ != "filter"@) by {
        assert("crash"@[0] != "follow"@[0] && "crash"@[0] != "pause"@[0] && "crash"@[1] != "clear"@[1] && "crash"@[0] != "filter"@[0]);
    }
    assert("j/k"@.len() == 3);
    assert forall|i: int| 0 <= i < h.len() implies {
        let (k, label) = #[trigger] h[i];
        &&& k.len() == 1 ==> logs_key_spec(Key::Char(k[0])) == logs_command_named(label)
            && logs_key_spec(Key::Char(k[0])) != LogsKey::Ignore
        &&& k.len() != 1 ==> k == "j/k"@ && label == "scroll"@ && logs_key_spec(Key::Char('j'))
            == LogsKey::Scroll(true) && logs_key_spec(Key::Char('k')) == LogsKey::Scroll(false)
    } by {
        if i == 0 {
            assert(h[0] == ("j/k"@, "scroll"@));
        } else if i == 1 {
            assert(h[1] == ("f"@, "follow"@));
            assert("f"@[0] == 'f');
        } else if i == 2 {
            assert(h[2] == ("p"@, "pause"@));
            assert("p"@[0] == 'p');
        } else if i == 3 {
            assert(h[3] == ("c"@, "clear"@));
            assert("c"@[0] == 'c');
        } else if i == 4 {
            assert(h[4] == ("/"@, "filter"@));
            assert("/"@[0] == '/');
        } else {
            assert(h[5] == ("a"@, "crash"@));
            assert("a"@[0] == 'a');
        }
    }
}

// ---------------------------------------------------------------------------
// Page keys
// ---------------------------------------------------------------------------

/// What a key does on the builds, mods, modpacks and versions pages.
#[derive(Debug, Clone, Copy, PartialEq, Eq, Structural)]
pub enum PageCommand {
    Launch,
    New,
    Edit,
    Install,
    Import,
    Versions,
    Rename,
    Delete,
    Pane,
    Toggle,
    Search,
    Updates,
    Open,
    ChangeVersion,
    Reinstall,
    Ignore,
}

/// The keys of the builds page (Enter launches; `n` new, `e` edit, `i`
/// install, `p` import, `v` versions, `r` rename, `d` delete), the mods page
/// (`t` pane, Space toggle, `s` search, `u` updates, `d` delete), the
/// modpacks page (`/` search, Enter open, `i` install, `m` import) and the
/// versions page (`c` change version, `r` reinstall).
pub open spec fn page_key_spec(nav: Nav, code: Key) -> PageCommand {
    match (nav, code) {
        (Nav::Instances, Key::Enter) => PageCommand::Launch,
        (Nav::Instances, Key::Char('n')) => PageCommand::New,
        (Nav::Instances, Key::Char('e')) => PageCommand::Edit,
        (Nav::Instances, Key::Char('i')) => PageCommand::Install,
        (Nav::Instances, Key::Char('p')) => PageCommand::Import,
        (Nav::Instances, Key::Char('v')) => PageCommand::Versions,
        (Nav::Instances, Key::Char('r')) => PageCommand::Rename,
        (Nav::Instances, Key::Char('d')) => PageCommand::Delete,
        (Nav::Mods, Key::Char('t')) => PageCommand::Pane,
        (Nav::Mods, Key::Char(' ')) => PageCommand::Toggle,
        (Nav::Mods, Key::Char('s')) => PageCommand::Search,
        (Nav::Mods, Key::Char('u')) => PageCommand::Updates,
        (Nav::Mods, Key::Char('d')) => PageCommand::Delete,
        (Nav::Modpacks, Key::Char('/')) => PageCommand::Search,
        (Nav::Modpacks, Key::Enter) => PageCommand::Open,
        (Nav::Modpacks, Key::Char('i')) => PageCommand::Install,
        (Nav::Modpacks, Key::Char('m')) => PageCommand::Import,
        (Nav::Versions, Key::Char('c')) => PageCommand::ChangeVersion,
        (Nav::Versions, Key::Char('r')) => PageCommand::Reinstall,
        _ => PageCommand::Ignore,
    }
}

/// Decide what a key does on the builds, mods, modpacks or versions page.
pub fn page_key(nav: Nav, code: Key) -> (r: PageCommand)
    ensures
        r == page_key_spec(nav, code),
{
    match (nav, code) {
        (Nav::Instances, Key::Enter) => PageCommand::Launch,
        (Nav::Instances, Key::Char('n')) => PageCommand::New,
        (Nav::Instances, Key::Char('e')) => PageCommand::Edit,
        (Nav::Instances, Key::Char('i')) => PageCommand::Install,
        (Nav::Instances, Key::Char('p')) => PageCommand::Import,
        (Nav::Instances, Key::Char('v')) => PageCommand::Versions,
        (Nav::Instances, Key::Char('r')) => PageCommand::Rename,
        (Nav::Instances, Key::Char('d')) => PageCommand::Delete,
        (Nav::Mods, Key::Char('t')) => PageCommand::Pane,
        (Nav::Mods, Key::Char(' ')) => PageCommand::Toggle,
        (Nav::Mods, Key::Char('s')) => PageCommand::Search,
        (Nav::Mods, Key::Char('u')) => PageCommand::Updates,
        (Nav::Mods, Key::Char('d')) => PageCommand::Delete,
        (Nav::Modpacks, Key::Char('/')) => PageCommand::Search,
        (Nav::Modpacks, Key::Enter) => PageCommand::Open,
        (Nav::Modpacks, Key::Char('i')) => PageCommand::Install,
        (Nav::Modpacks, Key::Char('m')) => PageCommand::Import,
        (Nav::Versions, Key::Char('c')) => PageCommand::ChangeVersion,
        (Nav::Versions, Key::Char('r')) => PageCommand::Reinstall,
        _ => PageCommand::Ignore,
    }
}

/// The word a footer hint uses for a command.
pub open spec fn command_label(c: PageCommand) -> Seq<char> {
    match c {
        PageCommand::Launch => "launch"@,
        PageCommand::New => "new"@,
        PageCommand::Edit => "edit"@,
        PageCommand::Install => "install"@,
        PageCommand::Import => "import"@,
        PageCommand::Versions => "versions"@,
        PageCommand::Rename => "rename"@,
        PageCommand::Delete => "delete"@,
        PageCommand::Pane => "pane"@,
        PageCommand::Toggle => "toggle"@,
        PageCommand::Search => "search"@,
        PageCommand::Updates => "updates"@,
        PageCommand::Open => "open"@,
        PageCommand::ChangeVersion => "change version"@,
        PageCommand::Reinstall => "reinstall"@,
        PageCommand::Ignore => Seq::empty(),
    }
}

/// The key a footer hint's key text names: `Enter`, `Space` or a single
/// character.
pub open spec fn hint_key(k: Seq<char>) -> Option<Key> {
    if k == "Enter"@ {
        Some(Key::Enter)
    } else if k == "Space"@ {
        Some(Key::Char(' '))
    } else if k.len() == 1 {
        Some(Key::Char(k[0]))
    } else {
        None
    }
}

/// The footer hints of the builds, mods, modpacks and versions pages tell
/// the truth: each hint names one key, and that key does on that page what
/// the hint says.
pub proof fn law_page_hints_name_their_keys(nav: Nav)
    requires
        nav == Nav::Instances || nav == Nav::Mods || nav == Nav::Modpacks || nav == Nav::Versions,
    ensures
        forall|i: int|
            0 <= i < hints_spec(nav).len() ==> {
                let (k, label) = #[trigger] hints_spec(nav)[i];
                &&& hint_key(k) is Some
                &&& page_key_spec(nav, hint_key(k)->0) != PageCommand::Ignore
                &&& command_label(page_key_spec(nav, hint_key(k)->0)) == label
            },
{
    reveal_strlit("Enter");
    reveal_strlit("Space");
    reveal_strlit("n");
    reveal_strlit("e");
    reveal_strlit("i");
    reveal_strlit("p");
    reveal_strlit("v");
    reveal_strlit("r");
    reveal_strlit("d");
    reveal_strlit("t");
    reveal_strlit("s");
    reveal_strlit("u");
    reveal_strlit("/");
    reveal_strlit("m");
    reveal_strlit("c");
    let h = hints_spec(nav);
    assert forall|i: int| 0 <= i < h.len() implies {
        let (k, label) = #[trigger] h[i];
        &&& hint_key(k) is Some
        &&& page_key_spec(nav, hint_key(k)->0) != PageCommand::Ignore
        &&& command_label(page_key_spec(nav, hint_key(k)->0)) == label
    } by {
        if nav == Nav::Instances {
            if i == 0 {
                assert(h[i] == ("Enter"@, "launch"@));
            } else if i == 1 {
                assert(h[i] == ("n"@, "new"@));
                assert("n"@.len() != "Enter"@.len() && "n"@.len() != "Space"@.len());
                assert("n"@[0] == 'n');
            } else if i == 2 {
                assert(h[i] == ("e"@, "edit"@));
                assert("e"@.len() != "Enter"@.len() && "e"@.len() != "Space"@.len());
                assert("e"@[0] == 'e');
            } else if i == 3 {
                assert(h[i] == ("i"@, "install"@));
                assert("i"@.len() != "Enter"@.len() && "i"@.len() != "Space"@.len());
                assert("i"@[0] == 'i');
            } else if i == 4 {
                assert(h[i] == ("p"@, "import"@));
                assert("p"@.len() != "Enter"@.len() && "p"@.len() != "Space"@.len());
                assert("p"@[0] == 'p');
            } else if i == 5 {
                assert(h[i] == ("v"@, "versions"@));
                assert("v"@.len() != "Enter"@.len() && "v"@.len() != "Space"@.len());
                assert("v"@[0] == 'v');
            } else if i == 6 {
                assert(h[i] == ("r"@, "rename"@));
                assert("r"@.len() != "Enter"@.len() && "r"@.len() != "Space"@.len());
                assert("r"@[0] == 'r');
            } else if i == 7 {
                assert(h[i] == ("d"@, "delete"@));
                assert("d"@.len() != "Enter"@.len() && "d"@.len() != "Space"@.len());
                assert("d"@[0] == 'd');
            }
        } else if nav == Nav::Mods {
            if i == 0 {
                assert(h[i] == ("t"@, "pane"@));
                assert("t"@.len() != "Enter"@.len() && "t"@.len() != "Space"@.len());
                assert("t"@[0] == 't');
            } else if i == 1 {
                assert(h[i] == ("Space"@, "toggle"@));
                assert("Space"@ != "Enter"@) by { assert("Space"@[0] != "Enter"@[0]); }
            } else if i == 2 {
                assert(h[i] == ("s"@, "search"@));
                assert("s"@.len() != "Enter"@.len() && "s"@.len() != "Space"@.len());
                assert("s"@[0] == 's');
            } else if i == 3 {
                assert(h[i] == ("u"@, "updates"@));
                assert("u"@.len() != "Enter"@.len() && "u"@.len() != "Space"@.len());
                assert("u"@[0] == 'u');
            } else if i == 4 {
                assert(h[i] == ("d"@, "delete"@));
                assert("d"@.len() != "Enter"@.len() && "d"@.len() != "Space"@.len());
                assert("d"@[0] == 'd');
            }
        } else if nav == Nav::Modpacks {
            if i == 0 {
                assert(h[i] == ("/"@, "search"@));
                assert("/"@.len() != "Enter"@.len() && "/"@.len() != "Space"@.len());
                assert("/"@[0] == '/');
            } else if i == 1 {
                assert(h[i] == ("Enter"@, "open"@));
            } else if i == 2 {
                assert(h[i] == ("i"@, "install"@));
                assert("i"@.len() != "Enter"@.len() && "i"@.len() != "Space"@.len());
                assert("i"@[0] == 'i');
            } else if i == 3 {
                assert(h[i] == ("m"@, "import"@));
                assert("m"@.len() != "Enter"@.len() && "m"@.len() != "Space"@.len());
                assert("m"@[0] == 'm');
            }
        } else if nav == Nav::Versions {
            if i == 0 {
                assert(h[i] == ("c"@, "change version"@));
                assert("c"@.len() != "Enter"@.len() && "c"@.len() != "Space"@.len());
                assert("c"@[0] == 'c');
            } else if i == 1 {
                assert(h[i] == ("r"@, "reinstall"@));
                assert("r"@.len() != "Enter"@.len() && "r"@.len() != "Space"@.len());
                assert("r"@[0] == 'r');
            }
        }
    }
}

// ---------------------------------------------------------------------------
// Browser paging
// ---------------------------------------------------------------------------

/// Results per page of the Modrinth browser.
pub const BROWSE_PAGE: u32 = 30;

/// The offset of the page to load when paging the browser (`forward` for
/// the next page), or none when paging does nothing: while a search is
/// under way, past the last known result, or before the first page.
pub open spec fn browse_page_spec(offset: u32, total: u32, loading: bool, forward: bool) -> Option<u32> {
    if loading {
        None
    } else if forward {
        if offset + BROWSE_PAGE >= total && total > 0 {
            None
        } else {
            Some((offset + BROWSE_PAGE) as u32)
        }
    } else if offset == 0 {
        None
    } else if offset >= BROWSE_PAGE {
        Some((offset - BROWSE_PAGE) as u32)
    } else {
        Some(0)
    }
}

/// Decide which page of results the browser loads next; the caller clears
/// the shown results, selects the first row and searches at that offset.
pub fn browse_page(offset: u32, total: u32, loading: bool, forward: bool) -> (r: Option<u32>)
    requires
        forward ==> offset + BROWSE_PAGE <= u32::MAX,
    ensures
        r == browse_page_spec(offset, total, loading, forward),
{
    if loading {
        None
    } else if forward {
        let next = offset + BROWSE_PAGE;
        if next >= total && total > 0 {
            None
        } else {
            Some(next)
        }
    } else if offset == 0 {
        None
    } else {
        Some(offset.saturating_sub(BROWSE_PAGE))
    }
}

/// Paging forward and then back returns to the page one started from.
pub proof fn law_page_back(offset: u32, total: u32)
    requires
        offset + BROWSE_PAGE <= u32::MAX,
        browse_page_spec(offset, total, false, true) is Some,
    ensures
        browse_page_spec(browse_page_spec(offset, total, false, true)->0, total, false, false)
            == Some(offset),
{
}

// ---------------------------------------------------------------------------
// Installing from the browser
// ---------------------------------------------------------------------------

/// What the Modrinth browser lists.
#[derive(Debug, Clone, Copy, PartialEq, Eq, Structural)]
pub enum BrowseKind {
    Mods,
    Modpacks,
    Resourcepacks,
    Shaders,
}

/// The folder of a build that a downloaded file goes to.
#[derive(Debug, Clone, Copy, PartialEq, Eq, Structural)]
pub enum InstallDir {
    Mods,
    ResourcePacks,
    Shaders,
}

/// What installing the browser's chosen version does.
#[derive(Debug, Clone, Copy, PartialEq, Eq, Structural)]
pub enum InstallPlan {
    /// Close the project and install the modpack as a new build.
    Modpack,
    /// Download the file into this folder of the selected build, with its
    /// dependencies when `with_dependencies`.
    IntoBuild { dir: InstallDir, with_dependencies: bool },
}

/// The plan for installing version `version` of the `versions` listed for
/// the open project, or the notice that refuses it: no project open, no
/// version under the selection, or (for anything but a modpack) no build
/// selected.
pub open spec fn install_plan_spec(
    has_project: bool,
    version: nat,
    versions: nat,
    kind: BrowseKind,
    has_instance: bool,
) -> Result<InstallPlan, Seq<char>> {
    if !has_project {
        Err("Open a project first"@)
    } else if version >= versions {
        Err("No version selected"@)
    } else if kind == BrowseKind::Modpacks {
        Ok(InstallPlan::Modpack)
    } else if !has_instance {
        Err("Select an instance in the Instances tab first"@)
    } else {
        Ok(
            InstallPlan::IntoBuild {
                dir: match kind {
                    BrowseKind::Mods => InstallDir::Mods,
                    BrowseKind::Resourcepacks => InstallDir::ResourcePacks,
                    _ => InstallDir::Shaders,
                },
                with_dependencies: kind == BrowseKind::Mods,
            },
        )
    }
}

/// Decide how to install the browser's chosen version, or which notice
/// refuses it.
pub fn browse_install_plan(
    has_project: bool,
    version: usize,
    versions: usize,
    kind: BrowseKind,
    has_instance: bool,
) -> (r: Result<InstallPlan, &'static str>)
    ensures
        match (r, install_plan_spec(has_project, version as nat, versions as nat, kind, has_instance)) {
            (Ok(p), Ok(q)) => p == q,
            (Err(m), Err(n)) => m@ == n,
            _ => false,
        },
{
    proof {
        reveal_strlit("Open a project first");
        reveal_strlit("No version selected");
        reveal_strlit("Select an instance in the Instances tab first");
    }
    if !has_project {
        Err("Open a project first")
    } else if version >= versions {
        Err("No version selected")
    } else if kind == BrowseKind::Modpacks {
        Ok(InstallPlan::Modpack)
    } else if !has_instance {
        Err("Select an instance in the Instances tab first")
    } else {
        let dir = match kind {
            BrowseKind::Mods => InstallDir::Mods,
            BrowseKind::Resourcepacks => InstallDir::ResourcePacks,
            _ => InstallDir::Shaders,
        };
        Ok(InstallPlan::IntoBuild { dir, with_dependencies: kind == BrowseKind::Mods })
    }
}

} // verus!
