//! Pages, focus regions, clickable actions and key hints of the launcher UI.

use vstd::prelude::*;

verus! {

/// Navigation entries shown in the right-hand panel.
#[derive(Debug, Clone, Copy, PartialEq, Eq, Structural)]
pub enum Nav {
    Instances,
    Browse,
    Mods,
    Modpacks,
    Versions,
    Jvm,
    Logs,
    Accounts,
    Launcher,
    ResourcePacks,
    Shaders,
    Worlds,
    Screenshots,
}

/// Every page, including the ones not shown in the sidebar menu.
pub open spec fn all_spec() -> Seq<Nav> {
    seq![
        Nav::Instances,
        Nav::Mods,
        Nav::ResourcePacks,
        Nav::Shaders,
        Nav::Worlds,
        Nav::Screenshots,
        Nav::Modpacks,
        Nav::Versions,
        Nav::Jvm,
        Nav::Logs,
        Nav::Accounts,
        Nav::Launcher,
        Nav::Browse,
    ]
}

/// The pages shown in the sidebar menu, in order.
pub open spec fn menu_spec() -> Seq<Nav> {
    seq![
        Nav::Instances,
        Nav::Mods,
        Nav::ResourcePacks,
        Nav::Shaders,
        Nav::Worlds,
        Nav::Screenshots,
        Nav::Versions,
        Nav::Jvm,
        Nav::Logs,
    ]
}

/// 1-based position of a page in the sidebar menu.
pub open spec fn number_spec(n: Nav) -> Option<usize> {
    match n {
        Nav::Instances => Some(1),
        Nav::Mods => Some(2),
        Nav::ResourcePacks => Some(3),
        Nav::Shaders => Some(4),
        Nav::Worlds => Some(5),
        Nav::Screenshots => Some(6),
        Nav::Versions => Some(7),
        Nav::Jvm => Some(8),
        Nav::Logs => Some(9),
        _ => None,
    }
}

/// Title of a page.
pub open spec fn label_spec(n: Nav) -> Seq<char> {
    match n {
        Nav::Instances => "Instances"@,
        Nav::Browse => "Browse"@,
        Nav::Mods => "Mods"@,
        Nav::Modpacks => "Modpacks"@,
        Nav::Versions => "Versions"@,
        Nav::Jvm => "JVM Settings"@,
        Nav::Logs => "Logs"@,
        Nav::Accounts => "Accounts"@,
        Nav::Launcher => "Launcher Settings"@,
        Nav::ResourcePacks => "Resource Packs"@,
        Nav::Shaders => "Shaders"@,
        Nav::Worlds => "Worlds"@,
        Nav::Screenshots => "Screenshots"@,
    }
}

/// Short label used inside the sidebar menu buttons.
pub open spec fn menu_label_spec(n: Nav) -> Seq<char> {
    match n {
        Nav::Jvm => "JVM"@,
        Nav::ResourcePacks => "Res Packs"@,
        other => label_spec(other),
    }
}

/// Icon of a page.
pub open spec fn icon_spec(n: Nav) -> Seq<char> {
    match n {
        Nav::Instances => "\u{2302}"@,
        Nav::Browse => "\u{25A6}"@,
        Nav::Mods => "\u{2726}"@,
        Nav::Modpacks => "\u{26C1}"@,
        Nav::Versions => "\u{2756}"@,
        Nav::Jvm => "\u{2699}"@,
        Nav::Logs => "\u{2263}"@,
        Nav::Accounts => "\u{263A}"@,
        Nav::Launcher => "\u{2692}"@,
        Nav::ResourcePacks => "\u{25E7}"@,
        Nav::Shaders => "\u{2600}"@,
        Nav::Worlds => "\u{1F310}"@,
        Nav::Screenshots => "\u{1F4F7}"@,
    }
}

/// Pages that need a selected build.
pub open spec fn build_scoped_spec(n: Nav) -> bool {
    match n {
        Nav::Mods | Nav::Modpacks | Nav::Versions | Nav::Jvm | Nav::Logs | Nav::ResourcePacks
        | Nav::Shaders | Nav::Worlds | Nav::Screenshots => true,
        _ => false,
    }
}

impl Nav {
    /// Every page, including ones no longer shown in the sidebar menu.
    pub fn all() -> (r: [Nav; 13])
        ensures
            r@ == all_spec(),
    {
        let r = [
            Nav::Instances,
            Nav::Mods,
            Nav::ResourcePacks,
            Nav::Shaders,
            Nav::Worlds,
            Nav::Screenshots,
            Nav::Modpacks,
            Nav::Versions,
            Nav::Jvm,
            Nav::Logs,
            Nav::Accounts,
            Nav::Launcher,
            Nav::Browse,
        ];
        assert(r@ =~= all_spec());
        r
    }

    /// The pages shown in the right-hand navigation menu, in order.
    ///
    /// `Browse`, `Modpacks` and `Accounts` are intentionally omitted; they are
    /// reached from the instance toolbar, the Mods page and the header account
    /// badge respectively.
    pub fn menu() -> (r: [Nav; 9])
        ensures
            r@ == menu_spec(),
    {
        let r = [
            Nav::Instances,
            Nav::Mods,
            Nav::ResourcePacks,
            Nav::Shaders,
            Nav::Worlds,
            Nav::Screenshots,
            Nav::Versions,
            Nav::Jvm,
            Nav::Logs,
        ];
        assert(r@ =~= menu_spec());
        r
    }

    /// 1-based index shown next to a menu entry, if it is in the menu.
    pub fn number(&self) -> (r: Option<usize>)
        ensures
            r == number_spec(*self),
    {
        let menu = Self::menu();
        let mut i: usize = 0;
        while i < 9
            invariant
                0 <= i <= 9,
                menu@ == menu_spec(),
                forall|k: int| 0 <= k < i ==> menu@[k] != *self,
            decreases 9 - i,
        {
            if menu[i] == *self {
                return Some(i + 1);
            }
            i = i + 1;
        }
        None
    }

    /// Title of the page.
    pub fn label(&self) -> (r: &'static str)
        ensures
            r@ == label_spec(*self),
    {
        match self {
            Nav::Instances => "Instances",
            Nav::Browse => "Browse",
            Nav::Mods => "Mods",
            Nav::Modpacks => "Modpacks",
            Nav::Versions => "Versions",
            Nav::Jvm => "JVM Settings",
            Nav::Logs => "Logs",
            Nav::Accounts => "Accounts",
            Nav::Launcher => "Launcher Settings",
            Nav::ResourcePacks => "Resource Packs",
            Nav::Shaders => "Shaders",
            Nav::Worlds => "Worlds",
            Nav::Screenshots => "Screenshots",
        }
    }

    /// Short label used inside the sidebar menu buttons.
    pub fn menu_label(&self) -> (r: &'static str)
        ensures
            r@ == menu_label_spec(*self),
    {
        match self {
            Nav::Jvm => "JVM",
            Nav::ResourcePacks => "Res Packs",
            other => other.label(),
        }
    }

    /// Icon of the page.
    pub fn icon(&self) -> (r: &'static str)
        ensures
            r@ == icon_spec(*self),
    {
        match self {
            Nav::Instances => "\u{2302}",
            Nav::Browse => "\u{25A6}",
            Nav::Mods => "\u{2726}",
            Nav::Modpacks => "\u{26C1}",
            Nav::Versions => "\u{2756}",
            Nav::Jvm => "\u{2699}",
            Nav::Logs => "\u{2263}",
            Nav::Accounts => "\u{263A}",
            Nav::Launcher => "\u{2692}",
            Nav::ResourcePacks => "\u{25E7}",
            Nav::Shaders => "\u{2600}",
            Nav::Worlds => "\u{1F310}",
            Nav::Screenshots => "\u{1F4F7}",
        }
    }

    /// Whether this page requires a selected build.
    pub fn is_build_scoped(&self) -> (r: bool)
        ensures
            r == build_scoped_spec(*self),
    {
        match self {
            Nav::Mods | Nav::Modpacks | Nav::Versions | Nav::Jvm | Nav::Logs | Nav::ResourcePacks
            | Nav::Shaders | Nav::Worlds | Nav::Screenshots => true,
            _ => false,
        }
    }
}

/// The menu numbers index the menu: a page has number `k` exactly when it is
/// the `k`-th menu entry, and pages outside the menu (such as `Browse`) have
/// no number.
pub proof fn law_menu_numbers(n: Nav)
    ensures
        number_spec(n) matches Some(k) ==> 1 <= k <= menu_spec().len() && menu_spec()[k - 1] == n,
        number_spec(n) is None <==> !menu_spec().contains(n),
{
    if menu_spec().contains(n) {
        let k = choose|k: int| 0 <= k < menu_spec().len() && menu_spec()[k] == n;
        assert(number_spec(n) is Some);
    }
    if number_spec(n) is Some {
        let k = number_spec(n)->0;
        assert(menu_spec()[k - 1] == n);
    }
}

/// Every page is listed by `all` exactly once, and every menu page other
/// than `Instances` needs a selected build.
pub proof fn law_all_pages(n: Nav)
    ensures
        all_spec().contains(n),
        all_spec().len() == 13,
        forall|i: int, j: int| 0 <= i < j < all_spec().len() ==> all_spec()[i] != all_spec()[j],
        menu_spec().contains(n) && n != Nav::Instances ==> build_scoped_spec(n),
{
    let j = match n {
        Nav::Instances => 0int,
        Nav::Mods => 1,
        Nav::ResourcePacks => 2,
        Nav::Shaders => 3,
        Nav::Worlds => 4,
        Nav::Screenshots => 5,
        Nav::Modpacks => 6,
        Nav::Versions => 7,
        Nav::Jvm => 8,
        Nav::Logs => 9,
        Nav::Accounts => 10,
        Nav::Launcher => 11,
        Nav::Browse => 12,
    };
    assert(all_spec()[j] == n);
    if menu_spec().contains(n) {
        let k = choose|k: int| 0 <= k < menu_spec().len() && menu_spec()[k] == n;
        assert(menu_spec()[k] == n);
    }
}

/// Which region currently owns keyboard navigation.
#[derive(Debug, Clone, Copy, PartialEq, Eq, Structural)]
pub enum Focus {
    Sidebar,
    Content,
}

/// The kind of build the create wizard makes.
#[derive(Debug, Clone, Copy, PartialEq, Eq, Structural)]
pub enum BuildKind {
    /// A fresh build (the "Clean Build" tab).
    Clean,
    /// A build imported from a modpack archive.
    Import,
    /// A build created from a Modrinth modpack.
    Modrinth,
    /// A build imported from another launcher.
    External,
}

/// A sidebar filter of the Modrinth browser.
#[derive(Debug, Clone, Copy, PartialEq, Eq, Structural)]
pub enum FilterItem {
    Sort,
    Side,
    Compat,
    Loader(usize),
    Category(usize),
}

/// A clickable region's action.
#[derive(Debug, Clone, Copy, PartialEq, Eq, Structural)]
pub enum HitAction {
    NavItem(Nav),
    InstanceTile(usize),
    AddInstance,
    SearchRow(usize),
    ProjectVersionRow(usize),
    ModRow(usize),
    ModSearchRow(usize),
    AccountRow(usize),
    SettingsRow(usize),
    Button(ButtonId),
    BrowseResult(usize),
    BrowseVersion(usize),
    BrowseInstall,
    BrowseQuickInstall(usize),
    BrowseFilter(FilterItem),
    BrowsePagePrev,
    BrowsePageNext,
    Overlay(OverlayAction),
}

/// A click inside a modal overlay.
#[derive(Debug, Clone, Copy, PartialEq, Eq, Structural)]
pub enum OverlayAction {
    WizardTab(BuildKind),
    WizardField(usize),
    WizardPick(usize),
    WizardSubmit,
    WizardBrowseImport,
    WizardResult(usize),
    WizardResultOpen,
    WizardVersion(usize),
    WizardVersionInstall,
    PickerItem(usize),
    FormField(usize),
    FormSubmit,
    TextDone,
    ConfirmYes,
    ConfirmNo,
    MessageClose,
}

/// A toolbar button.
#[derive(Debug, Clone, Copy, PartialEq, Eq, Structural)]
pub enum ButtonId {
    Launch,
    NewInstance,
    EditInstance,
    DeleteInstance,
    InstallInstance,
    RenameInstance,
    ChangeVersion,
    Search,
    ImportModpack,
    InstallProject,
    ToggleMod,
    DeleteMod,
    ModSearch,
    UpdateMods,
    BrowseMods,
    OfflineLogin,
    MicrosoftLogin,
    SetActiveAccount,
    DeleteAccount,
    ChangeSkin,
    ClearLogs,
    PauseLogs,
    FollowLogs,
    AnalyzeCrash,
    SaveSettings,
    EditSettings,
    DetectJava,
}

/// Number of rows on the launcher settings page.
pub fn settings_field_count() -> (r: usize)
    ensures
        r == 7,
{
    7
}

/// Key hints of a page, as `(key, what it does)`.
pub open spec fn hints_spec(nav: Nav) -> Seq<(Seq<char>, Seq<char>)> {
    match nav {
        Nav::Instances => seq![
            ("Enter"@, "launch"@),
            ("n"@, "new"@),
            ("e"@, "edit"@),
            ("i"@, "install"@),
            ("p"@, "import"@),
            ("v"@, "versions"@),
            ("r"@, "rename"@),
            ("d"@, "delete"@),
        ],
        Nav::Browse => seq![
            ("1-4"@, "type"@),
            ("s"@, "search"@),
            ("Enter"@, "open"@),
            ("i"@, "quick install"@),
            ("[/]"@, "pages"@),
            ("f"@, "compat"@),
            ("c"@, "side"@),
            ("o"@, "sort"@),
        ],
        Nav::Mods => seq![
            ("t"@, "pane"@),
            ("Space"@, "toggle"@),
            ("s"@, "search"@),
            ("u"@, "updates"@),
            ("d"@, "delete"@),
        ],
        Nav::Modpacks => seq![
            ("/"@, "search"@),
            ("Enter"@, "open"@),
            ("i"@, "install"@),
            ("m"@, "import"@),
        ],
        Nav::Versions => seq![("c"@, "change version"@), ("r"@, "reinstall"@)],
        Nav::Jvm => seq![
            ("Enter"@, "edit"@),
            ("j/k"@, "move"@),
            ("s"@, "save"@),
            ("J"@, "detect Java"@),
        ],
        Nav::Logs => seq![
            ("j/k"@, "scroll"@),
            ("f"@, "follow"@),
            ("p"@, "pause"@),
            ("c"@, "clear"@),
            ("/"@, "filter"@),
            ("a"@, "crash"@),
        ],
        Nav::Accounts => seq![
            ("n"@, "offline"@),
            ("m"@, "Microsoft"@),
            ("Enter"@, "active"@),
            ("c"@, "skin"@),
            ("d"@, "remove"@),
        ],
        Nav::Launcher => seq![
            ("Enter"@, "edit"@),
            ("j/k"@, "move"@),
            ("s"@, "save"@),
            ("J"@, "detect Java"@),
        ],
        Nav::ResourcePacks => seq![("Space"@, "toggle"@), ("d"@, "delete"@), ("Enter"@, "open folder"@)],
        Nav::Shaders => seq![("Space"@, "toggle"@), ("d"@, "delete"@), ("Enter"@, "open folder"@)],
        Nav::Worlds => seq![("Enter"@, "open folder"@), ("d"@, "delete"@)],
        Nav::Screenshots => seq![
            ("Enter"@, "view"@),
            ("d"@, "delete"@),
            ("\u{2190}/\u{2192}"@, "prev/next"@),
        ],
    }
}

/// The views of a list of key hints.
pub open spec fn hints_view(h: Seq<(&str, &str)>) -> Seq<(Seq<char>, Seq<char>)> {
    h.map_values(|p: (&str, &str)| (p.0@, p.1@))
}

/// Key hints shown in the footer for a page.
pub fn footer_hints(nav: Nav) -> (r: &'static [(&'static str, &'static str)])
    ensures
        hints_view(r@) == hints_spec(nav),
{
    let r: &'static [(&'static str, &'static str)] = match nav {
        Nav::Instances => &[
            ("Enter", "launch"),
            ("n", "new"),
            ("e", "edit"),
            ("i", "install"),
            ("p", "import"),
            ("v", "versions"),
            ("r", "rename"),
            ("d", "delete"),
        ],
        Nav::Browse => &[
            ("1-4", "type"),
            ("s", "search"),
            ("Enter", "open"),
            ("i", "quick install"),
            ("[/]", "pages"),
            ("f", "compat"),
            ("c", "side"),
            ("o", "sort"),
        ],
        Nav::Mods => &[
            ("t", "pane"),
            ("Space", "toggle"),
            ("s", "search"),
            ("u", "updates"),
            ("d", "delete"),
        ],
        Nav::Modpacks => &[("/", "search"), ("Enter", "open"), ("i", "install"), ("m", "import")],
        Nav::Versions => &[("c", "change version"), ("r", "reinstall")],
        Nav::Jvm => &[("Enter", "edit"), ("j/k", "move"), ("s", "save"), ("J", "detect Java")],
        Nav::Logs => &[
            ("j/k", "scroll"),
            ("f", "follow"),
            ("p", "pause"),
            ("c", "clear"),
            ("/", "filter"),
            ("a", "crash"),
        ],
        Nav::Accounts => &[
            ("n", "offline"),
            ("m", "Microsoft"),
            ("Enter", "active"),
            ("c", "skin"),
            ("d", "remove"),
        ],
        Nav::Launcher => &[("Enter", "edit"), ("j/k", "move"), ("s", "save"), ("J", "detect Java")],
        Nav::ResourcePacks => &[("Space", "toggle"), ("d", "delete"), ("Enter", "open folder")],
        Nav::Shaders => &[("Space", "toggle"), ("d", "delete"), ("Enter", "open folder")],
        Nav::Worlds => &[("Enter", "open folder"), ("d", "delete")],
        Nav::Screenshots => &[("Enter", "view"), ("d", "delete"), ("\u{2190}/\u{2192}", "prev/next")],
    };
    assert(hints_view(r@) =~= hints_spec(nav));
    r
}

} // verus!
