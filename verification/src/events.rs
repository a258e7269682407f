//! What the UI makes of a message from a background task: the step from the
//! current UI state and an event to the next state and the work left to do.
//!
//! An event is seen here by what the decision reads of it (the length of a
//! list that arrived, whether a path came back); its payload itself is
//! stored by the caller.

use vstd::prelude::*;
use crate::nav::Nav;
use crate::ui::{reconcile_selection, reconcile_spec};

verus! {

/// The part of the UI state that background events decide on.
#[derive(Debug, Clone, Copy, PartialEq, Eq, Structural)]
pub struct UiState {
    /// The open page.
    pub nav: Nav,
    /// Whether the progress bar shows.
    pub progress: bool,
    /// Selected account.
    pub account_selected: Option<usize>,
    /// Selected Modrinth search result.
    pub search_selected: Option<usize>,
    /// Selected result of the mod search.
    pub mod_search_selected: Option<usize>,
    /// Whether the mods page shows its search results.
    pub mods_focus_search: bool,
    /// Selected version of the opened project.
    pub project_selected: Option<usize>,
    /// Selected installed mod.
    pub mods_selected: Option<usize>,
    /// Whether the mods folder is being scanned.
    pub mods_scanning: bool,
    /// Selected result in the Modrinth browser.
    pub browse_selected: usize,
    /// Whether the browser waits for results.
    pub browse_loading: bool,
    /// Selected version of the browsed project.
    pub browse_version_selected: usize,
    /// Whether the browsed project's body has the focus.
    pub browse_body_focus: bool,
    /// Scroll offset of the browsed project's body.
    pub browse_body_scroll: usize,
    /// Whether the new-build wizard waits for a Modrinth answer.
    pub wizard_pending: bool,
    /// Selected resource pack.
    pub resource_packs_selected: Option<usize>,
    /// Selected shader pack.
    pub shaders_selected: Option<usize>,
    /// Selected world.
    pub worlds_selected: Option<usize>,
    /// Selected screenshot.
    pub screenshots_selected: Option<usize>,
}

/// A message from a background task, by what the decision reads of it.
#[derive(Debug, Clone, Copy, PartialEq, Eq, Structural)]
pub enum EventView {
    Status,
    Progress,
    ProgressDone,
    LogLines,
    /// The game started.
    Started,
    InstancesChanged,
    /// The file dialog answered; `true` when it gave a path.
    ImportPathPicked(bool),
    AccountsChanged,
    /// The account store was read again; it holds this many accounts.
    AccountsReloaded(usize),
    Message,
    /// This many Modrinth search results arrived.
    SearchResults(usize),
    /// This many mod search results arrived.
    ModSearchResults(usize),
    /// This many browser results arrived.
    BrowseResults(usize),
    /// A project opened in the browser.
    BrowseProject,
    /// An image for the browser arrived; `true` when it has data.
    BrowseImage(bool),
    VersionList,
    WizardSearch,
    WizardProject,
    /// A project with this many versions opened.
    Project(usize),
    ModsChanged,
    /// The mods folder holds this many mods.
    InstalledMods(usize),
    Crash,
    DeviceCode,
    Authenticated,
    Java,
    Toast,
    Error,
    /// This many resource packs were found.
    ResourcePacks(usize),
    /// This many shader packs were found.
    ShaderPacks(usize),
    /// This many worlds were found.
    Worlds(usize),
    /// This many screenshots were found.
    Screenshots(usize),
    /// A local image was read; `true` when it decoded.
    LocalImage(bool),
}

/// The stage a waiting wizard moves to.
#[derive(Debug, Clone, Copy, PartialEq, Eq, Structural)]
pub enum WizardStage {
    /// The Modrinth search results.
    Search,
    /// One Modrinth project and its versions.
    Project,
}

/// The work an event leaves to the caller besides storing its payload.
#[derive(Debug, Clone, Copy, PartialEq, Eq, Structural)]
pub enum EngineAction {
    /// Only store the payload.
    Store,
    /// Store the process and announce the launch in a notice.
    AnnounceLaunch,
    /// Read the builds and the selected build's mods again.
    ReloadInstancesAndMods,
    /// Import the modpack at the returned path.
    ImportModpack,
    /// Ask for the modpack path by hand.
    OpenImportPrompt,
    /// Read the account store again.
    ReloadAccounts,
    /// Show the lines in a message dialog.
    ShowMessage,
    /// Drop the cached image renderings and fetch the project's images.
    FetchBrowseImages,
    /// Decode the image and keep it.
    DecodeImage,
    /// Open the version picker.
    ShowVersionPicker,
    /// Reopen the waiting wizard at this stage, first row selected.
    OpenWizard(WizardStage),
    /// Read the selected build's mods again.
    ReloadMods,
    /// Show the sign-in code.
    ShowDeviceCode,
    /// Close the dialog, save the account and read the store again.
    SaveAccount,
    /// Show a notice; `true` for an error.
    Notice(bool),
}

/// The first row of a freshly filled list, if it has any.
pub open spec fn first_row(len: nat) -> Option<usize> {
    if len == 0 {
        None
    } else {
        Some(0)
    }
}

/// A selection kept as it is, or the first row when there was none.
pub open spec fn keep_or_first(selected: Option<usize>, len: nat) -> Option<usize> {
    if selected is None && len > 0 {
        Some(0)
    } else {
        selected
    }
}

/// The installed mods' selection: none for an empty folder, else kept, or
/// the first row when there was none.
pub open spec fn mods_selection(selected: Option<usize>, len: nat) -> Option<usize> {
    if len == 0 {
        None
    } else {
        keep_or_first(selected, len)
    }
}

/// The browser's selection: kept while it is on a result, else the last
/// result (or zero for no results).
pub open spec fn browse_selection(selected: usize, len: nat) -> usize {
    if selected >= len {
        if len == 0 {
            0
        } else {
            (len - 1) as usize
        }
    } else {
        selected
    }
}

/// The next state and the work left after event `e` in state `s`.
pub open spec fn engine_step_spec(s: UiState, e: EventView) -> (UiState, EngineAction) {
    match e {
        EventView::Status | EventView::LogLines | EventView::Crash | EventView::Java => (
            s,
            EngineAction::Store,
        ),
        EventView::Progress => (UiState { progress: true, ..s }, EngineAction::Store),
        EventView::ProgressDone => (UiState { progress: false, ..s }, EngineAction::Store),
        EventView::Started => (
            UiState { progress: false, nav: Nav::Logs, ..s },
            EngineAction::AnnounceLaunch,
        ),
        EventView::InstancesChanged => (s, EngineAction::ReloadInstancesAndMods),
        EventView::ImportPathPicked(given) => (
            s,
            if given {
                EngineAction::ImportModpack
            } else {
                EngineAction::OpenImportPrompt
            },
        ),
        EventView::AccountsChanged => (s, EngineAction::ReloadAccounts),
        EventView::AccountsReloaded(n) => (
            UiState { account_selected: reconcile_spec(s.account_selected, n as nat), ..s },
            EngineAction::Store,
        ),
        EventView::Message => (s, EngineAction::ShowMessage),
        EventView::SearchResults(n) => (
            UiState { search_selected: first_row(n as nat), ..s },
            EngineAction::Store,
        ),
        EventView::ModSearchResults(n) => (
            UiState { mod_search_selected: first_row(n as nat), mods_focus_search: true, ..s },
            EngineAction::Store,
        ),
        EventView::BrowseResults(n) => (
            UiState {
                browse_selected: browse_selection(s.browse_selected, n as nat),
                browse_loading: false,
                ..s
            },
            EngineAction::Store,
        ),
        EventView::BrowseProject => (
            UiState {
                browse_version_selected: 0,
                browse_body_focus: true,
                browse_body_scroll: 0,
                ..s
            },
            EngineAction::FetchBrowseImages,
        ),
        EventView::BrowseImage(has_data) => (
            s,
            if has_data {
                EngineAction::DecodeImage
            } else {
                EngineAction::Store
            },
        ),
        EventView::VersionList => (s, EngineAction::ShowVersionPicker),
        EventView::WizardSearch => if s.wizard_pending {
            (UiState { wizard_pending: false, ..s }, EngineAction::OpenWizard(WizardStage::Search))
        } else {
            (s, EngineAction::Store)
        },
        EventView::WizardProject => if s.wizard_pending {
            (UiState { wizard_pending: false, ..s }, EngineAction::OpenWizard(WizardStage::Project))
        } else {
            (s, EngineAction::Store)
        },
        EventView::Project(n) => (
            UiState { project_selected: first_row(n as nat), ..s },
            EngineAction::Store,
        ),
        EventView::ModsChanged => (s, EngineAction::ReloadMods),
        EventView::InstalledMods(n) => (
            UiState {
                mods_selected: mods_selection(s.mods_selected, n as nat),
                mods_scanning: false,
                ..s
            },
            EngineAction::Store,
        ),
        EventView::DeviceCode => (s, EngineAction::ShowDeviceCode),
        EventView::Authenticated => (s, EngineAction::SaveAccount),
        EventView::Toast => (s, EngineAction::Notice(false)),
        EventView::Error => (s, EngineAction::Notice(true)),
        EventView::ResourcePacks(n) => (
            UiState {
                resource_packs_selected: keep_or_first(s.resource_packs_selected, n as nat),
                ..s
            },
            EngineAction::Store,
        ),
        EventView::ShaderPacks(n) => (
            UiState { shaders_selected: keep_or_first(s.shaders_selected, n as nat), ..s },
            EngineAction::Store,
        ),
        EventView::Worlds(n) => (
            UiState { worlds_selected: keep_or_first(s.worlds_selected, n as nat), ..s },
            EngineAction::Store,
        ),
        EventView::Screenshots(n) => (
            UiState { screenshots_selected: keep_or_first(s.screenshots_selected, n as nat), ..s },
            EngineAction::Store,
        ),
        EventView::LocalImage(_) => (s, EngineAction::Store),
    }
}

fn first_row_of(len: usize) -> (r: Option<usize>)
    ensures
        r == first_row(len as nat),
{
    if len == 0 {
        None
    } else {
        Some(0)
    }
}

fn keep_or_first_of(selected: Option<usize>, len: usize) -> (r: Option<usize>)
    ensures
        r == keep_or_first(selected, len as nat),
{
    if selected.is_none() && len > 0 {
        Some(0)
    } else {
        selected
    }
}

/// Decide what event `e` does to state `s` and what work it leaves.
pub fn engine_step(s: UiState, e: EventView) -> (r: (UiState, EngineAction))
    ensures
        r == engine_step_spec(s, e),
{
    match e {
        EventView::Status | EventView::LogLines | EventView::Crash | EventView::Java => (
            s,
            EngineAction::Store,
        ),
        EventView::Progress => (UiState { progress: true, ..s }, EngineAction::Store),
        EventView::ProgressDone => (UiState { progress: false, ..s }, EngineAction::Store),
        EventView::Started => (
            UiState { progress: false, nav: Nav::Logs, ..s },
            EngineAction::AnnounceLaunch,
        ),
        EventView::InstancesChanged => (s, EngineAction::ReloadInstancesAndMods),
        EventView::ImportPathPicked(given) => (
            s,
            if given {
                EngineAction::ImportModpack
            } else {
                EngineAction::OpenImportPrompt
            },
        ),
        EventView::AccountsChanged => (s, EngineAction::ReloadAccounts),
        EventView::AccountsReloaded(n) => (
            UiState { account_selected: reconcile_selection(s.account_selected, n), ..s },
            EngineAction::Store,
        ),
        EventView::Message => (s, EngineAction::ShowMessage),
        EventView::SearchResults(n) => (
            UiState { search_selected: first_row_of(n), ..s },
            EngineAction::Store,
        ),
        EventView::ModSearchResults(n) => (
            UiState { mod_search_selected: first_row_of(n), mods_focus_search: true, ..s },
            EngineAction::Store,
        ),
        EventView::BrowseResults(n) => {
            let selected = if s.browse_selected >= n {
                n.saturating_sub(1)
            } else {
                s.browse_selected
            };
            (UiState { browse_selected: selected, browse_loading: false, ..s }, EngineAction::Store)
        },
        EventView::BrowseProject => (
            UiState {
                browse_version_selected: 0,
                browse_body_focus: true,
                browse_body_scroll: 0,
                ..s
            },
            EngineAction::FetchBrowseImages,
        ),
        EventView::BrowseImage(has_data) => (
            s,
            if has_data {
                EngineAction::DecodeImage
            } else {
                EngineAction::Store
            },
        ),
        EventView::VersionList => (s, EngineAction::ShowVersionPicker),
        EventView::WizardSearch => if s.wizard_pending {
            (UiState { wizard_pending: false, ..s }, EngineAction::OpenWizard(WizardStage::Search))
        } else {
            (s, EngineAction::Store)
        },
        EventView::WizardProject => if s.wizard_pending {
            (UiState { wizard_pending: false, ..s }, EngineAction::OpenWizard(WizardStage::Project))
        } else {
            (s, EngineAction::Store)
        },
        EventView::Project(n) => (
            UiState { project_selected: first_row_of(n), ..s },
            EngineAction::Store,
        ),
        EventView::ModsChanged => (s, EngineAction::ReloadMods),
        EventView::InstalledMods(n) => {
            let selected = if n == 0 {
                None
            } else {
                keep_or_first_of(s.mods_selected, n)
            };
            (UiState { mods_selected: selected, mods_scanning: false, ..s }, EngineAction::Store)
        },
        EventView::DeviceCode => (s, EngineAction::ShowDeviceCode),
        EventView::Authenticated => (s, EngineAction::SaveAccount),
        EventView::Toast => (s, EngineAction::Notice(false)),
        EventView::Error => (s, EngineAction::Notice(true)),
        EventView::ResourcePacks(n) => (
            UiState {
                resource_packs_selected: keep_or_first_of(s.resource_packs_selected, n),
                ..s
            },
            EngineAction::Store,
        ),
        EventView::ShaderPacks(n) => (
            UiState { shaders_selected: keep_or_first_of(s.shaders_selected, n), ..s },
            EngineAction::Store,
        ),
        EventView::Worlds(n) => (
            UiState { worlds_selected: keep_or_first_of(s.worlds_selected, n), ..s },
            EngineAction::Store,
        ),
        EventView::Screenshots(n) => (
            UiState { screenshots_selected: keep_or_first_of(s.screenshots_selected, n), ..s },
            EngineAction::Store,
        ),
        EventView::LocalImage(_) => (s, EngineAction::Store),
    }
}

/// A list that arrives fresh (search results, mod search results, a
/// project's versions, the reloaded accounts, browser results) never keeps
/// a selection past its end, and a non-empty one always has a selection.
pub proof fn law_fresh_lists_select_a_row(s: UiState, n: usize)
    ensures
        ({
            let t = engine_step_spec(s, EventView::SearchResults(n)).0;
            &&& t.search_selected matches Some(i) ==> i < n
            &&& n > 0 <==> t.search_selected is Some
        }),
        ({
            let t = engine_step_spec(s, EventView::ModSearchResults(n)).0;
            &&& t.mod_search_selected matches Some(i) ==> i < n
            &&& n > 0 <==> t.mod_search_selected is Some
        }),
        ({
            let t = engine_step_spec(s, EventView::Project(n)).0;
            &&& t.project_selected matches Some(i) ==> i < n
            &&& n > 0 <==> t.project_selected is Some
        }),
        ({
            let t = engine_step_spec(s, EventView::AccountsReloaded(n)).0;
            &&& t.account_selected matches Some(i) ==> i < n
            &&& n > 0 <==> t.account_selected is Some
        }),
        n > 0 ==> engine_step_spec(s, EventView::BrowseResults(n)).0.browse_selected < n,
{
}

/// An event changes only the part of the state it is about: a notice, a
/// status line or a log batch leaves the state as it was, and a list event
/// touches only that list's selection (and, for the mods, the scan flag).
pub proof fn law_events_touch_only_their_part(s: UiState, n: usize)
    ensures
        engine_step_spec(s, EventView::Toast).0 == s,
        engine_step_spec(s, EventView::Error).0 == s,
        engine_step_spec(s, EventView::Status).0 == s,
        engine_step_spec(s, EventView::LogLines).0 == s,
        engine_step_spec(s, EventView::Worlds(n)).0 == (UiState {
            worlds_selected: engine_step_spec(s, EventView::Worlds(n)).0.worlds_selected,
            ..s
        }),
        engine_step_spec(s, EventView::InstalledMods(n)).0 == (UiState {
            mods_selected: engine_step_spec(s, EventView::InstalledMods(n)).0.mods_selected,
            mods_scanning: false,
            ..s
        }),
{
}

/// The progress bar shows from a progress report until the task is done:
/// a report shows it, the end of the task or the start of the game hides
/// it, and no other event touches it. Showing or hiding it changes nothing
/// else.
pub proof fn law_progress_bar(s: UiState, e: EventView)
    ensures
        engine_step_spec(s, EventView::Progress).0 == (UiState { progress: true, ..s }),
        engine_step_spec(s, EventView::ProgressDone).0 == (UiState { progress: false, ..s }),
        !engine_step_spec(s, EventView::Started).0.progress,
        !engine_step_spec(engine_step_spec(s, EventView::Progress).0, EventView::ProgressDone).0.progress,
        e != EventView::Progress && e != EventView::ProgressDone && e != EventView::Started
            ==> engine_step_spec(s, e).0.progress == s.progress,
{
}

/// Events that only hand over data or report a change leave the UI state
/// as it was.
pub proof fn law_data_events_keep_the_state(s: UiState, e: EventView)
    requires
        e is Status || e is LogLines || e is InstancesChanged || e is ImportPathPicked
            || e is AccountsChanged || e is Message || e is BrowseImage || e is VersionList
            || e is ModsChanged || e is Crash || e is DeviceCode || e is Authenticated || e is Java
            || e is Toast || e is Error || e is LocalImage,
    ensures
        engine_step_spec(s, e).0 == s,
{
}

/// What each list that arrives does to its selection, and nothing else:
/// fresh search results, mod search results and project versions select
/// their first row (none when empty); the installed mods drop the
/// selection when empty and otherwise keep it or start at the first row;
/// folder lists keep a selection or start at the first row; browser
/// results keep the selection while it is on a result, else move it to the
/// last one.
pub proof fn law_list_events(s: UiState, n: usize)
    ensures
        engine_step_spec(s, EventView::SearchResults(n)).0 == (UiState {
            search_selected: if n == 0 { None } else { Some(0) },
            ..s
        }),
        engine_step_spec(s, EventView::ModSearchResults(n)).0 == (UiState {
            mod_search_selected: if n == 0 { None } else { Some(0) },
            mods_focus_search: true,
            ..s
        }),
        engine_step_spec(s, EventView::Project(n)).0 == (UiState {
            project_selected: if n == 0 { None } else { Some(0) },
            ..s
        }),
        engine_step_spec(s, EventView::InstalledMods(n)).0 == (UiState {
            mods_selected: if n == 0 {
                None
            } else if s.mods_selected is None {
                Some(0)
            } else {
                s.mods_selected
            },
            mods_scanning: false,
            ..s
        }),
        engine_step_spec(s, EventView::Worlds(n)).0 == (UiState {
            worlds_selected: if n > 0 && s.worlds_selected is None { Some(0) } else { s.worlds_selected },
            ..s
        }),
        engine_step_spec(s, EventView::Screenshots(n)).0 == (UiState {
            screenshots_selected: if n > 0 && s.screenshots_selected is None {
                Some(0)
            } else {
                s.screenshots_selected
            },
            ..s
        }),
        engine_step_spec(s, EventView::ResourcePacks(n)).0 == (UiState {
            resource_packs_selected: if n > 0 && s.resource_packs_selected is None {
                Some(0)
            } else {
                s.resource_packs_selected
            },
            ..s
        }),
        engine_step_spec(s, EventView::ShaderPacks(n)).0 == (UiState {
            shaders_selected: if n > 0 && s.shaders_selected is None { Some(0) } else { s.shaders_selected },
            ..s
        }),
        engine_step_spec(s, EventView::BrowseResults(n)).0 == (UiState {
            browse_selected: if s.browse_selected < n {
                s.browse_selected
            } else if n == 0 {
                0
            } else {
                (n - 1) as usize
            },
            browse_loading: false,
            ..s
        }),
        engine_step_spec(s, EventView::AccountsReloaded(n)).0 == (UiState {
            account_selected: if n == 0 {
                None
            } else if s.account_selected is None {
                Some(0)
            } else if s.account_selected->0 >= n {
                Some((n - 1) as usize)
            } else {
                s.account_selected
            },
            ..s
        }),
{
}

/// The work each event leaves: a launch is announced and opens the logs,
/// a changed build list reloads builds and mods, a changed mods folder the
/// mods, changed accounts the accounts; a returned path imports the
/// modpack and no path asks for one by hand; a message, a version list or
/// a sign-in code is shown; a sign-in saves the account; an opened project
/// fetches its images; an image with data is decoded; notices are raised as
/// such (errors as errors); a waiting wizard reopens at the stage that
/// answered and is no longer waiting; everything else is only stored.
pub proof fn law_event_work(s: UiState)
    ensures
        engine_step_spec(s, EventView::Started) == (
            UiState { nav: Nav::Logs, progress: false, ..s },
            EngineAction::AnnounceLaunch,
        ),
        engine_step_spec(s, EventView::InstancesChanged).1 == EngineAction::ReloadInstancesAndMods,
        engine_step_spec(s, EventView::ModsChanged).1 == EngineAction::ReloadMods,
        engine_step_spec(s, EventView::AccountsChanged).1 == EngineAction::ReloadAccounts,
        engine_step_spec(s, EventView::ImportPathPicked(true)).1 == EngineAction::ImportModpack,
        engine_step_spec(s, EventView::ImportPathPicked(false)).1 == EngineAction::OpenImportPrompt,
        engine_step_spec(s, EventView::Message).1 == EngineAction::ShowMessage,
        engine_step_spec(s, EventView::VersionList).1 == EngineAction::ShowVersionPicker,
        engine_step_spec(s, EventView::DeviceCode).1 == EngineAction::ShowDeviceCode,
        engine_step_spec(s, EventView::Authenticated).1 == EngineAction::SaveAccount,
        engine_step_spec(s, EventView::BrowseProject) == (
            UiState { browse_version_selected: 0, browse_body_focus: true, browse_body_scroll: 0, ..s },
            EngineAction::FetchBrowseImages,
        ),
        engine_step_spec(s, EventView::BrowseImage(true)).1 == EngineAction::DecodeImage,
        engine_step_spec(s, EventView::BrowseImage(false)).1 == EngineAction::Store,
        engine_step_spec(s, EventView::Toast).1 == EngineAction::Notice(false),
        engine_step_spec(s, EventView::Error).1 == EngineAction::Notice(true),
        s.wizard_pending ==> engine_step_spec(s, EventView::WizardSearch) == (
            UiState { wizard_pending: false, ..s },
            EngineAction::OpenWizard(WizardStage::Search),
        ),
        s.wizard_pending ==> engine_step_spec(s, EventView::WizardProject) == (
            UiState { wizard_pending: false, ..s },
            EngineAction::OpenWizard(WizardStage::Project),
        ),
        !s.wizard_pending ==> engine_step_spec(s, EventView::WizardSearch) == (s, EngineAction::Store),
        !s.wizard_pending ==> engine_step_spec(s, EventView::WizardProject) == (s, EngineAction::Store),
        engine_step_spec(s, EventView::Status).1 == EngineAction::Store,
        engine_step_spec(s, EventView::LogLines).1 == EngineAction::Store,
        engine_step_spec(s, EventView::Crash).1 == EngineAction::Store,
        engine_step_spec(s, EventView::Java).1 == EngineAction::Store,
{
}

} // verus!
