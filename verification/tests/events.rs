use mc_tui::events::{engine_step, EngineAction, EventView, UiState, WizardStage};
use mc_tui::nav::Nav;

fn base() -> UiState {
    UiState {
        nav: Nav::Instances,
        progress: true,
        account_selected: Some(4),
        search_selected: Some(7),
        mod_search_selected: None,
        mods_focus_search: false,
        project_selected: Some(2),
        mods_selected: Some(3),
        mods_scanning: true,
        browse_selected: 9,
        browse_loading: true,
        browse_version_selected: 5,
        browse_body_focus: false,
        browse_body_scroll: 12,
        wizard_pending: true,
        resource_packs_selected: None,
        shaders_selected: Some(1),
        worlds_selected: Some(6),
        screenshots_selected: None,
    }
}

#[test]
fn launch_opens_the_logs_and_hides_progress() {
    let (s, a) = engine_step(base(), EventView::Started);
    assert_eq!(s, UiState { nav: Nav::Logs, progress: false, ..base() });
    assert_eq!(a, EngineAction::AnnounceLaunch);
}

#[test]
fn notices_and_status_leave_the_state_alone() {
    assert_eq!(engine_step(base(), EventView::Toast), (base(), EngineAction::Notice(false)));
    assert_eq!(engine_step(base(), EventView::Error), (base(), EngineAction::Notice(true)));
    assert_eq!(engine_step(base(), EventView::Status), (base(), EngineAction::Store));
}

#[test]
fn reloaded_accounts_clamp_the_selection() {
    let (s, _) = engine_step(base(), EventView::AccountsReloaded(2));
    assert_eq!(s.account_selected, Some(1));
    let (s, _) = engine_step(base(), EventView::AccountsReloaded(0));
    assert_eq!(s.account_selected, None);
    let (s, _) = engine_step(UiState { account_selected: None, ..base() }, EventView::AccountsReloaded(3));
    assert_eq!(s.account_selected, Some(0));
}

#[test]
fn fresh_results_select_their_first_row() {
    let (s, _) = engine_step(base(), EventView::SearchResults(3));
    assert_eq!(s.search_selected, Some(0));
    let (s, _) = engine_step(base(), EventView::SearchResults(0));
    assert_eq!(s.search_selected, None);
    let (s, _) = engine_step(base(), EventView::ModSearchResults(2));
    assert_eq!((s.mod_search_selected, s.mods_focus_search), (Some(0), true));
    let (s, _) = engine_step(base(), EventView::Project(0));
    assert_eq!(s.project_selected, None);
}

#[test]
fn browser_results_keep_the_selection_on_a_result() {
    let (s, _) = engine_step(base(), EventView::BrowseResults(4));
    assert_eq!((s.browse_selected, s.browse_loading), (3, false));
    let (s, _) = engine_step(base(), EventView::BrowseResults(0));
    assert_eq!(s.browse_selected, 0);
    let (s, _) = engine_step(base(), EventView::BrowseResults(20));
    assert_eq!(s.browse_selected, 9);
    let (s, a) = engine_step(base(), EventView::BrowseProject);
    assert_eq!(
        (s.browse_version_selected, s.browse_body_focus, s.browse_body_scroll),
        (0, true, 0)
    );
    assert_eq!(a, EngineAction::FetchBrowseImages);
}

#[test]
fn mods_and_folder_lists_keep_or_start_a_selection() {
    let (s, _) = engine_step(base(), EventView::InstalledMods(0));
    assert_eq!((s.mods_selected, s.mods_scanning), (None, false));
    let (s, _) = engine_step(base(), EventView::InstalledMods(1));
    assert_eq!(s.mods_selected, Some(3));
    let (s, _) = engine_step(base(), EventView::ResourcePacks(2));
    assert_eq!(s.resource_packs_selected, Some(0));
    let (s, _) = engine_step(base(), EventView::Worlds(2));
    assert_eq!(s.worlds_selected, Some(6));
    let (s, _) = engine_step(base(), EventView::Screenshots(0));
    assert_eq!(s.screenshots_selected, None);
}

#[test]
fn wizard_answers_reopen_only_a_waiting_wizard() {
    let (s, a) = engine_step(base(), EventView::WizardSearch);
    assert_eq!((s.wizard_pending, a), (false, EngineAction::OpenWizard(WizardStage::Search)));
    let (s, a) = engine_step(s, EventView::WizardProject);
    assert_eq!((s.wizard_pending, a), (false, EngineAction::Store));
}

#[test]
fn work_left_to_the_caller() {
    assert_eq!(engine_step(base(), EventView::ImportPathPicked(true)).1, EngineAction::ImportModpack);
    assert_eq!(engine_step(base(), EventView::ImportPathPicked(false)).1, EngineAction::OpenImportPrompt);
    assert_eq!(engine_step(base(), EventView::InstancesChanged).1, EngineAction::ReloadInstancesAndMods);
    assert_eq!(engine_step(base(), EventView::Authenticated).1, EngineAction::SaveAccount);
    assert_eq!(engine_step(base(), EventView::BrowseImage(false)).1, EngineAction::Store);
}
