use epher::explorer::{
    chosen_directory, directory_choices, explorer_step, ExplorerEvent, ExplorerState,
};
use epher::report::EntryKind;

#[test]
fn scan_leads_to_report() {
    assert_eq!(
        explorer_step(ExplorerState::Scanning, ExplorerEvent::ScanCompleted),
        ExplorerState::Reporting
    );
}

#[test]
fn report_without_directories_terminates() {
    assert_eq!(
        explorer_step(ExplorerState::Reporting, ExplorerEvent::ReportRendered { n_dirs: 0 }),
        ExplorerState::Terminated
    );
    assert_eq!(
        explorer_step(ExplorerState::Reporting, ExplorerEvent::ReportRendered { n_dirs: 2 }),
        ExplorerState::AwaitingChoice
    );
}

#[test]
fn stop_and_cancel_terminate_without_error() {
    assert_eq!(
        explorer_step(ExplorerState::AwaitingChoice, ExplorerEvent::Chose { selection: None }),
        ExplorerState::Terminated
    );
    assert_eq!(
        explorer_step(ExplorerState::AwaitingChoice, ExplorerEvent::Chose { selection: Some(0) }),
        ExplorerState::Terminated
    );
    assert_eq!(
        explorer_step(ExplorerState::AwaitingChoice, ExplorerEvent::Chose { selection: Some(1) }),
        ExplorerState::Scanning
    );
}

#[test]
fn out_of_turn_events_change_nothing() {
    assert_eq!(
        explorer_step(ExplorerState::Terminated, ExplorerEvent::ScanCompleted),
        ExplorerState::Terminated
    );
    assert_eq!(
        explorer_step(ExplorerState::Scanning, ExplorerEvent::Chose { selection: Some(1) }),
        ExplorerState::Scanning
    );
}

#[test]
fn choices_are_directories_largest_first() {
    // entries come in ascending size order; only directories are offered,
    // largest first
    let kinds = vec![EntryKind::Dir, EntryKind::File, EntryKind::Sym, EntryKind::Dir];
    assert_eq!(directory_choices(&kinds), vec![3, 0]);
    let none = vec![EntryKind::File, EntryKind::Unknown];
    assert_eq!(directory_choices(&none), Vec::<usize>::new());
}

#[test]
fn selection_maps_to_choice_index() {
    assert_eq!(chosen_directory(None, 3), None);
    assert_eq!(chosen_directory(Some(0), 3), None);
    assert_eq!(chosen_directory(Some(1), 3), Some(0));
    assert_eq!(chosen_directory(Some(3), 3), Some(2));
}

#[test]
fn drill_down_picks_the_chosen_directory() {
    // two directories reported, ascending: b then a; the prompt lists a then
    // b after the stop option; picking item 1 re-scans inside a
    let kinds = vec![EntryKind::Dir, EntryKind::Dir];
    let choices = directory_choices(&kinds);
    assert_eq!(choices, vec![1, 0]);
    let picked = chosen_directory(Some(1), choices.len()).unwrap();
    assert_eq!(choices[picked], 1);
    assert_eq!(
        explorer_step(ExplorerState::AwaitingChoice, ExplorerEvent::Chose { selection: Some(1) }),
        ExplorerState::Scanning
    );
}
